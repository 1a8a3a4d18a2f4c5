//! The CI state of the default branch's head commit.

use vstd::prelude::*;

use crate::text::{chars_of, same_chars};

verus! {

/// The overall result of the checks on the default branch's head commit
/// (GraphQL's `statusCheckRollup.state`).
///
/// `Absent` (no checks at all) is never mixed with `Failure`: a repository
/// without CI and one whose CI fails are different things (`-` and `FAIL`).
#[derive(Debug, Clone, Copy, PartialEq, Eq, Structural)]
pub enum CiState {
    /// All passed (`SUCCESS`).
    Success,
    /// Failed (`FAILURE` / `ERROR`).
    Failure,
    /// Still running (`PENDING` / `EXPECTED`).
    Pending,
    /// No checks (`statusCheckRollup` is `null`, or there is no default branch).
    Absent,
}

/// The state that GitHub's text names. Any other text is not known: it is not
/// rounded to `Absent`.
pub open spec fn ci_state_of(text: Seq<char>) -> Option<CiState> {
    if text == "SUCCESS"@ {
        Some(CiState::Success)
    } else if text == "FAILURE"@ || text == "ERROR"@ {
        Some(CiState::Failure)
    } else if text == "PENDING"@ || text == "EXPECTED"@ {
        Some(CiState::Pending)
    } else {
        None
    }
}

impl CiState {
    /// Reads GraphQL's `statusCheckRollup.state`.
    ///
    /// An unknown text is not rounded to `Absent`: the day GitHub adds a state,
    /// repositories "without CI" would silently multiply. What cannot be read
    /// is reported as such.
    pub fn parse(text: &str) -> (state: Option<Self>)
        ensures
            state == ci_state_of(text@),
    {
        let chars = chars_of(text);
        if same_chars(&chars, &chars_of("SUCCESS")) {
            Some(CiState::Success)
        } else if same_chars(&chars, &chars_of("FAILURE")) || same_chars(&chars, &chars_of("ERROR")) {
            Some(CiState::Failure)
        } else if same_chars(&chars, &chars_of("PENDING")) || same_chars(&chars, &chars_of("EXPECTED")) {
            Some(CiState::Pending)
        } else {
            None
        }
    }
}

} // verus!
