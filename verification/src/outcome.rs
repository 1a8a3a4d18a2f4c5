//! How a run ended, and the exit code that says so.

use vstd::prelude::*;

verus! {

/// How a run ended.
///
/// A table with one `?` in it still ends in 1: a result that saw only part of
/// the fleet is not called a success.
#[derive(Debug, Clone, Copy, PartialEq, Eq, Structural)]
pub enum Outcome {
    /// Every row is settled (no `?`).
    Complete,
    /// Some row shows `?`. The table was shown.
    Partial,
    /// A usage error, an unreadable directory, or an unreadable clock. No table.
    Usage,
}

impl Outcome {
    /// From whether every row is settled.
    pub fn of(complete: bool) -> (outcome: Self)
        ensures
            outcome == (if complete {
                Outcome::Complete
            } else {
                Outcome::Partial
            }),
    {
        if complete {
            Outcome::Complete
        } else {
            Outcome::Partial
        }
    }

    /// The exit code: 0, 1 or 2.
    pub fn code(self) -> (code: u8)
        ensures
            code == match self {
                Outcome::Complete => 0u8,
                Outcome::Partial => 1u8,
                Outcome::Usage => 2u8,
            },
    {
        match self {
            Outcome::Complete => 0,
            Outcome::Partial => 1,
            Outcome::Usage => 2,
        }
    }
}

} // verus!
