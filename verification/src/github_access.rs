//! Whether GitHub is asked.

use vstd::prelude::*;

verus! {

/// Whether GitHub is asked (`--no-github`).
///
/// Not a `bool`: with a flag spelled in the negative, `true` could be read
/// either way. A closed choice is an enum.
#[derive(Debug, Clone, Copy, PartialEq, Eq, Structural)]
pub enum GithubAccess {
    /// Run `gh api graphql` (the default).
    Query,
    /// Do not. The three GitHub columns are `n/a`.
    Skip,
}

} // verus!
