//! How far the branch is from its upstream.

use vstd::prelude::*;

verus! {

/// The difference to the upstream tracking branch: `A` and `B` of `# branch.ab +A -B`.
///
/// The two numbers are kept together so that one cannot be updated without the
/// other. Without a `# branch.ab` line (no upstream) both are 0; that there is
/// no upstream is kept apart, by the local state's `upstream`.
#[derive(Debug, Clone, Copy, PartialEq, Eq, Structural)]
pub struct Divergence {
    ahead: u32,
    behind: u32,
}

impl View for Divergence {
    /// `(ahead, behind)`.
    type V = (u32, u32);

    closed spec fn view(&self) -> (u32, u32) {
        (self.ahead, self.behind)
    }
}

impl Divergence {
    /// Makes one from the commits ahead and the commits behind.
    pub fn new(ahead: u32, behind: u32) -> (divergence: Self)
        ensures
            divergence@ == (ahead, behind),
    {
        Divergence { ahead, behind }
    }

    /// Commits ahead of the upstream.
    pub fn ahead(self) -> (ahead: u32)
        ensures
            ahead == self@.0,
    {
        self.ahead
    }

    /// Commits behind the upstream.
    pub fn behind(self) -> (behind: u32)
        ensures
            behind == self@.1,
    {
        self.behind
    }
}

} // verus!
