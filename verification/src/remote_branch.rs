//! One branch on GitHub.

use vstd::prelude::*;

use crate::day::Day;

verus! {

/// One branch on GitHub: its name and the day of its head commit.
///
/// A day, not a time: the table shows only "how many days ago".
#[derive(Debug, Clone, PartialEq, Eq)]
pub struct RemoteBranch {
    name: String,
    last_commit: Day,
}

impl View for RemoteBranch {
    /// `(name, day of the head commit)`.
    type V = (Seq<char>, nat);

    closed spec fn view(&self) -> (Seq<char>, nat) {
        (self.name@, self.last_commit@)
    }
}

impl RemoteBranch {
    /// Makes one from a name and the day of its head commit.
    pub fn new(name: String, last_commit: Day) -> (branch: Self)
        ensures
            branch@ == (name@, last_commit@),
    {
        RemoteBranch { name, last_commit }
    }

    /// The branch name (without `refs/heads/`).
    pub fn name(&self) -> (name: &str)
        ensures
            name@ == self@.0,
    {
        self.name.as_str()
    }

    /// The day of the head commit.
    pub fn last_commit(&self) -> (day: Day)
        ensures
            day@ == self@.1,
    {
        self.last_commit
    }
}

} // verus!
