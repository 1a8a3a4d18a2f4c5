//! What one run looked at (the summary's content).

use vstd::prelude::*;

use crate::outcome::Outcome;

verus! {

/// How many repositories one run looked at, and how it ended.
///
/// The counts go to stderr: the table alone goes to stdout, so a reader of a
/// pipe cannot tell "no CI fails" from "nothing was looked at" without them.
#[derive(Debug, Clone, Copy, PartialEq, Eq, Structural)]
pub struct Tally {
    repositories: usize,
    on_github: usize,
    outcome: Outcome,
}

impl View for Tally {
    /// `(repositories, on_github, outcome)`.
    type V = (usize, usize, Outcome);

    closed spec fn view(&self) -> (usize, usize, Outcome) {
        (self.repositories, self.on_github, self.outcome)
    }
}

impl Tally {
    /// From the repositories shown, those GitHub was asked about, and the outcome.
    pub fn new(repositories: usize, on_github: usize, outcome: Outcome) -> (tally: Self)
        ensures
            tally@ == (repositories, on_github, outcome),
    {
        Tally { repositories, on_github, outcome }
    }

    /// The repositories shown in the table.
    pub fn repositories(&self) -> (count: usize)
        ensures
            count == self@.0,
    {
        self.repositories
    }

    /// The repositories GitHub was actually asked about: 0 with `--no-github`,
    /// whatever the origins are, since nothing was asked.
    pub fn on_github(&self) -> (count: usize)
        ensures
            count == self@.1,
    {
        self.on_github
    }

    /// Whether every row is settled. It becomes the exit code.
    pub fn outcome(&self) -> (outcome: Outcome)
        ensures
            outcome == self@.2,
    {
        self.outcome
    }
}

} // verus!
