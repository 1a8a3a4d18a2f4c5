//! Where to survey, when a branch is stale, and whether GitHub is asked.

use vstd::prelude::*;

use crate::github_access::GithubAccess;

verus! {

/// All that decides one run. What was read from the environment stops here.
///
/// "Today" is not in it: reading the clock is the caller's work, and the day
/// reaches the table as a [`crate::freshness::Freshness`].
#[derive(Debug, Clone, PartialEq, Eq)]
pub struct Options {
    directory: String,
    stale_days: u32,
    github: GithubAccess,
}

/// The meaning of [`Options`].
pub struct OptionsView {
    pub directory: Seq<char>,
    pub stale_days: u32,
    pub github: GithubAccess,
}

impl View for Options {
    type V = OptionsView;

    closed spec fn view(&self) -> OptionsView {
        OptionsView { directory: self.directory@, stale_days: self.stale_days, github: self.github }
    }
}

impl Options {
    /// Makes the options from the directory, the stale limit and the GitHub access.
    pub fn new(directory: String, stale_days: u32, github: GithubAccess) -> (options: Self)
        ensures
            options@ == (OptionsView { directory: directory@, stale_days, github }),
    {
        Options { directory, stale_days, github }
    }

    /// The directory to survey. Only what lies directly in it is looked at.
    pub fn directory(&self) -> (directory: &str)
        ensures
            directory@ == self@.directory,
    {
        self.directory.as_str()
    }

    /// After how many days a branch is stale (`--stale-days`; 30 by default).
    pub fn stale_days(&self) -> (days: u32)
        ensures
            days == self@.stale_days,
    {
        self.stale_days
    }

    /// Whether GitHub is asked.
    pub fn github(&self) -> (access: GithubAccess)
        ensures
            access == self@.github,
    {
        self.github
    }
}

} // verus!
