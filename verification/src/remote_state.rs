//! A repository as GitHub sees it.

use vstd::prelude::*;

use crate::branch_list::{BranchList, BranchListView, stale_count_of};
use crate::ci_state::CiState;
use crate::freshness::Freshness;
use crate::stale_count::StaleCount;

verus! {

/// One repository as GitHub sees it.
///
/// The fields are private; values come from [`crate::graphql::parse_response`].
/// The GraphQL response is not kept, only what was read from it.
#[derive(Debug, Clone, PartialEq, Eq)]
pub struct RemoteState {
    default_branch: Option<String>,
    ci: CiState,
    open_pull_requests: u32,
    branches: BranchList,
}

/// The meaning of a [`RemoteState`].
pub struct RemoteStateView {
    pub default_branch: Option<Seq<char>>,
    pub ci: CiState,
    pub open_pull_requests: u32,
    pub branches: BranchListView,
}

impl View for RemoteState {
    type V = RemoteStateView;

    closed spec fn view(&self) -> RemoteStateView {
        RemoteStateView {
            default_branch: match self.default_branch {
                Some(name) => Some(name@),
                None => None,
            },
            ci: self.ci,
            open_pull_requests: self.open_pull_requests,
            branches: self.branches@,
        }
    }
}

impl RemoteState {
    /// Makes one from what was read.
    pub fn new(default_branch: Option<String>, ci: CiState, open_pull_requests: u32, branches: BranchList) -> (state: Self)
        ensures
            state@ == (RemoteStateView {
                default_branch: match default_branch {
                    Some(name) => Some(name@),
                    None => None,
                },
                ci,
                open_pull_requests,
                branches: branches@,
            }),
    {
        RemoteState { default_branch, ci, open_pull_requests, branches }
    }

    /// The default branch's name. `None` for an empty repository
    /// (`defaultBranchRef` is `null`).
    pub fn default_branch(&self) -> (name: Option<&str>)
        ensures
            name matches Some(n) ==> self@.default_branch == Some(n@),
            name is None ==> self@.default_branch is None,
    {
        match &self.default_branch {
            Some(name) => Some(name.as_str()),
            None => None,
        }
    }

    /// The CI state of the default branch's head commit; `Absent` without a default branch.
    pub fn ci(&self) -> (ci: CiState)
        ensures
            ci == self@.ci,
    {
        self.ci
    }

    /// The number of open pull requests.
    pub fn open_pull_requests(&self) -> (count: u32)
        ensures
            count == self@.open_pull_requests,
    {
        self.open_pull_requests
    }

    /// How many branches other than the default one are older than `freshness`.
    ///
    /// `Truncated` when there were more than 100 branches and the list was cut.
    pub fn stale_branches(&self, freshness: &Freshness) -> (count: StaleCount)
        ensures
            count == stale_count_of(
                self@.branches,
                self@.default_branch,
                freshness@.0,
                freshness@.1,
            ),
    {
        let default_branch = match &self.default_branch {
            Some(name) => Some(name.as_str()),
            None => None,
        };
        self.branches.stale(default_branch, freshness)
    }
}

} // verus!
