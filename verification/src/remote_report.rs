//! What can be said of GitHub's side.

use vstd::prelude::*;

use crate::remote_state::{RemoteState, RemoteStateView};

verus! {

/// What the table can show of one repository's GitHub side.
///
/// `NotOnGithub` and `Unavailable` are kept apart: a repository whose origin
/// is not on GitHub was not asked (`n/a`); one that was asked without an
/// answer is `?`.
#[derive(Debug, Clone, PartialEq, Eq)]
pub enum RemoteReport {
    /// GitHub's response was read.
    State(RemoteState),
    /// The origin is not on GitHub (or there is no origin). `n/a` in the table.
    NotOnGithub,
    /// It could not be had (no `gh`, `gh` failed, or its response could not be read). `?` in the table.
    Unavailable,
}

/// The meaning of a [`RemoteReport`].
pub enum RemoteReportView {
    State(RemoteStateView),
    NotOnGithub,
    Unavailable,
}

impl View for RemoteReport {
    type V = RemoteReportView;

    open spec fn view(&self) -> RemoteReportView {
        match self {
            RemoteReport::State(state) => RemoteReportView::State(state@),
            RemoteReport::NotOnGithub => RemoteReportView::NotOnGithub,
            RemoteReport::Unavailable => RemoteReportView::Unavailable,
        }
    }
}

} // verus!
