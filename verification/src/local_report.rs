//! What can be said of the local state.

use vstd::prelude::*;

use crate::local_state::{LocalState, LocalStateView};

verus! {

/// What the table can show of one repository's local state.
///
/// What could not be read is never shown as "no changes": filling a failed
/// repository with a zero state would make it look like a clean `main`. Not
/// knowing is a value of the type.
#[derive(Debug, Clone, PartialEq, Eq)]
pub enum LocalReport {
    /// The output of `git` was read.
    State(LocalState),
    /// It could not be had (no `git`, `git` failed, or its output could not be read). `?` in the table.
    Unavailable,
}

/// The meaning of a [`LocalReport`].
pub enum LocalReportView {
    State(LocalStateView),
    Unavailable,
}

impl View for LocalReport {
    type V = LocalReportView;

    open spec fn view(&self) -> LocalReportView {
        match self {
            LocalReport::State(state) => LocalReportView::State(state@),
            LocalReport::Unavailable => LocalReportView::Unavailable,
        }
    }
}

} // verus!
