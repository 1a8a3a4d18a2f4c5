//! What one GraphQL request came back with.

use vstd::prelude::*;

use crate::graphql::result_view;
use crate::remote_error::{RemoteError, RemoteErrorView};
use crate::remote_state::{RemoteState, RemoteStateView};

verus! {

/// What asking about one chunk (at most three repositories) came to.
///
/// A chunk that failed as a whole is kept apart from per-repository answers:
/// when `gh` cannot start, every repository in the chunk fails for the same
/// reason, and that is reported once, not once per repository.
#[derive(Debug, Clone, PartialEq, Eq)]
pub enum ChunkOutcome {
    /// The whole chunk failed (`gh` could not start, or its output is not JSON).
    Failed(String),
    /// The response was read: `Ok` or `Err` per repository.
    Answered(Vec<Result<RemoteState, RemoteError>>),
}

/// The meaning of a [`ChunkOutcome`].
pub enum ChunkOutcomeView {
    Failed(Seq<char>),
    Answered(Seq<Result<RemoteStateView, RemoteErrorView>>),
}

impl View for ChunkOutcome {
    type V = ChunkOutcomeView;

    open spec fn view(&self) -> ChunkOutcomeView {
        match self {
            ChunkOutcome::Failed(reason) => ChunkOutcomeView::Failed(reason@),
            ChunkOutcome::Answered(answers) => ChunkOutcomeView::Answered(
                answers@.map_values(|answer: Result<RemoteState, RemoteError>| result_view(answer)),
            ),
        }
    }
}

} // verus!
