//! Where the working tree is: on a branch, or detached.

use vstd::prelude::*;

verus! {

/// What `# branch.head` of `git status --porcelain=v2 --branch` says.
///
/// Detached is not "a branch with an empty name": the `BRANCH` column would
/// then show "could not read", "no branch" and "empty name" alike.
#[derive(Debug, Clone, PartialEq, Eq)]
pub enum Head {
    /// On a branch. The name is as git wrote it, and may hold `/` (`feat/login`).
    Branch(String),
    /// On no branch (`# branch.head (detached)`).
    Detached,
}

/// The meaning of a [`Head`].
pub enum HeadView {
    Branch(Seq<char>),
    Detached,
}

impl View for Head {
    type V = HeadView;

    open spec fn view(&self) -> HeadView {
        match self {
            Head::Branch(name) => HeadView::Branch(name@),
            Head::Detached => HeadView::Detached,
        }
    }
}

} // verus!
