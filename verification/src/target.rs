//! One repository to ask GitHub about: its row in the table, and owner/name.

use vstd::prelude::*;

use crate::github_slug::GithubSlug;

verus! {

/// One repository to ask GitHub about.
///
/// The index is the row of the table that the answer goes back to; it is
/// neither the place in the chunk nor the order of asking.
#[derive(Debug, PartialEq, Eq)]
pub struct Target {
    index: usize,
    slug: GithubSlug,
}

impl View for Target {
    /// `(index, (owner, name))`.
    type V = (usize, (Seq<char>, Seq<char>));

    closed spec fn view(&self) -> (usize, (Seq<char>, Seq<char>)) {
        (self.index, self.slug@)
    }
}

/// The views of `targets`, in order.
pub open spec fn target_views(targets: Seq<Target>) -> Seq<(usize, (Seq<char>, Seq<char>))> {
    targets.map_values(|t: Target| t@)
}

impl Clone for Target {
    fn clone(&self) -> (copy: Self)
        ensures
            copy@ == self@,
    {
        Target { index: self.index, slug: self.slug.clone() }
    }
}

impl Target {
    /// From the row (from 0) and owner/name.
    pub fn new(index: usize, slug: GithubSlug) -> (target: Self)
        ensures
            target@ == (index, slug@),
    {
        Target { index, slug }
    }

    /// The row the answer goes back to (from 0).
    pub fn index(&self) -> (index: usize)
        ensures
            index == self@.0,
    {
        self.index
    }

    /// GitHub's owner/name.
    pub fn slug(&self) -> (slug: &GithubSlug)
        ensures
            slug@ == self@.1,
    {
        &self.slug
    }
}

} // verus!
