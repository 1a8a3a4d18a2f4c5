//! The branches fetched, and whether that was all of them.

use vstd::prelude::*;

use crate::freshness::{Freshness, is_stale_on};
use crate::remote_branch::RemoteBranch;
use crate::stale_count::StaleCount;
use crate::text::{chars_of, same_chars};

verus! {

/// The branches fetched through GraphQL.
///
/// The branches and whether all were fetched are kept together: apart, a path
/// would exist that forgets the cut at 100 and answers with the count it made.
/// [`BranchList::stale`] can answer `Truncated` because both live in one type.
#[derive(Debug, Clone, PartialEq, Eq)]
pub struct BranchList {
    branches: Vec<RemoteBranch>,
    truncated: bool,
}

/// The meaning of a [`BranchList`].
pub struct BranchListView {
    /// `(name, day of the head commit)` of each branch, in order.
    pub branches: Seq<(Seq<char>, nat)>,
    pub truncated: bool,
}

impl View for BranchList {
    type V = BranchListView;

    closed spec fn view(&self) -> BranchListView {
        BranchListView {
            branches: self.branches@.map_values(|b: RemoteBranch| b@),
            truncated: self.truncated,
        }
    }
}

/// How many of `branches` are stale, leaving out the one named `default_branch`.
pub open spec fn stale_among(
    branches: Seq<(Seq<char>, nat)>,
    default_branch: Option<Seq<char>>,
    today: nat,
    stale_days: u32,
) -> nat
    decreases branches.len(),
{
    if branches.len() == 0 {
        0
    } else {
        let last = branches.last();
        stale_among(branches.drop_last(), default_branch, today, stale_days) + if Some(last.0)
            != default_branch && is_stale_on(today, stale_days, last.1) {
            1nat
        } else {
            0nat
        }
    }
}

/// The count the table shows: `Truncated` when not all branches were fetched,
/// else the stale branches other than the default one (stopping at `u32::MAX`).
pub open spec fn stale_count_of(
    list: BranchListView,
    default_branch: Option<Seq<char>>,
    today: nat,
    stale_days: u32,
) -> StaleCount {
    if list.truncated {
        StaleCount::Truncated
    } else {
        let count = stale_among(list.branches, default_branch, today, stale_days);
        StaleCount::Known(
            if count <= u32::MAX {
                count as u32
            } else {
                u32::MAX
            },
        )
    }
}

impl BranchList {
    /// Makes one from the branches fetched and whether the list was cut short.
    pub fn new(branches: Vec<RemoteBranch>, truncated: bool) -> (list: Self)
        ensures
            list@.branches == branches@.map_values(|b: RemoteBranch| b@),
            list@.truncated == truncated,
    {
        BranchList { branches, truncated }
    }

    /// How many branches other than the default one are stale.
    ///
    /// `Truncated` when the list was cut short. With no default branch
    /// (`None`), every branch counts.
    pub fn stale(&self, default_branch: Option<&str>, freshness: &Freshness) -> (count: StaleCount)
        ensures
            count == stale_count_of(
                self@,
                match default_branch {
                    Some(name) => Some(name@),
                    None => None,
                },
                freshness@.0,
                freshness@.1,
            ),
    {
        if self.truncated {
            return StaleCount::Truncated;
        }
        let ghost default_view = match default_branch {
            Some(name) => Some(name@),
            None => None,
        };
        let ghost all = self@.branches;
        let wanted: Option<Vec<char>> = match default_branch {
            Some(name) => Some(chars_of(name)),
            None => None,
        };
        let mut count: u64 = 0;
        let mut i: usize = 0;
        while i < self.branches.len()
            invariant
                i <= self.branches@.len(),
                all == self.branches@.map_values(|b: RemoteBranch| b@),
                wanted matches Some(w) ==> default_view == Some(w@),
                wanted is None ==> default_view is None,
                count == stale_among(all.take(i as int), default_view, freshness@.0, freshness@.1),
                count <= i,
            decreases self.branches@.len() - i,
        {
            let branch = &self.branches[i];
            let name = chars_of(branch.name());
            let is_default = match &wanted {
                Some(w) => same_chars(&name, w),
                None => false,
            };
            proof {
                assert(all.take(i + 1).drop_last() =~= all.take(i as int));
                assert(all.take(i + 1).last() == all[i as int]);
            }
            if !is_default && freshness.is_stale(branch.last_commit()) {
                count = count + 1;
            }
            i = i + 1;
        }
        proof {
            assert(all.take(self.branches@.len() as int) =~= all);
        }
        if count <= u32::MAX as u64 {
            StaleCount::Known(count as u32)
        } else {
            StaleCount::Known(u32::MAX)
        }
    }
}

} // verus!
