//! The number of stale branches (counted, or not countable).

use vstd::prelude::*;

verus! {

/// The number of stale branches.
///
/// `Truncated` is never written as 0 or as some number: GraphQL is asked for
/// 100 branches, so a repository with more cannot be counted, and mixing that
/// into a count such as `Known(100)` would hide the `?` in the table.
#[derive(Debug, Clone, Copy, PartialEq, Eq, Structural)]
pub enum StaleCount {
    /// Counted.
    Known(u32),
    /// Too many branches to count (`refs.totalCount` exceeds the branches fetched).
    Truncated,
}

} // verus!
