//! What "stale" means: today, and after how many days.

use vstd::prelude::*;

use crate::day::Day;

verus! {

/// The measure that decides whether a branch is stale.
///
/// It holds "today" as a value: the library cannot reach a clock, so the
/// caller reads the time and passes a `Day`. Given the same `Freshness`, the
/// same table comes out whenever it runs.
#[derive(Debug, Clone, PartialEq, Eq, Structural)]
pub struct Freshness {
    today: Day,
    stale_days: u32,
}

impl View for Freshness {
    /// `(today, stale_days)`.
    type V = (nat, u32);

    closed spec fn view(&self) -> (nat, u32) {
        (self.today@, self.stale_days)
    }
}

/// A branch last committed on `last_commit` is stale: more than `stale_days`
/// days before `today`. A date in the future is never stale.
pub open spec fn is_stale_on(today: nat, stale_days: u32, last_commit: nat) -> bool {
    today >= last_commit && today - last_commit > stale_days
}

impl Freshness {
    /// Makes one from today and the number of days after which a branch is stale.
    pub fn new(today: Day, stale_days: u32) -> (freshness: Self)
        ensures
            freshness@ == (today@, stale_days),
    {
        Freshness { today, stale_days }
    }

    /// Today.
    pub fn today(&self) -> (today: Day)
        ensures
            today@ == self@.0,
    {
        self.today
    }

    /// The days after which a branch is stale (`--stale-days`; 30 by default).
    pub fn stale_days(&self) -> (days: u32)
        ensures
            days == self@.1,
    {
        self.stale_days
    }

    /// Whether a branch whose last commit is on `last_commit` is stale.
    ///
    /// Stale is strictly more than `stale_days` days (exactly `stale_days` is
    /// not stale). A future date is not stale: a clock that is off should not
    /// age branches.
    pub fn is_stale(&self, last_commit: Day) -> (stale: bool)
        ensures
            stale == is_stale_on(self@.0, self@.1, last_commit@),
    {
        match self.today.days_since(last_commit) {
            Some(days) => days > self.stale_days,
            None => false,
        }
    }
}

} // verus!
