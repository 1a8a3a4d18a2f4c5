use fleet_top_core::branch_list::BranchList;
use fleet_top_core::day::Day;
use fleet_top_core::freshness::Freshness;
use fleet_top_core::remote_branch::RemoteBranch;
use fleet_top_core::stale_count::StaleCount;

fn day(text: &str) -> Day {
    Day::parse_iso8601(text).expect("読めるはずである")
}

fn branch(name: &str, committed: &str) -> RemoteBranch {
    RemoteBranch::new(String::from(name), day(committed))
}

fn freshness(stale_days: u32) -> Freshness {
    Freshness::new(day("2026-09-02"), stale_days)
}

fn sample() -> Vec<RemoteBranch> {
    vec![
        branch("main", "2026-01-01"),
        branch("feat/login", "2026-08-02"),
        branch("feat/logout", "2026-08-03"),
        branch("fresh", "2026-09-02"),
    ]
}

#[test]
fn counts_only_branches_older_than_the_limit() {
    let list = BranchList::new(sample(), false);
    assert_eq!(
        list.stale(Some("main"), &freshness(30_u32)),
        StaleCount::Known(1_u32)
    );
}

#[test]
fn without_a_default_branch_every_branch_counts() {
    let list = BranchList::new(sample(), false);
    assert_eq!(
        list.stale(None, &freshness(30_u32)),
        StaleCount::Known(2_u32)
    );
}

#[test]
fn a_truncated_list_cannot_be_counted() {
    let list = BranchList::new(sample(), true);
    assert_eq!(
        list.stale(Some("main"), &freshness(30_u32)),
        StaleCount::Truncated
    );
}

#[test]
fn an_empty_list_counts_zero() {
    let list = BranchList::new(Vec::new(), false);
    assert_eq!(
        list.stale(None, &freshness(30_u32)),
        StaleCount::Known(0_u32)
    );
}

#[test]
fn a_future_commit_is_not_stale() {
    let list = BranchList::new(vec![branch("ahead", "2026-09-03")], false);
    assert_eq!(
        list.stale(None, &freshness(0_u32)),
        StaleCount::Known(0_u32)
    );
}
