use fleet_top_core::remote_state::RemoteState;
use fleet_top_core::branch_list::BranchList;
use fleet_top_core::ci_state::CiState;
use fleet_top_core::day::Day;
use fleet_top_core::freshness::Freshness;
use fleet_top_core::remote_branch::RemoteBranch;
use fleet_top_core::stale_count::StaleCount;

fn day(text: &str) -> Day {
    Day::parse_iso8601(text).expect("読めるはずである")
}

#[test]
fn answers_what_it_was_built_from() {
    let branches = BranchList::new(
        vec![
            RemoteBranch::new(String::from("main"), day("2026-01-01")),
            RemoteBranch::new(String::from("old"), day("2026-01-01")),
        ],
        false,
    );
    let state = RemoteState::new(
        Some(String::from("main")),
        CiState::Failure,
        3_u32,
        branches,
    );
    assert_eq!(state.default_branch(), Some("main"));
    assert_eq!(state.ci(), CiState::Failure);
    assert_eq!(state.open_pull_requests(), 3_u32);
    assert_eq!(
        state.stale_branches(&Freshness::new(day("2026-09-02"), 30_u32)),
        StaleCount::Known(1_u32)
    );
}

#[test]
fn without_a_default_branch_every_branch_is_counted() {
    let branches = BranchList::new(
        vec![RemoteBranch::new(String::from("main"), day("2026-01-01"))],
        false,
    );
    let state = RemoteState::new(None, CiState::Absent, 0_u32, branches);
    assert_eq!(state.default_branch(), None);
    assert_eq!(
        state.stale_branches(&Freshness::new(day("2026-09-02"), 30_u32)),
        StaleCount::Known(1_u32)
    );
}
