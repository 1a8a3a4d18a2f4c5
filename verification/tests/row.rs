use fleet_top_core::row::Row;
use fleet_top_core::branch_list::BranchList;
use fleet_top_core::ci_state::CiState;
use fleet_top_core::day::Day;
use fleet_top_core::freshness::Freshness;
use fleet_top_core::local_report::LocalReport;
use fleet_top_core::local_state::parse_porcelain;
use fleet_top_core::remote_branch::RemoteBranch;
use fleet_top_core::remote_report::RemoteReport;
use fleet_top_core::remote_state::RemoteState;

fn freshness() -> Freshness {
    Freshness::new(Day::parse_iso8601("2026-09-02").expect("読める"), 30_u32)
}

fn local(source: &str) -> LocalReport {
    LocalReport::State(parse_porcelain(source).expect("読めるはずである"))
}

fn remote(pull_requests: u32, ci: CiState, truncated: bool) -> RemoteReport {
    let branches = BranchList::new(
        vec![RemoteBranch::new(
            String::from("old"),
            Day::parse_iso8601("2026-01-01").expect("読める"),
        )],
        truncated,
    );
    RemoteReport::State(RemoteState::new(
        Some(String::from("main")),
        ci,
        pull_requests,
        branches,
    ))
}

fn row(local: LocalReport, remote: RemoteReport) -> Row {
    Row::new(String::from("alpha"), local, remote)
}

fn cells(row: &Row) -> Vec<String> {
    row.cells(&freshness()).to_vec()
}

#[test]
fn a_clean_repository_shows_dashes() {
    let source = "# branch.head main\n# branch.upstream origin/main\n# branch.ab +0 -0\n";
    let found = row(local(source), remote(0_u32, CiState::Success, false));
    assert_eq!(
        cells(&found),
        vec!["alpha", "main", "-", "-", "-", "ok", "1"]
    );
}

#[test]
fn ahead_only_and_behind_only_are_written_alone() {
    let ahead = "# branch.head main\n# branch.upstream origin/main\n# branch.ab +2 -0\n";
    let behind = "# branch.head main\n# branch.upstream origin/main\n# branch.ab +0 -1\n";
    let both = "# branch.head main\n# branch.upstream origin/main\n# branch.ab +2 -1\n";
    assert_eq!(
        cells(&row(local(ahead), RemoteReport::NotOnGithub)).get(3_usize),
        Some(&String::from("+2"))
    );
    assert_eq!(
        cells(&row(local(behind), RemoteReport::NotOnGithub)).get(3_usize),
        Some(&String::from("-1"))
    );
    assert_eq!(
        cells(&row(local(both), RemoteReport::NotOnGithub)).get(3_usize),
        Some(&String::from("+2/-1"))
    );
}

#[test]
fn a_branch_without_an_upstream_says_none() {
    let found = row(local("# branch.head main\n"), RemoteReport::NotOnGithub);
    assert_eq!(
        cells(&found),
        vec!["alpha", "main", "-", "(none)", "n/a", "n/a", "n/a"]
    );
}

#[test]
fn a_detached_head_is_named() {
    let found = row(
        local("# branch.head (detached)\n? scratch/\n"),
        RemoteReport::Unavailable,
    );
    assert_eq!(
        cells(&found),
        vec!["alpha", "(detached)", "1", "(none)", "?", "?", "?"]
    );
}

#[test]
fn the_ci_states_have_their_own_marks() {
    let source = "# branch.head main\n";
    let marks = [
        (CiState::Success, "ok"),
        (CiState::Failure, "FAIL"),
        (CiState::Pending, "..."),
        (CiState::Absent, "-"),
    ];
    for (state, mark) in marks {
        let found = row(local(source), remote(0_u32, state, false));
        assert_eq!(cells(&found).get(5_usize), Some(&String::from(mark)));
    }
}

#[test]
fn a_truncated_branch_list_shows_a_question_mark() {
    let found = row(
        local("# branch.head main\n"),
        remote(0_u32, CiState::Success, true),
    );
    assert_eq!(cells(&found).get(6_usize), Some(&String::from("?")));
    assert!(!found.is_complete(&freshness()));
}

#[test]
fn a_row_is_complete_when_nothing_is_unknown() {
    let source = "# branch.head main\n";
    assert!(
        row(local(source), remote(0_u32, CiState::Success, false)).is_complete(&freshness())
    );
    assert!(row(local(source), RemoteReport::NotOnGithub).is_complete(&freshness()));
    assert!(!row(local(source), RemoteReport::Unavailable).is_complete(&freshness()));
    assert!(
        !row(LocalReport::Unavailable, RemoteReport::NotOnGithub).is_complete(&freshness())
    );
}

#[test]
fn keeps_the_name_it_was_given() {
    let found = row(LocalReport::Unavailable, RemoteReport::Unavailable);
    assert_eq!(found.name(), "alpha");
}
