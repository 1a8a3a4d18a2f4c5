use fleet_top_core::branch_list::BranchList;
use fleet_top_core::chunk_outcome::ChunkOutcome;
use fleet_top_core::ci_state::CiState;
use fleet_top_core::day::Day;
use fleet_top_core::freshness::Freshness;
use fleet_top_core::github_access::GithubAccess;
use fleet_top_core::github_slug::GithubSlug;
use fleet_top_core::local_finding::LocalFinding;
use fleet_top_core::local_report::LocalReport;
use fleet_top_core::local_state::parse_porcelain;
use fleet_top_core::outcome::Outcome;
use fleet_top_core::remote_branch::RemoteBranch;
use fleet_top_core::remote_error::RemoteError;
use fleet_top_core::remote_report::RemoteReport;
use fleet_top_core::remote_state::RemoteState;
use fleet_top_core::run::{
    TRUNCATED, answers, asked, chunk_slugs, compose, initial_reports, problem_line, settle, tally_of,
    targets_of, tell,
};
use fleet_top_core::target::Target;

fn day(text: &str) -> Day {
    Day::parse_iso8601(text).expect("a valid date")
}

fn freshness() -> Freshness {
    Freshness::new(day("2026-09-02"), 30_u32)
}

fn local() -> LocalReport {
    LocalReport::State(parse_porcelain("# branch.head main\n").expect("valid output"))
}

fn slug(name: &str) -> GithubSlug {
    GithubSlug::new("example-org", name).expect("a valid slug")
}

fn remote(truncated: bool) -> RemoteState {
    RemoteState::new(
        Some(String::from("main")),
        CiState::Success,
        0_u32,
        BranchList::new(vec![RemoteBranch::new(String::from("main"), day("2026-09-01"))], truncated),
    )
}

fn names(list: &[&str]) -> Vec<String> {
    list.iter().map(|name| String::from(*name)).collect()
}

/// alpha (on GitHub), beta (elsewhere), gamma (git failed), delta (on GitHub).
fn findings() -> Vec<LocalFinding> {
    vec![
        LocalFinding::new(local(), Some(slug("alpha")), None),
        LocalFinding::new(local(), None, None),
        LocalFinding::new(LocalReport::Unavailable, None, Some(String::from("fatal: bad"))),
        LocalFinding::new(local(), Some(slug("delta")), None),
    ]
}

#[test]
fn only_repositories_on_github_are_counted_as_asked() {
    assert_eq!(asked(&findings(), GithubAccess::Query), 2_usize);
    assert_eq!(asked(&findings(), GithubAccess::Skip), 0_usize);
}

#[test]
fn before_asking_each_row_says_what_it_can() {
    assert_eq!(
        initial_reports(&findings(), GithubAccess::Query),
        vec![
            RemoteReport::Unavailable,
            RemoteReport::NotOnGithub,
            RemoteReport::Unavailable,
            RemoteReport::Unavailable,
        ]
    );
    assert_eq!(
        initial_reports(&findings(), GithubAccess::Skip),
        vec![RemoteReport::NotOnGithub; 4]
    );
}

#[test]
fn targets_keep_the_row_they_came_from() {
    assert!(targets_of(&findings(), GithubAccess::Skip).is_empty());
    let targets = targets_of(&findings(), GithubAccess::Query);
    let rows: Vec<usize> = targets.iter().map(Target::index).collect();
    assert_eq!(rows, [0_usize, 3_usize]);
    assert_eq!(targets[1].slug().name(), "delta");
    let slugs = chunk_slugs(&targets);
    assert_eq!(slugs, vec![slug("alpha"), slug("delta")]);
}

#[test]
fn answered_errors_become_reasons() {
    let found = answers(
        2_usize,
        ChunkOutcome::Answered(vec![Ok(remote(false)), Err(RemoteError::NotFound)]),
    );
    assert_eq!(found.len(), 2_usize);
    assert!(found[0].is_ok());
    assert_eq!(found[1], Err(String::from("GitHub にそのリポジトリが無い")));
}

#[test]
fn a_shared_reason_is_told_once_for_the_chunk() {
    let chunk = vec![Target::new(0_usize, slug("alpha")), Target::new(3_usize, slug("delta"))];
    let found = answers(2_usize, ChunkOutcome::Failed(String::from("gh: not found")));
    let problems = tell(&names(&["alpha", "beta", "gamma", "delta"]), &chunk, &found);
    assert_eq!(
        problems,
        vec![(names(&["alpha", "delta"]), String::from("gh: not found"))]
    );
}

#[test]
fn separate_reasons_are_told_per_repository() {
    let chunk = vec![
        Target::new(0_usize, slug("alpha")),
        Target::new(1_usize, slug("beta")),
        Target::new(2_usize, slug("gamma")),
    ];
    let found = answers(
        3_usize,
        ChunkOutcome::Answered(vec![
            Err(RemoteError::NotFound),
            Ok(remote(false)),
            Err(RemoteError::Rejected(String::from("Bad credentials"))),
        ]),
    );
    let problems = tell(&names(&["alpha", "beta", "gamma"]), &chunk, &found);
    assert_eq!(
        problems,
        vec![
            (names(&["alpha"]), String::from("GitHub にそのリポジトリが無い")),
            (names(&["gamma"]), String::from("Bad credentials")),
        ]
    );
}

#[test]
fn a_problem_line_joins_the_names() {
    assert_eq!(
        problem_line(&names(&["alpha", "beta"]), "gh: not found"),
        Some(String::from("alpha, beta: gh: not found"))
    );
    assert_eq!(problem_line(&names(&["alpha"]), "x"), Some(String::from("alpha: x")));
    assert_eq!(problem_line(&[], "x"), None);
}

#[test]
fn answers_go_back_to_their_own_rows() {
    let chunk = vec![Target::new(0_usize, slug("alpha")), Target::new(3_usize, slug("delta"))];
    let mut reports = initial_reports(&findings(), GithubAccess::Query);
    let found = answers(
        2_usize,
        ChunkOutcome::Answered(vec![Ok(remote(false)), Err(RemoteError::NotFound)]),
    );
    settle(&chunk, found, &mut reports);
    assert_eq!(reports[0], RemoteReport::State(remote(false)));
    assert_eq!(reports[1], RemoteReport::NotOnGithub);
    assert_eq!(reports[2], RemoteReport::Unavailable);
    assert_eq!(reports[3], RemoteReport::Unavailable);
}

#[test]
fn an_answer_for_a_missing_row_is_dropped() {
    let chunk = vec![Target::new(9_usize, slug("alpha"))];
    let mut reports = vec![RemoteReport::Unavailable];
    settle(&chunk, vec![Ok(remote(false))], &mut reports);
    assert_eq!(reports, vec![RemoteReport::Unavailable]);
}

#[test]
fn a_truncated_branch_list_gets_a_reason() {
    let reports = vec![
        RemoteReport::State(remote(true)),
        RemoteReport::State(remote(false)),
        RemoteReport::NotOnGithub,
    ];
    let problems = fleet_top_core::run::warn_truncated(&names(&["alpha", "beta", "gamma"]), &reports, &freshness());
    assert_eq!(problems, vec![(names(&["alpha"]), String::from(TRUNCATED))]);
}

#[test]
fn every_repository_becomes_one_row() {
    let remotes = initial_reports(&findings(), GithubAccess::Skip);
    let rows = compose(&names(&["alpha", "beta", "gamma", "delta"]), findings(), remotes);
    assert_eq!(rows.len(), 4_usize);
    let shown: Vec<&str> = rows.iter().map(|row| row.name()).collect();
    assert_eq!(shown, ["alpha", "beta", "gamma", "delta"]);
}

#[test]
fn a_question_mark_makes_the_run_partial() {
    let remotes = initial_reports(&findings(), GithubAccess::Skip);
    let rows = compose(&names(&["alpha", "beta", "gamma", "delta"]), findings(), remotes);
    let tally = tally_of(&rows, 0_usize, &freshness());
    assert_eq!(tally.repositories(), 4_usize);
    assert_eq!(tally.on_github(), 0_usize);
    assert_eq!(tally.outcome(), Outcome::Partial);
    assert_eq!(tally.outcome().code(), 1_u8);

    let settled = compose(&names(&["beta"]), vec![LocalFinding::new(local(), None, None)], vec![RemoteReport::NotOnGithub]);
    assert_eq!(tally_of(&settled, 0_usize, &freshness()).outcome(), Outcome::Complete);
    assert_eq!(Outcome::Complete.code(), 0_u8);
    assert_eq!(Outcome::Usage.code(), 2_u8);
}
