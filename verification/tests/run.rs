use fleet_top_core::run::{answers, common_reason, unasked, why};
use fleet_top_core::chunk_outcome::ChunkOutcome;
use fleet_top_core::local_finding::LocalFinding;
use fleet_top_core::github_slug::GithubSlug;
use fleet_top_core::local_report::LocalReport;
use fleet_top_core::local_state::parse_porcelain;
use fleet_top_core::remote_error::RemoteError;
use fleet_top_core::remote_report::RemoteReport;

fn state() -> LocalReport {
    LocalReport::State(parse_porcelain("# branch.head main\n").expect("読めるはず"))
}

fn slug() -> GithubSlug {
    GithubSlug::new("example-org", "alpha").expect("作れるはず")
}

#[test]
fn an_unreadable_repository_is_never_reported_as_absent_from_github() {
    let broken = LocalFinding::new(LocalReport::Unavailable, None, Some(String::from("x")));
    assert_eq!(unasked(&broken), RemoteReport::Unavailable);

    let elsewhere = LocalFinding::new(state(), None, None);
    assert_eq!(unasked(&elsewhere), RemoteReport::NotOnGithub);

    let asked = LocalFinding::new(state(), Some(slug()), None);
    assert_eq!(unasked(&asked), RemoteReport::Unavailable);
}

#[test]
fn a_failed_chunk_fails_every_repository_in_it() {
    let found = answers(3_usize, ChunkOutcome::Failed(String::from("gh が無い")));
    assert_eq!(found.len(), 3);
    assert_eq!(common_reason(&found), Some("gh が無い"));
}

#[test]
fn mixed_reasons_are_not_merged() {
    let found = answers(
        2_usize,
        ChunkOutcome::Answered(vec![
            Err(RemoteError::NotFound),
            Err(RemoteError::Rejected(String::from("Bad credentials"))),
        ]),
    );
    assert_eq!(common_reason(&found), None);
}

#[test]
fn a_chunk_without_failures_has_no_common_reason() {
    assert_eq!(common_reason(&[]), None);
}

#[test]
fn a_rejection_keeps_the_message_github_wrote() {
    assert_eq!(
        why(&RemoteError::Rejected(String::from("Bad credentials"))),
        "Bad credentials"
    );
    assert_eq!(why(&RemoteError::NotFound), "GitHub にそのリポジトリが無い");
    assert_eq!(
        why(&RemoteError::Malformed(String::from("r0.refs"))),
        "応答の形が想定と違う: r0.refs"
    );
}
