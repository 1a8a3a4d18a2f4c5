use fleet_top_core::chunk_outcome::ChunkOutcome;
use fleet_top_core::github::{NOT_UTF8, read_answer};
use fleet_top_core::github_slug::GithubSlug;
use fleet_top_core::head::Head;
use fleet_top_core::local::{STATUS_FAILED, STATUS_NOT_UTF8, finding_of, slug_of, status_of};
use fleet_top_core::local_report::LocalReport;
use fleet_top_core::reason::first_line;
use fleet_top_core::remote_error::RemoteError;

fn slugs() -> Vec<GithubSlug> {
    vec![GithubSlug::new("example-org", "alpha").expect("a valid slug")]
}

#[test]
fn a_failed_git_status_gives_its_first_line() {
    let found = status_of(false, Vec::new(), b"fatal: not a git repository\n");
    assert_eq!(found, Err(String::from("fatal: not a git repository")));
    assert_eq!(status_of(false, Vec::new(), b""), Err(String::from(STATUS_FAILED)));
}

#[test]
fn git_status_output_that_is_not_utf8_is_a_reason() {
    assert_eq!(
        status_of(true, vec![0xff_u8, 0xfe_u8], b""),
        Err(String::from(STATUS_NOT_UTF8))
    );
}

#[test]
fn git_status_output_is_read() {
    let found = status_of(true, b"# branch.head main\n? a\n".to_vec(), b"").expect("read");
    assert_eq!(*found.head(), Head::Branch(String::from("main")));
    assert_eq!(found.dirty(), 1_u32);
    assert_eq!(
        status_of(true, b"# branch.head main\nz x\n".to_vec(), b""),
        Err(String::from("2行目: porcelain v2 の行として読めない"))
    );
}

#[test]
fn the_origin_is_read_only_from_a_success() {
    let found = slug_of(true, b"git@github.com:alpha/beta.git\n".to_vec()).expect("on GitHub");
    assert_eq!(found.owner(), "alpha");
    assert_eq!(found.name(), "beta");
    assert_eq!(slug_of(false, b"git@github.com:alpha/beta.git\n".to_vec()), None);
    assert_eq!(slug_of(true, vec![0xff_u8]), None);
    assert_eq!(slug_of(true, b"https://gitlab.com/alpha/beta\n".to_vec()), None);
}

#[test]
fn a_failed_status_asks_nothing_of_the_origin() {
    let failed = finding_of(Err(String::from("fatal: bad")), slugs().pop());
    assert_eq!(failed.report(), &LocalReport::Unavailable);
    assert_eq!(failed.slug(), None);
    assert_eq!(failed.problem(), Some("fatal: bad"));

    let state = status_of(true, b"# branch.head main\n".to_vec(), b"");
    let read = finding_of(state, slugs().pop());
    assert!(matches!(read.report(), LocalReport::State(_)));
    assert_eq!(read.slug().map(GithubSlug::name), Some("alpha"));
    assert_eq!(read.problem(), None);
}

#[test]
fn gh_output_that_is_not_utf8_fails_the_chunk() {
    assert_eq!(
        read_answer(vec![0xc3_u8], b"", &slugs()),
        ChunkOutcome::Failed(String::from(NOT_UTF8))
    );
}

#[test]
fn gh_output_that_is_not_json_fails_the_chunk_with_gh_reason() {
    assert_eq!(
        read_answer(Vec::new(), b"gh: To get started, run: gh auth login\n", &slugs()),
        ChunkOutcome::Failed(String::from("gh: To get started, run: gh auth login"))
    );
    assert_eq!(
        read_answer(b"{".to_vec(), b"", &slugs()),
        ChunkOutcome::Failed(String::from("at character 1: unexpected end of input"))
    );
}

#[test]
fn gh_output_that_is_json_is_answered_per_repository() {
    let found = read_answer(b"{\"message\": \"Bad credentials\"}".to_vec(), b"", &slugs());
    assert_eq!(
        found,
        ChunkOutcome::Answered(vec![Err(RemoteError::Rejected(String::from("Bad credentials")))])
    );
}

#[test]
fn invalid_utf8_on_stderr_is_replaced_not_dropped() {
    assert_eq!(first_line(b"\xff fatal\n", "x"), "\u{fffd} fatal");
    assert_eq!(first_line(b"  \r\n\tgh: boom \r\nnext", "x"), "gh: boom");
}
