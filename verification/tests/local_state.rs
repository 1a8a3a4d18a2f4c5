use fleet_top_core::local_state::{LocalState, parse_porcelain};
use fleet_top_core::head::Head;
use fleet_top_core::porcelain_error_kind::PorcelainErrorKind;

const INITIAL: &str = "\
# branch.oid (initial)
# branch.head master
";

const DETACHED: &str = "\
# branch.oid 5c2528bb47268df1e88c70244a03e2ba0af243cc
# branch.head (detached)
1 A. N... 000000 100644 100644 0000000000000000000000000000000000000000 78981922613b2afb6025042ff6bd878ac1994e85 a
? b
";

const TRACKED: &str = "\
# branch.oid be1ac856ed7b0fda91270b20c022e7bda6bf8206
# branch.head main
# branch.upstream origin/main
# branch.ab +0 -0
1 .M N... 100644 100644 100644 a7c9904d179471e47f7ef58ee8afbbcd0f3eac72 a7c9904d179471e47f7ef58ee8afbbcd0f3eac72 notes.md
2 R. N... 100644 100644 100644 0cbf1228461a5f32eaaeaae6663ba5a9147d6598 0cbf1228461a5f32eaaeaae6663ba5a9147d6598 R100 new.md\told.md
u UU N... 100644 100644 100644 100644 1111111111111111111111111111111111111111 2222222222222222222222222222222222222222 3333333333333333333333333333333333333333 conflict.txt
? scratch/
! ignored.log
";

fn read(source: &str) -> LocalState {
    parse_porcelain(source).expect("読めるはずである")
}

#[test]
fn reads_a_repository_without_commits() {
    let state = read(INITIAL);
    assert_eq!(*state.head(), Head::Branch(String::from("master")));
    assert_eq!(state.upstream(), None);
    assert_eq!(state.ahead(), 0_u32);
    assert_eq!(state.behind(), 0_u32);
    assert_eq!(state.dirty(), 0_u32);
}

#[test]
fn reads_a_detached_head_with_changes() {
    let state = read(DETACHED);
    assert_eq!(*state.head(), Head::Detached);
    assert_eq!(state.upstream(), None);
    assert_eq!(state.dirty(), 2_u32);
}

#[test]
fn reads_a_tracked_branch_and_skips_ignored_files() {
    let state = read(TRACKED);
    assert_eq!(*state.head(), Head::Branch(String::from("main")));
    assert_eq!(state.upstream(), Some("origin/main"));
    assert_eq!(state.ahead(), 0_u32);
    assert_eq!(state.behind(), 0_u32);
    assert_eq!(state.dirty(), 4_u32);
}

#[test]
fn reads_the_ahead_behind_counts() {
    let source = "# branch.head main\n# branch.upstream origin/main\n# branch.ab +2 -1\n";
    let state = read(source);
    assert_eq!(state.ahead(), 2_u32);
    assert_eq!(state.behind(), 1_u32);
}

#[test]
fn reads_crlf_and_a_missing_final_newline() {
    let expected = read(INITIAL);
    assert_eq!(
        read("# branch.oid (initial)\r\n# branch.head master\r\n"),
        expected
    );
    assert_eq!(
        read("# branch.oid (initial)\n# branch.head master"),
        expected
    );
}

#[test]
fn empty_input_has_no_head() {
    let error = parse_porcelain("").expect_err("読めないはずである");
    assert_eq!(error.kind(), &PorcelainErrorKind::MissingHead);
    assert_eq!(error.line(), 0_u32);
}

#[test]
fn a_status_without_the_branch_option_has_no_head() {
    let error = parse_porcelain("? scratch/\n").expect_err("読めないはずである");
    assert_eq!(error.kind(), &PorcelainErrorKind::MissingHead);
}

#[test]
fn reports_the_line_of_a_malformed_header() {
    let source = "# branch.head main\n# branch.upstream origin/main\n# branch.ab +x -1\n";
    let error = parse_porcelain(source).expect_err("読めないはずである");
    assert_eq!(error.kind(), &PorcelainErrorKind::MalformedHeader);
    assert_eq!(error.line(), 3_u32);
}

#[test]
fn reports_the_line_of_an_unexpected_line() {
    let source = "# branch.head main\nz something\n";
    let error = parse_porcelain(source).expect_err("読めないはずである");
    assert_eq!(error.kind(), &PorcelainErrorKind::UnexpectedLine);
    assert_eq!(error.line(), 2_u32);
}

#[test]
fn unknown_headers_do_not_break_the_read() {
    let source = "# branch.head main\n# branch.future something\n# stash 2\n";
    let state = read(source);
    assert_eq!(*state.head(), Head::Branch(String::from("main")));
    assert_eq!(state.dirty(), 0_u32);
}

#[test]
fn keeps_the_branch_name_verbatim() {
    let state = read("# branch.head feat/login\n");
    assert_eq!(*state.head(), Head::Branch(String::from("feat/login")));
}

#[test]
fn a_later_header_wins() {
    let state = read("# branch.head main\n# branch.head other\n");
    assert_eq!(*state.head(), Head::Branch(String::from("other")));
}
