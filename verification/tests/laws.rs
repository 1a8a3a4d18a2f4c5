use fleet_top_core::json_parser::parse_json;
use fleet_top_core::chunk_outcome::ChunkOutcome;
use fleet_top_core::github::chunk;
use fleet_top_core::remote_error::RemoteError;
use fleet_top_core::run::{answers, tell};
use fleet_top_core::target::Target;
use fleet_top_core::cli::parse;
use fleet_top_core::day::Day;
use fleet_top_core::freshness::Freshness;
use fleet_top_core::github_slug::GithubSlug;
use fleet_top_core::graphql::build_query;
use fleet_top_core::help::{HELP_DETAIL, help_text};
use fleet_top_core::invocation::Invocation;
use fleet_top_core::local_report::LocalReport;
use fleet_top_core::local_state::parse_porcelain;
use fleet_top_core::reason::first_line;
use fleet_top_core::remote_report::RemoteReport;
use fleet_top_core::row::Row;
use fleet_top_core::table::{name_order, render};
use fleet_top_core::text::decimal_string;
use fleet_top_core::usage_error::{USAGE, UsageError};

fn freshness() -> Freshness {
    Freshness::new(Day::parse_iso8601("2026-09-02").expect("a valid date"), 30_u32)
}

fn row(name: &str) -> Row {
    Row::new(
        String::from(name),
        LocalReport::State(parse_porcelain("# branch.head main\n").expect("valid output")),
        RemoteReport::NotOnGithub,
    )
}

#[test]
fn decimal_text_reads_back_as_its_number() {
    assert_eq!(decimal_string(0_u64), "0");
    assert_eq!(decimal_string(10_u64), "10");
    assert_eq!(decimal_string(1_234_567_890_u64), "1234567890");
    assert_eq!(decimal_string(u64::MAX), "18446744073709551615");
}

#[test]
fn consecutive_dates_are_consecutive_days() {
    let before = Day::parse_iso8601("2024-02-28").expect("a valid date");
    let leap = Day::parse_iso8601("2024-02-29").expect("a valid date");
    let after = Day::parse_iso8601("2024-03-01").expect("a valid date");
    assert_eq!(leap.get(), before.get() + 1);
    assert_eq!(after.get(), leap.get() + 1);
    assert_eq!(Day::from_unix_seconds(86_400_u64 * 20_698_u64), Day::parse_iso8601("2026-09-02").expect("a valid date"));
}

#[test]
fn a_final_line_break_may_be_there_or_not() {
    let bare = parse_porcelain("# branch.head main\n? a");
    assert_eq!(parse_porcelain("# branch.head main\n? a\n"), bare);
    assert_eq!(parse_porcelain("# branch.head main\n? a\r\n"), bare);
    assert!(bare.is_ok());
}

#[test]
fn a_reason_is_never_empty() {
    assert_eq!(first_line(b" \n\t\n", "git status failed"), "git status failed");
    assert!(!first_line(b"", "x").is_empty());
}

#[test]
fn a_slug_cannot_carry_a_quote_into_the_query() {
    assert_eq!(GithubSlug::new("alpha\"", "beta"), None);
    assert_eq!(GithubSlug::new("alpha", "be\\ta"), None);
    assert_eq!(GithubSlug::new("alpha", "be\nta"), None);
    let query = build_query(&[GithubSlug::new("alpha", "beta").expect("a valid slug")]);
    assert_eq!(query.matches('"').count(), 4 + 2);
}

#[test]
fn the_table_has_one_line_per_row_plus_the_headings() {
    let rows: Vec<Row> = ["c", "a", "b", "a"].iter().map(|name| row(name)).collect();
    let table = render(&rows, &freshness());
    assert_eq!(table.lines().count(), rows.len() + 1);
    assert!(table.ends_with('\n'));
}

#[test]
fn any_order_of_distinct_rows_gives_the_same_table() {
    let orders = [["a", "b", "c"], ["c", "a", "b"], ["b", "c", "a"]];
    let tables: Vec<String> = orders
        .iter()
        .map(|order| render(&order.iter().map(|name| row(name)).collect::<Vec<Row>>(), &freshness()))
        .collect();
    assert_eq!(tables[0], tables[1]);
    assert_eq!(tables[0], tables[2]);
}

#[test]
fn names_order_by_code_point_and_keep_ties_in_place() {
    let names: Vec<String> = ["b", "a", "B", "é", "a", "ab"].iter().map(|name| String::from(*name)).collect();
    assert_eq!(name_order(&names), vec![2_usize, 1, 4, 5, 0, 3]);
}

#[test]
fn every_usage_error_has_its_sentence() {
    assert_eq!(UsageError::Arguments.to_string(), format!("usage: {USAGE}"));
    assert_eq!(
        UsageError::StaleDaysWithoutValue.to_string(),
        "--stale-days: 日数が続いていない"
    );
    assert_eq!(
        UsageError::RepeatedStaleDays.to_string(),
        "--stale-days: 2回以上書かれている（どちらが効くかを決めない）"
    );
}

#[test]
fn stale_days_read_as_unsigned_integers() {
    let days = |text: &str| match parse(&[String::from("--stale-days"), String::from(text)]) {
        Ok(Invocation::Report(options)) => Some(options.stale_days()),
        _ => None,
    };
    assert_eq!(days("+7"), Some(7_u32));
    assert_eq!(days("007"), Some(7_u32));
    assert_eq!(days("4294967295"), Some(u32::MAX));
    assert_eq!(days("4294967296"), None);
    assert_eq!(days("+"), None);
    assert_eq!(days(""), None);
    assert_eq!(days(" 7"), None);
}

#[test]
fn help_shows_the_usage_line() {
    let text = help_text();
    assert!(text.contains(USAGE));
    assert!(text.contains(HELP_DETAIL));
    assert!(text.starts_with("fleet-top — "));
    assert!(text.ends_with("n/a, DIR が読めない・時計が読めない\n") || text.ends_with("時計が読めない\n"));
}

#[test]
fn crlf_line_ends_read_like_lf() {
    let lf = parse_porcelain("# branch.head main\n# branch.upstream origin/main\n# branch.ab +1 -2\n? a\n");
    let crlf = parse_porcelain("# branch.head main\r\n# branch.upstream origin/main\r\n# branch.ab +1 -2\r\n? a\r\n");
    assert_eq!(crlf, lf);
    let state = lf.expect("valid output");
    assert_eq!(state.ahead(), 1_u32);
    assert_eq!(state.behind(), 2_u32);
    assert_eq!(state.upstream(), Some("origin/main"));
}

#[test]
fn every_failed_repository_of_a_chunk_is_named() {
    let slug = |name: &str| GithubSlug::new("example-org", name).expect("a valid slug");
    let chunk = vec![Target::new(0_usize, slug("a")), Target::new(1_usize, slug("b"))];
    let found = answers(
        2_usize,
        ChunkOutcome::Answered(vec![
            Err(RemoteError::Malformed(String::from("r0.refs"))),
            Err(RemoteError::NotFound),
        ]),
    );
    let names = vec![String::from("a"), String::from("b")];
    let problems = tell(&names, &chunk, &found);
    assert_eq!(problems.len(), 2_usize);
    assert_eq!(problems[0], (vec![String::from("a")], String::from("応答の形が想定と違う: r0.refs")));
    assert_eq!(problems[1], (vec![String::from("b")], String::from("GitHub にそのリポジトリが無い")));
}

#[test]
fn chunks_hold_every_target_in_order() {
    let targets: Vec<Target> = (0_usize..8_usize)
        .map(|index| Target::new(index, GithubSlug::new("example-org", "alpha").expect("a valid slug")))
        .collect();
    let rows: Vec<usize> = chunk(&targets).iter().flatten().map(Target::index).collect();
    assert_eq!(rows, (0_usize..8_usize).collect::<Vec<usize>>());
}

#[test]
fn a_reordering_that_keeps_equal_names_in_order_gives_the_same_table() {
    let named = |name: &str, branch: &str| {
        Row::new(
            String::from(name),
            LocalReport::State(parse_porcelain(&format!("# branch.head {branch}\n")).expect("valid output")),
            RemoteReport::NotOnGithub,
        )
    };
    let rows = vec![named("alpha", "first"), named("beta", "main"), named("alpha", "second")];
    let shuffled = vec![named("beta", "main"), named("alpha", "first"), named("alpha", "second")];
    let table = render(&rows, &freshness());
    assert_eq!(render(&shuffled, &freshness()), table);
    let swapped = vec![named("alpha", "second"), named("beta", "main"), named("alpha", "first")];
    assert_ne!(render(&swapped, &freshness()), table);
}

#[test]
fn a_json_error_lies_within_the_text() {
    for source in ["", "[", "{\"a\":", "\"\\u12", "[1,", "tru", "1 2"] {
        let error = parse_json(source).expect_err("not a JSON text");
        assert!(error.offset() <= source.chars().count(), "{source}");
    }
    let mut deep = String::new();
    for _ in 0_u32..129_u32 {
        deep.push('[');
    }
    for _ in 0_u32..129_u32 {
        deep.push(']');
    }
    assert!(parse_json(&deep).is_err());
    assert!(parse_json(&deep[1..deep.len() - 1]).is_ok());
}
