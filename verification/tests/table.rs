use fleet_top_core::table::render;
use fleet_top_core::branch_list::BranchList;
use fleet_top_core::ci_state::CiState;
use fleet_top_core::day::Day;
use fleet_top_core::freshness::Freshness;
use fleet_top_core::local_report::LocalReport;
use fleet_top_core::local_state::parse_porcelain;
use fleet_top_core::remote_branch::RemoteBranch;
use fleet_top_core::remote_report::RemoteReport;
use fleet_top_core::remote_state::RemoteState;
use fleet_top_core::row::Row;

fn freshness() -> Freshness {
    Freshness::new(Day::parse_iso8601("2026-09-02").expect("読める"), 30_u32)
}

fn day(text: &str) -> Day {
    Day::parse_iso8601(text).expect("読めるはずである")
}

fn local(source: &str) -> LocalReport {
    LocalReport::State(parse_porcelain(source).expect("読めるはずである"))
}

fn remote(pull_requests: u32, ci: CiState, stale: usize) -> RemoteReport {
    let mut branches = vec![RemoteBranch::new(String::from("main"), day("2026-09-01"))];
    for index in 0_usize..stale {
        let name = format!("old-{index}");
        branches.push(RemoteBranch::new(name, day("2026-01-01")));
    }
    RemoteReport::State(RemoteState::new(
        Some(String::from("main")),
        ci,
        pull_requests,
        BranchList::new(branches, false),
    ))
}

fn example() -> Vec<Row> {
    vec![
        Row::new(
            String::from("alpha"),
            local("# branch.head main\n# branch.upstream origin/main\n# branch.ab +0 -0\n"),
            remote(0_u32, CiState::Success, 0_usize),
        ),
        Row::new(
            String::from("beta"),
            local(
                "# branch.head feat/login\n# branch.upstream origin/feat/login\n# branch.ab +2 -1\n? a\n? b\n? c\n",
            ),
            remote(1_u32, CiState::Failure, 2_usize),
        ),
        Row::new(
            String::from("gamma"),
            local("# branch.head (detached)\n"),
            RemoteReport::NotOnGithub,
        ),
        Row::new(
            String::from("delta"),
            LocalReport::Unavailable,
            RemoteReport::Unavailable,
        ),
    ]
}

#[test]
fn renders_the_example_from_the_design_note() {
    let expected = "\
REPO   BRANCH      DIRTY  AHEAD/BEHIND  PR   CI    STALE
alpha  main        -      -             -    ok    -
beta   feat/login  3      +2/-1         1    FAIL  2
delta  ?           ?      ?             ?    ?     ?
gamma  (detached)  -      (none)        n/a  n/a   n/a
";
    assert_eq!(render(&example(), &freshness()), expected);
}

#[test]
fn the_order_of_the_input_does_not_matter() {
    let mut reversed = example();
    reversed.reverse();
    assert_eq!(
        render(&reversed, &freshness()),
        render(&example(), &freshness())
    );
}

#[test]
fn an_empty_table_still_has_its_headings() {
    assert_eq!(
        render(&[], &freshness()),
        "REPO  BRANCH  DIRTY  AHEAD/BEHIND  PR  CI  STALE\n"
    );
}

#[test]
fn no_line_ends_with_a_space() {
    let table = render(&example(), &freshness());
    for line in table.lines() {
        assert!(!line.ends_with(' '), "{line} の行末に空白がある");
    }
}

#[test]
fn the_width_counts_characters_not_bytes() {
    let rows = vec![
        Row::new(
            String::from("alpha"),
            local("# branch.head 機能/ログイン\n"),
            RemoteReport::NotOnGithub,
        ),
        Row::new(
            String::from("beta"),
            local("# branch.head main\n"),
            RemoteReport::NotOnGithub,
        ),
    ];
    let table = render(&rows, &freshness());
    let expected = "\
REPO   BRANCH   DIRTY  AHEAD/BEHIND  PR   CI   STALE
alpha  機能/ログイン  -      (none)        n/a  n/a  n/a
beta   main     -      (none)        n/a  n/a  n/a
";
    assert_eq!(table, expected);
}

#[test]
fn rows_with_the_same_name_keep_their_order() {
    let rows = vec![
        Row::new(
            String::from("alpha"),
            local("# branch.head first\n"),
            RemoteReport::NotOnGithub,
        ),
        Row::new(
            String::from("alpha"),
            local("# branch.head second\n"),
            RemoteReport::NotOnGithub,
        ),
    ];
    let table = render(&rows, &freshness());
    let first = table.lines().nth(1_usize).expect("2 行目が在る");
    assert!(first.contains("first"), "{first} が先に来ていない");
}

#[test]
fn names_are_ordered_by_bytes() {
    let names = ["b", "A", "a", "B"];
    let rows: Vec<Row> = names
        .iter()
        .map(|name| {
            Row::new(
                String::from(*name),
                LocalReport::Unavailable,
                RemoteReport::Unavailable,
            )
        })
        .collect();
    let table = render(&rows, &freshness());
    let ordered: Vec<&str> = table
        .lines()
        .skip(1_usize)
        .filter_map(|line| line.split(' ').next())
        .collect();
    assert_eq!(ordered, vec!["A", "B", "a", "b"]);
}

#[test]
fn a_pending_ci_is_marked_with_dots() {
    let rows = vec![Row::new(
        String::from("alpha"),
        local("# branch.head main\n"),
        remote(0_u32, CiState::Pending, 0_usize),
    )];
    assert!(render(&rows, &freshness()).contains("..."));
}
