use fleet_top_core::remote_branch::RemoteBranch;
use fleet_top_core::day::Day;

#[test]
fn keeps_the_name_and_the_day() {
    let day = Day::parse_iso8601("2026-07-01").expect("読めるはずである");
    let branch = RemoteBranch::new(String::from("feat/login"), day);
    assert_eq!(branch.name(), "feat/login");
    assert_eq!(branch.last_commit(), day);
}
