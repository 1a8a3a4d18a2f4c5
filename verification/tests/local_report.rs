use fleet_top_core::local_report::LocalReport;
use fleet_top_core::local_state::parse_porcelain;

#[test]
fn a_state_is_not_the_absence_of_one() {
    let state = parse_porcelain("# branch.head main\n").expect("読めるはずである");
    assert_ne!(LocalReport::State(state), LocalReport::Unavailable);
}
