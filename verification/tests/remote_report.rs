use fleet_top_core::remote_report::RemoteReport;
use fleet_top_core::branch_list::BranchList;
use fleet_top_core::ci_state::CiState;
use fleet_top_core::remote_state::RemoteState;

#[test]
fn the_three_answers_are_distinct() {
    let state = RemoteState::new(
        None,
        CiState::Absent,
        0_u32,
        BranchList::new(Vec::new(), false),
    );
    assert_ne!(RemoteReport::State(state), RemoteReport::NotOnGithub);
    assert_ne!(RemoteReport::NotOnGithub, RemoteReport::Unavailable);
}
