use fleet_top_core::ci_state::CiState;

#[test]
fn reads_the_states_github_returns() {
    assert_eq!(CiState::parse("SUCCESS"), Some(CiState::Success));
    assert_eq!(CiState::parse("FAILURE"), Some(CiState::Failure));
    assert_eq!(CiState::parse("ERROR"), Some(CiState::Failure));
    assert_eq!(CiState::parse("PENDING"), Some(CiState::Pending));
    assert_eq!(CiState::parse("EXPECTED"), Some(CiState::Pending));
}

#[test]
fn refuses_states_it_does_not_know() {
    assert_eq!(CiState::parse("SOMETHING_NEW"), None);
    assert_eq!(CiState::parse("success"), None);
    assert_eq!(CiState::parse(""), None);
}
