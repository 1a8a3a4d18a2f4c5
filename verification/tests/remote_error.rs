use fleet_top_core::remote_error::RemoteError;

#[test]
fn display_carries_the_message_and_the_path() {
    assert_eq!(
        RemoteError::Rejected(String::from("Bad credentials")).to_string(),
        "GitHub rejected the request: Bad credentials"
    );
    assert_eq!(
        RemoteError::Malformed(String::from("r1.pullRequests.totalCount")).to_string(),
        "unexpected response shape: r1.pullRequests.totalCount"
    );
    assert!(!RemoteError::NotFound.to_string().is_empty());
}

#[test]
fn remote_error_is_a_std_error() {
    let error = RemoteError::NotFound;
    assert!(!error.to_string().is_empty());
}
