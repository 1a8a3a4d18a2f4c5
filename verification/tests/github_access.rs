use fleet_top_core::github_access::GithubAccess;

#[test]
fn the_two_answers_are_distinct() {
    assert_ne!(GithubAccess::Query, GithubAccess::Skip);
}
