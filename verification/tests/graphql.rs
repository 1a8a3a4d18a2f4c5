use fleet_top_core::graphql::{REPOS_PER_QUERY, build_query, parse_response};
use fleet_top_core::ci_state::CiState;
use fleet_top_core::day::Day;
use fleet_top_core::freshness::Freshness;
use fleet_top_core::github_slug::GithubSlug;
use fleet_top_core::json_parser;
use fleet_top_core::json_value::JsonValue;
use fleet_top_core::remote_error::RemoteError;
use fleet_top_core::remote_state::RemoteState;
use fleet_top_core::stale_count::StaleCount;

const RESPONSE: &str = r#"{
  "data": {
    "r0": {
      "nameWithOwner": "example-org/alpha",
      "defaultBranchRef": {
        "name": "main",
        "target": {
          "committedDate": "2026-08-30T10:00:00Z",
          "statusCheckRollup": { "state": "SUCCESS" }
        }
      },
      "pullRequests": {
        "totalCount": 1,
        "nodes": [
          { "title": "Add login \"flow\"", "number": 12, "isDraft": false }
        ]
      },
      "refs": {
        "totalCount": 2,
        "nodes": [
          { "name": "main", "target": { "committedDate": "2026-08-30T10:00:00Z" } },
          { "name": "feat/login", "target": { "committedDate": "2026-07-01T00:00:00Z" } }
        ]
      }
    },
    "r1": null,
    "r2": {
      "nameWithOwner": "example-org/gamma",
      "defaultBranchRef": null,
      "pullRequests": { "totalCount": 0, "nodes": [] },
      "refs": { "totalCount": 0, "nodes": [] }
    }
  },
  "errors": [
    {
      "type": "NOT_FOUND",
      "path": ["r1"],
      "locations": [{ "line": 3, "column": 3 }],
      "message": "Could not resolve to a Repository with the name 'example-org/beta'."
    }
  ]
}
"#;

fn slugs(names: &[&str]) -> Vec<GithubSlug> {
    names
        .iter()
        .map(|name| GithubSlug::new("example-org", name).expect("受けるはずである"))
        .collect()
}

fn read(source: &str) -> JsonValue {
    json_parser::parse_json(source).expect("読めるはずである")
}

fn results(source: &str, count: usize) -> Vec<Result<RemoteState, RemoteError>> {
    let names: Vec<&str> = vec!["alpha", "beta", "gamma"];
    let taken = names.get(0_usize..count).unwrap_or(&names);
    parse_response(&read(source), &slugs(taken))
}

fn state(source: &str) -> RemoteState {
    results(source, 1_usize)
        .into_iter()
        .next()
        .expect("1 件返るはずである")
        .expect("読めるはずである")
}

fn error(source: &str) -> RemoteError {
    results(source, 1_usize)
        .into_iter()
        .next()
        .expect("1 件返るはずである")
        .expect_err("読めないはずである")
}

fn one(body: &str) -> String {
    format!("{{\"data\": {{\"r0\": {body}}}}}")
}

const WHOLE: &str = "{\"nameWithOwner\": \"example-org/alpha\",
     \"defaultBranchRef\": {\"name\": \"main\", \"target\": {\"committedDate\": \"2026-08-30T10:00:00Z\", \"statusCheckRollup\": {\"state\": \"SUCCESS\"}}},
     \"pullRequests\": {\"totalCount\": 1},
     \"refs\": {\"totalCount\": 2, \"nodes\": [
         {\"name\": \"main\", \"target\": {\"committedDate\": \"2026-08-30T10:00:00Z\"}},
         {\"name\": \"feat/login\", \"target\": {\"committedDate\": \"2026-07-01T00:00:00Z\"}}]}}";

#[test]
fn builds_the_query_from_the_design_note() {
    let expected = "query {\n  \
         r0: repository(owner: \"example-org\", name: \"alpha\") { ...RepoFields }\n  \
         r1: repository(owner: \"example-org\", name: \"beta\") { ...RepoFields }\n\
         }\n\
         fragment RepoFields on Repository { nameWithOwner defaultBranchRef { name target { ... on Commit { committedDate statusCheckRollup { state } } } } pullRequests(states: OPEN) { totalCount } refs(refPrefix: \"refs/heads/\", first: 100) { totalCount nodes { name target { ... on Commit { committedDate } } } } }\n";
    assert_eq!(build_query(&slugs(&["alpha", "beta"])), expected);
}

#[test]
fn an_empty_query_is_still_valid_text() {
    let query = build_query(&[]);
    assert!(query.starts_with("query {\n}\n"));
    assert!(query.ends_with("}\n"));
}

#[test]
fn the_chunk_size_is_the_measured_one() {
    assert_eq!(REPOS_PER_QUERY, 3_usize);
}

fn fixture() -> Vec<Result<RemoteState, RemoteError>> {
    parse_response(&read(RESPONSE), &slugs(&["alpha", "beta", "gamma"]))
}

fn today(stale_days: u32) -> Freshness {
    Freshness::new(
        Day::parse_iso8601("2026-09-02").expect("読める"),
        stale_days,
    )
}

#[test]
fn returns_one_result_per_slug_in_order() {
    let found = fixture();
    assert_eq!(found.len(), 3_usize);
    assert!(found.first().expect("在る").is_ok());
    assert!(found.get(1_usize).expect("在る").is_err());
    assert!(found.get(2_usize).expect("在る").is_ok());
}

#[test]
fn reads_the_repository_that_came_back() {
    let found = fixture();
    let first = found.first().expect("在る").as_ref().expect("読める");
    assert_eq!(first.default_branch(), Some("main"));
    assert_eq!(first.ci(), CiState::Success);
    assert_eq!(first.open_pull_requests(), 1_u32);
    assert_eq!(
        first.stale_branches(&today(30_u32)),
        StaleCount::Known(1_u32)
    );
}

#[test]
fn reads_the_repository_that_does_not_exist() {
    let found = fixture();
    assert_eq!(
        found
            .get(1_usize)
            .expect("在る")
            .as_ref()
            .expect_err("読めない"),
        &RemoteError::NotFound
    );
}

#[test]
fn reads_the_empty_repository() {
    let found = fixture();
    let third = found.get(2_usize).expect("在る").as_ref().expect("読める");
    assert_eq!(third.default_branch(), None);
    assert_eq!(third.ci(), CiState::Absent);
    assert_eq!(third.open_pull_requests(), 0_u32);
    assert_eq!(
        third.stale_branches(&today(30_u32)),
        StaleCount::Known(0_u32)
    );
}

#[test]
fn extra_fields_are_ignored() {
    let source = one(
        "{\"defaultBranchRef\": null, \"pullRequests\": {\"totalCount\": 0, \"nodes\": [{\"number\": 12}]}, \"refs\": {\"totalCount\": 0, \"nodes\": []}}",
    );
    assert_eq!(state(&source).open_pull_requests(), 0_u32);
}

#[test]
fn a_rejected_repository_keeps_the_message() {
    let source = "{\"data\": {\"r0\": null}, \"errors\": [{\"type\": \"FORBIDDEN\", \"path\": [\"r0\"], \"message\": \"Resource not accessible\"}]}";
    assert_eq!(
        error(source),
        RemoteError::Rejected(String::from("Resource not accessible"))
    );
}

#[test]
fn a_null_without_a_reason_is_malformed() {
    let source = "{\"data\": {\"r0\": null}, \"errors\": [{\"type\": \"NOT_FOUND\", \"path\": [\"r9\"]}]}";
    assert_eq!(error(source), RemoteError::Malformed(String::from("r0")));
}

#[test]
fn a_rejection_without_a_message_is_malformed() {
    let source = "{\"data\": {\"r0\": null}, \"errors\": [{\"type\": \"FORBIDDEN\", \"path\": [\"r0\"]}]}";
    assert_eq!(
        error(source),
        RemoteError::Malformed(String::from("errors[].message"))
    );
}

#[test]
fn a_default_branch_ref_of_the_wrong_type_is_malformed() {
    let source = one(
        "{\"defaultBranchRef\": \"main\", \"pullRequests\": {\"totalCount\": 0}, \"refs\": {\"totalCount\": 0, \"nodes\": []}}",
    );
    assert_eq!(
        error(&source),
        RemoteError::Malformed(String::from("r0.defaultBranchRef"))
    );
}

#[test]
fn a_missing_alias_is_malformed() {
    assert_eq!(
        error("{\"data\": {}}"),
        RemoteError::Malformed(String::from("r0"))
    );
}

#[test]
fn an_alias_that_is_not_an_object_is_malformed() {
    assert_eq!(
        error("{\"data\": {\"r0\": \"alpha\"}}"),
        RemoteError::Malformed(String::from("r0"))
    );
}

#[test]
fn a_request_without_data_rejects_every_repository() {
    let found = results("{\"message\": \"Bad credentials\"}", 3_usize);
    assert_eq!(found.len(), 3_usize);
    for result in found {
        assert_eq!(
            result.expect_err("読めない"),
            RemoteError::Rejected(String::from("Bad credentials"))
        );
    }
}

#[test]
fn a_request_error_list_also_carries_the_message() {
    let source = "{\"errors\": [{\"message\": \"timeout\"}]}";
    assert_eq!(
        error(source),
        RemoteError::Rejected(String::from("timeout"))
    );
}

#[test]
fn a_response_without_data_or_message_is_malformed() {
    assert_eq!(error("{}"), RemoteError::Malformed(String::from("data")));
    assert_eq!(
        error("{\"data\": null}"),
        RemoteError::Malformed(String::from("data"))
    );
}

#[test]
fn an_unknown_ci_state_is_malformed() {
    let source = one(
        "{\"defaultBranchRef\": {\"name\": \"main\", \"target\": {\"statusCheckRollup\": {\"state\": \"NEUTRAL\"}}}, \"pullRequests\": {\"totalCount\": 0}, \"refs\": {\"totalCount\": 0, \"nodes\": []}}",
    );
    assert_eq!(
        error(&source),
        RemoteError::Malformed(String::from(
            "r0.defaultBranchRef.target.statusCheckRollup.state"
        ))
    );
}

#[test]
fn a_null_rollup_means_no_checks() {
    let source = one(
        "{\"defaultBranchRef\": {\"name\": \"main\", \"target\": {\"statusCheckRollup\": null}}, \"pullRequests\": {\"totalCount\": 0}, \"refs\": {\"totalCount\": 0, \"nodes\": []}}",
    );
    let found = state(&source);
    assert_eq!(found.ci(), CiState::Absent);
    assert_eq!(found.default_branch(), Some("main"));
}

#[test]
fn a_count_that_is_not_a_number_is_malformed() {
    let source = one(
        "{\"defaultBranchRef\": null, \"pullRequests\": {\"totalCount\": \"1\"}, \"refs\": {\"totalCount\": 0, \"nodes\": []}}",
    );
    assert_eq!(
        error(&source),
        RemoteError::Malformed(String::from("r0.pullRequests.totalCount"))
    );
}

#[test]
fn a_count_that_does_not_fit_is_malformed() {
    let source = one(
        "{\"defaultBranchRef\": null, \"pullRequests\": {\"totalCount\": 4294967296}, \"refs\": {\"totalCount\": 0, \"nodes\": []}}",
    );
    assert_eq!(
        error(&source),
        RemoteError::Malformed(String::from("r0.pullRequests.totalCount"))
    );
}

#[test]
fn a_broken_committed_date_is_malformed() {
    let source = one(
        "{\"defaultBranchRef\": null, \"pullRequests\": {\"totalCount\": 0}, \"refs\": {\"totalCount\": 1, \"nodes\": [{\"name\": \"main\", \"target\": {\"committedDate\": \"2026-13-01T00:00:00Z\"}}]}}",
    );
    assert_eq!(
        error(&source),
        RemoteError::Malformed(String::from("r0.refs.nodes[0].target.committedDate"))
    );
}

#[test]
fn a_branch_without_a_name_is_malformed() {
    let source = one(
        "{\"defaultBranchRef\": null, \"pullRequests\": {\"totalCount\": 0}, \"refs\": {\"totalCount\": 1, \"nodes\": [{\"target\": {\"committedDate\": \"2026-01-01T00:00:00Z\"}}]}}",
    );
    assert_eq!(
        error(&source),
        RemoteError::Malformed(String::from("r0.refs.nodes[0].name"))
    );
}

#[test]
fn more_branches_than_nodes_means_truncated() {
    let source = one(
        "{\"defaultBranchRef\": null, \"pullRequests\": {\"totalCount\": 0}, \"refs\": {\"totalCount\": 120, \"nodes\": [{\"name\": \"main\", \"target\": {\"committedDate\": \"2020-01-01T00:00:00Z\"}}]}}",
    );
    let freshness = Freshness::new(Day::parse_iso8601("2026-09-02").expect("読める"), 30_u32);
    assert_eq!(
        state(&source).stale_branches(&freshness),
        StaleCount::Truncated
    );
}

#[test]
fn a_missing_default_branch_ref_is_malformed() {
    let source = one(
        "{\"pullRequests\": {\"totalCount\": 0}, \"refs\": {\"totalCount\": 0, \"nodes\": []}}",
    );
    assert_eq!(
        error(&source),
        RemoteError::Malformed(String::from("r0.defaultBranchRef"))
    );
}

#[test]
fn a_default_branch_ref_without_a_name_is_malformed() {
    let source = one(
        "{\"defaultBranchRef\": {\"target\": {\"statusCheckRollup\": null}}, \"pullRequests\": {\"totalCount\": 0}, \"refs\": {\"totalCount\": 0, \"nodes\": []}}",
    );
    assert_eq!(
        error(&source),
        RemoteError::Malformed(String::from("r0.defaultBranchRef.name"))
    );
}

#[test]
fn a_default_branch_ref_without_a_target_is_malformed() {
    let source = one(
        "{\"defaultBranchRef\": {\"name\": \"main\"}, \"pullRequests\": {\"totalCount\": 0}, \"refs\": {\"totalCount\": 0, \"nodes\": []}}",
    );
    assert_eq!(
        error(&source),
        RemoteError::Malformed(String::from("r0.defaultBranchRef.target"))
    );
}

#[test]
fn a_missing_rollup_is_malformed() {
    let source = one(
        "{\"defaultBranchRef\": {\"name\": \"main\", \"target\": {\"committedDate\": \"2026-01-01T00:00:00Z\"}}, \"pullRequests\": {\"totalCount\": 0}, \"refs\": {\"totalCount\": 0, \"nodes\": []}}",
    );
    assert_eq!(
        error(&source),
        RemoteError::Malformed(String::from("r0.defaultBranchRef.target.statusCheckRollup"))
    );
}

#[test]
fn missing_refs_are_malformed() {
    let source = one("{\"defaultBranchRef\": null, \"pullRequests\": {\"totalCount\": 0}}");
    assert_eq!(
        error(&source),
        RemoteError::Malformed(String::from("r0.refs"))
    );
}

#[test]
fn refs_without_nodes_are_malformed() {
    let source = one(
        "{\"defaultBranchRef\": null, \"pullRequests\": {\"totalCount\": 0}, \"refs\": {\"totalCount\": 0}}",
    );
    assert_eq!(
        error(&source),
        RemoteError::Malformed(String::from("r0.refs.nodes"))
    );
}

#[test]
fn the_whole_shape_reads() {
    let found = state(&one(WHOLE));
    assert_eq!(found.default_branch(), Some("main"));
    assert_eq!(found.ci(), CiState::Success);
    assert_eq!(found.open_pull_requests(), 1_u32);
}

#[test]
fn no_slugs_means_no_results() {
    assert!(parse_response(&read(RESPONSE), &[]).is_empty());
}
