use fleet_top_core::json_parser::parse_json;
use fleet_top_core::json_error_kind::JsonErrorKind;
use fleet_top_core::json_number::JsonNumber;
use fleet_top_core::json_value::JsonValue;

const GRAPHQL_RESPONSE: &str = r#"{
  "data": {
    "r0": {
      "nameWithOwner": "example-org/alpha",
      "defaultBranchRef": {
        "name": "main",
        "target": {
          "committedDate": "2026-08-30T10:00:00Z",
          "statusCheckRollup": { "state": "SUCCESS" }
        }
      },
      "pullRequests": {
        "totalCount": 1,
        "nodes": [
          { "title": "Add login \"flow\"", "number": 12, "isDraft": false }
        ]
      },
      "refs": {
        "totalCount": 2,
        "nodes": [
          { "name": "main", "target": { "committedDate": "2026-08-30T10:00:00Z" } },
          { "name": "feat/login", "target": { "committedDate": "2026-07-01T00:00:00Z" } }
        ]
      }
    },
    "r1": null,
    "r2": {
      "nameWithOwner": "example-org/gamma",
      "defaultBranchRef": null,
      "pullRequests": { "totalCount": 0, "nodes": [] },
      "refs": { "totalCount": 0, "nodes": [] }
    }
  },
  "errors": [
    {
      "type": "NOT_FOUND",
      "path": ["r1"],
      "locations": [{ "line": 3, "column": 3 }],
      "message": "Could not resolve to a Repository with the name 'example-org/beta'."
    }
  ]
}
"#;

fn kind(source: &str) -> JsonErrorKind {
    *parse_json(source).expect_err("読めない入力である").kind()
}

fn offset(source: &str) -> usize {
    parse_json(source).expect_err("読めない入力である").offset()
}

fn text_of(source: &str) -> String {
    let value = parse_json(source).expect("読める入力である");
    String::from(value.as_str().expect("文字列である"))
}

#[test]
fn reads_the_six_kinds_of_value() {
    assert_eq!(parse_json("null"), Ok(JsonValue::Null));
    assert_eq!(parse_json("true"), Ok(JsonValue::Bool(true)));
    assert_eq!(parse_json("false"), Ok(JsonValue::Bool(false)));
    assert_eq!(
        parse_json("\"main\""),
        Ok(JsonValue::String(String::from("main")))
    );
    assert_eq!(
        parse_json("12"),
        Ok(JsonValue::Number(JsonNumber::new(String::from("12"))))
    );
    assert_eq!(
        parse_json("[]")
            .expect("配列である")
            .as_array()
            .map(<[JsonValue]>::is_empty),
        Some(true)
    );
    assert_eq!(
        parse_json("{}")
            .expect("オブジェクトである")
            .as_object()
            .map(<[(String, JsonValue)]>::is_empty),
        Some(true)
    );
}

#[test]
fn reads_nested_structures() {
    let value = parse_json(r#"{"a":[1,{"b":null}],"c":{}}"#).expect("読める");
    let inner = value
        .get("a")
        .and_then(JsonValue::as_array)
        .and_then(|items| items.get(1_usize))
        .expect("2 番目の要素がある");
    assert!(inner.get("b").is_some_and(JsonValue::is_null));
    assert_eq!(
        value
            .get("c")
            .and_then(JsonValue::as_object)
            .map(<[(String, JsonValue)]>::is_empty),
        Some(true)
    );
}

#[test]
fn reads_every_escape() {
    assert_eq!(
        text_of(r#""\"\\\/\b\f\n\r\t""#),
        String::from("\"\\/\u{8}\u{c}\n\r\t")
    );
    assert_eq!(text_of(r#""あ""#), String::from("あ"));
}

#[test]
fn joins_a_surrogate_pair() {
    assert_eq!(text_of(r#""\uD83D\uDE00""#), String::from("😀"));
    assert_eq!(text_of(r#""\ud83d\ude00""#), String::from("😀"));
    assert_eq!(text_of(r#""\u3042""#), String::from("あ"));
    assert_eq!(text_of(r#""\u0041""#), String::from("A"));
}

#[test]
fn refuses_a_lone_surrogate() {
    assert_eq!(kind(r#""\uD83D""#), JsonErrorKind::InvalidUnicodeEscape);
    assert_eq!(kind(r#""\uDE00""#), JsonErrorKind::InvalidUnicodeEscape);
    assert_eq!(kind(r#""\uD83Dx""#), JsonErrorKind::InvalidUnicodeEscape);
    assert_eq!(kind(r#""\uD83DA""#), JsonErrorKind::InvalidUnicodeEscape);
    assert_eq!(kind(r#""\u00ZZ""#), JsonErrorKind::InvalidUnicodeEscape);
    assert_eq!(
        kind(r#""\uD83D\uD83D""#),
        JsonErrorKind::InvalidUnicodeEscape
    );
}

#[test]
fn refuses_an_unknown_escape() {
    assert_eq!(kind(r#""\q""#), JsonErrorKind::InvalidEscape);
}

#[test]
fn refuses_a_raw_control_character() {
    assert_eq!(kind("\"a\nb\""), JsonErrorKind::ControlCharacterInString);
    assert_eq!(kind("\"\u{0}\""), JsonErrorKind::ControlCharacterInString);
}

#[test]
fn passes_non_ascii_through() {
    assert_eq!(text_of("\"日本語 😀\""), String::from("日本語 😀"));
}

#[test]
fn refuses_an_unterminated_string() {
    assert_eq!(kind("\"abc"), JsonErrorKind::UnexpectedEnd);
    assert_eq!(kind(r#""\"#), JsonErrorKind::UnexpectedEnd);
    assert_eq!(kind(r#""\u12"#), JsonErrorKind::UnexpectedEnd);
}

#[test]
fn accepts_the_number_grammar() {
    for source in ["-0", "0", "1e5", "1.5E-3", "-1.5e+10", "1234567890"] {
        assert!(parse_json(source).is_ok(), "{source} は読めるはずである");
    }
}

#[test]
fn refuses_malformed_numbers() {
    for source in ["01", ".5", "1.", "1e", "-", "-.5", "1e+", "00"] {
        assert_eq!(
            kind(source),
            JsonErrorKind::InvalidNumber,
            "{source} は数として拒むはずである"
        );
    }
}

#[test]
fn keeps_the_number_lexeme() {
    let value = parse_json("  -0.500e+2  ").expect("読める");
    assert_eq!(value.as_number().map(JsonNumber::lexeme), Some("-0.500e+2"));
}

#[test]
fn allows_whitespace_around_and_between_tokens() {
    let value = parse_json(" \t\r\n{ \"a\" : [ 1 , 2 ] } \n").expect("読める");
    assert_eq!(
        value
            .get("a")
            .and_then(JsonValue::as_array)
            .map(<[JsonValue]>::len),
        Some(2_usize)
    );
}

#[test]
fn refuses_other_whitespace() {
    assert_eq!(
        kind("\u{3000}1"),
        JsonErrorKind::UnexpectedCharacter('\u{3000}')
    );
}

#[test]
fn refuses_trailing_characters() {
    assert_eq!(kind("1 2"), JsonErrorKind::TrailingCharacters);
    assert_eq!(kind("{} x"), JsonErrorKind::TrailingCharacters);
    assert_eq!(kind("[1],"), JsonErrorKind::TrailingCharacters);
}

#[test]
fn refuses_an_empty_input() {
    assert_eq!(kind(""), JsonErrorKind::UnexpectedEnd);
    assert_eq!(kind("   "), JsonErrorKind::UnexpectedEnd);
}

#[test]
fn refuses_a_broken_structure() {
    let refused = [
        ("[1 2]", JsonErrorKind::UnexpectedCharacter('2')),
        ("[1,", JsonErrorKind::UnexpectedEnd),
        ("[1", JsonErrorKind::UnexpectedEnd),
        ("{", JsonErrorKind::UnexpectedEnd),
        (r#"{"a":1"#, JsonErrorKind::UnexpectedEnd),
        ("{1:2}", JsonErrorKind::UnexpectedCharacter('1')),
        (r#"{"a" 1}"#, JsonErrorKind::UnexpectedCharacter('1')),
        ("nul", JsonErrorKind::UnexpectedCharacter('n')),
        ("tru", JsonErrorKind::UnexpectedCharacter('t')),
        ("fals", JsonErrorKind::UnexpectedCharacter('f')),
        ("x", JsonErrorKind::UnexpectedCharacter('x')),
    ];
    for (source, expected) in refused {
        assert_eq!(kind(source), expected, "{source} の読み方が違う");
    }
}

#[test]
fn stops_before_the_stack_runs_out() {
    let mut deep = String::new();
    for _ in 0_u32..129_u32 {
        deep.push('[');
    }
    assert_eq!(kind(&deep), JsonErrorKind::TooDeep);
}

#[test]
fn accepts_the_deepest_allowed_nesting() {
    let mut deep = String::new();
    for _ in 0_u32..128_u32 {
        deep.push('[');
    }
    for _ in 0_u32..128_u32 {
        deep.push(']');
    }
    assert!(parse_json(&deep).is_ok());
}

#[test]
fn duplicate_keys_keep_both_and_get_returns_the_last() {
    let value = parse_json(r#"{"state":"PENDING","state":"SUCCESS"}"#).expect("読める");
    assert_eq!(
        value.as_object().map(<[(String, JsonValue)]>::len),
        Some(2_usize)
    );
    assert_eq!(
        value.get("state").and_then(JsonValue::as_str),
        Some("SUCCESS")
    );
}

#[test]
fn the_offset_counts_characters_not_bytes() {
    let source = "{\"あいう\": x}";
    assert_eq!(kind(source), JsonErrorKind::UnexpectedCharacter('x'));
    assert_eq!(offset(source), 8_usize);
    assert_eq!(source.find('x'), Some(14_usize));
}

#[test]
fn reads_a_graphql_response_fixture() {
    let value = parse_json(GRAPHQL_RESPONSE).expect("fixture は読める");
    let repository = value
        .get("data")
        .and_then(|found| found.get("r0"))
        .expect("r0 がある");
    assert_eq!(
        repository.get("nameWithOwner").and_then(JsonValue::as_str),
        Some("example-org/alpha")
    );
    assert_eq!(
        repository
            .get("defaultBranchRef")
            .and_then(|found| found.get("name"))
            .and_then(JsonValue::as_str),
        Some("main")
    );
    assert_eq!(
        repository
            .get("defaultBranchRef")
            .and_then(|found| found.get("target"))
            .and_then(|found| found.get("statusCheckRollup"))
            .and_then(|found| found.get("state"))
            .and_then(JsonValue::as_str),
        Some("SUCCESS")
    );
}

#[test]
fn reads_the_pull_requests_of_the_fixture() {
    let value = parse_json(GRAPHQL_RESPONSE).expect("fixture は読める");
    let pull_request = value
        .get("data")
        .and_then(|found| found.get("r0"))
        .and_then(|found| found.get("pullRequests"))
        .and_then(|found| found.get("nodes"))
        .and_then(JsonValue::as_array)
        .and_then(|nodes| nodes.first())
        .expect("PR が 1 件ある");
    assert_eq!(
        pull_request.get("title").and_then(JsonValue::as_str),
        Some("Add login \"flow\"")
    );
    assert_eq!(
        pull_request
            .get("number")
            .and_then(JsonValue::as_number)
            .and_then(JsonNumber::as_u64),
        Some(12_u64)
    );
    assert_eq!(
        pull_request.get("isDraft").and_then(JsonValue::as_bool),
        Some(false)
    );
}

#[test]
fn reads_the_null_repository_and_the_errors_of_the_fixture() {
    let value = parse_json(GRAPHQL_RESPONSE).expect("fixture は読める");
    let repositories = value.get("data").expect("data がある");
    assert!(repositories.get("r1").is_some_and(JsonValue::is_null));
    assert!(
        repositories
            .get("r2")
            .and_then(|found| found.get("defaultBranchRef"))
            .is_some_and(JsonValue::is_null)
    );
    let failure = value
        .get("errors")
        .and_then(JsonValue::as_array)
        .and_then(|items| items.first())
        .expect("errors が 1 件ある");
    assert_eq!(
        failure.get("type").and_then(JsonValue::as_str),
        Some("NOT_FOUND")
    );
    assert_eq!(
        failure
            .get("path")
            .and_then(JsonValue::as_array)
            .and_then(|items| items.first())
            .and_then(JsonValue::as_str),
        Some("r1")
    );
}

#[test]
fn keeps_the_order_of_the_response() {
    let value = parse_json(GRAPHQL_RESPONSE).expect("fixture は読める");
    let members = value
        .get("data")
        .and_then(JsonValue::as_object)
        .expect("data はオブジェクトである");
    let names: std::vec::Vec<&str> = members.iter().map(|member| member.0.as_str()).collect();
    assert_eq!(names, std::vec!["r0", "r1", "r2"]);
}

#[test]
fn the_display_message_carries_the_offset_and_the_kind() {
    let error = parse_json("[1 2]").expect_err("読めない");
    let message = error.to_string();
    assert!(message.contains('3'), "{message} に位置が無い");
    assert!(message.contains("予期しない文字"), "{message} に種別が無い");
}
