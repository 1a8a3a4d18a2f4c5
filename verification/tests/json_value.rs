use fleet_top_core::json_value::JsonValue;
use fleet_top_core::json_number::JsonNumber;

fn object(members: Vec<(&str, JsonValue)>) -> JsonValue {
    JsonValue::Object(
        members
            .into_iter()
            .map(|(key, value)| (String::from(key), value))
            .collect(),
    )
}

#[test]
fn accessors_answer_only_for_their_own_shape() {
    let text = JsonValue::String(String::from("main"));
    assert_eq!(text.as_str(), Some("main"));
    assert_eq!(text.as_bool(), None);
    assert_eq!(text.as_array(), None);
    assert_eq!(text.as_object(), None);
    assert_eq!(text.as_number(), None);
    assert!(!text.is_null());
}

#[test]
fn null_is_null_and_nothing_else() {
    let value = JsonValue::Null;
    assert!(value.is_null());
    assert_eq!(value.as_str(), None);
    assert_eq!(value.as_bool(), None);
    assert_eq!(value.as_array(), None);
    assert_eq!(value.as_object(), None);
    assert_eq!(value.as_number(), None);
    assert_eq!(value.get("anything"), None);
}

#[test]
fn reads_bool_number_and_array() {
    assert_eq!(JsonValue::Bool(true).as_bool(), Some(true));
    let number = JsonValue::Number(JsonNumber::new(String::from("7")));
    assert_eq!(number.as_number().and_then(JsonNumber::as_u64), Some(7_u64));
    let array = JsonValue::Array(vec![JsonValue::Null]);
    assert_eq!(array.as_array().map(<[JsonValue]>::len), Some(1_usize));
    assert!(array.as_object().is_none());
}

#[test]
fn get_reads_a_member() {
    let value = object(vec![("name", JsonValue::String(String::from("main")))]);
    assert_eq!(value.get("name").and_then(JsonValue::as_str), Some("main"));
    assert_eq!(value.get("missing"), None);
}

#[test]
fn duplicate_keys_resolve_to_the_last_one() {
    let value = object(vec![
        ("state", JsonValue::String(String::from("PENDING"))),
        ("state", JsonValue::String(String::from("SUCCESS"))),
    ]);
    assert_eq!(
        value.as_object().map(<[(String, JsonValue)]>::len),
        Some(2_usize)
    );
    assert_eq!(
        value.get("state").and_then(JsonValue::as_str),
        Some("SUCCESS")
    );
}
