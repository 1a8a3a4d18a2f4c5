use fleet_top_core::json_error::JsonError;
use fleet_top_core::json_error_kind::JsonErrorKind;

#[test]
fn display_names_the_offset_and_the_reason() {
    let error = JsonError::new(12_usize, JsonErrorKind::TrailingCharacters);
    assert_eq!(
        error.to_string(),
        "at character 12: trailing characters after the value"
    );
}

#[test]
fn keeps_the_offset_and_the_kind() {
    let error = JsonError::new(3_usize, JsonErrorKind::UnexpectedCharacter('z'));
    assert_eq!(error.offset(), 3_usize);
    assert_eq!(error.kind(), &JsonErrorKind::UnexpectedCharacter('z'));
}

#[test]
fn json_error_is_a_std_error() {
    let error = JsonError::new(0_usize, JsonErrorKind::UnexpectedEnd);
    assert!(!error.to_string().is_empty());
}

#[test]
fn an_unexpected_character_is_also_named_in_japanese() {
    let error = JsonError::new(3_usize, JsonErrorKind::UnexpectedCharacter('2'));
    assert_eq!(
        error.to_string(),
        "at character 3: unexpected character `2`（予期しない文字）"
    );
    let end = JsonError::new(0_usize, JsonErrorKind::UnexpectedEnd);
    assert_eq!(end.to_string(), "at character 0: unexpected end of input");
}
