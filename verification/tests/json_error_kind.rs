use fleet_top_core::json_error_kind::JsonErrorKind;

#[test]
fn display_names_the_offending_character() {
    let kind = JsonErrorKind::UnexpectedCharacter('x');
    assert_eq!(kind.to_string(), "unexpected character `x`");
}

#[test]
fn json_error_kind_every_kind_has_a_message() {
    let kinds = [
        JsonErrorKind::UnexpectedEnd,
        JsonErrorKind::UnexpectedCharacter('!'),
        JsonErrorKind::InvalidEscape,
        JsonErrorKind::InvalidUnicodeEscape,
        JsonErrorKind::ControlCharacterInString,
        JsonErrorKind::InvalidNumber,
        JsonErrorKind::TrailingCharacters,
        JsonErrorKind::TooDeep,
    ];
    for kind in kinds {
        assert!(!kind.to_string().is_empty());
    }
}
