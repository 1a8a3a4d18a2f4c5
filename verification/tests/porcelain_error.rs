use fleet_top_core::porcelain_error::PorcelainError;
use fleet_top_core::porcelain_error_kind::PorcelainErrorKind;

#[test]
fn display_names_the_line_and_the_reason() {
    let error = PorcelainError::new(PorcelainErrorKind::MalformedHeader, 4_u32);
    assert_eq!(error.to_string(), "4行目: `#` 見出しの値が読めない");
}

#[test]
fn display_omits_the_line_when_the_whole_input_is_at_fault() {
    let error = PorcelainError::new(PorcelainErrorKind::MissingHead, 0_u32);
    assert_eq!(
        error.to_string(),
        "`# branch.head` が無い（`--branch` を付けて実行する）"
    );
}

#[test]
fn keeps_the_kind_and_the_line() {
    let error = PorcelainError::new(PorcelainErrorKind::UnexpectedLine, 2_u32);
    assert_eq!(error.kind(), &PorcelainErrorKind::UnexpectedLine);
    assert_eq!(error.line(), 2_u32);
}

#[test]
fn porcelain_error_is_a_std_error() {
    let error = PorcelainError::new(PorcelainErrorKind::MissingHead, 0_u32);
    assert!(!error.to_string().is_empty());
}
