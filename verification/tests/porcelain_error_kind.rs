use fleet_top_core::porcelain_error_kind::PorcelainErrorKind;

#[test]
fn porcelain_error_kind_every_kind_has_a_message() {
    let kinds = [
        PorcelainErrorKind::MissingHead,
        PorcelainErrorKind::MalformedHeader,
        PorcelainErrorKind::UnexpectedLine,
    ];
    for kind in kinds {
        assert!(!kind.to_string().is_empty());
    }
}

#[test]
fn kinds_are_distinguishable() {
    assert_ne!(
        PorcelainErrorKind::MissingHead,
        PorcelainErrorKind::UnexpectedLine
    );
}
