use fleet_top_core::json_number::JsonNumber;

fn number(lexeme: &str) -> JsonNumber {
    JsonNumber::new(String::from(lexeme))
}

#[test]
fn keeps_the_lexeme_verbatim() {
    assert_eq!(number("-0").lexeme(), "-0");
    assert_eq!(number("1.50").lexeme(), "1.50");
}

#[test]
fn reads_unsigned_integers() {
    assert_eq!(number("0").as_u64(), Some(0_u64));
    assert_eq!(number("12").as_u64(), Some(12_u64));
}

#[test]
fn stops_at_the_unsigned_boundary() {
    assert_eq!(number("18446744073709551615").as_u64(), Some(u64::MAX));
    assert_eq!(number("18446744073709551616").as_u64(), None);
}

#[test]
fn refuses_non_integers_as_unsigned() {
    assert_eq!(number("1.0").as_u64(), None);
    assert_eq!(number("1e5").as_u64(), None);
    assert_eq!(number("1E5").as_u64(), None);
    assert_eq!(number("-1").as_u64(), None);
}

#[test]
fn reads_signed_integers() {
    assert_eq!(number("-1").as_i64(), Some(-1_i64));
    assert_eq!(number("9223372036854775807").as_i64(), Some(i64::MAX));
    assert_eq!(number("9223372036854775808").as_i64(), None);
    assert_eq!(number("1.0").as_i64(), None);
    assert_eq!(number("1e5").as_i64(), None);
}
