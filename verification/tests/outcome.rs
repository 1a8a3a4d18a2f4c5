use fleet_top_core::outcome::Outcome;

#[test]
fn an_incomplete_table_is_not_a_success() {
    assert_eq!(Outcome::of(true), Outcome::Complete);
    assert_eq!(Outcome::of(false), Outcome::Partial);
    assert_ne!(Outcome::Partial, Outcome::Usage);
}
