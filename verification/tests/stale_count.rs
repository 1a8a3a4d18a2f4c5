use fleet_top_core::stale_count::StaleCount;

#[test]
fn a_known_count_is_not_a_truncated_one() {
    assert_ne!(StaleCount::Known(0_u32), StaleCount::Truncated);
    assert_eq!(StaleCount::Known(2_u32), StaleCount::Known(2_u32));
}
