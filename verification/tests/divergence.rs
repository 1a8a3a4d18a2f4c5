use fleet_top_core::divergence::Divergence;

#[test]
fn keeps_both_sides_apart() {
    let divergence = Divergence::new(2_u32, 1_u32);
    assert_eq!(divergence.ahead(), 2_u32);
    assert_eq!(divergence.behind(), 1_u32);
}
