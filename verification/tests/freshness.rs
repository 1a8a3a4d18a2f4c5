use fleet_top_core::freshness::Freshness;
use fleet_top_core::day::Day;

fn day(text: &str) -> Day {
    Day::parse_iso8601(text).expect("読めるはずである")
}

fn freshness(stale_days: u32) -> Freshness {
    Freshness::new(day("2026-09-02"), stale_days)
}

#[test]
fn keeps_what_it_was_given() {
    let found = freshness(30_u32);
    assert_eq!(found.today(), day("2026-09-02"));
    assert_eq!(found.stale_days(), 30_u32);
}

#[test]
fn the_boundary_is_strictly_greater() {
    let found = freshness(30_u32);
    assert!(!found.is_stale(day("2026-08-03")));
    assert!(found.is_stale(day("2026-08-02")));
}

#[test]
fn today_is_never_stale() {
    assert!(!freshness(0_u32).is_stale(day("2026-09-02")));
    assert!(freshness(0_u32).is_stale(day("2026-09-01")));
}

#[test]
fn the_future_is_not_stale() {
    assert!(!freshness(0_u32).is_stale(day("2026-09-03")));
}
