use fleet_top_core::day::Day;

#[test]
fn unix_seconds_become_whole_days() {
    assert_eq!(Day::from_unix_seconds(0_u64).get(), 0_u32);
    assert_eq!(Day::from_unix_seconds(86_399_u64).get(), 0_u32);
    assert_eq!(Day::from_unix_seconds(86_400_u64).get(), 1_u32);
    assert_eq!(Day::from_unix_seconds(86_401_u64).get(), 1_u32);
}

#[test]
fn far_future_seconds_saturate() {
    assert_eq!(Day::from_unix_seconds(u64::MAX).get(), u32::MAX);
}

#[test]
fn matches_known_days() {
    let known = [
        ("1970-01-01", 0_u32),
        ("2000-03-01", 11_017_u32),
        ("2024-02-29", 19_782_u32),
        ("2026-09-02", 20_698_u32),
        ("9999-12-31", 2_932_896_u32),
    ];
    for (text, expected) in known {
        assert_eq!(
            Day::parse_iso8601(text).map(Day::get),
            Some(expected),
            "{text} の日数が合わない"
        );
    }
}

#[test]
fn accepts_the_github_timestamp_form() {
    assert_eq!(
        Day::parse_iso8601("2025-11-09T16:25:19Z").map(Day::get),
        Day::parse_iso8601("2025-11-09").map(Day::get)
    );
    assert_eq!(
        Day::parse_iso8601("2026-09-02T23:59:60Z"),
        Day::parse_iso8601("2026-09-02")
    );
}

#[test]
fn refuses_other_timezones_and_shapes() {
    let refused = [
        "2026-09-02T12:00:00+09:00",
        "2026-09-02T12:00:00",
        "2026-09-02 12:00:00Z",
        "2026-09-02T12:00Z",
        "2026-09-02T123456Z",
        "2026-09-02T24:00:00Z",
        "2026-09-02T12:60:00Z",
        "2026-09-02T12:00:61Z",
        "2026-09-02Textra",
        "2026-09-02T1a:00:00Z",
    ];
    for text in refused {
        assert_eq!(Day::parse_iso8601(text), None, "{text} を受けてしまった");
    }
}

#[test]
fn refuses_impossible_dates() {
    let refused = [
        "2026-02-30",
        "2100-02-29",
        "2026-00-01",
        "2026-13-01",
        "2026-09-00",
        "2026-09-31",
        "1969-12-31",
        "0001-01-01",
    ];
    for text in refused {
        assert_eq!(Day::parse_iso8601(text), None, "{text} を受けてしまった");
    }
}

#[test]
fn accepts_leap_days_only_in_leap_years() {
    assert!(Day::parse_iso8601("2024-02-29").is_some());
    assert!(Day::parse_iso8601("2000-02-29").is_some());
    assert!(Day::parse_iso8601("2100-02-29").is_none());
    assert!(Day::parse_iso8601("2023-02-29").is_none());
}

#[test]
fn refuses_signed_and_short_fields() {
    let refused = ["2026-+9-02", "2026-9-02", "202-09-02", "2026/09/02", ""];
    for text in refused {
        assert_eq!(Day::parse_iso8601(text), None, "{text} を受けてしまった");
    }
}

#[test]
fn refuses_a_multibyte_input_without_panicking() {
    assert_eq!(Day::parse_iso8601("2026-09-0あ"), None);
    assert_eq!(Day::parse_iso8601("あいうえお"), None);
}

#[test]
fn days_since_counts_forward_only() {
    let earlier = Day::parse_iso8601("2026-08-30").expect("読める");
    let later = Day::parse_iso8601("2026-09-02").expect("読める");
    assert_eq!(later.days_since(earlier), Some(3_u32));
    assert_eq!(later.days_since(later), Some(0_u32));
    assert_eq!(earlier.days_since(later), None);
}

#[test]
fn days_are_ordered() {
    let earlier = Day::parse_iso8601("2026-08-30").expect("読める");
    let later = Day::parse_iso8601("2026-09-02").expect("読める");
    assert!(earlier < later);
}
