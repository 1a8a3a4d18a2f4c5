use fleet_top_core::usage_error::{USAGE, UsageError};

#[test]
fn the_generic_error_prints_the_usage_line() {
    assert_eq!(
        UsageError::Arguments.to_string(),
        format!("usage: {USAGE}")
    );
}

#[test]
fn a_bad_value_repeats_what_was_typed() {
    let error = UsageError::StaleDaysNotANumber(String::from("x"));
    assert_eq!(
        error.to_string(),
        "--stale-days: `x` は 0 以上の整数ではない"
    );
}
