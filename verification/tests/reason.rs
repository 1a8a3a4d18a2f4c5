use fleet_top_core::reason::first_line;

#[test]
fn the_first_non_empty_line_wins() {
    assert_eq!(first_line(b"\n  fatal: bad\nmore\n", "x"), "fatal: bad");
    assert_eq!(first_line(b"gh: not logged in\n", "x"), "gh: not logged in");
}

#[test]
fn a_silent_failure_falls_back() {
    assert_eq!(first_line(b"", "x"), "x");
    assert_eq!(first_line(b"\n \n", "x"), "x");
}
