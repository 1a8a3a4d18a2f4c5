use fleet_top_core::argument::Argument;

#[test]
fn every_flag_has_one_spelling_pair() {
    assert_eq!(Argument::read("--stale-days"), Argument::StaleDays);
    assert_eq!(Argument::read("--no-github"), Argument::NoGithub);
    assert_eq!(Argument::read("-h"), Argument::Help);
    assert_eq!(Argument::read("--help"), Argument::Help);
    assert_eq!(Argument::read("-V"), Argument::Version);
    assert_eq!(Argument::read("--version"), Argument::Version);
}

#[test]
fn a_lone_dash_is_a_path_not_a_flag() {
    assert_eq!(Argument::read("-"), Argument::Positional("-"));
    assert_eq!(Argument::read("."), Argument::Positional("."));
    assert_eq!(Argument::read("-x"), Argument::Unknown);
    assert_eq!(Argument::read("--stale-days=7"), Argument::Unknown);
}
