use fleet_top_core::cli::parse;
use fleet_top_core::github_access::GithubAccess;
use fleet_top_core::invocation::Invocation;
use fleet_top_core::options::Options;
use fleet_top_core::usage_error::UsageError;

fn words(arguments: &[&str]) -> Vec<String> {
    arguments.iter().map(|word| (*word).to_owned()).collect()
}

fn options(arguments: &[&str]) -> Options {
    match parse(&words(arguments)).expect("読めるはず") {
        Invocation::Report(found) => found,
        Invocation::Help | Invocation::Version => panic!("表を出すはず"),
    }
}

#[test]
fn an_omitted_directory_becomes_the_current_place() {
    let found = options(&[]);
    assert_eq!(found.directory(), ".");
    assert_eq!(found.stale_days(), 30_u32);
    assert_eq!(found.github(), GithubAccess::Query);
}

#[test]
fn the_only_positional_is_the_directory() {
    assert_eq!(
        options(&["/home/x/docker"]).directory(),
        "/home/x/docker"
    );
}

#[test]
fn flags_may_come_before_or_after_the_directory() {
    for arguments in [
        vec!["--stale-days", "7", "--no-github", "src"],
        vec!["src", "--no-github", "--stale-days", "7"],
    ] {
        let found = options(&arguments);
        assert_eq!(found.directory(), "src");
        assert_eq!(found.stale_days(), 7_u32);
        assert_eq!(found.github(), GithubAccess::Skip);
    }
}

#[test]
fn everything_after_the_separator_is_positional() {
    let found = options(&["--no-github", "--", "--stale-days"]);
    assert_eq!(found.directory(), "--stale-days");
    assert_eq!(found.github(), GithubAccess::Skip);
}

#[test]
fn help_and_version_win_over_the_rest() {
    assert_eq!(parse(&words(&["-h"])), Ok(Invocation::Help));
    assert_eq!(
        parse(&words(&["--no-github", "--help", "."])),
        Ok(Invocation::Help)
    );
    assert_eq!(parse(&words(&["-V"])), Ok(Invocation::Version));
    assert_eq!(parse(&words(&["--version"])), Ok(Invocation::Version));
}

#[test]
fn two_directories_are_a_usage_error() {
    assert_eq!(parse(&words(&["a", "b"])), Err(UsageError::Arguments));
}

#[test]
fn an_unknown_flag_is_a_usage_error() {
    assert_eq!(parse(&words(&["--depth", "2"])), Err(UsageError::Arguments));
    assert_eq!(parse(&words(&["-n"])), Err(UsageError::Arguments));
    assert_eq!(
        parse(&words(&["--stale-days=7"])),
        Err(UsageError::Arguments),
        "`--stale-days=N` は受けない"
    );
}

#[test]
fn a_stale_days_without_a_value_is_an_error() {
    assert_eq!(
        parse(&words(&[".", "--stale-days"])),
        Err(UsageError::StaleDaysWithoutValue)
    );
}

#[test]
fn a_value_that_is_not_a_number_is_an_error() {
    assert_eq!(
        parse(&words(&["--stale-days", "x"])),
        Err(UsageError::StaleDaysNotANumber(String::from("x")))
    );
    assert_eq!(
        parse(&words(&["--stale-days", "-1"])),
        Err(UsageError::StaleDaysNotANumber(String::from("-1")))
    );
    assert_eq!(
        parse(&words(&["--stale-days", "--no-github"])),
        Err(UsageError::StaleDaysNotANumber(String::from("--no-github")))
    );
}

#[test]
fn zero_days_is_a_number() {
    assert_eq!(options(&["--stale-days", "0"]).stale_days(), 0_u32);
}

#[test]
fn a_repeated_stale_days_is_an_error_not_an_overwrite() {
    assert_eq!(
        parse(&words(&["--stale-days", "7", "--stale-days", "9"])),
        Err(UsageError::RepeatedStaleDays)
    );
}

#[test]
fn a_repeated_no_github_stays_the_same() {
    assert_eq!(
        options(&["--no-github", "--no-github"]).github(),
        GithubAccess::Skip
    );
}
