use fleet_top_core::github_slug::{GithubSlug, parse_remote_url};

fn slug(url: &str) -> Option<(std::string::String, std::string::String)> {
    parse_remote_url(url).map(|found| {
        (
            std::string::String::from(found.owner()),
            std::string::String::from(found.name()),
        )
    })
}

fn is_alpha_beta(url: &str) -> bool {
    slug(url).is_some_and(|(owner, name)| owner == "alpha" && name == "beta")
}

#[test]
fn reads_the_accepted_forms() {
    let accepted = [
        "https://github.com/alpha/beta",
        "https://github.com/alpha/beta.git",
        "git@github.com:alpha/beta.git",
        "git@github.com:alpha/beta",
        "ssh://git@github.com/alpha/beta",
        "ssh://git@github.com/alpha/beta.git",
    ];
    for url in accepted {
        assert!(is_alpha_beta(url), "{url} を読めなかった");
    }
}

#[test]
fn trims_the_tail() {
    let accepted = [
        "https://github.com/alpha/beta\n",
        "  https://github.com/alpha/beta  \n",
        "https://github.com/alpha/beta/",
        "https://github.com/alpha/beta.git/",
        "https://github.com/alpha/beta.git\n",
    ];
    for url in accepted {
        assert!(is_alpha_beta(url), "{url} を読めなかった");
    }
}

#[test]
fn refuses_what_is_not_a_github_repository() {
    let refused = [
        "https://gitlab.com/alpha/beta",
        "https://github.com/alpha",
        "https://github.com/alpha/beta/extra",
        "https://github.com/al pha/beta",
        "https://github.com/alpha/",
        "https://github.com//beta",
        "http://github.com/alpha/beta",
        "https://github.com/alpha/beta//",
        "",
        "   ",
        "origin",
    ];
    for url in refused {
        assert_eq!(slug(url), None, "{url} を受けてしまった");
    }
}

#[test]
fn strips_the_git_suffix_only_once() {
    assert!(
        slug("https://github.com/alpha/beta.git.git")
            .is_some_and(|(_, name)| name == "beta.git")
    );
}

#[test]
fn new_refuses_bad_segments() {
    assert_eq!(GithubSlug::new("", "beta"), None);
    assert_eq!(GithubSlug::new("alpha", ""), None);
    assert_eq!(GithubSlug::new("al pha", "beta"), None);
    assert_eq!(GithubSlug::new("alpha", "be/ta"), None);
    assert_eq!(GithubSlug::new("alpha", "be~ta"), None);
    assert_eq!(GithubSlug::new(".", "beta"), None);
    assert_eq!(GithubSlug::new("..", "beta"), None);
    assert_eq!(GithubSlug::new("alpha", "."), None);
    assert_eq!(GithubSlug::new("alpha", ".."), None);
}

#[test]
fn new_accepts_the_allowed_characters() {
    let found = GithubSlug::new("Alpha_9", "be-ta.rs").expect("受けるはずである");
    assert_eq!(found.owner(), "Alpha_9");
    assert_eq!(found.name(), "be-ta.rs");
}
