//! How one command-line argument reads.

use vstd::prelude::*;

use crate::text::{chars_of, same_chars};

verus! {

/// What one argument is.
///
/// Every argument before `--` falls into exactly one of these: there is no
/// "neither a flag nor a positional", so nothing slips through the parse.
#[derive(Debug, Clone, Copy, PartialEq, Eq)]
pub enum Argument<'a> {
    /// `--stale-days`. The next argument is the number of days.
    StaleDays,
    /// `--no-github`.
    NoGithub,
    /// `-h` / `--help`.
    Help,
    /// `-V` / `--version`.
    Version,
    /// The directory to survey.
    Positional(&'a str),
    /// A flag that is not known: the usage is shown and the exit code is 2.
    Unknown,
}

/// The meaning of an [`Argument`].
pub enum ArgumentView {
    StaleDays,
    NoGithub,
    Help,
    Version,
    Positional(Seq<char>),
    Unknown,
}

impl<'a> View for Argument<'a> {
    type V = ArgumentView;

    open spec fn view(&self) -> ArgumentView {
        match self {
            Argument::StaleDays => ArgumentView::StaleDays,
            Argument::NoGithub => ArgumentView::NoGithub,
            Argument::Help => ArgumentView::Help,
            Argument::Version => ArgumentView::Version,
            Argument::Positional(text) => ArgumentView::Positional(text@),
            Argument::Unknown => ArgumentView::Unknown,
        }
    }
}

/// What `text` means as an argument. `--stale-days=N` is not a spelling: one
/// way to write a thing (the flag, then its value) is all there is. A lone `-`
/// is a path, not a flag.
pub open spec fn argument_of(text: Seq<char>) -> ArgumentView {
    if text == "--stale-days"@ {
        ArgumentView::StaleDays
    } else if text == "--no-github"@ {
        ArgumentView::NoGithub
    } else if text == "-h"@ || text == "--help"@ {
        ArgumentView::Help
    } else if text == "-V"@ || text == "--version"@ {
        ArgumentView::Version
    } else if text.len() > 1 && text[0] == '-' {
        ArgumentView::Unknown
    } else {
        ArgumentView::Positional(text)
    }
}

impl<'a> Argument<'a> {
    /// Reads one argument. The caller has already taken `--` away.
    pub fn read(text: &'a str) -> (argument: Self)
        ensures
            argument@ == argument_of(text@),
            argument@ is Positional ==> argument == Argument::Positional(text),
    {
        let chars = chars_of(text);
        if same_chars(&chars, &chars_of("--stale-days")) {
            return Argument::StaleDays;
        }
        if same_chars(&chars, &chars_of("--no-github")) {
            return Argument::NoGithub;
        }
        if same_chars(&chars, &chars_of("-h")) || same_chars(&chars, &chars_of("--help")) {
            return Argument::Help;
        }
        if same_chars(&chars, &chars_of("-V")) || same_chars(&chars, &chars_of("--version")) {
            return Argument::Version;
        }
        if chars.len() > 1 && chars[0] == '-' {
            return Argument::Unknown;
        }
        Argument::Positional(text)
    }
}

} // verus!
