//! That the arguments could not be read.

use vstd::prelude::*;

verus! {

/// The usage line. `--help` shows the same text: it is written once.
pub const USAGE: &'static str = "fleet-top [DIR] [--stale-days N] [--no-github]";

/// That the arguments could not be read.
///
/// There are several variants so that what can be said about the fix is
/// said: the value of `--stale-days` is typed by hand, and "usage: ..." alone
/// would not tell what was wrong.
#[derive(Debug, Clone, PartialEq, Eq)]
pub enum UsageError {
    /// The arguments have the wrong shape (two or more directories, an unknown flag).
    Arguments,
    /// `--stale-days` has no value.
    StaleDaysWithoutValue,
    /// The value of `--stale-days` is not a number of days. It holds what was typed.
    StaleDaysNotANumber(String),
    /// `--stale-days` was given more than once. The last one does not win.
    RepeatedStaleDays,
}

/// The meaning of a [`UsageError`].
pub enum UsageErrorView {
    Arguments,
    StaleDaysWithoutValue,
    StaleDaysNotANumber(Seq<char>),
    RepeatedStaleDays,
}

impl View for UsageError {
    type V = UsageErrorView;

    open spec fn view(&self) -> UsageErrorView {
        match self {
            UsageError::Arguments => UsageErrorView::Arguments,
            UsageError::StaleDaysWithoutValue => UsageErrorView::StaleDaysWithoutValue,
            UsageError::StaleDaysNotANumber(text) => UsageErrorView::StaleDaysNotANumber(text@),
            UsageError::RepeatedStaleDays => UsageErrorView::RepeatedStaleDays,
        }
    }
}

impl UsageError {
    /// The sentence shown for the error.
    pub open spec fn message(&self) -> Seq<char> {
        match self@ {
            UsageErrorView::Arguments => "usage: "@ + USAGE@,
            UsageErrorView::StaleDaysWithoutValue => "--stale-days: 日数が続いていない"@,
            UsageErrorView::StaleDaysNotANumber(text) => "--stale-days: `"@ + text
                + "` は 0 以上の整数ではない"@,
            UsageErrorView::RepeatedStaleDays => "--stale-days: 2回以上書かれている（どちらが効くかを決めない）"@,
        }
    }

    /// Describes the error in one sentence.
    pub fn to_string(&self) -> (text: String)
        ensures
            text@ == self.message(),
    {
        match self {
            UsageError::Arguments => {
                let mut text = String::from_str("usage: ");
                text.append(USAGE);
                text
            },
            UsageError::StaleDaysWithoutValue => String::from_str("--stale-days: 日数が続いていない"),
            UsageError::StaleDaysNotANumber(typed) => {
                let mut text = String::from_str("--stale-days: `");
                text.append(typed.as_str());
                text.append("` は 0 以上の整数ではない");
                text
            },
            UsageError::RepeatedStaleDays => String::from_str(
                "--stale-days: 2回以上書かれている（どちらが効くかを決めない）",
            ),
        }
    }
}

} // verus!
