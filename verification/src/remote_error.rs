//! The report that GitHub's side could not be read.

use vstd::prelude::*;

verus! {

/// Why one repository's GitHub state could not be had.
///
/// Per repository, not per request: `gh api graphql` exits 1 as soon as
/// `errors` holds one entry, while `data` still holds the repositories that
/// succeeded. Judging by the exit code would drop them all.
#[derive(Debug, Clone, PartialEq, Eq)]
pub enum RemoteError {
    /// GitHub has no such repository (`type` is `NOT_FOUND`).
    NotFound,
    /// GitHub refused. The message is GitHub's own words.
    Rejected(String),
    /// The response has an unexpected shape. The text is where (`r1.pullRequests.totalCount`).
    Malformed(String),
}

/// The meaning of a [`RemoteError`].
pub enum RemoteErrorView {
    NotFound,
    Rejected(Seq<char>),
    Malformed(Seq<char>),
}

impl View for RemoteError {
    type V = RemoteErrorView;

    open spec fn view(&self) -> RemoteErrorView {
        match self {
            RemoteError::NotFound => RemoteErrorView::NotFound,
            RemoteError::Rejected(message) => RemoteErrorView::Rejected(message@),
            RemoteError::Malformed(path) => RemoteErrorView::Malformed(path@),
        }
    }
}

impl RemoteError {
    /// The sentence that describes the error.
    pub open spec fn message(&self) -> Seq<char> {
        match self@ {
            RemoteErrorView::NotFound => "repository not found on GitHub"@,
            RemoteErrorView::Rejected(message) => "GitHub rejected the request: "@ + message,
            RemoteErrorView::Malformed(path) => "unexpected response shape: "@ + path,
        }
    }

    /// Describes the error in one sentence.
    pub fn to_string(&self) -> (text: String)
        ensures
            text@ == self.message(),
    {
        match self {
            RemoteError::NotFound => String::from_str("repository not found on GitHub"),
            RemoteError::Rejected(message) => {
                let mut text = String::from_str("GitHub rejected the request: ");
                text.append(message.as_str());
                text
            },
            RemoteError::Malformed(path) => {
                let mut text = String::from_str("unexpected response shape: ");
                text.append(path.as_str());
                text
            },
        }
    }
}

} // verus!
