//! Why `git status --porcelain=v2` could not be read.

use vstd::prelude::*;

verus! {

/// Why the output of `git status --porcelain=v2` could not be read.
///
/// A line that is not understood is never dropped silently: dropped, it would
/// show as "no changes" while nothing was read.
#[derive(Debug, Clone, Copy, PartialEq, Eq, Structural)]
pub enum PorcelainErrorKind {
    /// There is no `# branch.head` line (run without `--branch`).
    MissingHead,
    /// The value of a `#` header cannot be read (like `# branch.ab +x -1`).
    MalformedHeader,
    /// A line that is neither a header nor an entry.
    UnexpectedLine,
}

impl PorcelainErrorKind {
    /// The sentence that describes this kind.
    pub open spec fn message(self) -> Seq<char> {
        match self {
            PorcelainErrorKind::MissingHead => "`# branch.head` が無い（`--branch` を付けて実行する）"@,
            PorcelainErrorKind::MalformedHeader => "`#` 見出しの値が読めない"@,
            PorcelainErrorKind::UnexpectedLine => "porcelain v2 の行として読めない"@,
        }
    }

    /// Describes the kind in one sentence.
    pub fn to_string(&self) -> (text: String)
        ensures
            text@ == self.message(),
    {
        match *self {
            PorcelainErrorKind::MissingHead => String::from_str(
                "`# branch.head` が無い（`--branch` を付けて実行する）",
            ),
            PorcelainErrorKind::MalformedHeader => String::from_str("`#` 見出しの値が読めない"),
            PorcelainErrorKind::UnexpectedLine => String::from_str(
                "porcelain v2 の行として読めない",
            ),
        }
    }
}

} // verus!
