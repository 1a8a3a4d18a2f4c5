//! The report that `git status --porcelain=v2` could not be read.

use vstd::prelude::*;

use crate::porcelain_error_kind::PorcelainErrorKind;
use crate::text::{decimal_string, decimal_text};

verus! {

/// The report that porcelain v2 could not be read. It always has a line number and a kind.
///
/// Lines count from 1; **0 means the whole input** (a problem of no single
/// line, such as [`PorcelainErrorKind::MissingHead`]).
#[derive(Debug, Clone, PartialEq, Eq, Structural)]
pub struct PorcelainError {
    kind: PorcelainErrorKind,
    line: u32,
}

/// The sentence that describes a report of `kind` at `line`: the line number
/// first, unless the whole input (line 0) is at fault.
pub open spec fn porcelain_message(kind: PorcelainErrorKind, line: u32) -> Seq<char> {
    if line == 0 {
        kind.message()
    } else {
        decimal_text(line as nat) + "行目: "@ + kind.message()
    }
}

impl PorcelainError {
    /// The reason.
    pub closed spec fn spec_kind(&self) -> PorcelainErrorKind {
        self.kind
    }

    /// The line (from 1; 0 is the whole input).
    pub closed spec fn spec_line(&self) -> u32 {
        self.line
    }

    /// Makes a report from a kind and a line number (from 1; 0 is the whole input).
    pub fn new(kind: PorcelainErrorKind, line: u32) -> (error: Self)
        ensures
            error.spec_kind() == kind,
            error.spec_line() == line,
    {
        PorcelainError { kind, line }
    }

    /// Why the output could not be read.
    pub fn kind(&self) -> (kind: &PorcelainErrorKind)
        ensures
            *kind == self.spec_kind(),
    {
        &self.kind
    }

    /// The line that could not be read (from 1). 0 is the whole input.
    pub fn line(&self) -> (line: u32)
        ensures
            line == self.spec_line(),
    {
        self.line
    }

    /// The sentence that describes the report: the line number first, unless
    /// the whole input is at fault.
    pub open spec fn message(&self) -> Seq<char> {
        porcelain_message(self.spec_kind(), self.spec_line())
    }

    /// Describes the report in one sentence.
    pub fn to_string(&self) -> (text: String)
        ensures
            text@ == self.message(),
    {
        let reason = self.kind.to_string();
        if self.line == 0 {
            return reason;
        }
        let mut text = decimal_string(self.line as u64);
        text.append("行目: ");
        text.append(reason.as_str());
        text
    }
}

} // verus!
