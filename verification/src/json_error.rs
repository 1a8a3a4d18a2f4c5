//! The report that a JSON text could not be read.

use vstd::prelude::*;

use crate::json_error_kind::JsonErrorKind;
use crate::text::{decimal_string, decimal_text};

verus! {

/// The report that a JSON text could not be read. It always has a position and a kind.
///
/// The position counts characters (`char`s, from 0), not bytes, so that a person
/// can count it even when the response holds non-ASCII text.
#[derive(Debug, Clone, PartialEq, Eq, Structural)]
pub struct JsonError {
    offset: usize,
    kind: JsonErrorKind,
}

/// The sentence that describes a report of `kind` at character `offset`:
/// `at character N: <kind>`. A character the grammar does not allow is also
/// named in Japanese (`（予期しない文字）`), as the reports of this tool are.
pub open spec fn json_message(offset: int, kind: JsonErrorKind) -> Seq<char> {
    "at character "@ + decimal_text(offset as nat) + ": "@ + kind.message() + if kind is UnexpectedCharacter {
        UNEXPECTED_CHARACTER_NOTE@
    } else {
        Seq::empty()
    }
}

/// What a report of an unexpected character adds after the kind.
pub const UNEXPECTED_CHARACTER_NOTE: &'static str = "（予期しない文字）";

impl JsonError {
    /// The position (characters from the start) where reading stopped.
    pub closed spec fn spec_offset(&self) -> usize {
        self.offset
    }

    /// The reason reading stopped.
    pub closed spec fn spec_kind(&self) -> JsonErrorKind {
        self.kind
    }

    /// Makes a report from a position (characters, from 0) and a kind.
    pub fn new(offset: usize, kind: JsonErrorKind) -> (error: Self)
        ensures
            error.spec_offset() == offset,
            error.spec_kind() == kind,
    {
        JsonError { offset, kind }
    }

    /// The position where reading stopped: characters from the start, from 0.
    pub fn offset(&self) -> (offset: usize)
        ensures
            offset == self.spec_offset(),
    {
        self.offset
    }

    /// Why reading stopped.
    pub fn kind(&self) -> (kind: &JsonErrorKind)
        ensures
            *kind == self.spec_kind(),
    {
        &self.kind
    }

    /// The sentence that describes the report: `at character N: <kind>`.
    pub open spec fn message(&self) -> Seq<char> {
        json_message(self.spec_offset() as int, self.spec_kind())
    }

    /// Describes the report in one sentence.
    pub fn to_string(&self) -> (text: String)
        ensures
            text@ == self.message(),
    {
        let mut text = String::from_str("at character ");
        let number = decimal_string(self.offset as u64);
        text.append(number.as_str());
        text.append(": ");
        let reason = self.kind.to_string();
        text.append(reason.as_str());
        if let JsonErrorKind::UnexpectedCharacter(_) = self.kind {
            text.append(UNEXPECTED_CHARACTER_NOTE);
        }
        text
    }
}

} // verus!
