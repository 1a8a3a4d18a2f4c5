//! Why a JSON text could not be read.

use vstd::prelude::*;

use crate::text::push_char;

verus! {

/// Why a JSON text could not be read.
///
/// It says what happened, not just that reading failed: a cut-off response, an
/// unexpected character and a badly written number call for different responses.
#[derive(Debug, Clone, Copy, PartialEq, Eq, Structural)]
pub enum JsonErrorKind {
    /// The input ended in the middle of a value.
    UnexpectedEnd,
    /// A character that the grammar does not allow here.
    UnexpectedCharacter(char),
    /// What follows `\` is not a JSON escape character.
    InvalidEscape,
    /// What follows `\u` is not 4 hex digits, or is a lone surrogate.
    InvalidUnicodeEscape,
    /// An unescaped control character (U+0000..U+001F) inside a string.
    ControlCharacterInString,
    /// A number not written as RFC 8259 allows (`01`, `.5`, `1.`, `1e`, `-`).
    InvalidNumber,
    /// Something other than whitespace after the one top-level value.
    TrailingCharacters,
    /// Arrays and objects nested deeper than the limit.
    TooDeep,
}

impl JsonErrorKind {
    /// The sentence that describes this kind.
    pub open spec fn message(self) -> Seq<char> {
        match self {
            JsonErrorKind::UnexpectedEnd => "unexpected end of input"@,
            JsonErrorKind::UnexpectedCharacter(c) => "unexpected character `"@ + seq![c] + "`"@,
            JsonErrorKind::InvalidEscape => "`\\` is not followed by a JSON escape character"@,
            JsonErrorKind::InvalidUnicodeEscape => "`\\u` is not 4 hex digits, or is a lone surrogate"@,
            JsonErrorKind::ControlCharacterInString => "unescaped control character in a string"@,
            JsonErrorKind::InvalidNumber => "invalid number"@,
            JsonErrorKind::TrailingCharacters => "trailing characters after the value"@,
            JsonErrorKind::TooDeep => "nesting too deep"@,
        }
    }

    /// Describes the kind in one sentence.
    pub fn to_string(&self) -> (text: String)
        ensures
            text@ == self.message(),
    {
        match *self {
            JsonErrorKind::UnexpectedEnd => String::from_str("unexpected end of input"),
            JsonErrorKind::UnexpectedCharacter(c) => {
                let mut text = String::from_str("unexpected character `");
                push_char(&mut text, c);
                text.append("`");
                text
            },
            JsonErrorKind::InvalidEscape => String::from_str(
                "`\\` is not followed by a JSON escape character",
            ),
            JsonErrorKind::InvalidUnicodeEscape => String::from_str(
                "`\\u` is not 4 hex digits, or is a lone surrogate",
            ),
            JsonErrorKind::ControlCharacterInString => String::from_str(
                "unescaped control character in a string",
            ),
            JsonErrorKind::InvalidNumber => String::from_str("invalid number"),
            JsonErrorKind::TrailingCharacters => String::from_str(
                "trailing characters after the value",
            ),
            JsonErrorKind::TooDeep => String::from_str("nesting too deep"),
        }
    }
}

} // verus!
