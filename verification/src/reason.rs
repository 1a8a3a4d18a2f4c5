//! Making one line of the reason a subprocess gave for failing.
//!
//! `git` and `gh` write a reason a person can read on the first line of a
//! failure (`fatal: ...`, `gh: ...`); what follows is mostly usage advice. Beside
//! the table, the first line says the most.

use vstd::prelude::*;
use vstd::utf8::{decode_utf8, valid_utf8};

use crate::text::{chars_of, slice_chars, string_of, trim, trimmed};

verus! {

/// What `String::from_utf8_lossy` makes of `bytes`.
pub uninterp spec fn lossy_text(bytes: Seq<u8>) -> Seq<char>;

/// `bytes` as text, each invalid UTF-8 sequence replaced by U+FFFD
/// (`String::from_utf8_lossy`). Valid UTF-8 is decoded unchanged; what the
/// replacement gives is left to the name [`lossy_text`].
#[verifier::external_body]
fn utf8_lossy(bytes: &[u8]) -> (text: String)
    ensures
        text@ == lossy_text(bytes@),
        valid_utf8(bytes@) ==> text@ == decode_utf8(bytes@),
{
    String::from_utf8_lossy(bytes).into_owned()
}

/// The first line of `text[start..]` that is not blank, trimmed; lines end at
/// `\n` (`str::lines`; a `\r` before it is whitespace and goes with the trim).
/// `i` is how far the current line, starting at `start`, has been looked at.
pub open spec fn nonblank_line(text: Seq<char>, start: int, i: int) -> Option<Seq<char>>
    decreases text.len() - i,
{
    if i < start || start < 0 {
        None
    } else if i >= text.len() {
        let line = trimmed(text.subrange(start, text.len() as int));
        if line.len() > 0 {
            Some(line)
        } else {
            None
        }
    } else if text[i] == '\n' {
        let line = trimmed(text.subrange(start, i));
        if line.len() > 0 {
            Some(line)
        } else {
            nonblank_line(text, i + 1, i + 1)
        }
    } else {
        nonblank_line(text, start, i + 1)
    }
}

/// The reason to show: the first non-blank line of `text`, or `fallback`.
pub open spec fn reason_of(text: Seq<char>, fallback: Seq<char>) -> Seq<char> {
    match nonblank_line(text, 0, 0) {
        Some(line) => line,
        None => fallback,
    }
}

proof fn lemma_nonblank_line_is_not_blank(text: Seq<char>, start: int, i: int)
    ensures
        nonblank_line(text, start, i) matches Some(line) ==> line.len() > 0,
    decreases text.len() - i,
{
    if !(i < start || start < 0) && i < text.len() {
        if text[i] == '\n' {
            lemma_nonblank_line_is_not_blank(text, i + 1, i + 1);
        } else {
            lemma_nonblank_line_is_not_blank(text, start, i + 1);
        }
    }
}

/// A failure always has a reason to show: what is reported is never empty
/// when the fallback is not.
pub proof fn law_a_reason_is_never_empty(text: Seq<char>, fallback: Seq<char>)
    requires
        fallback.len() > 0,
    ensures
        reason_of(text, fallback).len() > 0,
{
    lemma_nonblank_line_is_not_blank(text, 0, 0);
}

/// The first line of `stderr` that is not blank, trimmed; `fallback` when
/// there is none. A silent failure still gets a reason.
pub fn first_line(stderr: &[u8], fallback: &str) -> (reason: String)
    ensures
        reason@ == reason_of(lossy_text(stderr@), fallback@),
        valid_utf8(stderr@) ==> reason@ == reason_of(decode_utf8(stderr@), fallback@),
{
    let text = utf8_lossy(stderr);
    let chars = chars_of(text.as_str());
    let ghost s = chars@;
    let mut start: usize = 0;
    let mut i: usize = 0;
    while i < chars.len()
        invariant
            start <= i <= chars@.len(),
            s == chars@,
            s == text@,
            text@ == lossy_text(stderr@),
            valid_utf8(stderr@) ==> text@ == decode_utf8(stderr@),
            nonblank_line(s, 0, 0) == nonblank_line(s, start as int, i as int),
        decreases chars@.len() - i,
    {
        if chars[i] == '\n' {
            let line = trim(&slice_chars(&chars, start, i));
            if line.len() > 0 {
                assert(line@.subrange(0, line@.len() as int) =~= line@);
                return string_of(&line, 0, line.len());
            }
            start = i + 1;
        }
        i = i + 1;
    }
    let line = trim(&slice_chars(&chars, start, i));
    if line.len() > 0 {
        assert(line@.subrange(0, line@.len() as int) =~= line@);
        return string_of(&line, 0, line.len());
    }
    String::from_str(fallback)
}

} // verus!
