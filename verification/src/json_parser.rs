//! Reads JSON (RFC 8259).
//!
//! Written here rather than taken from a crate: JSON is small enough to be read
//! by hand and tested in full. No input makes the reader panic, and nesting has
//! a limit (`MAX_DEPTH` = 128) so that a broken input cannot exhaust the stack.
//!
//! What a text means is stated by the spec functions below, which read the text
//! as a sequence of characters: [`json_text`] is the whole document, and every
//! error is a position (characters from the start) and a kind.

use vstd::prelude::*;

use crate::json_error::JsonError;
use crate::json_error_kind::JsonErrorKind;
use crate::json_number::JsonNumber;
use crate::json_value::{JsonModel, JsonValue};
use crate::text::{chars_of, is_digit, push_char, starts_with_at, string_of};

verus! {

/// The nesting limit for arrays and objects.
pub const MAX_DEPTH: usize = 128;

/// The lowest high surrogate of UTF-16.
pub const HIGH_SURROGATE_START: u32 = 0xD800;

/// The lowest low surrogate of UTF-16.
pub const LOW_SURROGATE_START: u32 = 0xDC00;

/// The highest low surrogate of UTF-16.
pub const LOW_SURROGATE_END: u32 = 0xDFFF;

// ---------------------------------------------------------------------------
// The grammar, as spec functions over the characters of the text.
//
// A reading either gives a result and how many characters it used, or fails
// with a position and a kind.

/// RFC 8259 whitespace: space, tab, line feed, carriage return. Nothing else.
pub open spec fn is_json_space(c: char) -> bool {
    c == ' ' || c == '\t' || c == '\n' || c == '\r'
}

/// How many whitespace characters start at `at`.
pub open spec fn space_run(src: Seq<char>, at: int) -> nat
    decreases src.len() - at,
{
    if 0 <= at < src.len() && is_json_space(src[at]) {
        1 + space_run(src, at + 1)
    } else {
        0
    }
}

/// How many ASCII digits start at `at`.
pub open spec fn digit_run(src: Seq<char>, at: int) -> nat
    decreases src.len() - at,
{
    if 0 <= at < src.len() && is_digit(src[at]) {
        1 + digit_run(src, at + 1)
    } else {
        0
    }
}

/// The failure for a character the grammar does not allow at `at`
/// (or for the end of the input, when `at` is past it).
pub open spec fn unexpected(src: Seq<char>, at: int) -> (int, JsonErrorKind) {
    if 0 <= at < src.len() {
        (at, JsonErrorKind::UnexpectedCharacter(src[at]))
    } else {
        (at, JsonErrorKind::UnexpectedEnd)
    }
}

/// The end of the integer part of a number from `start`. A `0` cannot be
/// followed by more digits (no leading zeros).
pub open spec fn integer_end(src: Seq<char>, start: int) -> Option<int> {
    if 0 <= start < src.len() && src[start] == '0' {
        Some(start + 1)
    } else if 0 <= start < src.len() && is_digit(src[start]) {
        Some(start + digit_run(src, start))
    } else {
        None
    }
}

/// The end of the fraction from `at`: `at` itself without a `.`; none when
/// no digit follows the `.`.
pub open spec fn fraction_end(src: Seq<char>, at: int) -> Option<int> {
    if 0 <= at < src.len() && src[at] == '.' {
        if digit_run(src, at + 1) > 0 {
            Some(at + 1 + digit_run(src, at + 1))
        } else {
            None
        }
    } else {
        Some(at)
    }
}

/// The end of the exponent from `at`: `at` itself without `e` / `E`; none
/// when no digit follows (after an optional sign).
pub open spec fn exponent_end(src: Seq<char>, at: int) -> Option<int> {
    if 0 <= at < src.len() && (src[at] == 'e' || src[at] == 'E') {
        let s = if at + 1 < src.len() && (src[at + 1] == '+' || src[at + 1] == '-') {
            at + 2
        } else {
            at + 1
        };
        if digit_run(src, s) > 0 {
            Some(s + digit_run(src, s))
        } else {
            None
        }
    } else {
        Some(at)
    }
}

/// Where an RFC 8259 number starting at `pos` ends, if one does: an optional
/// `-`, the integer part, an optional fraction, an optional exponent.
pub open spec fn number_end(src: Seq<char>, pos: int) -> Option<int> {
    let start = if 0 <= pos < src.len() && src[pos] == '-' {
        pos + 1
    } else {
        pos
    };
    match integer_end(src, start) {
        None => None,
        Some(j) => match fraction_end(src, j) {
            None => None,
            Some(k) => exponent_end(src, k),
        },
    }
}

/// What follows a number looks like more of it (`01`, `1.2.3`): the number is
/// written wrongly, not followed by something else.
pub open spec fn continues_number(src: Seq<char>, at: int) -> bool {
    0 <= at < src.len() && (is_digit(src[at]) || src[at] == '.' || src[at] == 'e' || src[at] == 'E')
}

/// A number at `pos`.
pub open spec fn number_at(src: Seq<char>, pos: int) -> Result<(JsonModel, nat), (int, JsonErrorKind)> {
    match number_end(src, pos) {
        Some(end) => if !continues_number(src, end) {
            Ok((JsonModel::Number(src.subrange(pos, end)), (end - pos) as nat))
        } else {
            Err((pos, JsonErrorKind::InvalidNumber))
        },
        None => Err((pos, JsonErrorKind::InvalidNumber)),
    }
}

/// The value of a hexadecimal digit.
pub open spec fn hex_value(c: char) -> Option<nat> {
    if '0' <= c && c <= '9' {
        Some((c as int - '0' as int) as nat)
    } else if 'a' <= c && c <= 'f' {
        Some((c as int - 'a' as int + 10) as nat)
    } else if 'A' <= c && c <= 'F' {
        Some((c as int - 'A' as int + 10) as nat)
    } else {
        None
    }
}

/// The sixteen hexadecimal digits in lower case, each at the index of its value.
pub open spec fn hex_digits_lower() -> Seq<char> {
    seq!['0', '1', '2', '3', '4', '5', '6', '7', '8', '9', 'a', 'b', 'c', 'd', 'e', 'f']
}

/// The sixteen hexadecimal digits in upper case, each at the index of its value.
pub open spec fn hex_digits_upper() -> Seq<char> {
    seq!['0', '1', '2', '3', '4', '5', '6', '7', '8', '9', 'A', 'B', 'C', 'D', 'E', 'F']
}

/// Each of `0`-`9`, `a`-`f` and `A`-`F` reads as a hex digit, with the value
/// of its place among the sixteen digits.
pub proof fn law_every_hex_digit_reads_as_its_value()
    ensures
        forall|d: int|
            0 <= d < 16 ==> hex_value(#[trigger] hex_digits_lower()[d]) == Some(d as nat) && hex_value(
                hex_digits_upper()[d],
            ) == Some(d as nat),
{
    assert forall|d: int| 0 <= d < 16 implies hex_value(#[trigger] hex_digits_lower()[d]) == Some(
        d as nat,
    ) && hex_value(hex_digits_upper()[d]) == Some(d as nat) by {
        if d == 0 {
            assert(hex_digits_lower()[0] == '0' && hex_digits_upper()[0] == '0');
        } else if d == 1 {
            assert(hex_digits_lower()[1] == '1' && hex_digits_upper()[1] == '1');
        } else if d == 2 {
            assert(hex_digits_lower()[2] == '2' && hex_digits_upper()[2] == '2');
        } else if d == 3 {
            assert(hex_digits_lower()[3] == '3' && hex_digits_upper()[3] == '3');
        } else if d == 4 {
            assert(hex_digits_lower()[4] == '4' && hex_digits_upper()[4] == '4');
        } else if d == 5 {
            assert(hex_digits_lower()[5] == '5' && hex_digits_upper()[5] == '5');
        } else if d == 6 {
            assert(hex_digits_lower()[6] == '6' && hex_digits_upper()[6] == '6');
        } else if d == 7 {
            assert(hex_digits_lower()[7] == '7' && hex_digits_upper()[7] == '7');
        } else if d == 8 {
            assert(hex_digits_lower()[8] == '8' && hex_digits_upper()[8] == '8');
        } else if d == 9 {
            assert(hex_digits_lower()[9] == '9' && hex_digits_upper()[9] == '9');
        } else if d == 10 {
            assert(hex_digits_lower()[10] == 'a' && hex_digits_upper()[10] == 'A');
        } else if d == 11 {
            assert(hex_digits_lower()[11] == 'b' && hex_digits_upper()[11] == 'B');
        } else if d == 12 {
            assert(hex_digits_lower()[12] == 'c' && hex_digits_upper()[12] == 'C');
        } else if d == 13 {
            assert(hex_digits_lower()[13] == 'd' && hex_digits_upper()[13] == 'D');
        } else if d == 14 {
            assert(hex_digits_lower()[14] == 'e' && hex_digits_upper()[14] == 'E');
        } else if d == 15 {
            assert(hex_digits_lower()[15] == 'f' && hex_digits_upper()[15] == 'F');
        }
    }
}

/// Nothing else reads as a hex digit: a character that reads as the digit `d`
/// is the lower- or upper-case digit of that value.
pub proof fn law_only_hex_digits_read(c: char)
    ensures
        hex_value(c) matches Some(d) ==> d < 16 && (c == hex_digits_lower()[d as int]
            || c == hex_digits_upper()[d as int]),
{
    if let Some(d) = hex_value(c) {
        assert(d < 16);
        if d == 0 {
            assert(hex_digits_lower()[0] == '0' && hex_digits_upper()[0] == '0');
        } else if d == 1 {
            assert(hex_digits_lower()[1] == '1' && hex_digits_upper()[1] == '1');
        } else if d == 2 {
            assert(hex_digits_lower()[2] == '2' && hex_digits_upper()[2] == '2');
        } else if d == 3 {
            assert(hex_digits_lower()[3] == '3' && hex_digits_upper()[3] == '3');
        } else if d == 4 {
            assert(hex_digits_lower()[4] == '4' && hex_digits_upper()[4] == '4');
        } else if d == 5 {
            assert(hex_digits_lower()[5] == '5' && hex_digits_upper()[5] == '5');
        } else if d == 6 {
            assert(hex_digits_lower()[6] == '6' && hex_digits_upper()[6] == '6');
        } else if d == 7 {
            assert(hex_digits_lower()[7] == '7' && hex_digits_upper()[7] == '7');
        } else if d == 8 {
            assert(hex_digits_lower()[8] == '8' && hex_digits_upper()[8] == '8');
        } else if d == 9 {
            assert(hex_digits_lower()[9] == '9' && hex_digits_upper()[9] == '9');
        } else if d == 10 {
            assert(hex_digits_lower()[10] == 'a' && hex_digits_upper()[10] == 'A');
        } else if d == 11 {
            assert(hex_digits_lower()[11] == 'b' && hex_digits_upper()[11] == 'B');
        } else if d == 12 {
            assert(hex_digits_lower()[12] == 'c' && hex_digits_upper()[12] == 'C');
        } else if d == 13 {
            assert(hex_digits_lower()[13] == 'd' && hex_digits_upper()[13] == 'D');
        } else if d == 14 {
            assert(hex_digits_lower()[14] == 'e' && hex_digits_upper()[14] == 'E');
        } else if d == 15 {
            assert(hex_digits_lower()[15] == 'f' && hex_digits_upper()[15] == 'F');
        }
    }
}

/// The number that four hex digits of the values `ds` spell, first digit first.
pub open spec fn hex_number(ds: Seq<nat>) -> nat {
    ds[0] * 4096 + ds[1] * 256 + ds[2] * 16 + ds[3]
}

/// `src` holds at `at` four hex digits whose values are `ds`, each digit in
/// either case.
pub open spec fn spells_hex_digits(src: Seq<char>, at: int, ds: Seq<nat>) -> bool {
    &&& ds.len() == 4
    &&& 0 <= at
    &&& at + 4 <= src.len()
    &&& forall|i: int|
        0 <= i < 4 ==> #[trigger] ds[i] < 16 && (src[at + i] == hex_digits_lower()[ds[i] as int]
            || src[at + i] == hex_digits_upper()[ds[i] as int])
}

/// The four hex digits after `\u` are read as a number, and a number that is
/// not a surrogate is the character with that code point, four characters long.
pub proof fn law_a_unicode_escape_reads_its_code_point(src: Seq<char>, at: int, ds: Seq<nat>)
    requires
        spells_hex_digits(src, at, ds),
        is_scalar(hex_number(ds) as int),
    ensures
        hex4_at(src, at) == Ok::<nat, (int, JsonErrorKind)>(hex_number(ds)),
        unicode_escape_at(src, at) == Ok::<(char, nat), (int, JsonErrorKind)>(
            (hex_number(ds) as char, 4),
        ),
{
    law_every_hex_digit_reads_as_its_value();
    assert forall|i: int| 0 <= i < 4 implies hex_value(src[at + i]) == Some(#[trigger] ds[i]) by {
        assert(ds[i] < 16);
        assert(hex_value(hex_digits_lower()[ds[i] as int]) == Some(ds[i]));
    }
    assert(hex_value(src[at + 0]) == Some(ds[0]));
    assert(hex_value(src[at + 1]) == Some(ds[1]));
    assert(hex_value(src[at + 2]) == Some(ds[2]));
    assert(hex_value(src[at + 3]) == Some(ds[3]));
    reveal_with_fuel(hex_from, 5);
    assert(hex4_at(src, at) == Ok::<nat, (int, JsonErrorKind)>(hex_number(ds)));
}

/// A JSON text that is a string holding a single `\u` escape of a code point
/// that is not a surrogate reads as a string of that one character.
pub proof fn law_a_lone_unicode_escape_reads_as_its_character(src: Seq<char>, ds: Seq<nat>)
    requires
        src.len() == 8,
        src[0] == '"',
        src[1] == '\\',
        src[2] == 'u',
        spells_hex_digits(src, 3, ds),
        src[7] == '"',
        is_scalar(hex_number(ds) as int),
    ensures
        json_text(src) == Ok::<JsonModel, (int, JsonErrorKind)>(
            JsonModel::String(seq![hex_number(ds) as char]),
        ),
{
    law_a_unicode_escape_reads_its_code_point(src, 3, ds);
    let ch = hex_number(ds) as char;
    assert(space_run(src, 0) == 0);
    assert(escape_at(src, 2) == Ok::<(char, nat), (int, JsonErrorKind)>((ch, 5)));
    let one = Seq::<char>::empty().push(ch);
    assert(string_body(src, 7, one) == Ok::<(Seq<char>, int), (int, JsonErrorKind)>((one, 8)));
    assert(string_body(src, 1, Seq::empty()) == Ok::<(Seq<char>, int), (int, JsonErrorKind)>(
        (one, 8),
    ));
    assert(value_at(src, 0, 0) == Ok::<(JsonModel, nat), (int, JsonErrorKind)>(
        (JsonModel::String(one), 8),
    ));
    assert(space_run(src, 8) == 0);
    assert(one =~= seq![ch]);
}

/// The hex digits `k..4` of the four at `at`, after `acc` was read from the first `k`.
pub open spec fn hex_from(src: Seq<char>, at: int, k: nat, acc: nat) -> Result<nat, (int, JsonErrorKind)>
    decreases 4 - k,
{
    if k >= 4 {
        Ok(acc)
    } else if at + k >= src.len() {
        Err((at + k, JsonErrorKind::UnexpectedEnd))
    } else {
        match hex_value(src[at + k]) {
            None => Err((at + k + 1, JsonErrorKind::InvalidUnicodeEscape)),
            Some(d) => hex_from(src, at, k + 1, acc * 16 + d),
        }
    }
}

/// Four hex digits at `at`.
pub open spec fn hex4_at(src: Seq<char>, at: int) -> Result<nat, (int, JsonErrorKind)> {
    hex_from(src, at, 0, 0)
}

/// A Unicode scalar value (what `char` can hold).
pub open spec fn is_scalar(v: int) -> bool {
    (0 <= v <= 0xD7FF) || (0xE000 <= v <= 0x10FFFF)
}

/// A high surrogate of UTF-16.
pub open spec fn is_high_surrogate(v: int) -> bool {
    HIGH_SURROGATE_START <= v < LOW_SURROGATE_START
}

/// The character that a surrogate pair stands for.
pub open spec fn combined_scalar(high: int, low: int) -> int {
    0x10000 + (high - HIGH_SURROGATE_START) * 0x400 + (low - LOW_SURROGATE_START)
}

/// The rest of a `\u` escape, at `at` (just after `\u`): one character and the
/// characters used.
pub open spec fn unicode_escape_at(src: Seq<char>, at: int) -> Result<(char, nat), (int, JsonErrorKind)> {
    match hex4_at(src, at) {
        Err(e) => Err(e),
        Ok(first) => if !is_high_surrogate(first as int) {
            if is_scalar(first as int) {
                Ok((first as char, 4))
            } else {
                Err((at + 4, JsonErrorKind::InvalidUnicodeEscape))
            }
        } else if !(at + 6 <= src.len() && src[at + 4] == '\\' && src[at + 5] == 'u') {
            Err((at + 4, JsonErrorKind::InvalidUnicodeEscape))
        } else {
            match hex4_at(src, at + 6) {
                Err(e) => Err(e),
                Ok(second) => if LOW_SURROGATE_START <= second <= LOW_SURROGATE_END {
                    Ok((combined_scalar(first as int, second as int) as char, 10))
                } else {
                    Err((at + 10, JsonErrorKind::InvalidUnicodeEscape))
                },
            }
        },
    }
}

/// What follows a `\` at `at`: one character and the characters used.
pub open spec fn escape_at(src: Seq<char>, at: int) -> Result<(char, nat), (int, JsonErrorKind)> {
    if at >= src.len() {
        Err((at, JsonErrorKind::UnexpectedEnd))
    } else {
        let c = src[at];
        if c == '"' {
            Ok(('"', 1))
        } else if c == '\\' {
            Ok(('\\', 1))
        } else if c == '/' {
            Ok(('/', 1))
        } else if c == 'b' {
            Ok(('\u{8}', 1))
        } else if c == 'f' {
            Ok(('\u{c}', 1))
        } else if c == 'n' {
            Ok(('\n', 1))
        } else if c == 'r' {
            Ok(('\r', 1))
        } else if c == 't' {
            Ok(('\t', 1))
        } else if c == 'u' {
            match unicode_escape_at(src, at + 1) {
                Err(e) => Err(e),
                Ok((ch, n)) => Ok((ch, n + 1)),
            }
        } else {
            Err((at + 1, JsonErrorKind::InvalidEscape))
        }
    }
}

/// The body of a string from `at`, after `acc` was read: the text and the
/// position just past the closing quote.
pub open spec fn string_body(src: Seq<char>, at: int, acc: Seq<char>) -> Result<(Seq<char>, int), (int, JsonErrorKind)>
    decreases src.len() - at,
{
    if at < 0 || at >= src.len() {
        Err((at, JsonErrorKind::UnexpectedEnd))
    } else {
        let c = src[at];
        if c == '"' {
            Ok((acc, at + 1))
        } else if c == '\\' {
            match escape_at(src, at + 1) {
                Err(e) => Err(e),
                Ok((ch, n)) => {
                    proof {
                        lemma_escape_in_bounds(src, at + 1);
                    }
                    string_body(src, at + 1 + n, acc.push(ch))
                },
            }
        } else if ' ' > c {
            Err((at, JsonErrorKind::ControlCharacterInString))
        } else {
            string_body(src, at + 1, acc.push(c))
        }
    }
}

/// A string at `pos` (which holds `"`): the text and the characters used.
pub open spec fn string_at(src: Seq<char>, pos: int) -> Result<(Seq<char>, nat), (int, JsonErrorKind)> {
    match string_body(src, pos + 1, Seq::empty()) {
        Err(e) => Err(e),
        Ok((text, end)) => Ok((text, (end - pos) as nat)),
    }
}

/// `null`, `true` or `false` at `pos`.
pub open spec fn keyword_at(src: Seq<char>, pos: int, word: Seq<char>, value: JsonModel) -> Result<(JsonModel, nat), (int, JsonErrorKind)> {
    if pos + word.len() <= src.len() && src.subrange(pos, pos + word.len()) == word {
        Ok((value, word.len()))
    } else {
        Err(unexpected(src, pos))
    }
}

/// After an element, at `at`: `Ok(true)` for `,` (another element follows),
/// `Ok(false)` for `close` (the container ends).
pub open spec fn separator_at(src: Seq<char>, at: int, close: char) -> Result<bool, (int, JsonErrorKind)> {
    let r = at + space_run(src, at);
    if r >= src.len() {
        Err((r, JsonErrorKind::UnexpectedEnd))
    } else if src[r] == ',' {
        Ok(true)
    } else if src[r] == close {
        Ok(false)
    } else {
        Err((r, JsonErrorKind::UnexpectedCharacter(src[r])))
    }
}

/// One value at `pos`, nested `depth` deep: the value and the characters used.
pub open spec fn value_at(src: Seq<char>, pos: int, depth: int) -> Result<(JsonModel, nat), (int, JsonErrorKind)>
    decreases src.len() - pos, 1int,
{
    if pos < 0 || pos >= src.len() {
        Err((pos, JsonErrorKind::UnexpectedEnd))
    } else {
        let c = src[pos];
        if c == 'n' {
            keyword_at(src, pos, seq!['n', 'u', 'l', 'l'], JsonModel::Null)
        } else if c == 't' {
            keyword_at(src, pos, seq!['t', 'r', 'u', 'e'], JsonModel::Bool(true))
        } else if c == 'f' {
            keyword_at(src, pos, seq!['f', 'a', 'l', 's', 'e'], JsonModel::Bool(false))
        } else if c == '"' {
            match string_at(src, pos) {
                Err(e) => Err(e),
                Ok((text, n)) => Ok((JsonModel::String(text), n)),
            }
        } else if c == '[' || c == '{' {
            if depth + 1 > MAX_DEPTH {
                Err((pos, JsonErrorKind::TooDeep))
            } else {
                let close = if c == '[' { ']' } else { '}' };
                proof {
                    lemma_space_run_in_bounds(src, pos + 1);
                }
                let p = pos + 1 + space_run(src, pos + 1);
                if p < src.len() && src[p] == close {
                    if c == '[' {
                        Ok((JsonModel::Array(Seq::empty()), (p + 1 - pos) as nat))
                    } else {
                        Ok((JsonModel::Object(Seq::empty()), (p + 1 - pos) as nat))
                    }
                } else if c == '[' {
                    match items_from(src, p, depth + 1, Seq::empty()) {
                        Err(e) => Err(e),
                        Ok((items, end)) => Ok((JsonModel::Array(items), (end - pos) as nat)),
                    }
                } else {
                    match members_from(src, p, depth + 1, Seq::empty()) {
                        Err(e) => Err(e),
                        Ok((members, end)) => Ok((JsonModel::Object(members), (end - pos) as nat)),
                    }
                }
            }
        } else if c == '-' || c == '.' || is_digit(c) {
            number_at(src, pos)
        } else {
            Err((pos, JsonErrorKind::UnexpectedCharacter(c)))
        }
    }
}

/// The elements of an array from `p`, after `acc` was read: the elements and
/// the position just past `]`.
pub open spec fn items_from(src: Seq<char>, p: int, depth: int, acc: Seq<JsonModel>) -> Result<(Seq<JsonModel>, int), (int, JsonErrorKind)>
    decreases src.len() - p, 3int,
{
    match value_at(src, p, depth) {
        Err(e) => Err(e),
        Ok((v, n)) => {
            let q = p + n;
            let r = q + space_run(src, q);
            match separator_at(src, q, ']') {
                Err(e) => Err(e),
                Ok(more) => if more {
                    proof {
                        lemma_space_run_in_bounds(src, r + 1);
                    }
                    items_from(src, r + 1 + space_run(src, r + 1), depth, acc.push(v))
                } else {
                    Ok((acc.push(v), r + 1))
                },
            }
        },
    }
}

/// One `"key": value` member at `p`: the member and the characters used.
pub open spec fn member_at(src: Seq<char>, p: int, depth: int) -> Result<((Seq<char>, JsonModel), nat), (int, JsonErrorKind)>
    decreases src.len() - p, 2int,
{
    let a = p + space_run(src, p);
    if !(0 <= a < src.len() && src[a] == '"') {
        Err(unexpected(src, a))
    } else {
        match string_at(src, a) {
            Err(e) => Err(e),
            Ok((key, n)) => {
                let b = a + n;
                let c = b + space_run(src, b);
                if !(0 <= c < src.len() && src[c] == ':') {
                    Err(unexpected(src, c))
                } else {
                    proof {
                        lemma_space_run_in_bounds(src, c + 1);
                    }
                    let d = c + 1 + space_run(src, c + 1);
                    match value_at(src, d, depth) {
                        Err(e) => Err(e),
                        Ok((v, m)) => Ok(((key, v), (d + m - p) as nat)),
                    }
                }
            },
        }
    }
}

/// The members of an object from `p`, after `acc` was read: the members and
/// the position just past `}`.
pub open spec fn members_from(src: Seq<char>, p: int, depth: int, acc: Seq<(Seq<char>, JsonModel)>) -> Result<(Seq<(Seq<char>, JsonModel)>, int), (int, JsonErrorKind)>
    decreases src.len() - p, 3int,
{
    match member_at(src, p, depth) {
        Err(e) => Err(e),
        Ok((member, n)) => {
            let q = p + n;
            let r = q + space_run(src, q);
            match separator_at(src, q, '}') {
                Err(e) => Err(e),
                Ok(more) => if more {
                    proof {
                        lemma_space_run_in_bounds(src, r + 1);
                    }
                    members_from(src, r + 1 + space_run(src, r + 1), depth, acc.push(member))
                } else {
                    Ok((acc.push(member), r + 1))
                },
            }
        },
    }
}

/// A whole JSON text: one value, with whitespace before and after and nothing else.
pub open spec fn json_text(src: Seq<char>) -> Result<JsonModel, (int, JsonErrorKind)> {
    let p = space_run(src, 0) as int;
    match value_at(src, p, 0) {
        Err(e) => Err(e),
        Ok((v, n)) => {
            let r = p + n + space_run(src, p + n);
            if r < src.len() {
                Err((r, JsonErrorKind::TrailingCharacters))
            } else {
                Ok(v)
            }
        },
    }
}

// ---------------------------------------------------------------------------
// Facts the grammar's termination rests on.

/// Whitespace never runs past the end.
pub proof fn lemma_space_run_in_bounds(src: Seq<char>, at: int)
    ensures
        0 <= at <= src.len() ==> at + space_run(src, at) <= src.len(),
    decreases src.len() - at,
{
    if 0 <= at < src.len() && is_json_space(src[at]) {
        lemma_space_run_in_bounds(src, at + 1);
    }
}

/// Digits never run past the end.
pub proof fn lemma_digit_run_in_bounds(src: Seq<char>, at: int)
    ensures
        0 <= at <= src.len() ==> at + digit_run(src, at) <= src.len(),
    decreases src.len() - at,
{
    if 0 <= at < src.len() && is_digit(src[at]) {
        lemma_digit_run_in_bounds(src, at + 1);
    }
}

proof fn lemma_hex_from_in_bounds(src: Seq<char>, at: int, k: nat, acc: nat)
    requires
        k <= 4,
    ensures
        hex_from(src, at, k, acc) is Ok ==> at + 4 <= src.len() || k == 4,
    decreases 4 - k,
{
    if k < 4 && at + k < src.len() {
        if let Some(d) = hex_value(src[at + k]) {
            lemma_hex_from_in_bounds(src, at, k + 1, acc * 16 + d);
        }
    }
}

/// `16^n`.
pub open spec fn pow16(n: nat) -> nat
    decreases n,
{
    if n == 0 {
        1
    } else {
        16 * pow16((n - 1) as nat)
    }
}

/// An escape never runs past the end.
pub proof fn lemma_escape_in_bounds(src: Seq<char>, at: int)
    ensures
        escape_at(src, at) matches Ok((c, n)) ==> 1 <= n && at + n <= src.len(),
{
    if at < src.len() && src[at] == 'u' {
        lemma_hex_from_in_bounds(src, at + 1, 0, 0);
        lemma_hex_from_in_bounds(src, at + 7, 0, 0);
    }
}

// ---------------------------------------------------------------------------
// What every reading keeps to.

/// `value` nests at most `limit` arrays and objects.
pub open spec fn within_depth(value: JsonModel, limit: int) -> bool
    decreases value,
{
    match value {
        JsonModel::Array(items) => limit >= 1 && all_within_depth(items, limit - 1),
        JsonModel::Object(members) => limit >= 1 && members_within_depth(members, limit - 1),
        _ => limit >= 0,
    }
}

/// Every one of `items` nests at most `limit` deep.
pub open spec fn all_within_depth(items: Seq<JsonModel>, limit: int) -> bool
    decreases items,
{
    if items.len() == 0 {
        true
    } else {
        all_within_depth(items.drop_last(), limit) && within_depth(items.last(), limit)
    }
}

/// The value of every one of `members` nests at most `limit` deep.
pub open spec fn members_within_depth(members: Seq<(Seq<char>, JsonModel)>, limit: int) -> bool
    decreases members,
{
    if members.len() == 0 {
        true
    } else {
        members_within_depth(members.drop_last(), limit) && within_depth(members.last().1, limit)
    }
}

proof fn lemma_all_within_depth(items: Seq<JsonModel>, limit: int)
    ensures
        all_within_depth(items, limit) <==> forall|i: int| 0 <= i < items.len() ==> #[trigger] within_depth(items[i], limit),
    decreases items.len(),
{
    if items.len() > 0 {
        let front = items.drop_last();
        lemma_all_within_depth(front, limit);
        if all_within_depth(items, limit) {
            assert forall|i: int| 0 <= i < items.len() implies #[trigger] within_depth(items[i], limit) by {
                if i < front.len() {
                    assert(front[i] == items[i]);
                    assert(within_depth(front[i], limit));
                }
            }
        }
        if forall|i: int| 0 <= i < items.len() ==> #[trigger] within_depth(items[i], limit) {
            assert forall|i: int| 0 <= i < front.len() implies #[trigger] within_depth(front[i], limit) by {
                assert(front[i] == items[i]);
            }
            assert(within_depth(items[items.len() - 1], limit));
        }
    }
}

proof fn lemma_members_within_depth(members: Seq<(Seq<char>, JsonModel)>, limit: int)
    ensures
        members_within_depth(members, limit) <==> forall|i: int| 0 <= i < members.len() ==> #[trigger] within_depth(members[i].1, limit),
    decreases members.len(),
{
    if members.len() > 0 {
        let front = members.drop_last();
        lemma_members_within_depth(front, limit);
        if members_within_depth(members, limit) {
            assert forall|i: int| 0 <= i < members.len() implies #[trigger] within_depth(members[i].1, limit) by {
                if i < front.len() {
                    assert(front[i] == members[i]);
                    assert(within_depth(front[i].1, limit));
                }
            }
        }
        if forall|i: int| 0 <= i < members.len() ==> #[trigger] within_depth(members[i].1, limit) {
            assert forall|i: int| 0 <= i < front.len() implies #[trigger] within_depth(front[i].1, limit) by {
                assert(front[i] == members[i]);
            }
            assert(within_depth(members[members.len() - 1].1, limit));
        }
    }
}

/// An error's position lies within the text (the end included).
pub open spec fn offset_within<T>(result: Result<T, (int, JsonErrorKind)>, src: Seq<char>) -> bool {
    result matches Err((offset, _)) ==> 0 <= offset <= src.len()
}

proof fn lemma_hex_from_within(src: Seq<char>, at: int, k: nat, acc: nat)
    requires
        0 <= at,
        k <= 4,
        at + k <= src.len(),
    ensures
        offset_within(hex_from(src, at, k, acc), src),
    decreases 4 - k,
{
    if k < 4 && at + k < src.len() {
        if let Some(d) = hex_value(src[at + k]) {
            lemma_hex_from_within(src, at, k + 1, acc * 16 + d);
        }
    }
}

proof fn lemma_escape_within(src: Seq<char>, at: int)
    requires
        0 <= at <= src.len(),
    ensures
        offset_within(escape_at(src, at), src),
{
    if at < src.len() && src[at] == 'u' {
        let u = at + 1;
        lemma_hex_from_within(src, u, 0, 0);
        lemma_hex_from_in_bounds(src, u, 0, 0);
        if u + 6 <= src.len() {
            lemma_hex_from_within(src, u + 6, 0, 0);
            lemma_hex_from_in_bounds(src, u + 6, 0, 0);
        }
    }
}

proof fn lemma_string_body_within(src: Seq<char>, at: int, acc: Seq<char>)
    requires
        0 <= at <= src.len(),
    ensures
        offset_within(string_body(src, at, acc), src),
        string_body(src, at, acc) matches Ok((text, end)) ==> at < end <= src.len(),
    decreases src.len() - at,
{
    if at < src.len() {
        let c = src[at];
        if c == '\\' {
            lemma_escape_within(src, at + 1);
            lemma_escape_in_bounds(src, at + 1);
            if let Ok((ch, n)) = escape_at(src, at + 1) {
                lemma_string_body_within(src, at + 1 + n, acc.push(ch));
            }
        } else if c != '"' && !(' ' > c) {
            lemma_string_body_within(src, at + 1, acc.push(c));
        }
    }
}

proof fn lemma_number_within(src: Seq<char>, pos: int)
    requires
        0 <= pos < src.len(),
    ensures
        offset_within(number_at(src, pos), src),
        number_at(src, pos) matches Ok((v, n)) ==> pos + n <= src.len() && v is Number,
{
    let start = if src[pos] == '-' {
        pos + 1
    } else {
        pos
    };
    lemma_digit_run_in_bounds(src, start);
    if let Some(j) = integer_end(src, start) {
        lemma_digit_run_in_bounds(src, j + 1);
        if let Some(k) = fraction_end(src, j) {
            lemma_digit_run_in_bounds(src, k + 1);
            lemma_digit_run_in_bounds(src, k + 2);
        }
    }
}

proof fn lemma_value_within(src: Seq<char>, pos: int, depth: int)
    requires
        0 <= pos <= src.len(),
        0 <= depth <= MAX_DEPTH,
    ensures
        offset_within(value_at(src, pos, depth), src),
        value_at(src, pos, depth) matches Ok((v, n)) ==> pos + n <= src.len() && within_depth(
            v,
            MAX_DEPTH - depth,
        ),
    decreases src.len() - pos, 1int,
{
    if pos < src.len() {
        let c = src[pos];
        if c == '"' {
            lemma_string_body_within(src, pos + 1, Seq::empty());
            if let Ok((text, n)) = string_at(src, pos) {
                assert(within_depth(JsonModel::String(text), MAX_DEPTH - depth));
            }
        } else if c == 'n' || c == 't' || c == 'f' {
            assert(within_depth(JsonModel::Null, MAX_DEPTH - depth));
            assert(within_depth(JsonModel::Bool(true), MAX_DEPTH - depth));
            assert(within_depth(JsonModel::Bool(false), MAX_DEPTH - depth));
        } else if c == '[' || c == '{' {
            if depth + 1 <= MAX_DEPTH {
                lemma_space_run_in_bounds(src, pos + 1);
                let p = pos + 1 + space_run(src, pos + 1);
                let close = if c == '[' { ']' } else { '}' };
                if !(p < src.len() && src[p] == close) {
                    if c == '[' {
                        lemma_items_within(src, p, depth + 1, Seq::empty());
                        if let Ok((items, end)) = items_from(src, p, depth + 1, Seq::empty()) {
                            let limit = MAX_DEPTH - depth;
                            assert forall|i: int| 0 <= i < items.len() implies #[trigger] within_depth(items[i], limit - 1) by {
                                assert(within_depth(items[i], MAX_DEPTH - (depth + 1)));
                                assert(MAX_DEPTH - (depth + 1) == limit - 1);
                            }
                            assert(limit >= 1);
                            lemma_all_within_depth(items, limit - 1);
                            assert(within_depth(JsonModel::Array(items), limit));
                        }
                    } else {
                        lemma_members_within(src, p, depth + 1, Seq::empty());
                        if let Ok((members, end)) = members_from(src, p, depth + 1, Seq::empty()) {
                            let limit = MAX_DEPTH - depth;
                            assert forall|i: int| 0 <= i < members.len() implies #[trigger] within_depth(members[i].1, limit - 1) by {
                                assert(within_depth(members[i].1, MAX_DEPTH - (depth + 1)));
                                assert(MAX_DEPTH - (depth + 1) == limit - 1);
                            }
                            assert(limit >= 1);
                            lemma_members_within_depth(members, limit - 1);
                            assert(within_depth(JsonModel::Object(members), limit));
                        }
                    }
                } else {
                    assert(within_depth(JsonModel::Array(Seq::empty()), MAX_DEPTH - depth));
                    assert(within_depth(JsonModel::Object(Seq::empty()), MAX_DEPTH - depth));
                }
            }
        } else if c == '-' || c == '.' || is_digit(c) {
            lemma_number_within(src, pos);
            if let Ok((v, n)) = number_at(src, pos) {
                assert(within_depth(v, MAX_DEPTH - depth));
            }
        }
    }
}

proof fn lemma_items_within(src: Seq<char>, p: int, depth: int, acc: Seq<JsonModel>)
    requires
        0 <= p <= src.len(),
        1 <= depth <= MAX_DEPTH,
        forall|i: int| 0 <= i < acc.len() ==> #[trigger] within_depth(acc[i], MAX_DEPTH - depth),
    ensures
        offset_within(items_from(src, p, depth, acc), src),
        items_from(src, p, depth, acc) matches Ok((items, end)) ==> p < end <= src.len() && forall|i: int|
            0 <= i < items.len() ==> #[trigger] within_depth(items[i], MAX_DEPTH - depth),
    decreases src.len() - p, 3int,
{
    lemma_value_within(src, p, depth);
    if let Ok((v, n)) = value_at(src, p, depth) {
        let q = p + n;
        lemma_space_run_in_bounds(src, q);
        let r = q + space_run(src, q);
        let grown = acc.push(v);
        assert forall|i: int| 0 <= i < grown.len() implies #[trigger] within_depth(grown[i], MAX_DEPTH - depth) by {
            if i < acc.len() {
                assert(grown[i] == acc[i]);
            }
        }
        if let Ok(more) = separator_at(src, q, ']') {
            if more {
                lemma_space_run_in_bounds(src, r + 1);
                lemma_items_within(src, r + 1 + space_run(src, r + 1), depth, grown);
            }
        }
    }
}

proof fn lemma_member_within(src: Seq<char>, p: int, depth: int)
    requires
        0 <= p <= src.len(),
        1 <= depth <= MAX_DEPTH,
    ensures
        offset_within(member_at(src, p, depth), src),
        member_at(src, p, depth) matches Ok((member, n)) ==> p + n <= src.len() && within_depth(
            member.1,
            MAX_DEPTH - depth,
        ),
    decreases src.len() - p, 2int,
{
    lemma_space_run_in_bounds(src, p);
    let a = p + space_run(src, p);
    if 0 <= a < src.len() && src[a] == '"' {
        lemma_string_body_within(src, a + 1, Seq::empty());
        if let Ok((key, n)) = string_at(src, a) {
            let b = a + n;
            lemma_space_run_in_bounds(src, b);
            let c = b + space_run(src, b);
            if 0 <= c < src.len() && src[c] == ':' {
                lemma_space_run_in_bounds(src, c + 1);
                let d = c + 1 + space_run(src, c + 1);
                lemma_value_within(src, d, depth);
            }
        }
    }
}

proof fn lemma_members_within(src: Seq<char>, p: int, depth: int, acc: Seq<(Seq<char>, JsonModel)>)
    requires
        0 <= p <= src.len(),
        1 <= depth <= MAX_DEPTH,
        forall|i: int| 0 <= i < acc.len() ==> #[trigger] within_depth(acc[i].1, MAX_DEPTH - depth),
    ensures
        offset_within(members_from(src, p, depth, acc), src),
        members_from(src, p, depth, acc) matches Ok((members, end)) ==> p < end <= src.len() && forall|i: int|
            0 <= i < members.len() ==> #[trigger] within_depth(members[i].1, MAX_DEPTH - depth),
    decreases src.len() - p, 3int,
{
    lemma_member_within(src, p, depth);
    if let Ok((member, n)) = member_at(src, p, depth) {
        let q = p + n;
        lemma_space_run_in_bounds(src, q);
        let r = q + space_run(src, q);
        let grown = acc.push(member);
        assert forall|i: int| 0 <= i < grown.len() implies #[trigger] within_depth(grown[i].1, MAX_DEPTH - depth) by {
            if i < acc.len() {
                assert(grown[i] == acc[i]);
            }
        }
        if let Ok(more) = separator_at(src, q, '}') {
            if more {
                lemma_space_run_in_bounds(src, r + 1);
                lemma_members_within(src, r + 1 + space_run(src, r + 1), depth, grown);
            }
        }
    }
}

/// Reading a JSON text keeps to the text and to the depth limit: a failure
/// is at a position within the text (its end included), and what is accepted
/// nests at most `MAX_DEPTH` (128) arrays and objects.
pub proof fn law_a_json_reading_stays_within_its_limits(src: Seq<char>)
    ensures
        offset_within(json_text(src), src),
        json_text(src) matches Ok(value) ==> within_depth(value, MAX_DEPTH as int),
{
    lemma_space_run_in_bounds(src, 0);
    let p = space_run(src, 0) as int;
    lemma_value_within(src, p, 0);
    if let Ok((v, n)) = value_at(src, p, 0) {
        lemma_space_run_in_bounds(src, p + n);
    }
}

// ---------------------------------------------------------------------------
// The reader.

/// Reads JSON.
///
/// Accepts one top-level value with whitespace before and after it. Whitespace
/// is the four characters of RFC 8259 §2 (` `, `\t`, `\n`, `\r`) and no other.
///
/// An error always carries a position (characters from the start) and a kind.
pub fn parse_json(source: &str) -> (parsed: Result<JsonValue, JsonError>)
    ensures
        parsed matches Ok(v) ==> json_text(source@) == Ok::<JsonModel, (int, JsonErrorKind)>(v.model()),
        parsed matches Err(e) ==> json_text(source@) == Err::<JsonModel, (int, JsonErrorKind)>(
            (e.spec_offset() as int, e.spec_kind()),
        ),
{
    let parser = Parser::new(source);
    let start = parser.skip_whitespace(0);
    let (value, end) = match parser.value(start, 0) {
        Ok(found) => found,
        Err(error) => return Err(error),
    };
    let rest = parser.skip_whitespace(end);
    if rest < parser.chars.len() {
        return Err(parser.error(rest, JsonErrorKind::TrailingCharacters));
    }
    Ok(value)
}

/// The text being read, as characters. Positions count characters.
struct Parser {
    chars: Vec<char>,
}

/// `char::from_u32`: the character for a Unicode scalar value, `None` for a
/// surrogate or a value past U+10FFFF.
#[verifier::external_body]
fn char_from_u32(value: u32) -> (c: Option<char>)
    ensures
        is_scalar(value as int) ==> c == Some(value as char),
        !is_scalar(value as int) ==> c is None,
{
    char::from_u32(value)
}

impl Parser {
    /// Starts at the beginning of `source`.
    fn new(source: &str) -> (parser: Self)
        ensures
            parser.chars@ == source@,
    {
        Parser { chars: chars_of(source) }
    }

    /// The character at `at`, if the text goes that far.
    fn peek(&self, at: usize) -> (c: Option<char>)
        ensures
            at < self.chars@.len() ==> c == Some(self.chars@[at as int]),
            at >= self.chars@.len() ==> c is None,
    {
        if at < self.chars.len() {
            Some(self.chars[at])
        } else {
            None
        }
    }

    /// An error at `at`.
    fn error(&self, at: usize, kind: JsonErrorKind) -> (error: JsonError)
        ensures
            error.spec_offset() == at,
            error.spec_kind() == kind,
    {
        JsonError::new(at, kind)
    }

    /// The error for a character the grammar does not allow at `at`
    /// (`UnexpectedEnd` when the text has run out).
    fn unexpected(&self, at: usize) -> (error: JsonError)
        ensures
            (error.spec_offset() as int, error.spec_kind()) == unexpected(self.chars@, at as int),
    {
        match self.peek(at) {
            Some(c) => self.error(at, JsonErrorKind::UnexpectedCharacter(c)),
            None => self.error(at, JsonErrorKind::UnexpectedEnd),
        }
    }

    /// Skips RFC 8259 whitespace from `at`.
    fn skip_whitespace(&self, at: usize) -> (end: usize)
        requires
            at <= self.chars.len(),
        ensures
            end == at + space_run(self.chars@, at as int),
            end <= self.chars@.len(),
    {
        let mut end = at;
        proof {
            lemma_space_run_in_bounds(self.chars@, at as int);
        }
        while end < self.chars.len() && (self.chars[end] == ' ' || self.chars[end] == '\t'
            || self.chars[end] == '\n' || self.chars[end] == '\r')
            invariant
                at <= end <= self.chars@.len(),
                at + space_run(self.chars@, at as int) == end + space_run(self.chars@, end as int),
            decreases self.chars@.len() - end,
        {
            end = end + 1;
        }
        end
    }

    /// Goes one level deeper; `TooDeep` past the limit.
    fn enter(&self, at: usize, depth: usize) -> (inner: Result<usize, JsonError>)
        requires
            depth <= MAX_DEPTH,
        ensures
            inner matches Ok(i) ==> i == depth + 1 && i <= MAX_DEPTH,
            inner matches Err(e) ==> depth + 1 > MAX_DEPTH && e.spec_offset() == at && e.spec_kind()
                == JsonErrorKind::TooDeep,
    {
        let inner = depth + 1;
        if inner > MAX_DEPTH {
            return Err(self.error(at, JsonErrorKind::TooDeep));
        }
        Ok(inner)
    }

    /// Reads one value at `pos`, `depth` levels deep (the top-level value is at 0).
    fn value(&self, pos: usize, depth: usize) -> (read: Result<(JsonValue, usize), JsonError>)
        requires
            pos <= self.chars.len(),
            depth <= MAX_DEPTH,
        ensures
            read matches Ok((v, end)) ==> pos < end <= self.chars@.len() && value_at(
                self.chars@,
                pos as int,
                depth as int,
            ) == Ok::<(JsonModel, nat), (int, JsonErrorKind)>((v.model(), (end - pos) as nat)),
            read matches Err(e) ==> value_at(self.chars@, pos as int, depth as int) == Err::<
                (JsonModel, nat),
                (int, JsonErrorKind),
            >((e.spec_offset() as int, e.spec_kind())),
        decreases self.chars@.len() - pos, 1int,
    {
        let c = match self.peek(pos) {
            Some(c) => c,
            None => return Err(self.error(pos, JsonErrorKind::UnexpectedEnd)),
        };
        if c == 'n' {
            self.keyword(pos, &vec!['n', 'u', 'l', 'l'], JsonValue::Null)
        } else if c == 't' {
            self.keyword(pos, &vec!['t', 'r', 'u', 'e'], JsonValue::Bool(true))
        } else if c == 'f' {
            self.keyword(pos, &vec!['f', 'a', 'l', 's', 'e'], JsonValue::Bool(false))
        } else if c == '"' {
            match self.string(pos) {
                Ok((text, end)) => Ok((JsonValue::String(text), end)),
                Err(error) => Err(error),
            }
        } else if c == '[' {
            self.array(pos, depth)
        } else if c == '{' {
            self.object(pos, depth)
        } else if c == '-' || c == '.' || ('0' <= c && c <= '9') {
            self.number(pos)
        } else {
            Err(self.error(pos, JsonErrorKind::UnexpectedCharacter(c)))
        }
    }

    /// Reads `null`, `true` or `false` at `pos`.
    fn keyword(&self, pos: usize, word: &Vec<char>, value: JsonValue) -> (read: Result<(JsonValue, usize), JsonError>)
        requires
            pos < self.chars.len(),
            word@.len() > 0,
        ensures
            read matches Ok((v, end)) ==> pos < end <= self.chars@.len() && keyword_at(
                self.chars@,
                pos as int,
                word@,
                value.model(),
            ) == Ok::<(JsonModel, nat), (int, JsonErrorKind)>((v.model(), (end - pos) as nat)),
            read matches Err(e) ==> keyword_at(self.chars@, pos as int, word@, value.model())
                == Err::<(JsonModel, nat), (int, JsonErrorKind)>(
                (e.spec_offset() as int, e.spec_kind()),
            ),
    {
        if starts_with_at(&self.chars, pos, word) {
            return Ok((value, pos + word.len()));
        }
        Err(self.unexpected(pos))
    }

    /// Reads an array at `pos` (which holds `[`).
    fn array(&self, pos: usize, depth: usize) -> (read: Result<(JsonValue, usize), JsonError>)
        requires
            pos < self.chars.len(),
            self.chars@[pos as int] == '[',
            depth <= MAX_DEPTH,
        ensures
            read matches Ok((v, end)) ==> pos < end <= self.chars@.len() && value_at(
                self.chars@,
                pos as int,
                depth as int,
            ) == Ok::<(JsonModel, nat), (int, JsonErrorKind)>((v.model(), (end - pos) as nat)),
            read matches Err(e) ==> value_at(self.chars@, pos as int, depth as int) == Err::<
                (JsonModel, nat),
                (int, JsonErrorKind),
            >((e.spec_offset() as int, e.spec_kind())),
        decreases self.chars@.len() - pos, 0int,
    {
        let ghost src = self.chars@;
        let inner = match self.enter(pos, depth) {
            Ok(inner) => inner,
            Err(error) => return Err(error),
        };
        let mut p = self.skip_whitespace(pos + 1);
        let mut items: Vec<JsonValue> = Vec::new();
        if p < self.chars.len() && self.chars[p] == ']' {
            assert(JsonValue::models(items@) =~= Seq::<JsonModel>::empty());
            return Ok((JsonValue::Array(items), p + 1));
        }
        let ghost start = p;
        assert(JsonValue::models(items@) =~= Seq::<JsonModel>::empty());
        loop
            invariant
                src == self.chars@,
                src.len() == self.chars.len(),
                pos < start <= p <= src.len(),
                start == pos + 1 + space_run(src, pos + 1),
                !(start < src.len() && src[start as int] == ']'),
                value_at(src, pos as int, depth as int) == match items_from(src, start as int, inner as int, Seq::empty()) {
                    Err(e) => Err(e),
                    Ok((items, end)) => Ok((JsonModel::Array(items), (end - pos) as nat)),
                },
                inner == depth + 1,
                inner <= MAX_DEPTH,
                items_from(src, start as int, inner as int, Seq::empty()) == items_from(
                    src,
                    p as int,
                    inner as int,
                    JsonValue::models(items@),
                ),
            decreases src.len() - p,
        {
            let (v, q) = match self.value(p, inner) {
                Ok(found) => found,
                Err(error) => return Err(error),
            };
            let (more, next) = match self.separator(q, ']') {
                Ok(found) => found,
                Err(error) => return Err(error),
            };
            let ghost old_items = items@;
            items.push(v);
            assert(items@.drop_last() =~= old_items);
            if !more {
                return Ok((JsonValue::Array(items), next));
            }
            p = next;
        }
    }

    /// Reads an object at `pos` (which holds `{`).
    fn object(&self, pos: usize, depth: usize) -> (read: Result<(JsonValue, usize), JsonError>)
        requires
            pos < self.chars.len(),
            self.chars@[pos as int] == '{',
            depth <= MAX_DEPTH,
        ensures
            read matches Ok((v, end)) ==> pos < end <= self.chars@.len() && value_at(
                self.chars@,
                pos as int,
                depth as int,
            ) == Ok::<(JsonModel, nat), (int, JsonErrorKind)>((v.model(), (end - pos) as nat)),
            read matches Err(e) ==> value_at(self.chars@, pos as int, depth as int) == Err::<
                (JsonModel, nat),
                (int, JsonErrorKind),
            >((e.spec_offset() as int, e.spec_kind())),
        decreases self.chars@.len() - pos, 0int,
    {
        let ghost src = self.chars@;
        let inner = match self.enter(pos, depth) {
            Ok(inner) => inner,
            Err(error) => return Err(error),
        };
        let mut p = self.skip_whitespace(pos + 1);
        let mut members: Vec<(String, JsonValue)> = Vec::new();
        if p < self.chars.len() && self.chars[p] == '}' {
            assert(JsonValue::member_models(members@) =~= Seq::<(Seq<char>, JsonModel)>::empty());
            return Ok((JsonValue::Object(members), p + 1));
        }
        let ghost start = p;
        assert(JsonValue::member_models(members@) =~= Seq::<(Seq<char>, JsonModel)>::empty());
        loop
            invariant
                src == self.chars@,
                src.len() == self.chars.len(),
                pos < start <= p <= src.len(),
                start == pos + 1 + space_run(src, pos + 1),
                !(start < src.len() && src[start as int] == '}'),
                value_at(src, pos as int, depth as int) == match members_from(src, start as int, inner as int, Seq::empty()) {
                    Err(e) => Err(e),
                    Ok((members, end)) => Ok((JsonModel::Object(members), (end - pos) as nat)),
                },
                inner == depth + 1,
                inner <= MAX_DEPTH,
                members_from(src, start as int, inner as int, Seq::empty()) == members_from(
                    src,
                    p as int,
                    inner as int,
                    JsonValue::member_models(members@),
                ),
            decreases src.len() - p,
        {
            let (member, q) = match self.member(p, inner) {
                Ok(found) => found,
                Err(error) => return Err(error),
            };
            let (more, next) = match self.separator(q, '}') {
                Ok(found) => found,
                Err(error) => return Err(error),
            };
            let ghost old_members = members@;
            members.push(member);
            assert(members@.drop_last() =~= old_members);
            if !more {
                return Ok((JsonValue::Object(members), next));
            }
            p = next;
        }
    }

    /// Reads one `"key": value` member at `p`.
    fn member(&self, p: usize, depth: usize) -> (read: Result<((String, JsonValue), usize), JsonError>)
        requires
            p <= self.chars.len(),
            depth <= MAX_DEPTH,
        ensures
            read matches Ok((m, end)) ==> p < end <= self.chars@.len() && member_at(
                self.chars@,
                p as int,
                depth as int,
            ) == Ok::<((Seq<char>, JsonModel), nat), (int, JsonErrorKind)>(
                ((m.0@, m.1.model()), (end - p) as nat),
            ),
            read matches Err(e) ==> member_at(self.chars@, p as int, depth as int) == Err::<
                ((Seq<char>, JsonModel), nat),
                (int, JsonErrorKind),
            >((e.spec_offset() as int, e.spec_kind())),
        decreases self.chars@.len() - p, 2int,
    {
        let a = self.skip_whitespace(p);
        if !(a < self.chars.len() && self.chars[a] == '"') {
            return Err(self.unexpected(a));
        }
        let (key, b) = match self.string(a) {
            Ok(found) => found,
            Err(error) => return Err(error),
        };
        let c = self.skip_whitespace(b);
        if !(c < self.chars.len() && self.chars[c] == ':') {
            return Err(self.unexpected(c));
        }
        let d = self.skip_whitespace(c + 1);
        let (value, end) = match self.value(d, depth) {
            Ok(found) => found,
            Err(error) => return Err(error),
        };
        Ok(((key, value), end))
    }

    /// What follows an element at `at`: `,` gives `true` and the start of the
    /// next element; `close` gives `false` and the position past it.
    fn separator(&self, at: usize, close: char) -> (read: Result<(bool, usize), JsonError>)
        requires
            at <= self.chars.len(),
        ensures
            read matches Ok((more, next)) ==> {
                let r = at + space_run(self.chars@, at as int);
                &&& separator_at(self.chars@, at as int, close) == Ok::<bool, (int, JsonErrorKind)>(more)
                &&& more ==> next == r + 1 + space_run(self.chars@, r + 1)
                &&& !more ==> next == r + 1
                &&& at < next <= self.chars@.len()
            },
            read matches Err(e) ==> separator_at(self.chars@, at as int, close) == Err::<
                bool,
                (int, JsonErrorKind),
            >((e.spec_offset() as int, e.spec_kind())),
    {
        let r = self.skip_whitespace(at);
        match self.peek(r) {
            Some(c) => {
                if c == ',' {
                    let next = self.skip_whitespace(r + 1);
                    Ok((true, next))
                } else if c == close {
                    Ok((false, r + 1))
                } else {
                    Err(self.error(r, JsonErrorKind::UnexpectedCharacter(c)))
                }
            },
            None => Err(self.error(r, JsonErrorKind::UnexpectedEnd)),
        }
    }

    /// Reads a string at `pos` (which holds `"`).
    fn string(&self, pos: usize) -> (read: Result<(String, usize), JsonError>)
        requires
            pos < self.chars.len(),
            self.chars@[pos as int] == '"',
        ensures
            read matches Ok((text, end)) ==> pos < end <= self.chars@.len() && string_at(
                self.chars@,
                pos as int,
            ) == Ok::<(Seq<char>, nat), (int, JsonErrorKind)>((text@, (end - pos) as nat)),
            read matches Err(e) ==> string_at(self.chars@, pos as int) == Err::<
                (Seq<char>, nat),
                (int, JsonErrorKind),
            >((e.spec_offset() as int, e.spec_kind())),
    {
        let ghost src = self.chars@;
        let mut text = String::new();
        let mut at = pos + 1;
        assert(text@ =~= Seq::<char>::empty());
        loop
            invariant
                src == self.chars@,
                src.len() == self.chars.len(),
                pos < at <= src.len(),
                string_body(src, pos + 1, Seq::empty()) == string_body(src, at as int, text@),
            decreases src.len() - at,
        {
            let c = match self.peek(at) {
                Some(c) => c,
                None => return Err(self.error(at, JsonErrorKind::UnexpectedEnd)),
            };
            if c == '"' {
                return Ok((text, at + 1));
            } else if c == '\\' {
                let (escaped, used) = match self.escape(at + 1) {
                    Ok(found) => found,
                    Err(error) => return Err(error),
                };
                push_char(&mut text, escaped);
                at = at + 1 + used;
            } else if ' ' > c {
                return Err(self.error(at, JsonErrorKind::ControlCharacterInString));
            } else {
                push_char(&mut text, c);
                at = at + 1;
            }
        }
    }

    /// Reads what follows a `\` at `at`: one character (a surrogate pair
    /// already joined) and the characters used.
    fn escape(&self, at: usize) -> (read: Result<(char, usize), JsonError>)
        requires
            at <= self.chars.len(),
        ensures
            read matches Ok((c, n)) ==> 1 <= n && at + n <= self.chars@.len() && escape_at(
                self.chars@,
                at as int,
            ) == Ok::<(char, nat), (int, JsonErrorKind)>((c, n as nat)),
            read matches Err(e) ==> escape_at(self.chars@, at as int) == Err::<
                (char, nat),
                (int, JsonErrorKind),
            >((e.spec_offset() as int, e.spec_kind())),
    {
        let c = match self.peek(at) {
            Some(c) => c,
            None => return Err(self.error(at, JsonErrorKind::UnexpectedEnd)),
        };
        if c == '"' {
            Ok(('"', 1))
        } else if c == '\\' {
            Ok(('\\', 1))
        } else if c == '/' {
            Ok(('/', 1))
        } else if c == 'b' {
            Ok(('\u{8}', 1))
        } else if c == 'f' {
            Ok(('\u{c}', 1))
        } else if c == 'n' {
            Ok(('\n', 1))
        } else if c == 'r' {
            Ok(('\r', 1))
        } else if c == 't' {
            Ok(('\t', 1))
        } else if c == 'u' {
            match self.unicode_escape(at + 1) {
                Ok((ch, used)) => Ok((ch, used + 1)),
                Err(error) => Err(error),
            }
        } else {
            Err(self.error(at + 1, JsonErrorKind::InvalidEscape))
        }
    }

    /// Reads the rest of `\uXXXX` at `at`. A high surrogate is joined with the
    /// `\uXXXX` that must follow it.
    fn unicode_escape(&self, at: usize) -> (read: Result<(char, usize), JsonError>)
        requires
            at <= self.chars.len(),
        ensures
            read matches Ok((c, n)) ==> at + n <= self.chars@.len() && unicode_escape_at(
                self.chars@,
                at as int,
            ) == Ok::<(char, nat), (int, JsonErrorKind)>((c, n as nat)),
            read matches Err(e) ==> unicode_escape_at(self.chars@, at as int) == Err::<
                (char, nat),
                (int, JsonErrorKind),
            >((e.spec_offset() as int, e.spec_kind())),
    {
        let first = match self.hex4(at) {
            Ok(value) => value,
            Err(error) => return Err(error),
        };
        if !is_high_surrogate_value(first) {
            return match char_from_u32(first) {
                Some(c) => Ok((c, 4)),
                None => Err(self.error(at + 4, JsonErrorKind::InvalidUnicodeEscape)),
            };
        }
        if !(self.chars.len() - at >= 6 && self.chars[at + 4] == '\\' && self.chars[at + 5] == 'u') {
            return Err(self.error(at + 4, JsonErrorKind::InvalidUnicodeEscape));
        }
        let second = match self.hex4(at + 6) {
            Ok(value) => value,
            Err(error) => return Err(error),
        };
        match combine_surrogates(first, second) {
            Some(c) => Ok((c, 10)),
            None => Err(self.error(at + 10, JsonErrorKind::InvalidUnicodeEscape)),
        }
    }

    /// Reads four hex digits at `at`.
    fn hex4(&self, at: usize) -> (read: Result<u32, JsonError>)
        requires
            at <= self.chars.len(),
        ensures
            read matches Ok(v) ==> at + 4 <= self.chars@.len() && v < 0x10000 && hex4_at(
                self.chars@,
                at as int,
            ) == Ok::<nat, (int, JsonErrorKind)>(v as nat),
            read matches Err(e) ==> hex4_at(self.chars@, at as int) == Err::<
                nat,
                (int, JsonErrorKind),
            >((e.spec_offset() as int, e.spec_kind())),
    {
        let ghost src = self.chars@;
        let mut value: u32 = 0;
        let mut k: usize = 0;
        while k < 4
            invariant
                src == self.chars@,
                src.len() == self.chars.len(),
                at <= src.len(),
                k <= 4,
                k > 0 ==> at + k <= src.len(),
                value < pow16(k as nat),
                hex_from(src, at as int, 0, 0) == hex_from(src, at as int, k as nat, value as nat),
            decreases 4 - k,
        {
            let c = match self.peek(at + k) {
                Some(c) => c,
                None => return Err(self.error(at + k, JsonErrorKind::UnexpectedEnd)),
            };
            proof {
                reveal_with_fuel(pow16, 5);
            }
            let digit = match hex_digit(c) {
                Some(d) => d,
                None => return Err(self.error(at + k + 1, JsonErrorKind::InvalidUnicodeEscape)),
            };
            assert(value * 16 + digit < pow16((k + 1) as nat)) by (nonlinear_arith)
                requires
                    value < pow16(k as nat),
                    digit < 16,
                    pow16((k + 1) as nat) == 16 * pow16(k as nat),
            ;
            value = value * 16 + digit;
            k = k + 1;
        }
        proof {
            reveal_with_fuel(pow16, 5);
        }
        Ok(value)
    }

    /// Reads a number at `pos`. Anything off the grammar is `InvalidNumber`.
    fn number(&self, pos: usize) -> (read: Result<(JsonValue, usize), JsonError>)
        requires
            pos < self.chars.len(),
        ensures
            read matches Ok((v, end)) ==> pos < end <= self.chars@.len() && number_at(
                self.chars@,
                pos as int,
            ) == Ok::<(JsonModel, nat), (int, JsonErrorKind)>((v.model(), (end - pos) as nat)),
            read matches Err(e) ==> number_at(self.chars@, pos as int) == Err::<
                (JsonModel, nat),
                (int, JsonErrorKind),
            >((e.spec_offset() as int, e.spec_kind())),
    {
        let end = match number_length(&self.chars, pos) {
            Some(end) => end,
            None => return Err(self.error(pos, JsonErrorKind::InvalidNumber)),
        };
        if continues_number_at(&self.chars, end) {
            return Err(self.error(pos, JsonErrorKind::InvalidNumber));
        }
        let lexeme = string_of(&self.chars, pos, end);
        Ok((JsonValue::Number(JsonNumber::new(lexeme)), end))
    }
}

/// A high surrogate of UTF-16.
fn is_high_surrogate_value(value: u32) -> (high: bool)
    ensures
        high == is_high_surrogate(value as int),
{
    HIGH_SURROGATE_START <= value && value < LOW_SURROGATE_START
}

/// Joins a surrogate pair into one character. `None` when `low` is not a low
/// surrogate (a lone surrogate).
fn combine_surrogates(high: u32, low: u32) -> (c: Option<char>)
    requires
        is_high_surrogate(high as int),
        low < 0x10000,
    ensures
        (LOW_SURROGATE_START <= low <= LOW_SURROGATE_END) ==> c == Some(
            combined_scalar(high as int, low as int) as char,
        ),
        !(LOW_SURROGATE_START <= low <= LOW_SURROGATE_END) ==> c is None,
{
    if low < LOW_SURROGATE_START || low > LOW_SURROGATE_END {
        return None;
    }
    let upper = (high - HIGH_SURROGATE_START) * 0x400;
    let lower = low - LOW_SURROGATE_START;
    let scalar = 0x1_0000 + upper + lower;
    char_from_u32(scalar)
}

/// The value of a hexadecimal digit.
fn hex_digit(c: char) -> (d: Option<u32>)
    ensures
        d matches Some(x) ==> x < 16 && hex_value(c) == Some(x as nat),
        d is None ==> hex_value(c) is None,
{
    if '0' <= c && c <= '9' {
        Some(c as u32 - '0' as u32)
    } else if 'a' <= c && c <= 'f' {
        Some(c as u32 - 'a' as u32 + 10)
    } else if 'A' <= c && c <= 'F' {
        Some(c as u32 - 'A' as u32 + 10)
    } else {
        None
    }
}

/// Where the RFC 8259 number at `pos` ends, if the grammar allows one there.
fn number_length(chars: &Vec<char>, pos: usize) -> (end: Option<usize>)
    requires
        pos < chars.len(),
    ensures
        end matches Some(e) ==> number_end(chars@, pos as int) == Some(e as int) && pos < e
            <= chars@.len(),
        end is None ==> number_end(chars@, pos as int) is None,
{
    let start = if chars[pos] == '-' {
        pos + 1
    } else {
        pos
    };
    let after_integer = match integer_length(chars, start) {
        Some(end) => end,
        None => return None,
    };
    let after_fraction = match fraction_length(chars, after_integer) {
        Some(end) => end,
        None => return None,
    };
    exponent_length(chars, after_fraction)
}

/// The end of the integer part from `from`. A `0` cannot be followed by more
/// digits (no leading zeros).
fn integer_length(chars: &Vec<char>, from: usize) -> (end: Option<usize>)
    requires
        from <= chars@.len(),
    ensures
        end matches Some(e) ==> integer_end(chars@, from as int) == Some(e as int) && from < e
            <= chars@.len(),
        end is None ==> integer_end(chars@, from as int) is None,
{
    if from >= chars.len() {
        return None;
    }
    if chars[from] == '0' {
        return Some(from + 1);
    }
    if '0' <= chars[from] && chars[from] <= '9' {
        return Some(digits_end(chars, from));
    }
    None
}

/// The end of the fraction from `from`: unchanged without a `.`; `None` when
/// no digit follows the `.`.
fn fraction_length(chars: &Vec<char>, from: usize) -> (end: Option<usize>)
    requires
        from <= chars@.len(),
    ensures
        end matches Some(e) ==> fraction_end(chars@, from as int) == Some(e as int) && from <= e
            <= chars@.len(),
        end is None ==> fraction_end(chars@, from as int) is None,
{
    if !(from < chars.len() && chars[from] == '.') {
        return Some(from);
    }
    let start = from + 1;
    let end = digits_end(chars, start);
    if end > start {
        Some(end)
    } else {
        None
    }
}

/// The end of the exponent from `from`: unchanged without `e` / `E`; `None`
/// when no digit follows.
fn exponent_length(chars: &Vec<char>, from: usize) -> (end: Option<usize>)
    requires
        from <= chars@.len(),
    ensures
        end matches Some(e) ==> exponent_end(chars@, from as int) == Some(e as int) && from <= e
            <= chars@.len(),
        end is None ==> exponent_end(chars@, from as int) is None,
{
    if !(from < chars.len() && (chars[from] == 'e' || chars[from] == 'E')) {
        return Some(from);
    }
    let after_marker = from + 1;
    let start = if after_marker < chars.len() && (chars[after_marker] == '+' || chars[after_marker]
        == '-') {
        after_marker + 1
    } else {
        after_marker
    };
    let end = digits_end(chars, start);
    if end > start {
        Some(end)
    } else {
        None
    }
}

/// Where the run of digits from `from` ends.
fn digits_end(chars: &Vec<char>, from: usize) -> (end: usize)
    requires
        from <= chars@.len(),
    ensures
        end == from + digit_run(chars@, from as int),
        end <= chars@.len(),
{
    proof {
        lemma_digit_run_in_bounds(chars@, from as int);
    }
    let mut end = from;
    while end < chars.len() && '0' <= chars[end] && chars[end] <= '9'
        invariant
            from <= end <= chars@.len(),
            from + digit_run(chars@, from as int) == end + digit_run(chars@, end as int),
        decreases chars@.len() - end,
    {
        end = end + 1;
    }
    end
}

/// What follows a number looks like more of it.
///
/// `01` is a wrongly written number, not `0` followed by a stray `1`; without
/// this check it would be reported as trailing characters and misread.
fn continues_number_at(chars: &Vec<char>, at: usize) -> (more: bool)
    ensures
        more == continues_number(chars@, at as int),
{
    at < chars.len() && (('0' <= chars[at] && chars[at] <= '9') || chars[at] == '.' || chars[at]
        == 'e' || chars[at] == 'E')
}

} // verus!
