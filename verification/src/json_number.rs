//! JSON numbers, kept as they were written.

use vstd::prelude::*;

use crate::text::{bounded_decimal, chars_of, decimal_u64};

verus! {

/// A JSON number. The lexeme is kept exactly as written.
///
/// It is never turned into `f64`: GitHub's responses carry counts and PR
/// numbers as integers, and going through `f64` would round them silently past
/// 2^53. The field is private; lexemes come only from the parser, after the
/// grammar has been checked.
#[derive(Debug, Clone, PartialEq, Eq)]
pub struct JsonNumber(String);

impl View for JsonNumber {
    type V = Seq<char>;

    closed spec fn view(&self) -> Seq<char> {
        self.0@
    }
}

/// `s` holds one of the characters of `marks`.
pub open spec fn contains_any(s: Seq<char>, marks: Seq<char>) -> bool {
    exists|i: int| 0 <= i < s.len() && marks.contains(#[trigger] s[i])
}

/// What `str::parse::<u64>` reads: an optional `+`, then digits, at most `u64::MAX`.
pub open spec fn unsigned_text_value(s: Seq<char>) -> Option<nat> {
    if s.len() > 0 && s[0] == '+' {
        bounded_decimal(s.skip(1), u64::MAX as nat)
    } else {
        bounded_decimal(s, u64::MAX as nat)
    }
}

/// What `str::parse::<i64>` reads: an optional sign, then digits, within `i64`.
pub open spec fn signed_text_value(s: Seq<char>) -> Option<int> {
    if s.len() > 0 && s[0] == '-' {
        match bounded_decimal(s.skip(1), 0x8000_0000_0000_0000) {
            Some(v) => Some(-v),
            None => None,
        }
    } else if s.len() > 0 && s[0] == '+' {
        match bounded_decimal(s.skip(1), i64::MAX as nat) {
            Some(v) => Some(v as int),
            None => None,
        }
    } else {
        match bounded_decimal(s, i64::MAX as nat) {
            Some(v) => Some(v as int),
            None => None,
        }
    }
}

/// Whether `chars` holds one of `marks`.
fn holds_any(chars: &Vec<char>, marks: &Vec<char>) -> (found: bool)
    ensures
        found == contains_any(chars@, marks@),
{
    let mut i: usize = 0;
    while i < chars.len()
        invariant
            i <= chars@.len(),
            forall|k: int| 0 <= k < i ==> !marks@.contains(#[trigger] chars@[k]),
        decreases chars@.len() - i,
    {
        let mut j: usize = 0;
        while j < marks.len()
            invariant
                i < chars@.len(),
                j <= marks@.len(),
                forall|k: int| 0 <= k < j ==> marks@[k] != chars@[i as int],
            decreases marks@.len() - j,
        {
            if marks[j] == chars[i] {
                assert(marks@.contains(chars@[i as int]));
                return true;
            }
            j = j + 1;
        }
        i = i + 1;
    }
    false
}

impl JsonNumber {
    /// What [`JsonNumber::as_u64`] reads: nothing when the lexeme holds `.`,
    /// `e`, `E` or `-`; else the unsigned value, if it fits `u64`.
    pub open spec fn u64_value(self) -> Option<nat> {
        if contains_any(self@, seq!['.', 'e', 'E', '-']) {
            None
        } else {
            unsigned_text_value(self@)
        }
    }

    /// Makes a number from a lexeme whose grammar has been checked.
    pub fn new(lexeme: String) -> (number: Self)
        ensures
            number@ == lexeme@,
    {
        JsonNumber(lexeme)
    }

    /// The lexeme as written: `-0` stays `-0`, `1.50` stays `1.50`.
    pub fn lexeme(&self) -> (lexeme: &str)
        ensures
            lexeme@ == self@,
    {
        self.0.as_str()
    }

    /// Reads the number as an unsigned integer.
    ///
    /// `None` with a decimal point, an exponent or a minus sign, or when it does
    /// not fit `u64`. `1.0` is not read as 1: rounding is not hidden from the caller.
    pub fn as_u64(&self) -> (value: Option<u64>)
        ensures
            value matches Some(v) ==> self.u64_value() == Some(v as nat),
            value is None ==> self.u64_value() is None,
    {
        let chars = chars_of(self.0.as_str());
        let marks = vec!['.', 'e', 'E', '-'];
        if holds_any(&chars, &marks) {
            return None;
        }
        if chars.len() > 0 && chars[0] == '+' {
            proof {
                assert(chars@.skip(1) =~= chars@.subrange(1, chars@.len() as int));
            }
            decimal_u64(&chars, 1, chars.len())
        } else {
            proof {
                assert(chars@ =~= chars@.subrange(0, chars@.len() as int));
            }
            decimal_u64(&chars, 0, chars.len())
        }
    }

    /// Reads the number as a signed integer.
    ///
    /// `None` with a decimal point or an exponent, or when it does not fit `i64`.
    pub fn as_i64(&self) -> (value: Option<i64>)
        ensures
            contains_any(self@, seq!['.', 'e', 'E']) ==> value is None,
            !contains_any(self@, seq!['.', 'e', 'E']) ==> (match signed_text_value(self@) {
                Some(v) => value == Some(v as i64),
                None => value is None,
            }),
    {
        let chars = chars_of(self.0.as_str());
        let marks = vec!['.', 'e', 'E'];
        if holds_any(&chars, &marks) {
            return None;
        }
        let negative = chars.len() > 0 && chars[0] == '-';
        let start: usize = if chars.len() > 0 && (chars[0] == '-' || chars[0] == '+') {
            1
        } else {
            0
        };
        proof {
            assert(chars@.skip(1) =~= chars@.subrange(1, chars@.len() as int));
            assert(chars@ =~= chars@.subrange(0, chars@.len() as int));
        }
        let magnitude = match decimal_u64(&chars, start, chars.len()) {
            Some(m) => m,
            None => return None,
        };
        if negative {
            if magnitude > 0x8000_0000_0000_0000 {
                None
            } else if magnitude == 0x8000_0000_0000_0000 {
                Some(i64::MIN)
            } else {
                Some(-(magnitude as i64))
            }
        } else if magnitude > i64::MAX as u64 {
            None
        } else {
            Some(magnitude as i64)
        }
    }
}

} // verus!
