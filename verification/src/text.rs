//! Character-level helpers shared by the readers: decimal digits, building
//! `String`s one character at a time, and comparing character runs.

use vstd::prelude::*;
use vstd::utf8::{decode_utf8, valid_utf8};

verus! {

/// `c` is one of the ASCII digits `0`..`9`.
pub open spec fn is_digit(c: char) -> bool {
    '0' <= c && c <= '9'
}

/// The value of an ASCII digit.
pub open spec fn digit_value(c: char) -> nat {
    (c as int - '0' as int) as nat
}

/// Every character of `s` is an ASCII digit.
pub open spec fn all_digits(s: Seq<char>) -> bool {
    forall|i: int| 0 <= i < s.len() ==> #[trigger] is_digit(s[i])
}

/// The number that a run of decimal digits denotes (most significant first).
pub open spec fn decimal_value(s: Seq<char>) -> nat
    decreases s.len(),
{
    if s.len() == 0 {
        0
    } else {
        decimal_value(s.drop_last()) * 10 + digit_value(s.last())
    }
}

/// A non-empty run of decimal digits whose value is at most `max`.
pub open spec fn bounded_decimal(s: Seq<char>, max: nat) -> Option<nat> {
    if s.len() > 0 && all_digits(s) && decimal_value(s) <= max {
        Some(decimal_value(s))
    } else {
        None
    }
}

/// A longer run of digits never denotes less than its prefix.
pub proof fn lemma_decimal_prefix_le(s: Seq<char>, n: int)
    requires
        0 <= n <= s.len(),
        all_digits(s),
    ensures
        decimal_value(s.take(n)) <= decimal_value(s),
    decreases s.len(),
{
    if n < s.len() {
        assert(s.drop_last().take(n) =~= s.take(n));
        lemma_decimal_prefix_le(s.drop_last(), n);
    } else {
        assert(s.take(n) =~= s);
    }
}

/// Reads `chars[from..to]` as an unsigned decimal number of at most `u64::MAX`.
///
/// `None` when the run is empty, holds anything but ASCII digits, or is too large.
pub fn decimal_u64(chars: &Vec<char>, from: usize, to: usize) -> (value: Option<u64>)
    requires
        from <= to <= chars@.len(),
    ensures
        value matches Some(v) ==> bounded_decimal(chars@.subrange(from as int, to as int), u64::MAX as nat) == Some(v as nat),
        value is None ==> bounded_decimal(chars@.subrange(from as int, to as int), u64::MAX as nat) is None,
{
    let ghost s = chars@.subrange(from as int, to as int);
    if from == to {
        return None;
    }
    let mut i = from;
    while i < to
        invariant
            from <= i <= to <= chars@.len(),
            s == chars@.subrange(from as int, to as int),
            forall|k: int| from <= k < i ==> is_digit(#[trigger] chars@[k]),
        decreases to - i,
    {
        if !('0' <= chars[i] && chars[i] <= '9') {
            assert(!is_digit(s[i - from]));
            return None;
        }
        i = i + 1;
    }
    assert(all_digits(s));
    let mut value: u64 = 0;
    let mut i = from;
    while i < to
        invariant
            from <= i <= to <= chars@.len(),
            s == chars@.subrange(from as int, to as int),
            all_digits(s),
            value == decimal_value(s.take(i - from)),
        decreases to - i,
    {
        let ghost prefix = s.take(i - from + 1);
        assert(prefix.drop_last() =~= s.take(i - from));
        assert(is_digit(s[i - from]));
        let d = (chars[i] as u32 - '0' as u32) as u64;
        if value > (u64::MAX - d) / 10 {
            proof {
                lemma_decimal_prefix_le(s, i - from + 1);
            }
            return None;
        }
        value = value * 10 + d;
        i = i + 1;
    }
    assert(s.take(to - from) =~= s);
    Some(value)
}

/// The ASCII digit for `d` (0..9).
pub open spec fn digit_char(d: nat) -> char {
    ((48 + d) as u8) as char
}

/// The decimal writing of `n`: no sign, no leading zeros (`0` is written `0`).
pub open spec fn decimal_text(n: nat) -> Seq<char>
    decreases n,
{
    if n < 10 {
        seq![digit_char(n)]
    } else {
        decimal_text(n / 10).push(digit_char(n % 10))
    }
}

proof fn lemma_digit_char(d: nat)
    requires
        d < 10,
    ensures
        is_digit(digit_char(d)),
        digit_value(digit_char(d)) == d,
{
    assert(((48 + d) as u8) as int == 48 + d);
    assert((((48 + d) as u8) as char) as int == ((48 + d) as u8) as int);
}

/// Writing a number in decimal and reading it back gives the number again.
pub proof fn law_decimal_round_trip(n: nat)
    ensures
        decimal_text(n).len() > 0,
        all_digits(decimal_text(n)),
        decimal_value(decimal_text(n)) == n,
    decreases n,
{
    if n < 10 {
        lemma_digit_char(n);
        assert(decimal_text(n).drop_last() =~= Seq::<char>::empty());
        assert(decimal_value(Seq::<char>::empty()) == 0);
        assert(decimal_value(decimal_text(n)) == 0 * 10 + digit_value(digit_char(n)));
    } else {
        lemma_digit_char(n % 10);
        law_decimal_round_trip(n / 10);
        let t = decimal_text(n);
        assert(t.drop_last() =~= decimal_text(n / 10));
        assert(decimal_value(t) == decimal_value(decimal_text(n / 10)) * 10 + digit_value(digit_char(n % 10)));
        assert(n == (n / 10) * 10 + n % 10);
        assert forall|i: int| 0 <= i < t.len() implies #[trigger] is_digit(t[i]) by {
            if i < t.len() - 1 {
                assert(t[i] == decimal_text(n / 10)[i]);
            }
        }
    }
}

/// `n` written in decimal.
pub fn decimal_string(n: u64) -> (text: String)
    ensures
        text@ == decimal_text(n as nat),
    decreases n,
{
    if n < 10 {
        let mut text = String::new();
        push_char(&mut text, ((48 + n) as u8) as char);
        assert(text@ =~= seq![digit_char(n as nat)]);
        text
    } else {
        let mut text = decimal_string(n / 10);
        push_char(&mut text, ((48 + n % 10) as u8) as char);
        text
    }
}

/// `i` is the first place in `s` that holds `c`.
pub open spec fn is_first_index(s: Seq<char>, c: char, i: int) -> bool {
    &&& 0 <= i < s.len()
    &&& s[i] == c
    &&& forall|k: int| 0 <= k < i ==> s[k] != c
}

/// The first place in `s` that holds `c`, if any.
pub open spec fn first_index(s: Seq<char>, c: char) -> Option<int> {
    if exists|i: int| is_first_index(s, c, i) {
        Some(choose|i: int| is_first_index(s, c, i))
    } else {
        None
    }
}

/// The first place is unique.
pub proof fn lemma_first_index(s: Seq<char>, c: char, i: int)
    requires
        is_first_index(s, c, i),
    ensures
        first_index(s, c) == Some(i),
{
    let j = choose|j: int| is_first_index(s, c, j);
    assert(is_first_index(s, c, j));
    if j < i {
        assert(s[j] != c);
    } else if i < j {
        assert(s[i] != c);
    }
}

/// Without a first place, there is no place at all.
pub proof fn lemma_no_first_index(s: Seq<char>, c: char)
    requires
        first_index(s, c) is None,
    ensures
        forall|k: int| 0 <= k < s.len() ==> s[k] != c,
    decreases s.len(),
{
    if s.len() > 0 {
        let front = s.drop_last();
        assert forall|k: int| 0 <= k < front.len() implies #[trigger] s[k] == front[k] by {}
        if first_index(front, c) is Some {
            let i = choose|i: int| is_first_index(front, c, i);
            assert(is_first_index(front, c, i));
            assert(s[i] == front[i]);
            assert forall|k: int| 0 <= k < i implies s[k] != c by {
                assert(s[k] == front[k]);
            }
            assert(is_first_index(s, c, i));
        } else {
            lemma_no_first_index(front, c);
            assert forall|k: int| 0 <= k < s.len() implies s[k] != c by {
                if k < s.len() - 1 {
                    assert(s[k] == front[k]);
                } else if s[k] == c {
                    assert forall|j: int| 0 <= j < k implies s[j] != c by {
                        assert(s[j] == front[j]);
                    }
                    assert(is_first_index(s, c, k));
                }
            }
        }
    }
}

/// Finds `c` in `chars[from..to]`: its position counted from `from`.
pub fn find_char(chars: &Vec<char>, from: usize, to: usize, c: char) -> (found: Option<usize>)
    requires
        from <= to <= chars@.len(),
    ensures
        found matches Some(i) ==> first_index(chars@.subrange(from as int, to as int), c) == Some(
            i as int,
        ),
        found is None ==> first_index(chars@.subrange(from as int, to as int), c) is None,
{
    let ghost s = chars@.subrange(from as int, to as int);
    let mut i = from;
    while i < to
        invariant
            from <= i <= to <= chars@.len(),
            s == chars@.subrange(from as int, to as int),
            forall|k: int| 0 <= k < i - from ==> s[k] != c,
        decreases to - i,
    {
        if chars[i] == c {
            proof {
                assert(is_first_index(s, c, i - from));
                lemma_first_index(s, c, i - from);
            }
            return Some(i - from);
        }
        i = i + 1;
    }
    proof {
        assert(!exists|j: int| is_first_index(s, c, j));
    }
    None
}

/// The characters `chars[from..to]`, as a vector of their own.
pub fn slice_chars(chars: &Vec<char>, from: usize, to: usize) -> (part: Vec<char>)
    requires
        from <= to <= chars@.len(),
    ensures
        part@ == chars@.subrange(from as int, to as int),
{
    let mut part: Vec<char> = Vec::new();
    let mut i = from;
    while i < to
        invariant
            from <= i <= to <= chars@.len(),
            part@ == chars@.subrange(from as int, i as int),
        decreases to - i,
    {
        part.push(chars[i]);
        assert(chars@.subrange(from as int, i + 1) =~= chars@.subrange(from as int, i as int).push(chars@[i as int]));
        i = i + 1;
    }
    part
}

/// `s` begins with `word`.
pub open spec fn starts_with(s: Seq<char>, word: Seq<char>) -> bool {
    word.len() <= s.len() && s.take(word.len() as int) == word
}

/// Whether `chars` begins with `word`.
pub fn has_prefix(chars: &Vec<char>, word: &Vec<char>) -> (found: bool)
    ensures
        found == starts_with(chars@, word@),
{
    let found = starts_with_at(chars, 0, word);
    assert(found ==> chars@.subrange(0, word@.len() as int) =~= chars@.take(word@.len() as int));
    assert(starts_with(chars@, word@) ==> chars@.subrange(0, word@.len() as int) =~= chars@.take(word@.len() as int));
    found
}

/// Appends one character to `text` (`String::push`).
#[verifier::external_body]
pub(crate) fn push_char(text: &mut String, c: char)
    ensures
        final(text)@ == old(text)@.push(c),
{
    text.push(c);
}

/// The characters of `text`, in order.
pub fn chars_of(text: &str) -> (chars: Vec<char>)
    ensures
        chars@ == text@,
{
    let mut chars: Vec<char> = Vec::new();
    for c in it: text.chars()
        invariant
            chars@ == it.seq().take(it.index() as int),
    {
        chars.push(c);
    }
    chars
}

/// A `String` holding `chars[from..to]`.
pub fn string_of(chars: &Vec<char>, from: usize, to: usize) -> (text: String)
    requires
        from <= to <= chars@.len(),
    ensures
        text@ == chars@.subrange(from as int, to as int),
{
    let mut text = String::new();
    let mut i = from;
    while i < to
        invariant
            from <= i <= to <= chars@.len(),
            text@ == chars@.subrange(from as int, i as int),
        decreases to - i,
    {
        push_char(&mut text, chars[i]);
        assert(chars@.subrange(from as int, i + 1) =~= chars@.subrange(from as int, i as int).push(chars@[i as int]));
        i = i + 1;
    }
    text
}

/// Whether `chars[at..]` starts with `word`.
pub fn starts_with_at(chars: &Vec<char>, at: usize, word: &Vec<char>) -> (found: bool)
    requires
        at <= chars@.len(),
    ensures
        found == (at + word@.len() <= chars@.len() && chars@.subrange(at as int, at + word@.len()) == word@),
{
    if word.len() > chars.len() - at {
        return false;
    }
    let mut i: usize = 0;
    while i < word.len()
        invariant
            at + word@.len() <= chars@.len(),
            chars@.len() <= usize::MAX,
            i <= word@.len(),
            forall|k: int| 0 <= k < i ==> chars@[at + k] == word@[k],
        decreases word@.len() - i,
    {
        if chars[at + i] != word[i] {
            assert(chars@.subrange(at as int, at + word@.len())[i as int] != word@[i as int]);
            return false;
        }
        i = i + 1;
    }
    assert(chars@.subrange(at as int, at + word@.len()) =~= word@);
    true
}

/// Whether two character runs are equal.
pub fn same_chars(left: &Vec<char>, right: &Vec<char>) -> (same: bool)
    ensures
        same == (left@ == right@),
{
    if left.len() != right.len() {
        return false;
    }
    let found = starts_with_at(left, 0, right);
    assert(left@.subrange(0, right@.len() as int) =~= left@);
    found
}

/// Unicode `White_Space` (what `char::is_whitespace`, and so `str::trim`, removes).
pub open spec fn is_whitespace(c: char) -> bool {
    ('\u{9}' <= c && c <= '\u{d}') || c == ' ' || c == '\u{85}' || c == '\u{a0}' || c == '\u{1680}'
        || ('\u{2000}' <= c && c <= '\u{200a}') || c == '\u{2028}' || c == '\u{2029}' || c
        == '\u{202f}' || c == '\u{205f}' || c == '\u{3000}'
}

/// How many whitespace characters start `s` at `i`.
pub open spec fn leading_space(s: Seq<char>, i: int) -> nat
    decreases s.len() - i,
{
    if 0 <= i < s.len() && is_whitespace(s[i]) {
        1 + leading_space(s, i + 1)
    } else {
        0
    }
}

/// How many whitespace characters end `s[..j]`.
pub open spec fn trailing_space(s: Seq<char>, j: int) -> nat
    decreases j,
{
    if 0 < j <= s.len() && is_whitespace(s[j - 1]) {
        1 + trailing_space(s, j - 1)
    } else {
        0
    }
}

/// `s` without leading and trailing whitespace (`str::trim`).
pub open spec fn trimmed(s: Seq<char>) -> Seq<char> {
    let start = leading_space(s, 0) as int;
    if start >= s.len() {
        Seq::empty()
    } else {
        s.subrange(start, s.len() - trailing_space(s, s.len() as int))
    }
}

/// `chars` without leading and trailing whitespace.
pub fn trim(chars: &Vec<char>) -> (part: Vec<char>)
    ensures
        part@ == trimmed(chars@),
{
    let ghost s = chars@;
    let mut start: usize = 0;
    while start < chars.len() && is_whitespace_char(chars[start])
        invariant
            start <= s.len(),
            s == chars@,
            leading_space(s, 0) == start + leading_space(s, start as int),
        decreases s.len() - start,
    {
        start = start + 1;
    }
    if start >= chars.len() {
        return Vec::new();
    }
    let mut end: usize = chars.len();
    while end > start && is_whitespace_char(chars[end - 1])
        invariant
            start < s.len(),
            !is_whitespace(s[start as int]),
            start < end <= s.len(),
            s == chars@,
            trailing_space(s, s.len() as int) == (s.len() - end) + trailing_space(s, end as int),
        decreases end,
    {
        end = end - 1;
    }
    slice_chars(chars, start, end)
}

/// Unicode `White_Space`.
pub fn is_whitespace_char(c: char) -> (space: bool)
    ensures
        space == is_whitespace(c),
{
    ('\u{9}' <= c && c <= '\u{d}') || c == ' ' || c == '\u{85}' || c == '\u{a0}' || c == '\u{1680}'
        || ('\u{2000}' <= c && c <= '\u{200a}') || c == '\u{2028}' || c == '\u{2029}' || c
        == '\u{202f}' || c == '\u{205f}' || c == '\u{3000}'
}

/// `bytes` as text, when they are UTF-8 (`String::from_utf8`).
#[verifier::external_body]
pub(crate) fn utf8_text(bytes: Vec<u8>) -> (text: Option<String>)
    ensures
        text is Some <==> valid_utf8(bytes@),
        text matches Some(t) ==> t@ == decode_utf8(bytes@),
{
    String::from_utf8(bytes).ok()
}

} // verus!
