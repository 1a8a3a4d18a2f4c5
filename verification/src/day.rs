//! Days since 1970-01-01.

use vstd::prelude::*;

use crate::text::{all_digits, chars_of, decimal_u64, decimal_value, is_digit};

verus! {

/// Days since 1970-01-01 (UTC).
///
/// A day carries no time of day: what the tool asks is only "how many days
/// ago", so "today" can be handed to the library as a plain value.
/// The field is private; values come from [`Day::from_unix_seconds`] and
/// [`Day::parse_iso8601`].
#[derive(Debug, Clone, Copy, PartialEq, Eq, Structural, PartialOrd, Ord)]
pub struct Day(u32);

/// Seconds in a day.
pub const SECONDS_PER_DAY: u64 = 86_400;

/// The first year read (the origin of `Day`).
pub const MIN_YEAR: u32 = 1970;

/// The last year that `YYYY` can write.
pub const MAX_YEAR: u32 = 9999;

/// The length of `YYYY-MM-DD`.
pub const DATE_LENGTH: usize = 10;

impl View for Day {
    type V = nat;

    closed spec fn view(&self) -> nat {
        self.0 as nat
    }
}

// ---------------------------------------------------------------------------
// The calendar (proleptic Gregorian).

/// A leap year of the proleptic Gregorian calendar.
pub open spec fn is_leap(year: int) -> bool {
    year % 4 == 0 && (year % 100 != 0 || year % 400 == 0)
}

/// Days in a year.
pub open spec fn year_length(year: int) -> int {
    if is_leap(year) {
        366
    } else {
        365
    }
}

/// Days in a month (1..12) of a year.
pub open spec fn month_length(year: int, month: int) -> int {
    if month == 2 {
        if is_leap(year) {
            29
        } else {
            28
        }
    } else if month == 4 || month == 6 || month == 9 || month == 11 {
        30
    } else {
        31
    }
}

/// Days from 1970-01-01 to January 1st of `year`: the lengths of the years between.
pub open spec fn days_before_year(year: int) -> int
    decreases year - 1970,
{
    if year <= 1970 {
        0
    } else {
        days_before_year(year - 1) + year_length(year - 1)
    }
}

/// Days from January 1st to the first of `month`: the lengths of the months before it.
pub open spec fn days_before_month(year: int, month: int) -> int
    decreases month,
{
    if month <= 1 {
        0
    } else {
        days_before_month(year, month - 1) + month_length(year, month - 1)
    }
}

/// A date that `Day` can hold: a real calendar day from 1970 to 9999.
pub open spec fn is_valid_date(year: int, month: int, day: int) -> bool {
    &&& MIN_YEAR <= year <= MAX_YEAR
    &&& 1 <= month <= 12
    &&& 1 <= day <= month_length(year, month)
}

/// The number of days from 1970-01-01 to the given date.
pub open spec fn civil_day_number(year: int, month: int, day: int) -> int {
    days_before_year(year) + days_before_month(year, month) + day - 1
}

// ---------------------------------------------------------------------------
// The text forms.

/// `s[at..at + 2]` is two digits and their value.
pub open spec fn two_digit_value(s: Seq<char>, at: int) -> int {
    decimal_value(s.subrange(at, at + 2)) as int
}

/// `s` is `YYYY-MM-DD` in shape (digits and dashes only; values not checked).
pub open spec fn is_date_shape(s: Seq<char>) -> bool {
    &&& s.len() == DATE_LENGTH
    &&& all_digits(s.subrange(0, 4))
    &&& s[4] == '-'
    &&& all_digits(s.subrange(5, 7))
    &&& s[7] == '-'
    &&& all_digits(s.subrange(8, 10))
}

/// `s` is `Thh:mm:ssZ` with `hh <= 23`, `mm <= 59`, `ss <= 60`.
pub open spec fn is_utc_time_text(s: Seq<char>) -> bool {
    &&& s.len() == 10
    &&& s[0] == 'T'
    &&& all_digits(s.subrange(1, 3))
    &&& s[3] == ':'
    &&& all_digits(s.subrange(4, 6))
    &&& s[6] == ':'
    &&& all_digits(s.subrange(7, 9))
    &&& s[9] == 'Z'
    &&& two_digit_value(s, 1) <= 23
    &&& two_digit_value(s, 4) <= 59
    &&& two_digit_value(s, 7) <= 60
}

/// The year, month and day written in a `YYYY-MM-DD` shape.
pub open spec fn date_fields(s: Seq<char>) -> (int, int, int) {
    (decimal_value(s.subrange(0, 4)) as int, two_digit_value(s, 5), two_digit_value(s, 8))
}

/// What `text` denotes as a day: `YYYY-MM-DD`, optionally followed by
/// `Thh:mm:ssZ`, naming a valid date; the time never moves the day.
pub open spec fn iso8601_day_number(text: Seq<char>) -> Option<int> {
    if text.len() >= DATE_LENGTH && is_date_shape(text.take(10)) && (text.len() == DATE_LENGTH
        || is_utc_time_text(text.skip(10))) {
        let (y, m, d) = date_fields(text.take(10));
        if is_valid_date(y, m, d) {
            Some(civil_day_number(y, m, d))
        } else {
            None
        }
    } else {
        None
    }
}

// ---------------------------------------------------------------------------
// Arithmetic facts behind `days_from_civil`.

/// The count of leap days in years `1..=n` (for `n >= 0`).
pub open spec fn leap_days_through(n: int) -> int {
    n / 4 - n / 100 + n / 400
}

proof fn lemma_leap_step(n: int)
    requires
        n >= 1,
    ensures
        leap_days_through(n) - leap_days_through(n - 1) == if is_leap(n) {
            1int
        } else {
            0int
        },
{
    assert(n / 4 - (n - 1) / 4 == if n % 4 == 0 { 1int } else { 0int });
    assert(n / 100 - (n - 1) / 100 == if n % 100 == 0 { 1int } else { 0int });
    assert(n / 400 - (n - 1) / 400 == if n % 400 == 0 { 1int } else { 0int });
    if n % 400 == 0 {
        assert(n % 100 == 0 && n % 4 == 0);
    } else if n % 100 == 0 {
        assert(n % 4 == 0);
    }
}

/// The closed form of the year count.
proof fn lemma_days_before_year(year: int)
    requires
        year >= 1970,
    ensures
        days_before_year(year) == 365 * (year - 1970) + leap_days_through(year - 1)
            - leap_days_through(1969),
    decreases year - 1970,
{
    if year > 1970 {
        lemma_days_before_year(year - 1);
        lemma_leap_step(year - 1);
    }
}

/// Splitting years into 400-year eras (146,097 days each) keeps the count.
proof fn lemma_era_split(shifted: int, era: int, year_of_era: int)
    requires
        shifted >= 0,
        era == shifted / 400,
        year_of_era == shifted - era * 400,
    ensures
        0 <= year_of_era < 400,
        era * 146097 + year_of_era * 365 + year_of_era / 4 - year_of_era / 100 == 365 * shifted
            + leap_days_through(shifted),
{
    assert(0 <= year_of_era < 400);
    assert(shifted == era * 400 + year_of_era);
    assert((era * 400 + year_of_era) / 4 == era * 100 + year_of_era / 4) by (nonlinear_arith)
        requires
            0 <= year_of_era < 400,
            era >= 0,
    ;
    assert((era * 400 + year_of_era) / 100 == era * 4 + year_of_era / 100) by (nonlinear_arith)
        requires
            0 <= year_of_era < 400,
            era >= 0,
    ;
    assert((era * 400 + year_of_era) / 400 == era) by (nonlinear_arith)
        requires
            0 <= year_of_era < 400,
            era >= 0,
    ;
    assert(era * 146097 == era * 400 * 365 + era * 97) by (nonlinear_arith);
}

/// Days from January 1st to the first of a month after February, via the
/// March-based table `(153 * month_index + 2) / 5`.
proof fn lemma_month_table(year: int, month: int)
    requires
        1 <= month <= 12,
    ensures
        month > 2 ==> days_before_month(year, month) == 59 + (if is_leap(year) {
            1int
        } else {
            0int
        }) + (153 * (month - 3) + 2) / 5,
        month == 1 ==> days_before_month(year, month) == 0,
        month == 2 ==> days_before_month(year, month) == 31,
{
    reveal_with_fuel(days_before_month, 13);
}

// ---------------------------------------------------------------------------
// Laws.

/// Every day that a text can name is on or after 1970-01-01: its number is
/// never negative.
pub proof fn lemma_day_numbers_are_natural(text: Seq<char>)
    ensures
        iso8601_day_number(text) matches Some(n) ==> n >= 0,
{
    if let Some(n) = iso8601_day_number(text) {
        let (y, m, d) = date_fields(text.take(10));
        lemma_days_before_year_natural(y);
        lemma_days_before_month_natural(y, m);
    }
}

proof fn lemma_days_before_year_natural(year: int)
    ensures
        days_before_year(year) >= 0,
    decreases year - 1970,
{
    if year > 1970 {
        lemma_days_before_year_natural(year - 1);
    }
}

proof fn lemma_days_before_month_natural(year: int, month: int)
    ensures
        days_before_month(year, month) >= 0,
    decreases month,
{
    if month > 1 {
        lemma_days_before_month_natural(year, month - 1);
    }
}

/// The time part of a GitHub timestamp never moves the day: a date followed by
/// a well-formed `Thh:mm:ssZ` denotes the same day as the date alone.
pub proof fn law_time_does_not_move_the_day(text: Seq<char>)
    requires
        text.len() > DATE_LENGTH,
        is_utc_time_text(text.skip(10)),
    ensures
        iso8601_day_number(text) == iso8601_day_number(text.take(10)),
{
    assert(text.take(10).take(10) =~= text.take(10));
}

/// Day numbers run on without gaps: 1970-01-01 is day 0, and the day after a
/// valid date (the next day of the month, the first of the next month, or
/// January 1st of the next year) has the next number.
pub proof fn law_days_are_consecutive(year: int, month: int, day: int)
    requires
        is_valid_date(year, month, day),
    ensures
        civil_day_number(1970, 1, 1) == 0,
        day < month_length(year, month) ==> civil_day_number(year, month, day + 1)
            == civil_day_number(year, month, day) + 1,
        day == month_length(year, month) && month < 12 ==> civil_day_number(year, month + 1, 1)
            == civil_day_number(year, month, day) + 1,
        day == month_length(year, month) && month == 12 ==> civil_day_number(year + 1, 1, 1)
            == civil_day_number(year, month, day) + 1,
{
    reveal_with_fuel(days_before_month, 13);
    assert(days_before_year(year + 1) == days_before_year(year) + year_length(year));
}

// ---------------------------------------------------------------------------
// Executable code.

impl Day {
    /// Makes a day from Unix time (seconds, UTC).
    ///
    /// There are no leap seconds: a day is 86,400 seconds, as Unix time defines.
    /// A time too far ahead for `u32` days stays at the top (it never wraps).
    pub fn from_unix_seconds(seconds: u64) -> (day: Self)
        ensures
            day@ == if seconds / 86_400 <= u32::MAX {
                (seconds / 86_400) as nat
            } else {
                u32::MAX as nat
            },
    {
        let days = seconds / SECONDS_PER_DAY;
        if days <= u32::MAX as u64 {
            Day(days as u32)
        } else {
            Day(u32::MAX)
        }
    }

    /// Reads `YYYY-MM-DD` or `YYYY-MM-DDThh:mm:ssZ`.
    ///
    /// GitHub's `committedDate` / `updatedAt` come in the second form. The time
    /// is checked for shape only and never moves the day. No time zone but `Z`
    /// is accepted: with another one, which clock "that day" is on would be unclear.
    pub fn parse_iso8601(text: &str) -> (day: Option<Self>)
        ensures
            day matches Some(d) ==> iso8601_day_number(text@) == Some(d@ as int),
            day is None ==> iso8601_day_number(text@) is None,
    {
        let chars = chars_of(text);
        if chars.len() < DATE_LENGTH {
            return None;
        }
        if chars.len() != DATE_LENGTH && !is_utc_time(&chars, DATE_LENGTH) {
            proof {
                assert(chars@.skip(10) =~= chars@.subrange(10, chars@.len() as int));
            }
            return None;
        }
        proof {
            assert(chars@.len() > 10 ==> chars@.skip(10) =~= chars@.subrange(10, chars@.len() as int));
        }
        let (year, month, day) = match split_date(&chars) {
            Some(fields) => fields,
            None => return None,
        };
        match days_from_civil(year, month, day) {
            Some(number) => Some(Day(number)),
            None => None,
        }
    }

    /// Days elapsed since `earlier`; `None` when `self` is the older one.
    pub fn days_since(self, earlier: Self) -> (days: Option<u32>)
        ensures
            days matches Some(d) ==> self@ >= earlier@ && d == self@ - earlier@,
            days is None ==> self@ < earlier@,
    {
        self.0.checked_sub(earlier.0)
    }

    /// Days since 1970-01-01.
    pub fn get(self) -> (days: u32)
        ensures
            days == self@,
    {
        self.0
    }
}

/// `chars[from..]` is `Thh:mm:ssZ` (only the ranges are checked; the values
/// never move the day).
fn is_utc_time(chars: &Vec<char>, from: usize) -> (found: bool)
    requires
        from <= chars@.len(),
    ensures
        found == is_utc_time_text(chars@.subrange(from as int, chars@.len() as int)),
{
    let ghost s = chars@.subrange(from as int, chars@.len() as int);
    if chars.len() - from != 10 {
        return false;
    }
    if chars[from] != 'T' || chars[from + 3] != ':' || chars[from + 6] != ':' || chars[from + 9]
        != 'Z' {
        return false;
    }
    proof {
        assert(s.subrange(1, 3) =~= chars@.subrange(from + 1, from + 3));
        assert(s.subrange(4, 6) =~= chars@.subrange(from + 4, from + 6));
        assert(s.subrange(7, 9) =~= chars@.subrange(from + 7, from + 9));
    }
    within(chars, from + 1, 23) && within(chars, from + 4, 59) && within(chars, from + 7, 60)
}

/// `chars[at..at + 2]` is two digits, and at most `max`.
fn within(chars: &Vec<char>, at: usize, max: u32) -> (found: bool)
    requires
        at + 2 <= chars@.len(),
    ensures
        found == (all_digits(chars@.subrange(at as int, at + 2)) && decimal_value(
            chars@.subrange(at as int, at + 2),
        ) <= max),
{
    match two_digits(chars, at) {
        Some(value) => value <= max,
        None => false,
    }
}

/// `chars[0..10]` as `YYYY-MM-DD`: the three numbers.
fn split_date(chars: &Vec<char>) -> (fields: Option<(u32, u32, u32)>)
    requires
        chars@.len() >= DATE_LENGTH,
    ensures
        fields matches Some(f) ==> is_date_shape(chars@.take(10)) && date_fields(chars@.take(10))
            == (f.0 as int, f.1 as int, f.2 as int),
        fields is None ==> !is_date_shape(chars@.take(10)),
{
    let ghost s = chars@.take(10);
    proof {
        assert(s.subrange(0, 4) =~= chars@.subrange(0, 4));
        assert(s.subrange(5, 7) =~= chars@.subrange(5, 7));
        assert(s.subrange(8, 10) =~= chars@.subrange(8, 10));
    }
    if chars[4] != '-' || chars[7] != '-' {
        return None;
    }
    let year = match digits(chars, 0, 4) {
        Some(value) => value,
        None => return None,
    };
    let month = match two_digits(chars, 5) {
        Some(value) => value,
        None => return None,
    };
    let day = match two_digits(chars, 8) {
        Some(value) => value,
        None => return None,
    };
    Some((year, month, day))
}

/// A two-digit decimal number at `chars[at..at + 2]`.
fn two_digits(chars: &Vec<char>, at: usize) -> (value: Option<u32>)
    requires
        at + 2 <= chars@.len(),
    ensures
        value matches Some(v) ==> all_digits(chars@.subrange(at as int, at + 2)) && v
            == decimal_value(chars@.subrange(at as int, at + 2)),
        value is None ==> !all_digits(chars@.subrange(at as int, at + 2)),
{
    digits(chars, at, 2)
}

/// Exactly `width` (at most 4) decimal digits at `chars[at..at + width]`.
///
/// Signs are refused: `+1` is not a field of a date.
fn digits(chars: &Vec<char>, at: usize, width: usize) -> (value: Option<u32>)
    requires
        at + width <= chars.len(),
        1 <= width <= 4,
    ensures
        value matches Some(v) ==> all_digits(chars@.subrange(at as int, at + width)) && v
            == decimal_value(chars@.subrange(at as int, at + width)),
        value is None ==> !all_digits(chars@.subrange(at as int, at + width)),
{
    let ghost s = chars@.subrange(at as int, at + width);
    match decimal_u64(chars, at, at + width) {
        Some(value) => {
            proof {
                lemma_small_decimal(s);
            }
            Some(value as u32)
        },
        None => {
            proof {
                if all_digits(s) {
                    lemma_small_decimal(s);
                }
            }
            None
        },
    }
}

/// At most four digits denote less than 10,000.
proof fn lemma_small_decimal(s: Seq<char>)
    requires
        s.len() <= 4,
        all_digits(s),
    ensures
        decimal_value(s) < 10000,
        s.len() <= 3 ==> decimal_value(s) < 1000,
        s.len() <= 2 ==> decimal_value(s) < 100,
        s.len() <= 1 ==> decimal_value(s) < 10,
    decreases s.len(),
{
    if s.len() > 0 {
        let p = s.drop_last();
        assert(all_digits(p)) by {
            assert forall|i: int| 0 <= i < p.len() implies is_digit(p[i]) by {
                assert(p[i] == s[i]);
            }
        }
        lemma_small_decimal(p);
        assert(is_digit(s[s.len() - 1]));
    }
}

/// A leap year of the proleptic Gregorian calendar.
fn is_leap_year(year: u32) -> (leap: bool)
    ensures
        leap == is_leap(year as int),
{
    year % 4 == 0 && (year % 100 != 0 || year % 400 == 0)
}

/// Days in that month of that year; `None` unless the month is 1..12.
fn days_in_month(year: u32, month: u32) -> (days: Option<u32>)
    ensures
        days matches Some(d) ==> 1 <= month <= 12 && d == month_length(year as int, month as int),
        days is None ==> !(1 <= month <= 12),
{
    if month < 1 || month > 12 {
        return None;
    }
    if month == 2 {
        if is_leap_year(year) {
            Some(29)
        } else {
            Some(28)
        }
    } else if month == 4 || month == 6 || month == 9 || month == 11 {
        Some(30)
    } else {
        Some(31)
    }
}

/// Turns a calendar date into days since 1970-01-01.
///
/// Howard Hinnant's `days_from_civil`: with the year shifted to start in
/// March, the leap day falls at the end of the year and the month lengths
/// follow `(153 * m + 2) / 5`, so no month table is needed. With the year
/// limited to 1970..9999 every intermediate value is non-negative.
fn days_from_civil(year: u32, month: u32, day: u32) -> (number: Option<u32>)
    ensures
        number matches Some(n) ==> is_valid_date(year as int, month as int, day as int) && n
            == civil_day_number(year as int, month as int, day as int),
        number is None ==> !is_valid_date(year as int, month as int, day as int),
{
    if year < MIN_YEAR || year > MAX_YEAR {
        return None;
    }
    let length = match days_in_month(year, month) {
        Some(length) => length,
        None => return None,
    };
    if day == 0 || day > length {
        return None;
    }
    let shifted = if month <= 2 {
        year - 1
    } else {
        year
    };
    let era = shifted / 400;
    let year_of_era = shifted - era * 400;
    let within_era = day_of_era(year_of_era, month, day);
    proof {
        lemma_era_split(shifted as int, era as int, year_of_era as int);
        lemma_days_before_year(year as int);
        lemma_month_table(year as int, month as int);
        lemma_leap_step(year as int);
        assert(leap_days_through(1969) == 477);
    }
    assert(era * 146_097 + within_era >= 719_468);
    Some(era * 146_097 + within_era - 719_468)
}

/// The day within the 400-year era: 0..146,096.
fn day_of_era(year_of_era: u32, month: u32, day: u32) -> (number: u32)
    requires
        year_of_era < 400,
        1 <= month <= 12,
        1 <= day <= 31,
    ensures
        number == year_of_era * 365 + year_of_era / 4 - year_of_era / 100 + (153 * (if month > 2 {
            month - 3
        } else {
            month + 9
        }) + 2) / 5 + day - 1,
        number <= 146_100,
{
    let month_index = if month > 2 {
        month - 3
    } else {
        month + 9
    };
    let day_of_year = (153 * month_index + 2) / 5 + day - 1;
    year_of_era * 365 + year_of_era / 4 - year_of_era / 100 + day_of_year
}

} // verus!
