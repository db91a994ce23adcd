//! Calendar dates without a time component, and the strict `YYYY-MM-DD`
//! parser the frontmatter's `date` field goes through.

use vstd::prelude::*;

verus! {

/// A calendar date in the proleptic Gregorian calendar.
#[derive(Clone, Copy, PartialEq, Eq, Structural, Debug)]
pub struct Date {
    pub year: u32,
    pub month: u32,
    pub day: u32,
}

/// The Gregorian leap-year rule.
pub open spec fn is_leap_year(y: int) -> bool {
    (y % 4 == 0 && y % 100 != 0) || y % 400 == 0
}

/// How many days the given month of the given year has.
pub open spec fn days_in_month(y: int, m: int) -> int {
    if m == 2 {
        if is_leap_year(y) {
            29
        } else {
            28
        }
    } else if m == 4 || m == 6 || m == 9 || m == 11 {
        30
    } else {
        31
    }
}

/// A date that the `YYYY-MM-DD` pattern can produce: a four-digit year
/// and a day that exists in its month.
pub open spec fn date_wf(d: Date) -> bool {
    &&& d.year <= 9999
    &&& 1 <= d.month <= 12
    &&& 1 <= d.day <= days_in_month(d.year as int, d.month as int)
}

/// Calendar order: by year, then month, then day.
pub open spec fn date_le(a: Date, b: Date) -> bool {
    ||| a.year < b.year
    ||| (a.year == b.year && a.month < b.month)
    ||| (a.year == b.year && a.month == b.month && a.day <= b.day)
}

/// Decides `date_le` on two concrete dates.
pub fn date_le_exec(a: Date, b: Date) -> (r: bool)
    ensures
        r == date_le(a, b),
{
    a.year < b.year || (a.year == b.year && a.month < b.month) || (a.year == b.year && a.month
        == b.month && a.day <= b.day)
}

/// An ASCII decimal digit.
pub open spec fn is_digit(c: char) -> bool {
    0x30 <= c as u32 && c as u32 <= 0x39
}

/// The numeric value of an ASCII decimal digit.
pub open spec fn digit_val(c: char) -> int {
    c as u32 - 0x30
}

/// Whether the characters match `YYYY-MM-DD` exactly and name a day
/// that exists in the calendar.
pub open spec fn valid_date_chars(s: Seq<char>) -> bool {
    &&& s.len() == 10
    &&& is_digit(s[0])
    &&& is_digit(s[1])
    &&& is_digit(s[2])
    &&& is_digit(s[3])
    &&& s[4] == '-'
    &&& is_digit(s[5])
    &&& is_digit(s[6])
    &&& s[7] == '-'
    &&& is_digit(s[8])
    &&& is_digit(s[9])
    &&& 1 <= month_of_chars(s) <= 12
    &&& 1 <= day_of_chars(s) <= days_in_month(year_of_chars(s), month_of_chars(s))
}

/// The year the first four characters spell.
pub open spec fn year_of_chars(s: Seq<char>) -> int {
    digit_val(s[0]) * 1000 + digit_val(s[1]) * 100 + digit_val(s[2]) * 10 + digit_val(s[3])
}

/// The month characters five and six spell.
pub open spec fn month_of_chars(s: Seq<char>) -> int {
    digit_val(s[5]) * 10 + digit_val(s[6])
}

/// The day characters eight and nine spell.
pub open spec fn day_of_chars(s: Seq<char>) -> int {
    digit_val(s[8]) * 10 + digit_val(s[9])
}

/// The date a valid `YYYY-MM-DD` string names.
pub open spec fn date_of_chars(s: Seq<char>) -> Date {
    Date {
        year: year_of_chars(s) as u32,
        month: month_of_chars(s) as u32,
        day: day_of_chars(s) as u32,
    }
}

/// A string that matches the pattern names a well-formed date.
pub proof fn lemma_valid_date_wf(s: Seq<char>)
    requires
        valid_date_chars(s),
    ensures
        date_wf(date_of_chars(s)),
{
    assert(digit_val(s[0]) <= 9 && digit_val(s[1]) <= 9 && digit_val(s[2]) <= 9 && digit_val(s[3])
        <= 9);
}

/// Reads one ASCII digit.
fn digit_of(c: char) -> (r: Option<u32>)
    ensures
        r matches Some(v) ==> is_digit(c) && v == digit_val(c) && v <= 9,
        r is None ==> !is_digit(c),
{
    let u = c as u32;
    if 0x30 <= u && u <= 0x39 {
        Some(u - 0x30)
    } else {
        None
    }
}

/// Decides `days_in_month` for an in-range month.
fn days_in_month_exec(y: u32, m: u32) -> (r: u32)
    requires
        1 <= m <= 12,
    ensures
        r == days_in_month(y as int, m as int),
{
    if m == 2 {
        if (y % 4 == 0 && y % 100 != 0) || y % 400 == 0 {
            29
        } else {
            28
        }
    } else if m == 4 || m == 6 || m == 9 || m == 11 {
        30
    } else {
        31
    }
}

/// Parses a date strictly against the `YYYY-MM-DD` pattern: fixed
/// widths, `-` separators, and a day that exists in its month.
pub fn parse_date_chars(s: &Vec<char>) -> (r: Option<Date>)
    ensures
        r matches Some(d) ==> valid_date_chars(s@) && d == date_of_chars(s@) && date_wf(d),
        r is None ==> !valid_date_chars(s@),
{
    if s.len() != 10 {
        return None;
    }
    let (d0, d1, d2, d3) = match (digit_of(s[0]), digit_of(s[1]), digit_of(s[2]), digit_of(s[3])) {
        (Some(a), Some(b), Some(c), Some(d)) => (a, b, c, d),
        _ => { return None },
    };
    if s[4] != '-' || s[7] != '-' {
        return None;
    }
    let (m0, m1) = match (digit_of(s[5]), digit_of(s[6])) {
        (Some(a), Some(b)) => (a, b),
        _ => { return None },
    };
    let (e0, e1) = match (digit_of(s[8]), digit_of(s[9])) {
        (Some(a), Some(b)) => (a, b),
        _ => { return None },
    };
    let year = d0 * 1000 + d1 * 100 + d2 * 10 + d3;
    let month = m0 * 10 + m1;
    let day = e0 * 10 + e1;
    if month < 1 || month > 12 {
        return None;
    }
    if day < 1 || day > days_in_month_exec(year, month) {
        return None;
    }
    Some(Date { year, month, day })
}

} // verus!
