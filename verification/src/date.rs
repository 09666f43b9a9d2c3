//! Calendar dates for publish-date handling.
//!
//! A date is held as plain year, month and day numbers.  File names may
//! carry a `YYYY-MM-DD` prefix; a prefix that matches the pattern but is
//! not a valid calendar date is a fatal input error, so validation is
//! part of parsing.

use vstd::prelude::*;

verus! {

/// A calendar date, as written in a `YYYY-MM-DD` file-name prefix.
#[derive(Clone, Copy, PartialEq, Eq, Structural, Debug)]
pub struct Date {
    pub year: u32,
    pub month: u32,
    pub day: u32,
}

/// Whether `y` is a leap year in the Gregorian calendar.
pub open spec fn is_leap_year(y: int) -> bool {
    (y % 4 == 0 && y % 100 != 0) || y % 400 == 0
}

/// The number of days in month `m` of year `y`, for `1 <= m <= 12`.
pub open spec fn days_in_month(y: int, m: int) -> int {
    if m == 2 {
        if is_leap_year(y) {
            29
        } else {
            28
        }
    } else if m == 4 || m == 6 || m == 9 || m == 11 {
        30
    } else {
        31
    }
}

/// Whether `d` is a valid calendar date writable as `YYYY-MM-DD`.
pub open spec fn date_valid(d: Date) -> bool {
    d.year <= 9999 && 1 <= d.month <= 12 && 1 <= d.day <= days_in_month(
        d.year as int,
        d.month as int,
    )
}

/// Whether `c` is a decimal digit.
pub open spec fn is_digit(c: char) -> bool {
    c == '0' || c == '1' || c == '2' || c == '3' || c == '4' || c == '5' || c == '6' || c == '7'
        || c == '8' || c == '9'
}

/// The value of the decimal digit `c`; meaningful when [`is_digit`]
/// holds.
pub open spec fn digit_of(c: char) -> int {
    if c == '0' {
        0
    } else if c == '1' {
        1
    } else if c == '2' {
        2
    } else if c == '3' {
        3
    } else if c == '4' {
        4
    } else if c == '5' {
        5
    } else if c == '6' {
        6
    } else if c == '7' {
        7
    } else if c == '8' {
        8
    } else {
        9
    }
}

/// The decimal digit character for `n`; meaningful for `0 <= n <= 9`.
pub open spec fn digit_char(n: int) -> char {
    if n == 0 {
        '0'
    } else if n == 1 {
        '1'
    } else if n == 2 {
        '2'
    } else if n == 3 {
        '3'
    } else if n == 4 {
        '4'
    } else if n == 5 {
        '5'
    } else if n == 6 {
        '6'
    } else if n == 7 {
        '7'
    } else if n == 8 {
        '8'
    } else {
        '9'
    }
}

fn digit_val(c: char) -> (r: u32)
    requires
        is_digit(c),
    ensures
        r == digit_of(c),
{
    if c == '0' {
        0
    } else if c == '1' {
        1
    } else if c == '2' {
        2
    } else if c == '3' {
        3
    } else if c == '4' {
        4
    } else if c == '5' {
        5
    } else if c == '6' {
        6
    } else if c == '7' {
        7
    } else if c == '8' {
        8
    } else {
        9
    }
}

fn char_of_digit(n: u32) -> (r: char)
    requires
        n <= 9,
    ensures
        r == digit_char(n as int),
{
    if n == 0 {
        '0'
    } else if n == 1 {
        '1'
    } else if n == 2 {
        '2'
    } else if n == 3 {
        '3'
    } else if n == 4 {
        '4'
    } else if n == 5 {
        '5'
    } else if n == 6 {
        '6'
    } else if n == 7 {
        '7'
    } else if n == 8 {
        '8'
    } else {
        '9'
    }
}

/// Whether `s` starts with the `YYYY-MM-DD` pattern: four digits, a
/// dash, two digits, a dash, two digits.
pub open spec fn date_prefix_matches(s: Seq<char>) -> bool {
    s.len() >= 10 && is_digit(s[0]) && is_digit(s[1]) && is_digit(s[2]) && is_digit(s[3]) && s[4]
        == '-' && is_digit(s[5]) && is_digit(s[6]) && s[7] == '-' && is_digit(s[8]) && is_digit(
        s[9],
    )
}

/// The date written in the first ten characters of `s`; meaningful
/// when [`date_prefix_matches`] holds.
pub open spec fn prefix_date(s: Seq<char>) -> Date {
    Date {
        year: (digit_of(s[0]) * 1000 + digit_of(s[1]) * 100 + digit_of(s[2]) * 10 + digit_of(
            s[3],
        )) as u32,
        month: (digit_of(s[5]) * 10 + digit_of(s[6])) as u32,
        day: (digit_of(s[8]) * 10 + digit_of(s[9])) as u32,
    }
}

/// `d` written as the ten characters `YYYY-MM-DD`.
pub open spec fn date_string(d: Date) -> Seq<char> {
    seq![
        digit_char(d.year as int / 1000),
        digit_char((d.year as int / 100) % 10),
        digit_char((d.year as int / 10) % 10),
        digit_char(d.year as int % 10),
        '-',
        digit_char(d.month as int / 10),
        digit_char(d.month as int % 10),
        '-',
        digit_char(d.day as int / 10),
        digit_char(d.day as int % 10),
    ]
}

/// Whether `s` starts with the `YYYY-MM-DD` pattern.
pub fn date_matches_exec(s: &Vec<char>) -> (r: bool)
    ensures
        r == date_prefix_matches(s@),
{
    s.len() >= 10 && is_digit_char(s[0]) && is_digit_char(s[1]) && is_digit_char(s[2])
        && is_digit_char(s[3]) && s[4] == '-' && is_digit_char(s[5]) && is_digit_char(s[6]) && s[7]
        == '-' && is_digit_char(s[8]) && is_digit_char(s[9])
}

/// Executable counterpart of [`is_digit`].
pub fn is_digit_char(c: char) -> (r: bool)
    ensures
        r == is_digit(c),
{
    c == '0' || c == '1' || c == '2' || c == '3' || c == '4' || c == '5' || c == '6' || c == '7'
        || c == '8' || c == '9'
}

/// Reads the date written in the first ten characters of `s` and
/// validates it against the calendar; `None` when the written numbers
/// are no valid date.
pub fn date_from_prefix(s: &Vec<char>) -> (r: Option<Date>)
    requires
        date_prefix_matches(s@),
    ensures
        match r {
            Some(d) => d == prefix_date(s@) && date_valid(d),
            None => !date_valid(prefix_date(s@)),
        },
{
    let year = digit_val(s[0]) * 1000 + digit_val(s[1]) * 100 + digit_val(s[2]) * 10 + digit_val(
        s[3],
    );
    let month = digit_val(s[5]) * 10 + digit_val(s[6]);
    let day = digit_val(s[8]) * 10 + digit_val(s[9]);
    let d = Date { year, month, day };
    if month < 1 || month > 12 {
        return None;
    }
    let leap = (year % 4 == 0 && year % 100 != 0) || year % 400 == 0;
    let dim: u32 = if month == 2 {
        if leap {
            29
        } else {
            28
        }
    } else if month == 4 || month == 6 || month == 9 || month == 11 {
        30
    } else {
        31
    };
    if day < 1 || day > dim {
        return None;
    }
    Some(d)
}

/// Writes `d` as the ten characters `YYYY-MM-DD`.
pub fn date_chars(d: &Date) -> (r: Vec<char>)
    requires
        date_valid(*d),
    ensures
        r@ == date_string(*d),
{
    let mut r: Vec<char> = Vec::new();
    r.push(char_of_digit(d.year / 1000));
    r.push(char_of_digit((d.year / 100) % 10));
    r.push(char_of_digit((d.year / 10) % 10));
    r.push(char_of_digit(d.year % 10));
    r.push('-');
    r.push(char_of_digit(d.month / 10));
    r.push(char_of_digit(d.month % 10));
    r.push('-');
    r.push(char_of_digit(d.day / 10));
    r.push(char_of_digit(d.day % 10));
    proof {
        assert(r@ =~= date_string(*d));
    }
    r
}

/// Whether `a` is on or before `b` in calendar order.
pub open spec fn date_le(a: Date, b: Date) -> bool {
    if a.year != b.year {
        a.year < b.year
    } else if a.month != b.month {
        a.month < b.month
    } else {
        a.day <= b.day
    }
}

/// Compares two dates in calendar order, as [`date_le`] describes.
pub fn date_le_exec(a: &Date, b: &Date) -> (r: bool)
    ensures
        r == date_le(*a, *b),
{
    if a.year != b.year {
        a.year < b.year
    } else if a.month != b.month {
        a.month < b.month
    } else {
        a.day <= b.day
    }
}

/// A `YYYY-MM-DD` file-name prefix that names a valid calendar date
/// round-trips: formatting the parsed date gives back exactly the
/// first ten characters of the name.
pub proof fn lemma_date_round_trip(s: Seq<char>)
    requires
        date_prefix_matches(s),
        date_valid(prefix_date(s)),
    ensures
        date_string(prefix_date(s)) == s.take(10),
{
    let a = digit_of(s[0]);
    let b = digit_of(s[1]);
    let c = digit_of(s[2]);
    let d = digit_of(s[3]);
    let y = a * 1000 + b * 100 + c * 10 + d;
    assert(0 <= a <= 9 && 0 <= b <= 9 && 0 <= c <= 9 && 0 <= d <= 9);
    assert(y / 1000 == a && (y / 100) % 10 == b && (y / 10) % 10 == c && y % 10 == d)
        by (nonlinear_arith)
        requires
            0 <= a <= 9 && 0 <= b <= 9 && 0 <= c <= 9 && 0 <= d <= 9 && y == a * 1000 + b * 100 + c
                * 10 + d,
    ;
    let m1 = digit_of(s[5]);
    let m2 = digit_of(s[6]);
    let m = m1 * 10 + m2;
    assert(m / 10 == m1 && m % 10 == m2) by (nonlinear_arith)
        requires
            0 <= m1 <= 9 && 0 <= m2 <= 9 && m == m1 * 10 + m2,
    ;
    let d1 = digit_of(s[8]);
    let d2 = digit_of(s[9]);
    let dd = d1 * 10 + d2;
    assert(dd / 10 == d1 && dd % 10 == d2) by (nonlinear_arith)
        requires
            0 <= d1 <= 9 && 0 <= d2 <= 9 && dd == d1 * 10 + d2,
    ;
    assert forall|c0: char| is_digit(c0) implies digit_char(digit_of(c0)) == c0 by {}
    assert(date_string(prefix_date(s)) =~= s.take(10));
}

} // verus!
