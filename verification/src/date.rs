//! Calendar dates as plain year-month-day values.
//!
//! Dates in task lines are always written `YYYY-MM-DD`, so a date here
//! is a year in `0..=9999`, a month in `1..=12` and a day bounded by
//! the month's length in the proleptic Gregorian calendar.  A date's
//! day number (days since the calendar's day zero) gives the ordering
//! and the inclusive date-range checks that the filters use.

use vstd::prelude::*;

use crate::text::line_chars;

verus! {

/// A calendar date, no time component.
#[derive(Clone, Copy, PartialEq, Eq, Structural, Debug)]
pub struct Date {
    pub year: u32,
    pub month: u32,
    pub day: u32,
}

pub open spec fn is_leap_year(y: int) -> bool {
    y % 4 == 0 && (y % 100 != 0 || y % 400 == 0)
}

pub open spec fn days_in_month(y: int, m: int) -> int {
    if m == 2 {
        if is_leap_year(y) {
            29
        } else {
            28
        }
    } else if m == 4 || m == 6 || m == 9 || m == 11 {
        30
    } else {
        31
    }
}

pub open spec fn valid_date(y: int, m: int, d: int) -> bool {
    &&& 0 <= y <= 9999
    &&& 1 <= m <= 12
    &&& 1 <= d <= days_in_month(y, m)
}

impl Date {
    /// A date that the four-digit line format can carry.
    pub open spec fn valid(self) -> bool {
        valid_date(self.year as int, self.month as int, self.day as int)
    }
}

/// Days in all years before year `y`, counting year 0 as a leap year.
pub open spec fn days_before_year(y: int) -> int {
    365 * y + (y + 3) / 4 - (y + 99) / 100 + (y + 399) / 400
}

/// Days in the months of year `y` before month `m`.
pub open spec fn days_before_month(y: int, m: int) -> int {
    let plain: int = if m == 1 {
        0
    } else if m == 2 {
        31
    } else if m == 3 {
        59
    } else if m == 4 {
        90
    } else if m == 5 {
        120
    } else if m == 6 {
        151
    } else if m == 7 {
        181
    } else if m == 8 {
        212
    } else if m == 9 {
        243
    } else if m == 10 {
        273
    } else if m == 11 {
        304
    } else {
        334
    };
    if m > 2 && is_leap_year(y) {
        plain + 1
    } else {
        plain
    }
}

/// Days from the calendar's day zero (January 1 of year 0) to `d`.
pub open spec fn day_number(d: Date) -> int {
    days_before_year(d.year as int) + days_before_month(d.year as int, d.month as int)
        + d.day as int - 1
}

/// The length of month `m` of year `y`.
pub fn month_length(y: u32, m: u32) -> (n: u32)
    requires
        1 <= m <= 12,
    ensures
        n as int == days_in_month(y as int, m as int),
{
    if m == 2 {
        if (y % 4 == 0 && y % 100 != 0) || y % 400 == 0 {
            29
        } else {
            28
        }
    } else if m == 4 || m == 6 || m == 9 || m == 11 {
        30
    } else {
        31
    }
}

/// Whether `d` is a date the line format can carry.
pub fn date_is_valid(d: &Date) -> (b: bool)
    ensures
        b == d.valid(),
{
    d.year <= 9999 && 1 <= d.month && d.month <= 12 && 1 <= d.day && d.day
        <= month_length(d.year, d.month)
}

/// The day number of a valid date, as a machine integer.
pub fn day_number_of(d: &Date) -> (n: u32)
    requires
        d.valid(),
    ensures
        n as int == day_number(*d),
{
    let y = d.year;
    let before_year = 365 * y + (y + 3) / 4 - (y + 99) / 100 + (y + 399) / 400;
    let plain: u32 = if d.month == 1 {
        0
    } else if d.month == 2 {
        31
    } else if d.month == 3 {
        59
    } else if d.month == 4 {
        90
    } else if d.month == 5 {
        120
    } else if d.month == 6 {
        151
    } else if d.month == 7 {
        181
    } else if d.month == 8 {
        212
    } else if d.month == 9 {
        243
    } else if d.month == 10 {
        273
    } else if d.month == 11 {
        304
    } else {
        334
    };
    let leap_shift: u32 = if d.month > 2 && ((y % 4 == 0 && y % 100 != 0) || y % 400 == 0) {
        1
    } else {
        0
    };
    before_year + plain + leap_shift + d.day - 1
}

pub open spec fn is_digit(c: char) -> bool {
    ||| c == '0'
    ||| c == '1'
    ||| c == '2'
    ||| c == '3'
    ||| c == '4'
    ||| c == '5'
    ||| c == '6'
    ||| c == '7'
    ||| c == '8'
    ||| c == '9'
}

pub open spec fn digit_val(c: char) -> int {
    if c == '0' {
        0
    } else if c == '1' {
        1
    } else if c == '2' {
        2
    } else if c == '3' {
        3
    } else if c == '4' {
        4
    } else if c == '5' {
        5
    } else if c == '6' {
        6
    } else if c == '7' {
        7
    } else if c == '8' {
        8
    } else {
        9
    }
}

pub open spec fn digit_char(v: int) -> char {
    if v == 0 {
        '0'
    } else if v == 1 {
        '1'
    } else if v == 2 {
        '2'
    } else if v == 3 {
        '3'
    } else if v == 4 {
        '4'
    } else if v == 5 {
        '5'
    } else if v == 6 {
        '6'
    } else if v == 7 {
        '7'
    } else if v == 8 {
        '8'
    } else {
        '9'
    }
}

/// The ten characters `YYYY-MM-DD` of a date.
pub open spec fn date_chars(d: Date) -> Seq<char> {
    seq![
        digit_char(d.year as int / 1000),
        digit_char((d.year as int / 100) % 10),
        digit_char((d.year as int / 10) % 10),
        digit_char(d.year as int % 10),
        '-',
        digit_char(d.month as int / 10),
        digit_char(d.month as int % 10),
        '-',
        digit_char(d.day as int / 10),
        digit_char(d.day as int % 10),
    ]
}

/// Whether the ten characters at `i` have the shape `YYYY-MM-DD`:
/// digits in the date positions and dashes between the groups.
pub open spec fn date_pattern_at(s: Seq<char>, i: int) -> bool {
    &&& 0 <= i
    &&& i + 10 <= s.len()
    &&& is_digit(s[i])
    &&& is_digit(s[i + 1])
    &&& is_digit(s[i + 2])
    &&& is_digit(s[i + 3])
    &&& s[i + 4] == '-'
    &&& is_digit(s[i + 5])
    &&& is_digit(s[i + 6])
    &&& s[i + 7] == '-'
    &&& is_digit(s[i + 8])
    &&& is_digit(s[i + 9])
}

/// The date the ten characters at `i` spell, read as decimal digits.
/// Meaningful only where `date_pattern_at` holds; the result may still
/// fail `valid` (a thirteenth month, a thirty-second day).
pub open spec fn date_at(s: Seq<char>, i: int) -> Date {
    Date {
        year: (1000 * digit_val(s[i]) + 100 * digit_val(s[i + 1]) + 10 * digit_val(s[i + 2])
            + digit_val(s[i + 3])) as u32,
        month: (10 * digit_val(s[i + 5]) + digit_val(s[i + 6])) as u32,
        day: (10 * digit_val(s[i + 8]) + digit_val(s[i + 9])) as u32,
    }
}

pub proof fn lemma_digit_char_val(v: int)
    requires
        0 <= v < 10,
    ensures
        is_digit(digit_char(v)),
        digit_val(digit_char(v)) == v,
{
}

/// The characters a valid date writes parse back to the same date.
#[verifier::rlimit(60)]
pub proof fn lemma_date_chars_round_trip(d: Date)
    requires
        d.valid(),
    ensures
        date_chars(d).len() == 10,
        date_pattern_at(date_chars(d), 0),
        date_at(date_chars(d), 0) == d,
{
    let y = d.year as int;
    let m = d.month as int;
    let dy = d.day as int;
    assert(0 <= y / 1000 < 10);
    assert(0 <= (y / 100) % 10 < 10);
    assert(0 <= (y / 10) % 10 < 10);
    assert(0 <= y % 10 < 10);
    assert(0 <= m / 10 < 10);
    assert(0 <= m % 10 < 10);
    assert(0 <= dy / 10 < 10);
    assert(0 <= dy % 10 < 10);
    lemma_digit_char_val(y / 1000);
    lemma_digit_char_val((y / 100) % 10);
    lemma_digit_char_val((y / 10) % 10);
    lemma_digit_char_val(y % 10);
    lemma_digit_char_val(m / 10);
    lemma_digit_char_val(m % 10);
    lemma_digit_char_val(dy / 10);
    lemma_digit_char_val(dy % 10);
    assert(1000 * (y / 1000) + 100 * ((y / 100) % 10) + 10 * ((y / 10) % 10) + y % 10 == y);
    assert(10 * (m / 10) + m % 10 == m);
    assert(10 * (dy / 10) + dy % 10 == dy);
}

/// Positions of `date_chars` hold digits, apart from the two dashes.
pub proof fn lemma_date_chars_shape(d: Date)
    requires
        d.valid(),
    ensures
        date_chars(d).len() == 10,
        forall|k: int|
            0 <= k < 10 && k != 4 && k != 7 ==> is_digit(#[trigger] date_chars(d)[k]),
        date_chars(d)[4] == '-',
        date_chars(d)[7] == '-',
{
    assert forall|k: int|
        0 <= k < 10 && k != 4 && k != 7 implies is_digit(#[trigger] date_chars(d)[k]) by {
        lemma_date_chars_round_trip(d);
    }
}

/// The digit a character stands for, where it is one.
pub fn digit_of(c: char) -> (r: Option<u32>)
    ensures
        match r {
            Some(v) => is_digit(c) && v < 10 && v as int == digit_val(c),
            None => !is_digit(c),
        },
{
    match c {
        '0' => Some(0),
        '1' => Some(1),
        '2' => Some(2),
        '3' => Some(3),
        '4' => Some(4),
        '5' => Some(5),
        '6' => Some(6),
        '7' => Some(7),
        '8' => Some(8),
        '9' => Some(9),
        _ => None,
    }
}

fn append_digit(out: &mut String, v: u32)
    requires
        v < 10,
    ensures
        final(out)@ == old(out)@ + seq![digit_char(v as int)],
{
    let t: &str = if v == 0 {
        "0"
    } else if v == 1 {
        "1"
    } else if v == 2 {
        "2"
    } else if v == 3 {
        "3"
    } else if v == 4 {
        "4"
    } else if v == 5 {
        "5"
    } else if v == 6 {
        "6"
    } else if v == 7 {
        "7"
    } else if v == 8 {
        "8"
    } else {
        "9"
    };
    proof {
        reveal_strlit("0");
        reveal_strlit("1");
        reveal_strlit("2");
        reveal_strlit("3");
        reveal_strlit("4");
        reveal_strlit("5");
        reveal_strlit("6");
        reveal_strlit("7");
        reveal_strlit("8");
        reveal_strlit("9");
        assert(t@ =~= seq![digit_char(v as int)]);
    }
    out.append(t);
}

/// Appends the ten characters `YYYY-MM-DD` of `d` to `out`.
pub fn push_date(out: &mut String, d: &Date)
    requires
        d.valid(),
    ensures
        final(out)@ == old(out)@ + date_chars(*d),
{
    append_digit(out, d.year / 1000);
    append_digit(out, (d.year / 100) % 10);
    append_digit(out, (d.year / 10) % 10);
    append_digit(out, d.year % 10);
    out.append("-");
    append_digit(out, d.month / 10);
    append_digit(out, d.month % 10);
    out.append("-");
    append_digit(out, d.day / 10);
    append_digit(out, d.day % 10);
    proof {
        reveal_strlit("-");
        assert("-"@ =~= seq!['-']);
        assert(final(out)@ =~= old(out)@ + date_chars(*d));
    }
}

/// The ten characters `YYYY-MM-DD` of `d`, as a string.
pub fn date_string(d: &Date) -> (s: String)
    requires
        d.valid(),
    ensures
        s@ == date_chars(*d),
{
    let mut out = String::new();
    push_date(&mut out, d);
    proof {
        assert(out@ =~= date_chars(*d));
    }
    out
}

/// What a whole string parses to: a date exactly when the text is
/// ten characters of the shape `YYYY-MM-DD` naming a valid date.
pub open spec fn date_text_parse(s: Seq<char>) -> Option<Date> {
    if s.len() == 10 && date_pattern_at(s, 0) && date_at(s, 0).valid() {
        Some(date_at(s, 0))
    } else {
        None
    }
}

/// Parses a whole string as a `YYYY-MM-DD` calendar date.
pub fn parse_date(s: &str) -> (r: Option<Date>)
    ensures
        r == date_text_parse(s@),
{
    let v = line_chars(s);
    if v.len() != 10 {
        return None;
    }
    parse_date_at(&v, 0)
}

/// Reads `YYYY-MM-DD` at position `j` of `v`, accepting only dates
/// that are valid in the calendar.
pub fn parse_date_at(v: &Vec<char>, j: usize) -> (r: Option<Date>)
    ensures
        match r {
            Some(d) => date_pattern_at(v@, j as int) && date_at(v@, j as int) == d && d.valid(),
            None => !(date_pattern_at(v@, j as int) && date_at(v@, j as int).valid()),
        },
{
    if v.len() < 10 || j > v.len() - 10 {
        return None;
    }
    let y0 = match digit_of(v[j]) {
        Some(x) => x,
        None => {
            return None;
        },
    };
    let y1 = match digit_of(v[j + 1]) {
        Some(x) => x,
        None => {
            return None;
        },
    };
    let y2 = match digit_of(v[j + 2]) {
        Some(x) => x,
        None => {
            return None;
        },
    };
    let y3 = match digit_of(v[j + 3]) {
        Some(x) => x,
        None => {
            return None;
        },
    };
    if v[j + 4] != '-' {
        return None;
    }
    let m0 = match digit_of(v[j + 5]) {
        Some(x) => x,
        None => {
            return None;
        },
    };
    let m1 = match digit_of(v[j + 6]) {
        Some(x) => x,
        None => {
            return None;
        },
    };
    if v[j + 7] != '-' {
        return None;
    }
    let d0 = match digit_of(v[j + 8]) {
        Some(x) => x,
        None => {
            return None;
        },
    };
    let d1 = match digit_of(v[j + 9]) {
        Some(x) => x,
        None => {
            return None;
        },
    };
    let date = Date {
        year: 1000 * y0 + 100 * y1 + 10 * y2 + y3,
        month: 10 * m0 + m1,
        day: 10 * d0 + d1,
    };
    if date_is_valid(&date) {
        Some(date)
    } else {
        None
    }
}

} // verus!
