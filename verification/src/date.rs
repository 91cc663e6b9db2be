//! Calendar dates: parsing of `YYYY-MM-DD` strings and day-number
//! arithmetic in the proleptic Gregorian calendar.

use vstd::prelude::*;
use vstd::string::StrSliceExecFns;

verus! {

/// A calendar date. A value is meaningful when `wf()` holds: year at most
/// 9999 (four digits), month 1 to 12, day within the month.
#[derive(Clone, Copy, PartialEq, Eq, Structural, Debug)]
pub struct Date {
    pub year: u32,
    pub month: u32,
    pub day: u32,
}

pub open spec fn spec_is_leap_year(y: int) -> bool {
    y % 4 == 0 && (y % 100 != 0 || y % 400 == 0)
}

pub open spec fn spec_days_in_month(y: int, m: int) -> int {
    if m == 2 {
        if spec_is_leap_year(y) {
            29
        } else {
            28
        }
    } else if m == 4 || m == 6 || m == 9 || m == 11 {
        30
    } else {
        31
    }
}

pub open spec fn spec_days_in_year(y: int) -> int {
    if spec_is_leap_year(y) {
        366
    } else {
        365
    }
}

/// Days in year `y` that lie before the first day of month `m`.
pub open spec fn spec_days_before_month(y: int, m: int) -> int
    decreases m,
{
    if m <= 1 {
        0
    } else {
        spec_days_before_month(y, m - 1) + spec_days_in_month(y, m - 1)
    }
}

/// Days from 0000-01-01 up to the first day of year `y`.
pub open spec fn spec_days_before_year(y: int) -> int
    decreases y,
{
    if y <= 0 {
        0
    } else {
        spec_days_before_year(y - 1) + spec_days_in_year(y - 1)
    }
}

/// Index of a date in the calendar, counting 0000-01-01 as day 0. The
/// difference of two day numbers is the stay length in whole days.
pub open spec fn spec_day_number(d: Date) -> int {
    spec_days_before_year(d.year as int) + spec_days_before_month(d.year as int, d.month as int)
        + d.day - 1
}

impl Date {
    pub open spec fn wf(self) -> bool {
        &&& self.year <= 9999
        &&& 1 <= self.month <= 12
        &&& 1 <= self.day <= spec_days_in_month(self.year as int, self.month as int)
    }
}

pub proof fn lemma_days_before_month_bound(y: int, m: int)
    requires
        1 <= m <= 13,
    ensures
        0 <= spec_days_before_month(y, m) <= 31 * (m - 1),
    decreases m,
{
    if m > 1 {
        lemma_days_before_month_bound(y, m - 1);
    }
}

pub proof fn lemma_days_before_year_bound(y: int)
    requires
        y >= 0,
    ensures
        365 * y <= spec_days_before_year(y) <= 366 * y,
    decreases y,
{
    if y > 0 {
        lemma_days_before_year_bound(y - 1);
    }
}

/// Day numbers of well-formed dates stay below this bound, so differences
/// of stays fit comfortably in the integer types the analytics use.
pub proof fn lemma_day_number_bound(d: Date)
    requires
        d.wf(),
    ensures
        0 <= spec_day_number(d) < 3_660_500,
{
    lemma_days_before_year_bound(d.year as int);
    lemma_days_before_month_bound(d.year as int, d.month as int);
}

pub fn is_leap_year(y: u32) -> (r: bool)
    ensures
        r == spec_is_leap_year(y as int),
{
    y % 4 == 0 && (y % 100 != 0 || y % 400 == 0)
}

pub fn days_in_month(y: u32, m: u32) -> (r: u32)
    ensures
        r == spec_days_in_month(y as int, m as int),
{
    if m == 2 {
        if is_leap_year(y) {
            29
        } else {
            28
        }
    } else if m == 4 || m == 6 || m == 9 || m == 11 {
        30
    } else {
        31
    }
}

/// Day index of a well-formed date, counting 0000-01-01 as day 0.
pub fn day_number(d: &Date) -> (r: u32)
    requires
        d.wf(),
    ensures
        r == spec_day_number(*d),
        r < 3_660_500,
{
    proof {
        lemma_day_number_bound(*d);
    }
    let mut acc: u32 = 0;
    let mut y: u32 = 0;
    while y < d.year
        invariant
            y <= d.year,
            d.wf(),
            acc == spec_days_before_year(y as int),
            acc <= 366 * y,
        decreases d.year - y,
    {
        proof {
            lemma_days_before_year_bound(y as int);
        }
        acc = acc + if is_leap_year(y) {
            366
        } else {
            365
        };
        y = y + 1;
    }
    proof {
        lemma_days_before_year_bound(d.year as int);
    }
    let mut m: u32 = 1;
    while m < d.month
        invariant
            1 <= m <= d.month,
            d.wf(),
            acc == spec_days_before_year(d.year as int) + spec_days_before_month(
                d.year as int,
                m as int,
            ),
            acc <= 366 * d.year + 31 * (m - 1),
        decreases d.month - m,
    {
        proof {
            lemma_days_before_month_bound(d.year as int, m as int);
        }
        acc = acc + days_in_month(d.year, m);
        m = m + 1;
    }
    proof {
        lemma_days_before_month_bound(d.year as int, d.month as int);
    }
    acc + d.day - 1
}

pub open spec fn is_digit_char(c: char) -> bool {
    48 <= c as u32 <= 57
}

pub open spec fn digit_val(c: char) -> int {
    c as u32 - 48
}

/// The ten-character grammar `YYYY-MM-DD`, all fields decimal digits.
pub open spec fn spec_date_str(s: Seq<char>) -> bool {
    &&& s.len() == 10
    &&& is_digit_char(s[0])
    &&& is_digit_char(s[1])
    &&& is_digit_char(s[2])
    &&& is_digit_char(s[3])
    &&& s[4] == '-'
    &&& is_digit_char(s[5])
    &&& is_digit_char(s[6])
    &&& s[7] == '-'
    &&& is_digit_char(s[8])
    &&& is_digit_char(s[9])
}

pub open spec fn spec_year_of(s: Seq<char>) -> int {
    digit_val(s[0]) * 1000 + digit_val(s[1]) * 100 + digit_val(s[2]) * 10 + digit_val(s[3])
}

pub open spec fn spec_month_of(s: Seq<char>) -> int {
    digit_val(s[5]) * 10 + digit_val(s[6])
}

pub open spec fn spec_day_of(s: Seq<char>) -> int {
    digit_val(s[8]) * 10 + digit_val(s[9])
}

/// What parsing a date string yields: the field values of a string in the
/// `YYYY-MM-DD` grammar, provided they make a well-formed calendar date.
pub open spec fn spec_parse_date(s: Seq<char>) -> Option<Date> {
    if spec_date_str(s) {
        let d = Date {
            year: spec_year_of(s) as u32,
            month: spec_month_of(s) as u32,
            day: spec_day_of(s) as u32,
        };
        if d.wf() {
            Some(d)
        } else {
            None
        }
    } else {
        None
    }
}

fn digit(c: char) -> (r: Option<u32>)
    ensures
        match r {
            Some(v) => is_digit_char(c) && v == digit_val(c),
            None => !is_digit_char(c),
        },
{
    let v = c as u32;
    if 48 <= v && v <= 57 {
        Some(v - 48)
    } else {
        None
    }
}

/// Parses a `YYYY-MM-DD` string; `None` exactly on strings outside the
/// grammar or naming no well-formed calendar date.
pub fn parse_date(s: &str) -> (r: Option<Date>)
    ensures
        r == spec_parse_date(s@),
{
    let n = s.unicode_len();
    if n != 10 {
        return None;
    }
    if s.get_char(4) != '-' || s.get_char(7) != '-' {
        return None;
    }
    let d0 = match digit(s.get_char(0)) {
        Some(v) => v,
        None => {
            return None;
        },
    };
    let d1 = match digit(s.get_char(1)) {
        Some(v) => v,
        None => {
            return None;
        },
    };
    let d2 = match digit(s.get_char(2)) {
        Some(v) => v,
        None => {
            return None;
        },
    };
    let d3 = match digit(s.get_char(3)) {
        Some(v) => v,
        None => {
            return None;
        },
    };
    let m0 = match digit(s.get_char(5)) {
        Some(v) => v,
        None => {
            return None;
        },
    };
    let m1 = match digit(s.get_char(6)) {
        Some(v) => v,
        None => {
            return None;
        },
    };
    let a0 = match digit(s.get_char(8)) {
        Some(v) => v,
        None => {
            return None;
        },
    };
    let a1 = match digit(s.get_char(9)) {
        Some(v) => v,
        None => {
            return None;
        },
    };
    let year = d0 * 1000 + d1 * 100 + d2 * 10 + d3;
    let month = m0 * 10 + m1;
    let day = a0 * 10 + a1;
    if month < 1 || month > 12 {
        return None;
    }
    if day < 1 || day > days_in_month(year, month) {
        return None;
    }
    Some(Date { year, month, day })
}

} // verus!
