//! HTTP dates (RFC 7231, section 7.1.1.1): seconds since the Unix epoch,
//! formatted as IMF-fixdate and parsed from IMF-fixdate, RFC 850 or asctime.

use vstd::prelude::*;

use crate::errors::DateError;
use crate::text::{
    all_ascii, all_digits, chars_of, digit_char, digit_value, digits_value, is_digit,
    lemma_digit_char, parse_u64, parse_u64_range, push_char, trim, trim_bounds, trim_start,
    trim_end,
};

verus! {

/// One second past the last instant that an HTTP date can represent
/// (the start of the year 10000).
pub const MAX_HTTP_SECS: u64 = 253402300800u64;

/// The parts of an HTTP date.
#[derive(Debug, Clone, Copy, PartialEq, Eq, Structural)]
pub struct HttpDate {
    /// 0..=59
    pub second: u8,
    /// 0..=59
    pub minute: u8,
    /// 0..=23
    pub hour: u8,
    /// 1..=31
    pub day: u8,
    /// 1..=12
    pub month: u8,
    /// 1970..=9999
    pub year: u16,
    /// 1 (Monday) ..= 7 (Sunday)
    pub week_day: u8,
}

pub open spec fn is_leap(y: int) -> bool {
    (y % 4 == 0 && y % 100 != 0) || y % 400 == 0
}

pub open spec fn year_len(y: int) -> int {
    if is_leap(y) {
        366
    } else {
        365
    }
}

/// Days from 1970-01-01 to the first day of year `y`.
pub open spec fn days_before_year(y: int) -> int
    decreases y - 1970,
{
    if y <= 1970 {
        0
    } else {
        days_before_year(y - 1) + year_len(y - 1)
    }
}

pub open spec fn month_len(y: int, m: int) -> int {
    if m == 2 {
        if is_leap(y) {
            29
        } else {
            28
        }
    } else if m == 4 || m == 6 || m == 9 || m == 11 {
        30
    } else {
        31
    }
}

/// Days from the first of January of year `y` to the first day of month `m`.
pub open spec fn days_before_month(y: int, m: int) -> int
    decreases m,
{
    if m <= 1 {
        0
    } else {
        days_before_month(y, m - 1) + month_len(y, m - 1)
    }
}

/// Days from 1970-01-01 to the given day.
pub open spec fn civil_days(y: int, m: int, d: int) -> int {
    days_before_year(y) + days_before_month(y, m) + d - 1
}

/// The day of the week of a day counted from 1970-01-01 (a Thursday):
/// 1 is Monday, 7 is Sunday.
pub open spec fn weekday_of(days: int) -> int {
    (days + 3) % 7 + 1
}

/// The instant a date names, in seconds since the Unix epoch.
pub open spec fn date_secs(d: HttpDate) -> int {
    civil_days(d.year as int, d.month as int, d.day as int) * 86400 + d.hour * 3600 + d.minute
        * 60 + d.second
}

/// A date whose parts are in range, whose day exists in its month, and whose
/// week day is the one of that day.
pub open spec fn valid_date(d: HttpDate) -> bool {
    &&& 1970 <= d.year <= 9999
    &&& 1 <= d.month <= 12
    &&& 1 <= d.day <= month_len(d.year as int, d.month as int)
    &&& d.hour < 24
    &&& d.minute < 60
    &&& d.second < 60
    &&& d.week_day == weekday_of(civil_days(d.year as int, d.month as int, d.day as int))
}

/// Three-letter week day names.
pub open spec fn weekday_name(w: int) -> Seq<char> {
    if w == 1 {
        seq!['M', 'o', 'n']
    } else if w == 2 {
        seq!['T', 'u', 'e']
    } else if w == 3 {
        seq!['W', 'e', 'd']
    } else if w == 4 {
        seq!['T', 'h', 'u']
    } else if w == 5 {
        seq!['F', 'r', 'i']
    } else if w == 6 {
        seq!['S', 'a', 't']
    } else {
        seq!['S', 'u', 'n']
    }
}

/// The week day whose three-letter name is `a b c`.
pub open spec fn weekday_code(a: char, b: char, c: char) -> Option<u8> {
    if a == 'M' && b == 'o' && c == 'n' {
        Some(1)
    } else if a == 'T' && b == 'u' && c == 'e' {
        Some(2)
    } else if a == 'W' && b == 'e' && c == 'd' {
        Some(3)
    } else if a == 'T' && b == 'h' && c == 'u' {
        Some(4)
    } else if a == 'F' && b == 'r' && c == 'i' {
        Some(5)
    } else if a == 'S' && b == 'a' && c == 't' {
        Some(6)
    } else if a == 'S' && b == 'u' && c == 'n' {
        Some(7)
    } else {
        None
    }
}

/// Three-letter month names.
pub open spec fn month_name(m: int) -> Seq<char> {
    if m == 1 {
        seq!['J', 'a', 'n']
    } else if m == 2 {
        seq!['F', 'e', 'b']
    } else if m == 3 {
        seq!['M', 'a', 'r']
    } else if m == 4 {
        seq!['A', 'p', 'r']
    } else if m == 5 {
        seq!['M', 'a', 'y']
    } else if m == 6 {
        seq!['J', 'u', 'n']
    } else if m == 7 {
        seq!['J', 'u', 'l']
    } else if m == 8 {
        seq!['A', 'u', 'g']
    } else if m == 9 {
        seq!['S', 'e', 'p']
    } else if m == 10 {
        seq!['O', 'c', 't']
    } else if m == 11 {
        seq!['N', 'o', 'v']
    } else {
        seq!['D', 'e', 'c']
    }
}

/// The month whose three-letter name is `a b c`.
pub open spec fn month_code(a: char, b: char, c: char) -> Option<u8> {
    if a == 'J' && b == 'a' && c == 'n' {
        Some(1)
    } else if a == 'F' && b == 'e' && c == 'b' {
        Some(2)
    } else if a == 'M' && b == 'a' && c == 'r' {
        Some(3)
    } else if a == 'A' && b == 'p' && c == 'r' {
        Some(4)
    } else if a == 'M' && b == 'a' && c == 'y' {
        Some(5)
    } else if a == 'J' && b == 'u' && c == 'n' {
        Some(6)
    } else if a == 'J' && b == 'u' && c == 'l' {
        Some(7)
    } else if a == 'A' && b == 'u' && c == 'g' {
        Some(8)
    } else if a == 'S' && b == 'e' && c == 'p' {
        Some(9)
    } else if a == 'O' && b == 'c' && c == 't' {
        Some(10)
    } else if a == 'N' && b == 'o' && c == 'v' {
        Some(11)
    } else if a == 'D' && b == 'e' && c == 'c' {
        Some(12)
    } else {
        None
    }
}

/// Full week day names followed by `", "`, as RFC 850 dates start.
pub open spec fn long_weekday_prefix(w: int) -> Seq<char> {
    if w == 1 {
        seq!['M', 'o', 'n', 'd', 'a', 'y', ',', ' ']
    } else if w == 2 {
        seq!['T', 'u', 'e', 's', 'd', 'a', 'y', ',', ' ']
    } else if w == 3 {
        seq!['W', 'e', 'd', 'n', 'e', 's', 'd', 'a', 'y', ',', ' ']
    } else if w == 4 {
        seq!['T', 'h', 'u', 'r', 's', 'd', 'a', 'y', ',', ' ']
    } else if w == 5 {
        seq!['F', 'r', 'i', 'd', 'a', 'y', ',', ' ']
    } else if w == 6 {
        seq!['S', 'a', 't', 'u', 'r', 'd', 'a', 'y', ',', ' ']
    } else {
        seq!['S', 'u', 'n', 'd', 'a', 'y', ',', ' ']
    }
}

/// Two decimal digits, with a leading zero.
pub open spec fn two_digits(n: int) -> Seq<char> {
    seq![digit_char((n / 10) as nat), digit_char((n % 10) as nat)]
}

/// Four decimal digits, with leading zeros.
pub open spec fn four_digits(n: int) -> Seq<char> {
    seq![
        digit_char((n / 1000) as nat),
        digit_char((n / 100 % 10) as nat),
        digit_char((n / 10 % 10) as nat),
        digit_char((n % 10) as nat),
    ]
}

/// A date in IMF-fixdate form: `Sun, 06 Nov 1994 08:49:37 GMT`.
pub open spec fn imf_fixdate(d: HttpDate) -> Seq<char> {
    let w = weekday_name(d.week_day as int);
    let mo = month_name(d.month as int);
    let dd = two_digits(d.day as int);
    let yy = four_digits(d.year as int);
    let hh = two_digits(d.hour as int);
    let mi = two_digits(d.minute as int);
    let ss = two_digits(d.second as int);
    seq![
        w[0], w[1], w[2], ',', ' ', dd[0], dd[1], ' ', mo[0], mo[1], mo[2], ' ', yy[0], yy[1],
        yy[2], yy[3], ' ', hh[0], hh[1], ':', mi[0], mi[1], ':', ss[0], ss[1], ' ', 'G', 'M', 'T',
    ]
}

/// The value of `s[a..b]` as an unsigned number, as `str::parse` reads it.
pub open spec fn field(s: Seq<char>, a: int, b: int) -> Option<u64> {
    parse_u64(s.subrange(a, b))
}

/// Parses an IMF-fixdate: `Sun, 06 Nov 1994 08:49:37 GMT`.
pub open spec fn parse_imf_fixdate(s: Seq<char>) -> Option<HttpDate> {
    if s.len() != 29 || s[25] != ' ' || s[26] != 'G' || s[27] != 'M' || s[28] != 'T' || s[16]
        != ' ' || s[19] != ':' || s[22] != ':' {
        None
    } else {
        match (
            field(s, 23, 25),
            field(s, 20, 22),
            field(s, 17, 19),
            field(s, 5, 7),
            field(s, 12, 16),
        ) {
            (Some(second), Some(minute), Some(hour), Some(day), Some(year)) => {
                if s[7] == ' ' && s[11] == ' ' && month_code(s[8], s[9], s[10]) is Some && s[3]
                    == ',' && s[4] == ' ' && weekday_code(s[0], s[1], s[2]) is Some {
                    Some(
                        HttpDate {
                            second: second as u8,
                            minute: minute as u8,
                            hour: hour as u8,
                            day: day as u8,
                            month: month_code(s[8], s[9], s[10])->0,
                            year: year as u16,
                            week_day: weekday_code(s[0], s[1], s[2])->0,
                        },
                    )
                } else {
                    None
                }
            },
            _ => None,
        }
    }
}

/// The week day an RFC 850 date starts with, and the length of that prefix:
/// the first of Monday to Sunday whose name, then `", "`, starts `s`.
pub open spec fn rfc850_weekday(s: Seq<char>) -> Option<(u8, int)>
    decreases 8 - 0int,
{
    rfc850_weekday_from(s, 1)
}

pub open spec fn rfc850_weekday_from(s: Seq<char>, w: int) -> Option<(u8, int)>
    decreases 8 - w,
{
    if w < 1 || w > 7 {
        None
    } else {
        let p = long_weekday_prefix(w);
        if s.len() >= p.len() && s.take(p.len() as int) == p {
            Some((w as u8, p.len() as int))
        } else {
            rfc850_weekday_from(s, w + 1)
        }
    }
}

/// Parses an RFC 850 date: `Sunday, 06-Nov-94 08:49:37 GMT`.
pub open spec fn parse_rfc850(s0: Seq<char>) -> Option<HttpDate> {
    if s0.len() < 23 {
        None
    } else {
        match rfc850_weekday(s0) {
            None => None,
            Some((week_day, n)) => {
                let s = s0.skip(n);
                if s.len() != 22 || s[12] != ':' || s[15] != ':' || s[18] != ' ' || s[19] != 'G'
                    || s[20] != 'M' || s[21] != 'T' {
                    None
                } else {
                    match (field(s, 7, 9), field(s, 16, 18), field(s, 13, 15), field(s, 10, 12), field(s, 0, 2)) {
                        (Some(y), Some(second), Some(minute), Some(hour), Some(day)) => {
                            if s[2] == '-' && s[6] == '-' && month_code(s[3], s[4], s[5]) is Some {
                                Some(
                                    HttpDate {
                                        second: second as u8,
                                        minute: minute as u8,
                                        hour: hour as u8,
                                        day: day as u8,
                                        month: month_code(s[3], s[4], s[5])->0,
                                        year: if y < 70 {
                                            (y + 2000) as u16
                                        } else {
                                            (y + 1900) as u16
                                        },
                                        week_day,
                                    },
                                )
                            } else {
                                None
                            }
                        },
                        _ => None,
                    }
                }
            },
        }
    }
}

/// The day of an asctime date: two characters, or a space and one.
pub open spec fn asctime_day(s: Seq<char>) -> Option<u64> {
    if s[8] == ' ' {
        field(s, 9, 10)
    } else {
        field(s, 8, 10)
    }
}

/// Parses an asctime date: `Sun Nov  6 08:49:37 1994`.
pub open spec fn parse_asctime(s: Seq<char>) -> Option<HttpDate> {
    if s.len() != 24 || s[10] != ' ' || s[13] != ':' || s[16] != ':' || s[19] != ' ' {
        None
    } else {
        match (field(s, 17, 19), field(s, 14, 16), field(s, 11, 13), asctime_day(s), field(s, 20, 24)) {
            (Some(second), Some(minute), Some(hour), Some(day), Some(year)) => {
                if s[7] == ' ' && month_code(s[4], s[5], s[6]) is Some && s[3] == ' '
                    && weekday_code(s[0], s[1], s[2]) is Some {
                    Some(
                        HttpDate {
                            second: second as u8,
                            minute: minute as u8,
                            hour: hour as u8,
                            day: day as u8,
                            month: month_code(s[4], s[5], s[6])->0,
                            year: year as u16,
                            week_day: weekday_code(s[0], s[1], s[2])->0,
                        },
                    )
                } else {
                    None
                }
            },
            _ => None,
        }
    }
}

/// The date a trimmed ASCII text holds, trying IMF-fixdate, then RFC 850,
/// then asctime.
pub open spec fn parse_any_format(s: Seq<char>) -> Option<HttpDate> {
    match parse_imf_fixdate(s) {
        Some(d) => Some(d),
        None => match parse_rfc850(s) {
            Some(d) => Some(d),
            None => parse_asctime(s),
        },
    }
}

/// What parsing an HTTP date gives: the seconds since the Unix epoch, or
/// the reason it fails.
pub open spec fn http_date_result(s: Seq<char>) -> Result<u64, DateError> {
    if !all_ascii(s) {
        Err(DateError::NotASCII)
    } else {
        match parse_any_format(trim(s)) {
            None => Err(DateError::Unparseable),
            Some(d) => if valid_date(d) {
                Ok(date_secs(d) as u64)
            } else {
                Err(DateError::OutOfBounds)
            },
        }
    }
}

// ---------------------------------------------------------------------
// Calendar lemmas

pub proof fn lemma_div_step(y: int, k: int)
    requires
        y >= 1,
        k > 0,
    ensures
        y / k - (y - 1) / k == if y % k == 0 {
            1int
        } else {
            0int
        },
{
    assert(y / k - (y - 1) / k == if y % k == 0 {
        1int
    } else {
        0int
    }) by (nonlinear_arith)
        requires
            y >= 1,
            k > 0,
    ;
}

/// `days_before_year` in closed form.
pub proof fn lemma_days_before_year(y: int)
    requires
        y >= 1970,
    ensures
        days_before_year(y) == 365 * (y - 1970) + (y - 1) / 4 - (y - 1) / 100 + (y - 1) / 400
            - 477,
    decreases y - 1970,
{
    if y > 1970 {
        lemma_days_before_year(y - 1);
        lemma_div_step(y - 1, 4);
        lemma_div_step(y - 1, 100);
        lemma_div_step(y - 1, 400);
    }
}

pub proof fn lemma_days_before_year_mono(a: int, b: int)
    requires
        1970 <= a <= b,
    ensures
        days_before_year(a) <= days_before_year(b),
        a < b ==> days_before_year(a) + year_len(a) <= days_before_year(b),
    decreases b - a,
{
    if a < b {
        lemma_days_before_year_mono(a, b - 1);
    }
}

pub proof fn lemma_month_sums(y: int, m: int)
    requires
        1 <= m <= 12,
    ensures
        days_before_month(y, m) + month_len(y, m) <= year_len(y),
        days_before_month(y, m) >= 0,
        m == 12 ==> days_before_month(y, m) + month_len(y, m) == year_len(y),
    decreases m,
{
    if m > 1 {
        lemma_month_sums(y, m - 1);
    }
    assert(days_before_month(y, 12) + month_len(y, 12) == year_len(y)) by {
        reveal_with_fuel(days_before_month, 13);
    }
    if m < 12 {
        lemma_month_prefix(y, m);
    }
}

proof fn lemma_month_prefix(y: int, m: int)
    requires
        1 <= m < 12,
    ensures
        days_before_month(y, m) + month_len(y, m) <= days_before_month(y, 12),
    decreases 12 - m,
{
    if m + 1 < 12 {
        lemma_month_prefix(y, m + 1);
    }
}

// ---------------------------------------------------------------------
// Executable calendar

fn is_leap_year(y: u16) -> (r: bool)
    ensures
        r == is_leap(y as int),
{
    (y % 4 == 0 && y % 100 != 0) || y % 400 == 0
}

fn year_days(y: u16) -> (r: u64)
    ensures
        r == year_len(y as int),
{
    if is_leap_year(y) {
        366
    } else {
        365
    }
}

fn month_days(y: u16, m: u8) -> (r: u64)
    ensures
        r == month_len(y as int, m as int),
{
    if m == 2 {
        if is_leap_year(y) {
            29
        } else {
            28
        }
    } else if m == 4 || m == 6 || m == 9 || m == 11 {
        30
    } else {
        31
    }
}

/// Days from 1970-01-01 to the given day.
fn days_from_civil(y: u16, m: u8, d: u8) -> (r: u64)
    requires
        1970 <= y <= 9999,
        1 <= m <= 12,
        1 <= d,
    ensures
        r == civil_days(y as int, m as int, d as int),
        r <= 4000000,
{
    proof {
        lemma_days_before_year(y as int);
    }
    let yy = y as u64;
    let mut days: u64 = 365 * (yy - 1970) + (yy - 1) / 4 - (yy - 1) / 100 + (yy - 1) / 400 - 477;
    let mut k: u8 = 1;
    while k < m
        invariant
            1 <= k <= m <= 12,
            1970 <= y <= 9999,
            days == days_before_year(y as int) + days_before_month(y as int, k as int),
            days <= 3000000 + 366 * k,
        decreases m - k,
    {
        proof {
            lemma_month_sums(y as int, k as int);
        }
        days = days + month_days(y, k);
        k = k + 1;
    }
    days + (d as u64) - 1
}

/// The date of an instant given in seconds since the Unix epoch.
pub fn date_from_secs(secs: u64) -> (d: HttpDate)
    requires
        secs < MAX_HTTP_SECS,
    ensures
        valid_date(d),
        date_secs(d) == secs,
{
    let total = secs / 86400;
    let rem = secs % 86400;
    proof {
        lemma_days_before_year(10000);
        assert(days_before_year(10000) == 2932897);
        assert(total < 2932897);
    }
    let mut y: u16 = 1970;
    let mut d: u64 = total;
    while d >= year_days(y)
        invariant
            1970 <= y <= 9999,
            total == days_before_year(y as int) + d,
            total < 2932897,
            days_before_year(10000) == 2932897,
        decreases d,
    {
        proof {
            if y + 1 >= 10000 {
                lemma_days_before_year_mono(y + 1, 10000);
            }
        }
        d = d - year_days(y);
        y = y + 1;
    }
    let mut m: u8 = 1;
    while d >= month_days(y, m)
        invariant
            1970 <= y <= 9999,
            1 <= m <= 12,
            d < year_len(y as int),
            total == days_before_year(y as int) + days_before_month(y as int, m as int) + d,
            d + days_before_month(y as int, m as int) < year_len(y as int),
        decreases 12 - m,
    {
        proof {
            lemma_month_sums(y as int, m as int);
            if m == 12 {
                assert(false);
            }
        }
        d = d - month_days(y, m);
        m = m + 1;
    }
    proof {
        lemma_month_sums(y as int, m as int);
    }
    let day = (d + 1) as u8;
    let week_day = ((total + 3) % 7 + 1) as u8;
    let hour = (rem / 3600) as u8;
    let minute = (rem % 3600 / 60) as u8;
    let second = (rem % 60) as u8;
    let r = HttpDate { second, minute, hour, day, month: m, year: y, week_day };
    assert(secs == total * 86400 + rem);
    assert(rem == hour * 3600 + minute * 60 + second);
    r
}

/// Whether a date is valid: its parts are in range, its day exists, and its
/// week day is right.
pub fn is_valid(d: &HttpDate) -> (r: bool)
    ensures
        r == valid_date(*d),
{
    if d.second >= 60 || d.minute >= 60 || d.hour >= 24 || d.day == 0 || d.month == 0 || d.month
        > 12 || d.year < 1970 || d.year > 9999 {
        return false;
    }
    if d.day as u64 > month_days(d.year, d.month) {
        return false;
    }
    let days = days_from_civil(d.year, d.month, d.day);
    d.week_day as u64 == (days + 3) % 7 + 1
}

/// The instant a valid date names, in seconds since the Unix epoch.
pub fn secs_from_date(d: &HttpDate) -> (r: u64)
    requires
        valid_date(*d),
    ensures
        r == date_secs(*d),
        r < MAX_HTTP_SECS,
{
    proof {
        lemma_month_sums(d.year as int, d.month as int);
        lemma_days_before_year_mono(d.year as int + 1, 10000);
        lemma_days_before_year(10000);
    }
    let days = days_from_civil(d.year, d.month, d.day);
    days * 86400 + (d.hour as u64) * 3600 + (d.minute as u64) * 60 + (d.second as u64)
}


// ---------------------------------------------------------------------
// Uniqueness: a valid date is determined by its instant.

proof fn lemma_month_prefix_between(y: int, a: int, b: int)
    requires
        1 <= a < b <= 12,
    ensures
        days_before_month(y, a) + month_len(y, a) <= days_before_month(y, b),
    decreases b - a,
{
    if a + 1 < b {
        lemma_month_prefix_between(y, a, b - 1);
    }
}

proof fn lemma_civil_days_injective(y1: int, m1: int, d1: int, y2: int, m2: int, d2: int)
    requires
        1970 <= y1 <= 9999,
        1970 <= y2 <= 9999,
        1 <= m1 <= 12,
        1 <= m2 <= 12,
        1 <= d1 <= month_len(y1, m1),
        1 <= d2 <= month_len(y2, m2),
        civil_days(y1, m1, d1) == civil_days(y2, m2, d2),
    ensures
        y1 == y2,
        m1 == m2,
        d1 == d2,
{
    lemma_month_sums(y1, m1);
    lemma_month_sums(y2, m2);
    if y1 < y2 {
        lemma_days_before_year_mono(y1, y2);
    } else if y2 < y1 {
        lemma_days_before_year_mono(y2, y1);
    } else {
        if m1 < m2 {
            lemma_month_prefix_between(y1, m1, m2);
        } else if m2 < m1 {
            lemma_month_prefix_between(y1, m2, m1);
        }
    }
}

/// Two valid dates that name the same instant are the same date.
pub proof fn lemma_date_unique(a: HttpDate, b: HttpDate)
    requires
        valid_date(a),
        valid_date(b),
        date_secs(a) == date_secs(b),
    ensures
        a == b,
{
    let ca = civil_days(a.year as int, a.month as int, a.day as int);
    let cb = civil_days(b.year as int, b.month as int, b.day as int);
    let ta = a.hour * 3600 + a.minute * 60 + a.second;
    let tb = b.hour * 3600 + b.minute * 60 + b.second;
    assert(ca == cb) by (nonlinear_arith)
        requires
            ca * 86400 + ta == cb * 86400 + tb,
            0 <= ta < 86400,
            0 <= tb < 86400,
    ;
    lemma_civil_days_injective(
        a.year as int,
        a.month as int,
        a.day as int,
        b.year as int,
        b.month as int,
        b.day as int,
    );
}

/// The valid date of an instant.
pub open spec fn date_of(secs: int) -> HttpDate {
    choose|d: HttpDate| valid_date(d) && date_secs(d) == secs
}

/// An instant formatted as an IMF-fixdate, as `fmt_http_date` writes it.
pub open spec fn http_date_text(secs: int) -> Seq<char> {
    imf_fixdate(date_of(secs))
}

pub proof fn lemma_date_of(d: HttpDate)
    requires
        valid_date(d),
    ensures
        date_of(date_secs(d)) == d,
{
    let e = date_of(date_secs(d));
    assert(valid_date(e) && date_secs(e) == date_secs(d));
    lemma_date_unique(e, d);
}

// ---------------------------------------------------------------------
// Formatting

/// The three-letter name of week day `w`.
fn weekday_str(w: u8) -> (r: Vec<char>)
    ensures
        r@ == weekday_name(w as int),
{
    let r = if w == 1 {
        vec!['M', 'o', 'n']
    } else if w == 2 {
        vec!['T', 'u', 'e']
    } else if w == 3 {
        vec!['W', 'e', 'd']
    } else if w == 4 {
        vec!['T', 'h', 'u']
    } else if w == 5 {
        vec!['F', 'r', 'i']
    } else if w == 6 {
        vec!['S', 'a', 't']
    } else {
        vec!['S', 'u', 'n']
    };
    assert(r@ =~= weekday_name(w as int));
    r
}

/// The three-letter name of month `m`.
fn month_str(m: u8) -> (r: Vec<char>)
    ensures
        r@ == month_name(m as int),
{
    let r = if m == 1 {
        vec!['J', 'a', 'n']
    } else if m == 2 {
        vec!['F', 'e', 'b']
    } else if m == 3 {
        vec!['M', 'a', 'r']
    } else if m == 4 {
        vec!['A', 'p', 'r']
    } else if m == 5 {
        vec!['M', 'a', 'y']
    } else if m == 6 {
        vec!['J', 'u', 'n']
    } else if m == 7 {
        vec!['J', 'u', 'l']
    } else if m == 8 {
        vec!['A', 'u', 'g']
    } else if m == 9 {
        vec!['S', 'e', 'p']
    } else if m == 10 {
        vec!['O', 'c', 't']
    } else if m == 11 {
        vec!['N', 'o', 'v']
    } else {
        vec!['D', 'e', 'c']
    };
    assert(r@ =~= month_name(m as int));
    r
}

fn digit(n: u64) -> (c: char)
    requires
        n < 10,
    ensures
        c == digit_char(n as nat),
{
    proof {
        lemma_digit_char(n as nat);
    }
    ((n as u8) + 48) as char
}

fn push_three(out: &mut String, v: &Vec<char>)
    requires
        v@.len() == 3,
    ensures
        final(out)@ == old(out)@ + v@,
{
    push_char(out, v[0]);
    push_char(out, v[1]);
    push_char(out, v[2]);
    assert(final(out)@ =~= old(out)@ + v@);
}

fn push_two(out: &mut String, n: u64)
    requires
        n < 100,
    ensures
        final(out)@ == old(out)@ + two_digits(n as int),
{
    push_char(out, digit(n / 10));
    push_char(out, digit(n % 10));
    assert(final(out)@ =~= old(out)@ + two_digits(n as int));
}

fn push_four(out: &mut String, n: u64)
    requires
        n < 10000,
    ensures
        final(out)@ == old(out)@ + four_digits(n as int),
{
    push_char(out, digit(n / 1000));
    push_char(out, digit(n / 100 % 10));
    push_char(out, digit(n / 10 % 10));
    push_char(out, digit(n % 10));
    assert(final(out)@ =~= old(out)@ + four_digits(n as int));
}

/// A valid date as an IMF-fixdate.
pub fn format_date(d: &HttpDate) -> (s: String)
    requires
        valid_date(*d),
    ensures
        s@ == imf_fixdate(*d),
{
    let mut s = String::new();
    push_three(&mut s, &weekday_str(d.week_day));
    push_char(&mut s, ',');
    push_char(&mut s, ' ');
    push_two(&mut s, d.day as u64);
    push_char(&mut s, ' ');
    push_three(&mut s, &month_str(d.month));
    push_char(&mut s, ' ');
    push_four(&mut s, d.year as u64);
    push_char(&mut s, ' ');
    push_two(&mut s, d.hour as u64);
    push_char(&mut s, ':');
    push_two(&mut s, d.minute as u64);
    push_char(&mut s, ':');
    push_two(&mut s, d.second as u64);
    push_char(&mut s, ' ');
    push_char(&mut s, 'G');
    push_char(&mut s, 'M');
    push_char(&mut s, 'T');
    assert(s@ =~= imf_fixdate(*d));
    s
}

/// An instant, in seconds since the Unix epoch, as an IMF-fixdate.
pub fn fmt_http_date(secs: u64) -> (s: String)
    requires
        secs < MAX_HTTP_SECS,
    ensures
        s@ == http_date_text(secs as int),
{
    let d = date_from_secs(secs);
    proof {
        lemma_date_of(d);
    }
    format_date(&d)
}


// ---------------------------------------------------------------------
// Parsing

fn weekday_code_exec(a: char, b: char, c: char) -> (r: Option<u8>)
    ensures
        r == weekday_code(a, b, c),
{
    if a == 'M' && b == 'o' && c == 'n' {
        Some(1)
    } else if a == 'T' && b == 'u' && c == 'e' {
        Some(2)
    } else if a == 'W' && b == 'e' && c == 'd' {
        Some(3)
    } else if a == 'T' && b == 'h' && c == 'u' {
        Some(4)
    } else if a == 'F' && b == 'r' && c == 'i' {
        Some(5)
    } else if a == 'S' && b == 'a' && c == 't' {
        Some(6)
    } else if a == 'S' && b == 'u' && c == 'n' {
        Some(7)
    } else {
        None
    }
}

fn month_code_exec(a: char, b: char, c: char) -> (r: Option<u8>)
    ensures
        r == month_code(a, b, c),
{
    if a == 'J' && b == 'a' && c == 'n' {
        Some(1)
    } else if a == 'F' && b == 'e' && c == 'b' {
        Some(2)
    } else if a == 'M' && b == 'a' && c == 'r' {
        Some(3)
    } else if a == 'A' && b == 'p' && c == 'r' {
        Some(4)
    } else if a == 'M' && b == 'a' && c == 'y' {
        Some(5)
    } else if a == 'J' && b == 'u' && c == 'n' {
        Some(6)
    } else if a == 'J' && b == 'u' && c == 'l' {
        Some(7)
    } else if a == 'A' && b == 'u' && c == 'g' {
        Some(8)
    } else if a == 'S' && b == 'e' && c == 'p' {
        Some(9)
    } else if a == 'O' && b == 'c' && c == 't' {
        Some(10)
    } else if a == 'N' && b == 'o' && c == 'v' {
        Some(11)
    } else if a == 'D' && b == 'e' && c == 'c' {
        Some(12)
    } else {
        None
    }
}

fn long_weekday_prefix_exec(w: u8) -> (r: Vec<char>)
    requires
        1 <= w <= 7,
    ensures
        r@ == long_weekday_prefix(w as int),
{
    let r = if w == 1 {
        vec!['M', 'o', 'n', 'd', 'a', 'y', ',', ' ']
    } else if w == 2 {
        vec!['T', 'u', 'e', 's', 'd', 'a', 'y', ',', ' ']
    } else if w == 3 {
        vec!['W', 'e', 'd', 'n', 'e', 's', 'd', 'a', 'y', ',', ' ']
    } else if w == 4 {
        vec!['T', 'h', 'u', 'r', 's', 'd', 'a', 'y', ',', ' ']
    } else if w == 5 {
        vec!['F', 'r', 'i', 'd', 'a', 'y', ',', ' ']
    } else if w == 6 {
        vec!['S', 'a', 't', 'u', 'r', 'd', 'a', 'y', ',', ' ']
    } else {
        vec!['S', 'u', 'n', 'd', 'a', 'y', ',', ' ']
    };
    assert(r@ =~= long_weekday_prefix(w as int));
    r
}

/// Whether `s` starts with `p`.
fn starts_with(s: &[char], p: &[char]) -> (r: bool)
    ensures
        r == (s@.len() >= p@.len() && s@.take(p@.len() as int) == p@),
{
    if s.len() < p.len() {
        return false;
    }
    let mut i: usize = 0;
    while i < p.len()
        invariant
            s@.len() >= p@.len(),
            i <= p@.len(),
            forall|j: int| 0 <= j < i ==> s@[j] == p@[j],
        decreases p@.len() - i,
    {
        if s[i] != p[i] {
            assert(s@.take(p@.len() as int)[i as int] != p@[i as int]);
            return false;
        }
        i = i + 1;
    }
    assert(s@.take(p@.len() as int) =~= p@);
    true
}

/// A copy of `cs[a..b]`.
fn sub_vec(cs: &[char], a: usize, b: usize) -> (r: Vec<char>)
    requires
        a <= b <= cs@.len(),
    ensures
        r@ == cs@.subrange(a as int, b as int),
{
    let mut r: Vec<char> = Vec::new();
    let mut i = a;
    while i < b
        invariant
            a <= i <= b <= cs@.len(),
            r@ == cs@.subrange(a as int, i as int),
        decreases b - i,
    {
        r.push(cs[i]);
        i = i + 1;
    }
    r
}

fn parse_imf_fixdate_exec(s: &[char]) -> (r: Option<HttpDate>)
    ensures
        r == parse_imf_fixdate(s@),
{
    if s.len() != 29 || s[25] != ' ' || s[26] != 'G' || s[27] != 'M' || s[28] != 'T' || s[16]
        != ' ' || s[19] != ':' || s[22] != ':' {
        return None;
    }
    let second = parse_u64_range(s, 23, 25);
    let minute = parse_u64_range(s, 20, 22);
    let hour = parse_u64_range(s, 17, 19);
    let day = parse_u64_range(s, 5, 7);
    let year = parse_u64_range(s, 12, 16);
    match (second, minute, hour, day, year) {
        (Some(second), Some(minute), Some(hour), Some(day), Some(year)) => {
            let month = month_code_exec(s[8], s[9], s[10]);
            let week_day = weekday_code_exec(s[0], s[1], s[2]);
            if s[7] == ' ' && s[11] == ' ' && month.is_some() && s[3] == ',' && s[4] == ' '
                && week_day.is_some() {
                Some(
                    HttpDate {
                        second: second as u8,
                        minute: minute as u8,
                        hour: hour as u8,
                        day: day as u8,
                        month: month.unwrap(),
                        year: year as u16,
                        week_day: week_day.unwrap(),
                    },
                )
            } else {
                None
            }
        },
        _ => None,
    }
}

fn rfc850_weekday_exec(s: &[char]) -> (r: Option<(u8, usize)>)
    ensures
        match r {
            Some((w, n)) => rfc850_weekday(s@) == Some((w, n as int)) && n <= s@.len(),
            None => rfc850_weekday(s@) is None,
        },
{
    let mut w: u8 = 1;
    while w <= 7
        invariant
            1 <= w <= 8,
            rfc850_weekday(s@) == rfc850_weekday_from(s@, w as int),
        decreases 8 - w,
    {
        let p = long_weekday_prefix_exec(w);
        if starts_with(s, p.as_slice()) {
            return Some((w, p.len()));
        }
        w = w + 1;
    }
    None
}

fn parse_rfc850_exec(s0: &[char]) -> (r: Option<HttpDate>)
    ensures
        r == parse_rfc850(s0@),
{
    if s0.len() < 23 {
        return None;
    }
    let (week_day, n) = match rfc850_weekday_exec(s0) {
        None => {
            return None;
        },
        Some(p) => p,
    };
    let s = sub_vec(s0, n, s0.len());
    assert(s@ =~= s0@.skip(n as int));
    if s.len() != 22 || s[12] != ':' || s[15] != ':' || s[18] != ' ' || s[19] != 'G' || s[20]
        != 'M' || s[21] != 'T' {
        return None;
    }
    let y = parse_u64_range(s.as_slice(), 7, 9);
    let second = parse_u64_range(s.as_slice(), 16, 18);
    let minute = parse_u64_range(s.as_slice(), 13, 15);
    let hour = parse_u64_range(s.as_slice(), 10, 12);
    let day = parse_u64_range(s.as_slice(), 0, 2);
    match (y, second, minute, hour, day) {
        (Some(y), Some(second), Some(minute), Some(hour), Some(day)) => {
            let month = month_code_exec(s[3], s[4], s[5]);
            if s[2] == '-' && s[6] == '-' && month.is_some() {
                proof {
                    assert(y <= 99) by {
                        lemma_field_bound(s@, 7, 9);
                    }
                }
                let year: u16 = if y < 70 {
                    (y + 2000) as u16
                } else {
                    (y + 1900) as u16
                };
                Some(
                    HttpDate {
                        second: second as u8,
                        minute: minute as u8,
                        hour: hour as u8,
                        day: day as u8,
                        month: month.unwrap(),
                        year,
                        week_day,
                    },
                )
            } else {
                None
            }
        },
        _ => None,
    }
}

/// A field of at most two characters is below 100.
proof fn lemma_field_bound(s: Seq<char>, a: int, b: int)
    requires
        0 <= a <= b <= s.len(),
        b - a <= 2,
        field(s, a, b) is Some,
    ensures
        field(s, a, b)->0 <= 99,
{
    let t = s.subrange(a, b);
    let d = if t.len() > 0 && t[0] == '+' {
        t.drop_first()
    } else {
        t
    };
    assert(d.len() <= 2);
    if d.len() == 1 {
        assert(d.drop_last() =~= Seq::<char>::empty());
        assert(is_digit(d[0]));
        assert(digit_value(d[0]) <= 9);
        assert(digits_value(d) == digits_value(d.drop_last()) * 10 + digit_value(d.last()));
    } else if d.len() == 2 {
        assert(d.drop_last().drop_last() =~= Seq::<char>::empty());
        assert(is_digit(d[0]) && is_digit(d[1]));
        assert(d.drop_last()[0] == d[0]);
        assert(digit_value(d[0]) <= 9);
        assert(digit_value(d[1]) <= 9);
        assert(digits_value(d.drop_last()) == digits_value(d.drop_last().drop_last()) * 10
            + digit_value(d[0]));
        assert(digits_value(d) == digits_value(d.drop_last()) * 10 + digit_value(d.last()));
    }
}

fn parse_asctime_exec(s: &[char]) -> (r: Option<HttpDate>)
    ensures
        r == parse_asctime(s@),
{
    if s.len() != 24 || s[10] != ' ' || s[13] != ':' || s[16] != ':' || s[19] != ' ' {
        return None;
    }
    let second = parse_u64_range(s, 17, 19);
    let minute = parse_u64_range(s, 14, 16);
    let hour = parse_u64_range(s, 11, 13);
    let day = if s[8] == ' ' {
        parse_u64_range(s, 9, 10)
    } else {
        parse_u64_range(s, 8, 10)
    };
    let year = parse_u64_range(s, 20, 24);
    match (second, minute, hour, day, year) {
        (Some(second), Some(minute), Some(hour), Some(day), Some(year)) => {
            let month = month_code_exec(s[4], s[5], s[6]);
            let week_day = weekday_code_exec(s[0], s[1], s[2]);
            if s[7] == ' ' && month.is_some() && s[3] == ' ' && week_day.is_some() {
                Some(
                    HttpDate {
                        second: second as u8,
                        minute: minute as u8,
                        hour: hour as u8,
                        day: day as u8,
                        month: month.unwrap(),
                        year: year as u16,
                        week_day: week_day.unwrap(),
                    },
                )
            } else {
                None
            }
        },
        _ => None,
    }
}

/// Parses an HTTP date in any of its three formats, after trimming
/// whitespace, into seconds since the Unix epoch.
pub fn parse_http_date(s: &str) -> (r: Result<u64, DateError>)
    ensures
        r == http_date_result(s@),
{
    let cs = chars_of(s);
    let mut i: usize = 0;
    while i < cs.len()
        invariant
            cs@ == s@,
            i <= cs@.len(),
            forall|j: int| 0 <= j < i ==> (#[trigger] cs@[j] as u32) < 128,
        decreases cs@.len() - i,
    {
        if (cs[i] as u32) >= 128 {
            return Err(DateError::NotASCII);
        }
        i = i + 1;
    }
    let (a, b) = trim_bounds(cs.as_slice(), 0, cs.len());
    assert(cs@.subrange(0, cs@.len() as int) =~= s@);
    let t = sub_vec(cs.as_slice(), a, b);
    let d = match parse_imf_fixdate_exec(t.as_slice()) {
        Some(d) => Some(d),
        None => match parse_rfc850_exec(t.as_slice()) {
            Some(d) => Some(d),
            None => parse_asctime_exec(t.as_slice()),
        },
    };
    match d {
        None => Err(DateError::Unparseable),
        Some(d) => {
            if is_valid(&d) {
                Ok(secs_from_date(&d))
            } else {
                Err(DateError::OutOfBounds)
            }
        },
    }
}


// ---------------------------------------------------------------------
// Every instant has a date, and a formatted date parses back to its instant.

proof fn lemma_year_of(total: int, y: int) -> (r: int)
    requires
        1970 <= y <= 9999,
        days_before_year(y) <= total < 2932897,
        days_before_year(10000) == 2932897,
    ensures
        1970 <= r <= 9999,
        days_before_year(r) <= total < days_before_year(r) + year_len(r),
    decreases total - days_before_year(y),
{
    if total < days_before_year(y) + year_len(y) {
        y
    } else {
        if y + 1 >= 10000 {
            lemma_days_before_year_mono(y + 1, 10000);
        }
        lemma_year_of(total, y + 1)
    }
}

proof fn lemma_month_of(rem: int, y: int, m: int) -> (r: int)
    requires
        1 <= m <= 12,
        days_before_month(y, m) <= rem < year_len(y),
    ensures
        1 <= r <= 12,
        days_before_month(y, r) <= rem < days_before_month(y, r) + month_len(y, r),
    decreases 12 - m,
{
    lemma_month_sums(y, m);
    if rem < days_before_month(y, m) + month_len(y, m) {
        m
    } else {
        lemma_month_of(rem, y, m + 1)
    }
}

/// Every instant before the year 10000 is named by a valid date.
pub proof fn lemma_date_exists(secs: int)
    requires
        0 <= secs < MAX_HTTP_SECS,
    ensures
        valid_date(date_of(secs)),
        date_secs(date_of(secs)) == secs,
{
    lemma_days_before_year(10000);
    let total = secs / 86400;
    let rem = secs % 86400;
    let y = lemma_year_of(total, 1970);
    let m = lemma_month_of(total - days_before_year(y), y, 1);
    let day = total - days_before_year(y) - days_before_month(y, m) + 1;
    let d = HttpDate {
        second: (rem % 60) as u8,
        minute: (rem % 3600 / 60) as u8,
        hour: (rem / 3600) as u8,
        day: day as u8,
        month: m as u8,
        year: y as u16,
        week_day: ((total + 3) % 7 + 1) as u8,
    };
    lemma_month_sums(y, m);
    assert(secs == total * 86400 + rem);
    assert(rem == d.hour * 3600 + d.minute * 60 + d.second);
    assert(valid_date(d) && date_secs(d) == secs);
}

proof fn lemma_two_digits(n: int)
    requires
        0 <= n < 100,
    ensures
        parse_u64(two_digits(n)) == Some(n as u64),
        all_ascii(two_digits(n)),
        two_digits(n).len() == 2,
{
    let t = two_digits(n);
    lemma_digit_char((n / 10) as nat);
    lemma_digit_char((n % 10) as nat);
    assert(t.drop_last() =~= seq![t[0]]);
    assert(t.drop_last().drop_last() =~= Seq::<char>::empty());
    assert(digits_value(t.drop_last()) == digits_value(t.drop_last().drop_last()) * 10
        + digit_value(t[0]));
    assert(digits_value(t) == digits_value(t.drop_last()) * 10 + digit_value(t[1]));
    assert(all_digits(t));
}

proof fn lemma_four_digits(n: int)
    requires
        0 <= n < 10000,
    ensures
        parse_u64(four_digits(n)) == Some(n as u64),
        all_ascii(four_digits(n)),
        four_digits(n).len() == 4,
{
    let t = four_digits(n);
    lemma_digit_char((n / 1000) as nat);
    lemma_digit_char((n / 100 % 10) as nat);
    lemma_digit_char((n / 10 % 10) as nat);
    lemma_digit_char((n % 10) as nat);
    let t3 = t.drop_last();
    let t2 = t3.drop_last();
    let t1 = t2.drop_last();
    assert(t1 =~= seq![t[0]]);
    assert(t2 =~= seq![t[0], t[1]]);
    assert(t3 =~= seq![t[0], t[1], t[2]]);
    assert(t1.drop_last() =~= Seq::<char>::empty());
    assert(t1.last() == t[0]);
    assert(digits_value(t1) == digits_value(t1.drop_last()) * 10 + digit_value(t1.last()));
    assert(digits_value(t1) == digit_value(t[0]));
    assert(digits_value(t2) == digits_value(t1) * 10 + digit_value(t[1]));
    assert(digits_value(t3) == digits_value(t2) * 10 + digit_value(t[2]));
    assert(digits_value(t) == digits_value(t3) * 10 + digit_value(t[3]));
    assert(n == (n / 1000) * 1000 + (n / 100 % 10) * 100 + (n / 10 % 10) * 10 + n % 10);
    assert(all_digits(t));
}

/// A valid date, written as an IMF-fixdate, parses back to its instant.
#[verifier::rlimit(50)]
pub proof fn lemma_parse_imf_text(d: HttpDate)
    requires
        valid_date(d),
    ensures
        all_ascii(imf_fixdate(d)),
        trim(imf_fixdate(d)) == imf_fixdate(d),
        parse_imf_fixdate(imf_fixdate(d)) == Some(d),
        http_date_result(imf_fixdate(d)) == Ok::<u64, DateError>(date_secs(d) as u64),
{
    let t = imf_fixdate(d);
    let w = weekday_name(d.week_day as int);
    let mo = month_name(d.month as int);
    let dd = two_digits(d.day as int);
    let yy = four_digits(d.year as int);
    let hh = two_digits(d.hour as int);
    let mi = two_digits(d.minute as int);
    let ss = two_digits(d.second as int);
    lemma_two_digits(d.day as int);
    lemma_two_digits(d.hour as int);
    lemma_two_digits(d.minute as int);
    lemma_two_digits(d.second as int);
    lemma_four_digits(d.year as int);
    assert(t.subrange(5, 7) =~= dd);
    assert(t.subrange(12, 16) =~= yy);
    assert(t.subrange(17, 19) =~= hh);
    assert(t.subrange(20, 22) =~= mi);
    assert(t.subrange(23, 25) =~= ss);
    assert(weekday_code(w[0], w[1], w[2]) == Some(d.week_day));
    assert(month_code(mo[0], mo[1], mo[2]) == Some(d.month));
    assert forall|i: int| 0 <= i < t.len() implies (#[trigger] t[i] as u32) < 128 by {
        if 5 <= i < 7 {
            assert(t[i] == dd[i - 5]);
        } else if 12 <= i < 16 {
            assert(t[i] == yy[i - 12]);
        } else if 17 <= i < 19 {
            assert(t[i] == hh[i - 17]);
        } else if 20 <= i < 22 {
            assert(t[i] == mi[i - 20]);
        } else if 23 <= i < 25 {
            assert(t[i] == ss[i - 23]);
        }
    }
    assert(trim_start(t) == t);
    assert(trim_end(t) == t);
}

/// Text that starts with a quote or with `W/`, and ends with a quote, is no
/// HTTP date.
pub proof fn lemma_quoted_not_date(v: Seq<char>)
    requires
        v.len() >= 2,
        v[0] == '"' || (v[0] == 'W' && v[1] == '/'),
        v.last() == '"',
    ensures
        http_date_result(v) is Err,
{
    assert(trim_start(v) == v);
    assert(trim_end(v) == v);
    assert(trim(v) == v);
    reveal_with_fuel(rfc850_weekday_from, 8);
    assert forall|w: int| 1 <= w <= 7 implies v.len() < long_weekday_prefix(w).len() || v.take(
        long_weekday_prefix(w).len() as int,
    ) != long_weekday_prefix(w) by {
        let p = long_weekday_prefix(w);
        if v.len() >= p.len() && v.take(p.len() as int) == p {
            assert(v.take(p.len() as int)[0] == v[0]);
            assert(v.take(p.len() as int)[1] == v[1]);
        }
    }
    assert(rfc850_weekday(v) is None);
}

/// The HTTP date of an instant is ASCII text.
pub proof fn lemma_date_text_ascii(secs: u64)
    requires
        secs < MAX_HTTP_SECS,
    ensures
        all_ascii(http_date_text(secs as int)),
{
    lemma_date_exists(secs as int);
    lemma_parse_imf_text(date_of(secs as int));
}

// ---------------------------------------------------------------------
// What the names and numbers of a date mean

/// Law: the months of a date are written under their English three-letter
/// abbreviations, January being month 1 and December month 12, and three
/// letters name a month exactly when they are its abbreviation, case
/// included.
pub proof fn law_month_names(a: char, b: char, c: char)
    ensures
        month_name(1) == seq!['J', 'a', 'n'],
        month_name(2) == seq!['F', 'e', 'b'],
        month_name(3) == seq!['M', 'a', 'r'],
        month_name(4) == seq!['A', 'p', 'r'],
        month_name(5) == seq!['M', 'a', 'y'],
        month_name(6) == seq!['J', 'u', 'n'],
        month_name(7) == seq!['J', 'u', 'l'],
        month_name(8) == seq!['A', 'u', 'g'],
        month_name(9) == seq!['S', 'e', 'p'],
        month_name(10) == seq!['O', 'c', 't'],
        month_name(11) == seq!['N', 'o', 'v'],
        month_name(12) == seq!['D', 'e', 'c'],
        month_code(a, b, c) == Some(1u8) <==> (a == 'J' && b == 'a' && c == 'n'),
        month_code(a, b, c) == Some(2u8) <==> (a == 'F' && b == 'e' && c == 'b'),
        month_code(a, b, c) == Some(3u8) <==> (a == 'M' && b == 'a' && c == 'r'),
        month_code(a, b, c) == Some(4u8) <==> (a == 'A' && b == 'p' && c == 'r'),
        month_code(a, b, c) == Some(5u8) <==> (a == 'M' && b == 'a' && c == 'y'),
        month_code(a, b, c) == Some(6u8) <==> (a == 'J' && b == 'u' && c == 'n'),
        month_code(a, b, c) == Some(7u8) <==> (a == 'J' && b == 'u' && c == 'l'),
        month_code(a, b, c) == Some(8u8) <==> (a == 'A' && b == 'u' && c == 'g'),
        month_code(a, b, c) == Some(9u8) <==> (a == 'S' && b == 'e' && c == 'p'),
        month_code(a, b, c) == Some(10u8) <==> (a == 'O' && b == 'c' && c == 't'),
        month_code(a, b, c) == Some(11u8) <==> (a == 'N' && b == 'o' && c == 'v'),
        month_code(a, b, c) == Some(12u8) <==> (a == 'D' && b == 'e' && c == 'c'),
{
}

/// Law: the week days are written under their English names, Monday being
/// day 1 and Sunday day 7: three-letter abbreviations in IMF-fixdate and
/// asctime dates, full names followed by `, ` in RFC 850 dates; three letters
/// name a week day exactly when they are its abbreviation.
pub proof fn law_weekday_names(a: char, b: char, c: char)
    ensures
        weekday_name(1) == seq!['M', 'o', 'n'],
        weekday_name(2) == seq!['T', 'u', 'e'],
        weekday_name(3) == seq!['W', 'e', 'd'],
        weekday_name(4) == seq!['T', 'h', 'u'],
        weekday_name(5) == seq!['F', 'r', 'i'],
        weekday_name(6) == seq!['S', 'a', 't'],
        weekday_name(7) == seq!['S', 'u', 'n'],
        long_weekday_prefix(1) == seq!['M', 'o', 'n', 'd', 'a', 'y', ',', ' '],
        long_weekday_prefix(2) == seq!['T', 'u', 'e', 's', 'd', 'a', 'y', ',', ' '],
        long_weekday_prefix(3) == seq!['W', 'e', 'd', 'n', 'e', 's', 'd', 'a', 'y', ',', ' '],
        long_weekday_prefix(4) == seq!['T', 'h', 'u', 'r', 's', 'd', 'a', 'y', ',', ' '],
        long_weekday_prefix(5) == seq!['F', 'r', 'i', 'd', 'a', 'y', ',', ' '],
        long_weekday_prefix(6) == seq!['S', 'a', 't', 'u', 'r', 'd', 'a', 'y', ',', ' '],
        long_weekday_prefix(7) == seq!['S', 'u', 'n', 'd', 'a', 'y', ',', ' '],
        weekday_code(a, b, c) == Some(1u8) <==> (a == 'M' && b == 'o' && c == 'n'),
        weekday_code(a, b, c) == Some(2u8) <==> (a == 'T' && b == 'u' && c == 'e'),
        weekday_code(a, b, c) == Some(3u8) <==> (a == 'W' && b == 'e' && c == 'd'),
        weekday_code(a, b, c) == Some(4u8) <==> (a == 'T' && b == 'h' && c == 'u'),
        weekday_code(a, b, c) == Some(5u8) <==> (a == 'F' && b == 'r' && c == 'i'),
        weekday_code(a, b, c) == Some(6u8) <==> (a == 'S' && b == 'a' && c == 't'),
        weekday_code(a, b, c) == Some(7u8) <==> (a == 'S' && b == 'u' && c == 'n'),
{
}

/// Law: months have the lengths of the Gregorian calendar: thirty days for
/// April, June, September and November, twenty-eight or, in a leap year,
/// twenty-nine for February, thirty-one for the others; a year is a leap
/// year when it divides by 4 but not by 100, or by 400.
pub proof fn law_month_lengths(y: int, m: int)
    requires
        1 <= m <= 12,
    ensures
        month_len(y, m) == if m == 2 {
            if (y % 4 == 0 && y % 100 != 0) || y % 400 == 0 {
                29int
            } else {
                28int
            }
        } else if m == 4 || m == 6 || m == 9 || m == 11 {
            30int
        } else {
            31int
        },
        year_len(y) == if (y % 4 == 0 && y % 100 != 0) || y % 400 == 0 {
            366int
        } else {
            365int
        },
{
}

/// Law: the Unix epoch, instant 0, is Thursday 1 January 1970 at midnight
/// GMT; it is written `Thu, 01 Jan 1970 00:00:00 GMT`, and that text reads
/// back as instant 0.
pub proof fn law_epoch_date()
    ensures
        http_date_text(0) == seq!['T', 'h', 'u', ',', ' ', '0', '1', ' ', 'J', 'a', 'n', ' ', '1', '9', '7', '0', ' ', '0', '0', ':', '0', '0', ':', '0', '0', ' ', 'G', 'M', 'T'],
        http_date_result(seq!['T', 'h', 'u', ',', ' ', '0', '1', ' ', 'J', 'a', 'n', ' ', '1', '9', '7', '0', ' ', '0', '0', ':', '0', '0', ':', '0', '0', ' ', 'G', 'M', 'T']) == Ok::<u64, DateError>(0),
{
    let d = HttpDate { second: 0, minute: 0, hour: 0, day: 1, month: 1, year: 1970, week_day: 4 };
    assert(days_before_month(1970, 1) == 0);
    assert(civil_days(1970, 1, 1) == 0);
    assert(valid_date(d));
    assert(date_secs(d) == 0);
    lemma_date_of(d);
    assert(http_date_text(0) =~= seq!['T', 'h', 'u', ',', ' ', '0', '1', ' ', 'J', 'a', 'n', ' ', '1', '9', '7', '0', ' ', '0', '0', ':', '0', '0', ':', '0', '0', ' ', 'G', 'M', 'T']);
    law_http_date_round_trip(0);
}

/// Law: the instant 784111777 is Sunday 6 November 1994, 08:49:37 GMT, the
/// example date of RFC 7231: it is written `Sun, 06 Nov 1994 08:49:37 GMT`,
/// and that text reads back as the same instant. Between it and the epoch
/// lie six leap days and ten whole months of 1994.
pub proof fn law_rfc_example_date()
    ensures
        http_date_text(784111777) == seq!['S', 'u', 'n', ',', ' ', '0', '6', ' ', 'N', 'o', 'v', ' ', '1', '9', '9', '4', ' ', '0', '8', ':', '4', '9', ':', '3', '7', ' ', 'G', 'M', 'T'],
        http_date_result(seq!['S', 'u', 'n', ',', ' ', '0', '6', ' ', 'N', 'o', 'v', ' ', '1', '9', '9', '4', ' ', '0', '8', ':', '4', '9', ':', '3', '7', ' ', 'G', 'M', 'T']) == Ok::<u64, DateError>(784111777),
{
    let d = HttpDate { second: 37, minute: 49, hour: 8, day: 6, month: 11, year: 1994, week_day: 7 };
    reveal_with_fuel(days_before_year, 25);
    reveal_with_fuel(days_before_month, 12);
    assert(days_before_year(1994) == 8766);
    assert(days_before_month(1994, 11) == 304);
    assert(civil_days(1994, 11, 6) == 9075);
    assert(valid_date(d));
    assert(date_secs(d) == 784111777);
    lemma_date_of(d);
    assert(http_date_text(784111777) =~= seq!['S', 'u', 'n', ',', ' ', '0', '6', ' ', 'N', 'o', 'v', ' ', '1', '9', '9', '4', ' ', '0', '8', ':', '4', '9', ':', '3', '7', ' ', 'G', 'M', 'T']);
    law_http_date_round_trip(784111777);
}

/// Law: an HTTP date written by `fmt_http_date` is read back by
/// `parse_http_date` as the same instant.
pub proof fn law_http_date_round_trip(secs: u64)
    requires
        secs < MAX_HTTP_SECS,
    ensures
        http_date_result(http_date_text(secs as int)) == Ok::<u64, DateError>(secs),
{
    lemma_date_exists(secs as int);
    lemma_parse_imf_text(date_of(secs as int));
}

} // verus!
