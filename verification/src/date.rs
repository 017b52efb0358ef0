//! HTTP dates as seconds since the Unix epoch.

use axum::http::HeaderValue;
use vstd::prelude::*;
use vstd::slice::slice_subrange;
use crate::fields::{text, value_bytes, value_str};
use crate::numbers::{as_i64, parse_i64};
use crate::text::{chars_of, find, pieces, prefix_len, same_str, split, texts, word_list, words, CharClass};

verus! {

// ---------------------------------------------------------------------------
// Calendar
// ---------------------------------------------------------------------------

/// The quotient of a division that rounds toward zero.
pub open spec fn quotient(a: int, b: int) -> int {
    if a >= 0 {
        a / b
    } else {
        -((-a) / b)
    }
}

/// Whether a year of the Gregorian calendar has a 29 February.
pub open spec fn is_leap_year(year: int) -> bool {
    (year % 4 == 0 && year % 100 != 0) || year % 400 == 0
}

/// The days of a common year that lie before the first day of a month.
pub open spec fn days_before_month(month: int) -> int {
    if month == 1 {
        0
    } else if month == 2 {
        31
    } else if month == 3 {
        59
    } else if month == 4 {
        90
    } else if month == 5 {
        120
    } else if month == 6 {
        151
    } else if month == 7 {
        181
    } else if month == 8 {
        212
    } else if month == 9 {
        243
    } else if month == 10 {
        273
    } else if month == 11 {
        304
    } else if month == 12 {
        334
    } else {
        365
    }
}

/// The leap years from 1970 up to the year before the given one; negative
/// where the given year comes earlier.
pub open spec fn leap_years_before(year: int) -> int {
    quotient(year - 1, 4) - quotient(year - 1, 100) + quotient(year - 1, 400) - 477
}

/// The days from 1 January 1970 to a date.
pub open spec fn epoch_days(year: int, month: int, day: int) -> int {
    (year - 1970) * 365 + leap_years_before(year) + days_before_month(month) + (if is_leap_year(
        year,
    ) && month > 2 {
        1int
    } else {
        0int
    }) + day - 1
}

/// The seconds from the Unix epoch to a date and time of day.
pub open spec fn timestamp(year: int, month: int, day: int, h: int, m: int, s: int) -> int {
    epoch_days(year, month, day) * 86400 + h * 3600 + m * 60 + s
}

/// A number as a signed machine integer, if it fits.
pub open spec fn fitting(n: int) -> Option<i64> {
    if i64::MIN <= n <= i64::MAX {
        Some(n as i64)
    } else {
        None
    }
}

fn divide(a: i128, b: u128) -> (q: i128)
    requires
        b > 0,
        -0x2_0000_0000_0000_0000 <= a <= 0x2_0000_0000_0000_0000,
    ensures
        q == quotient(a as int, b as int),
        -0x2_0000_0000_0000_0000 <= q <= 0x2_0000_0000_0000_0000,
{
    if a >= 0 {
        proof {
            vstd::arithmetic::div_mod::lemma_div_is_ordered_by_denominator(a as int, 1, b as int);
        }
        ((a as u128) / b) as i128
    } else {
        let m: u128 = (-a) as u128;
        proof {
            vstd::arithmetic::div_mod::lemma_div_is_ordered_by_denominator(m as int, 1, b as int);
        }
        -((m / b) as i128)
    }
}

fn month_offset(month: i64) -> (d: i128)
    ensures
        d == days_before_month(month as int),
        0 <= d <= 365,
{
    match month {
        1 => 0,
        2 => 31,
        3 => 59,
        4 => 90,
        5 => 120,
        6 => 151,
        7 => 181,
        8 => 212,
        9 => 243,
        10 => 273,
        11 => 304,
        12 => 334,
        _ => 365,
    }
}

fn divisible(a: i128, b: u128) -> (r: bool)
    requires
        b > 0,
        -0x2_0000_0000_0000_0000 <= a <= 0x2_0000_0000_0000_0000,
    ensures
        r == (a as int % b as int == 0),
{
    if a >= 0 {
        (a as u128) % b == 0
    } else {
        let m: u128 = (-a) as u128;
        proof {
            let (x, y) = (m as int, b as int);
            vstd::arithmetic::div_mod::lemma_fundamental_div_mod(x, y);
            vstd::arithmetic::div_mod::lemma_fundamental_div_mod(-x, y);
            if x % y == 0 {
                assert(-x == y * (-(x / y))) by (nonlinear_arith)
                    requires
                        x == y * (x / y),
                ;
                vstd::arithmetic::div_mod::lemma_mod_multiples_basic(-(x / y), y);
                assert(y * (-(x / y)) == (-(x / y)) * y) by (nonlinear_arith);
            }
            if (-x) % y == 0 {
                assert(x == y * (-((-x) / y))) by (nonlinear_arith)
                    requires
                        -x == y * ((-x) / y),
                ;
                vstd::arithmetic::div_mod::lemma_mod_multiples_basic(-((-x) / y), y);
                assert(y * (-((-x) / y)) == (-((-x) / y)) * y) by (nonlinear_arith);
            }
        }
        m % b == 0
    }
}

/// The timestamp of a date and time of day.
pub(crate) fn unix_ts(year: i128, month: i64, day: i64, h: i64, m: i64, s: i64) -> (r: i128)
    requires
        -0x1_0000_0000_0000_0000 <= year <= 0x1_0000_0000_0000_0000,
    ensures
        r == timestamp(year as int, month as int, day as int, h as int, m as int, s as int),
{
    let leap: i128 = divide(year - 1, 4) - divide(year - 1, 100) + divide(year - 1, 400) - 477;
    let mut days: i128 = (year - 1970) * 365 + leap + month_offset(month);
    let is_leap = (divisible(year, 4) && !divisible(year, 100)) || divisible(year, 400);
    if is_leap && month > 2 {
        days = days + 1;
    }
    days = days + day as i128 - 1;
    days * 86400 + h as i128 * 3600 + m as i128 * 60 + s as i128
}

// ---------------------------------------------------------------------------
// Date texts
// ---------------------------------------------------------------------------

/// The number of a month by its English three-letter name.
pub open spec fn month_number(name: Seq<char>) -> Option<i64> {
    if name == "Jan"@ {
        Some(1)
    } else if name == "Feb"@ {
        Some(2)
    } else if name == "Mar"@ {
        Some(3)
    } else if name == "Apr"@ {
        Some(4)
    } else if name == "May"@ {
        Some(5)
    } else if name == "Jun"@ {
        Some(6)
    } else if name == "Jul"@ {
        Some(7)
    } else if name == "Aug"@ {
        Some(8)
    } else if name == "Sep"@ {
        Some(9)
    } else if name == "Oct"@ {
        Some(10)
    } else if name == "Nov"@ {
        Some(11)
    } else if name == "Dec"@ {
        Some(12)
    } else {
        None
    }
}

/// The hour, minute and second of a text such as `15:04:05`. What follows a
/// third colon is not read.
pub open spec fn clock(s: Seq<char>) -> Option<(i64, i64, i64)> {
    let t = split(s, CharClass::Is(':'));
    if t.len() < 3 {
        None
    } else {
        match (as_i64(t[0]), as_i64(t[1]), as_i64(t[2])) {
            (Some(h), Some(m), Some(s)) => Some((h, m, s)),
            _ => None,
        }
    }
}

/// The timestamp of a day, month and year together with a time of day, where
/// each of them is there.
pub open spec fn moment(
    year: Option<int>,
    month: Option<i64>,
    day: Option<i64>,
    time: Option<(i64, i64, i64)>,
) -> Option<int> {
    match (year, month, day, time) {
        (Some(y), Some(mo), Some(d), Some((h, mi, s))) => Some(
            timestamp(y, mo as int, d as int, h as int, mi as int, s as int),
        ),
        _ => None,
    }
}

/// A machine integer as a number.
pub open spec fn widened(n: Option<i64>) -> Option<int> {
    match n {
        Some(n) => Some(n as int),
        None => None,
    }
}

/// The timestamp of a text such as `Mon, 02 Jan 2006 15:04:05 GMT`. The first
/// five characters, and what follows the time of day, are not read.
pub open spec fn imf_fixdate(s: Seq<char>) -> Option<int> {
    let p = words(s.skip(5), CharClass::Blank);
    if s.len() < 5 || p.len() < 4 {
        None
    } else {
        moment(widened(as_i64(p[2])), month_number(p[1]), as_i64(p[0]), clock(p[3]))
    }
}

/// The year that a year of two digits stands for: 1970 to 2069.
pub open spec fn full_year(yy: Option<i64>) -> Option<int> {
    match yy {
        Some(n) => Some(if n >= 70 { 1900 + n } else { 2000 + n }),
        None => None,
    }
}

/// The timestamp of a text such as `Monday, 02-Jan-06 15:04:05 GMT`. What
/// stands up to the character behind the first comma is not read, nor what
/// follows the time of day, of which something has to be there.
pub open spec fn rfc850_date(s: Seq<char>) -> Option<int> {
    let comma = prefix_len(s, CharClass::Is(',')) as int;
    let p = words(s.skip(comma + 2), CharClass::Blank);
    if comma + 2 > s.len() || p.len() < 3 {
        None
    } else {
        let d = split(p[0], CharClass::Is('-'));
        if d.len() < 3 {
            None
        } else {
            moment(full_year(as_i64(d[2])), month_number(d[1]), as_i64(d[0]), clock(p[1]))
        }
    }
}

/// The timestamp of a text such as `Mon Jan  2 15:04:05 2006`. The day of the
/// week is not read.
pub open spec fn asctime_date(s: Seq<char>) -> Option<int> {
    let p = words(s, CharClass::Blank);
    if p.len() != 5 {
        None
    } else {
        moment(widened(as_i64(p[4])), month_number(p[1]), as_i64(p[2]), clock(p[3]))
    }
}

/// The timestamp that the text of a date header denotes, in one of the three
/// forms of RFC 7231, section 7.1.1.1.
pub open spec fn http_date(s: Seq<char>) -> Option<int> {
    match imf_fixdate(s) {
        Some(t) => Some(t),
        None => match rfc850_date(s) {
            Some(t) => Some(t),
            None => asctime_date(s),
        },
    }
}

/// The timestamp that the value of a date header denotes, if the value is
/// plain text, denotes a date, and the timestamp fits.
pub open spec fn date_of(bytes: Seq<u8>) -> Option<i64> {
    match text(bytes) {
        Some(s) => match http_date(s) {
            Some(t) => fitting(t),
            None => None,
        },
        None => None,
    }
}

fn month_num(name: &[char]) -> (r: Option<i64>)
    ensures
        r == month_number(name@),
{
    if same_str(name, "Jan") {
        Some(1)
    } else if same_str(name, "Feb") {
        Some(2)
    } else if same_str(name, "Mar") {
        Some(3)
    } else if same_str(name, "Apr") {
        Some(4)
    } else if same_str(name, "May") {
        Some(5)
    } else if same_str(name, "Jun") {
        Some(6)
    } else if same_str(name, "Jul") {
        Some(7)
    } else if same_str(name, "Aug") {
        Some(8)
    } else if same_str(name, "Sep") {
        Some(9)
    } else if same_str(name, "Oct") {
        Some(10)
    } else if same_str(name, "Nov") {
        Some(11)
    } else if same_str(name, "Dec") {
        Some(12)
    } else {
        None
    }
}

fn parse_clock(s: &[char]) -> (r: Option<(i64, i64, i64)>)
    ensures
        r == clock(s@),
{
    let t = pieces(s, CharClass::Is(':'));
    assert(texts(t@).len() == t@.len());
    if t.len() < 3 {
        return None;
    }
    match (parse_i64(t[0]), parse_i64(t[1]), parse_i64(t[2])) {
        (Some(h), Some(m), Some(s)) => Some((h, m, s)),
        _ => None,
    }
}

pub(crate) fn parse_imf_fixdate(s: &[char]) -> (r: Option<i128>)
    ensures
        same_number(r, imf_fixdate(s@)),
{
    if s.len() < 5 {
        return None;
    }
    let rest = slice_subrange(s, 5, s.len());
    assert(rest@ =~= s@.skip(5));
    let p = word_list(rest, CharClass::Blank);
    assert(texts(p@).len() == p@.len());
    if p.len() < 4 {
        return None;
    }
    match (parse_i64(p[2]), month_num(p[1]), parse_i64(p[0]), parse_clock(p[3])) {
        (Some(year), Some(month), Some(day), Some((h, m, s))) => Some(
            unix_ts(year as i128, month, day, h, m, s),
        ),
        _ => None,
    }
}

pub(crate) fn parse_rfc850_date(s: &[char]) -> (r: Option<i128>)
    ensures
        same_number(r, rfc850_date(s@)),
{
    let comma: usize = find(s, CharClass::Is(','));
    if s.len() < 2 || comma > s.len() - 2 {
        return None;
    }
    let rest = slice_subrange(s, comma + 2, s.len());
    assert(rest@ =~= s@.skip(comma + 2));
    let p = word_list(rest, CharClass::Blank);
    assert(texts(p@).len() == p@.len());
    if p.len() < 3 {
        return None;
    }
    let d = pieces(p[0], CharClass::Is('-'));
    assert(texts(d@).len() == d@.len());
    if d.len() < 3 {
        return None;
    }
    match (parse_i64(d[2]), month_num(d[1]), parse_i64(d[0]), parse_clock(p[1])) {
        (Some(yy), Some(month), Some(day), Some((h, m, s))) => {
            let year: i128 = if yy >= 70 { 1900 + yy as i128 } else { 2000 + yy as i128 };
            Some(unix_ts(year, month, day, h, m, s))
        },
        _ => None,
    }
}

pub(crate) fn parse_asctime_date(s: &[char]) -> (r: Option<i128>)
    ensures
        same_number(r, asctime_date(s@)),
{
    let p = word_list(s, CharClass::Blank);
    assert(texts(p@).len() == p@.len());
    if p.len() != 5 {
        return None;
    }
    match (parse_i64(p[4]), month_num(p[1]), parse_i64(p[2]), parse_clock(p[3])) {
        (Some(year), Some(month), Some(day), Some((h, m, s))) => Some(
            unix_ts(year as i128, month, day, h, m, s),
        ),
        _ => None,
    }
}

/// Whether a machine integer that may be there is a number that may be there.
pub open spec fn same_number(a: Option<i128>, b: Option<int>) -> bool {
    match a {
        Some(n) => b == Some(n as int),
        None => b is None,
    }
}

/// Reads the date of a header value as seconds since the Unix epoch. There is
/// none where the value is not plain text or no date of any form, and
/// where the seconds do not fit.
pub fn parse_http_date(value: &HeaderValue) -> (r: Option<i64>)
    ensures
        r == date_of(value_bytes(*value)),
{
    match value_str(value) {
        Some(s) => {
            let s = chars_of(s);
            let s = s.as_slice();
            let ts: Option<i128> = match parse_imf_fixdate(s) {
                Some(t) => Some(t),
                None => match parse_rfc850_date(s) {
                    Some(t) => Some(t),
                    None => parse_asctime_date(s),
                },
            };
            match ts {
                Some(t) => if i64::MIN as i128 <= t && t <= i64::MAX as i128 {
                    Some(t as i64)
                } else {
                    None
                },
                None => None,
            }
        },
        None => None,
    }
}

// ---------------------------------------------------------------------------
// Laws of the calendar
// ---------------------------------------------------------------------------

/// The number of days of a month.
pub open spec fn days_in_month(year: int, month: int) -> int {
    if month == 2 {
        if is_leap_year(year) {
            29
        } else {
            28
        }
    } else if month == 4 || month == 6 || month == 9 || month == 11 {
        30
    } else {
        31
    }
}

/// Whether a date with a time of day exists in the Gregorian calendar.
pub open spec fn exists_in_calendar(year: int, month: int, day: int, h: int, m: int, s: int) -> bool {
    &&& year >= 1
    &&& 1 <= month <= 12
    &&& 1 <= day <= days_in_month(year, month)
    &&& 0 <= h < 24
    &&& 0 <= m < 60
    &&& 0 <= s < 60
}

/// Days are counted from the epoch, and the count follows the calendar: the
/// first day of the next month, or of the next year, comes right after the
/// last day of a month.
pub proof fn law_days_follow_the_calendar(year: int, month: int)
    requires
        year >= 1,
        1 <= month <= 12,
    ensures
        epoch_days(1970, 1, 1) == 0,
        month < 12 ==> epoch_days(year, month + 1, 1) == epoch_days(
            year,
            month,
            days_in_month(year, month),
        ) + 1,
        month == 12 ==> epoch_days(year + 1, 1, 1) == epoch_days(year, 12, 31) + 1,
{
}

/// The day after a day of the calendar.
pub open spec fn next_day(year: int, month: int, day: int) -> (int, int, int) {
    if day < days_in_month(year, month) {
        (year, month, day + 1)
    } else if month < 12 {
        (year, month + 1, 1)
    } else {
        (year + 1, 1, 1)
    }
}

/// A day has 86400 seconds: the same time on the next day of the calendar is
/// so much later. With the epoch as the start, this counts every day.
pub proof fn law_days_last_as_long_as_each_other(year: int, month: int, day: int, h: int, m: int, s: int)
    requires
        exists_in_calendar(year, month, day, h, m, s),
    ensures
        ({
            let (y2, m2, d2) = next_day(year, month, day);
            &&& exists_in_calendar(y2, m2, d2, h, m, s)
            &&& timestamp(y2, m2, d2, h, m, s) == timestamp(year, month, day, h, m, s) + 86400
        }),
        timestamp(1970, 1, 1, h, m, s) == h * 3600 + m * 60 + s,
{
    law_days_follow_the_calendar(year, month);
}

proof fn lemma_years_are_ordered(a: int, b: int)
    requires
        1 <= a < b,
    ensures
        epoch_days(a, 12, 31) < epoch_days(b, 1, 1),
    decreases b,
{
    if b == a + 1 {
        law_days_follow_the_calendar(a, 12);
    } else {
        lemma_years_are_ordered(a, b - 1);
        law_days_follow_the_calendar(b - 1, 12);
    }
}

/// Timestamps order dates as the calendar does.
pub proof fn law_timestamps_order_dates(
    a: (int, int, int, int, int, int),
    b: (int, int, int, int, int, int),
)
    requires
        exists_in_calendar(a.0, a.1, a.2, a.3, a.4, a.5),
        exists_in_calendar(b.0, b.1, b.2, b.3, b.4, b.5),
    ensures
        timestamp(a.0, a.1, a.2, a.3, a.4, a.5) < timestamp(b.0, b.1, b.2, b.3, b.4, b.5) <==> {
            ||| a.0 < b.0
            ||| a.0 == b.0 && a.1 < b.1
            ||| a.0 == b.0 && a.1 == b.1 && a.2 < b.2
            ||| a.0 == b.0 && a.1 == b.1 && a.2 == b.2 && a.3 * 3600 + a.4 * 60 + a.5 < b.3 * 3600
                + b.4 * 60 + b.5
        },
{
    if a.0 < b.0 {
        lemma_years_are_ordered(a.0, b.0);
    } else if b.0 < a.0 {
        lemma_years_are_ordered(b.0, a.0);
    }
}

}
