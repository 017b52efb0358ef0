//! Every date that can be written as an HTTP date is read back.

use vstd::prelude::*;
use vstd::utf8::encode_utf8;
use crate::date::{
    asctime_date, clock, date_of, full_year, http_date, imf_fixdate, month_number, rfc850_date, timestamp,
};
use crate::fields::{is_plain, lemma_plain_text};
use crate::numbers::{all_digits, as_i64, digit_char, is_digit, value_of};
use crate::text::{
    in_class, lemma_prefix_len, lemma_single_piece, lemma_single_word, lemma_split_at_separator,
    lemma_words_at_separator, lemma_words_behind_separator, prefix_len, split, words, CharClass,
};

verus! {

/// A number below a hundred with two digits.
pub open spec fn two_digits(n: int) -> Seq<char> {
    seq![digit_char((n / 10) as nat), digit_char((n % 10) as nat)]
}

/// A number below ten thousand with four digits.
pub open spec fn four_digits(n: int) -> Seq<char> {
    two_digits(n / 100) + two_digits(n % 100)
}

/// The English three-letter name of a month.
pub open spec fn month_name(month: int) -> Seq<char> {
    if month == 1 {
        "Jan"@
    } else if month == 2 {
        "Feb"@
    } else if month == 3 {
        "Mar"@
    } else if month == 4 {
        "Apr"@
    } else if month == 5 {
        "May"@
    } else if month == 6 {
        "Jun"@
    } else if month == 7 {
        "Jul"@
    } else if month == 8 {
        "Aug"@
    } else if month == 9 {
        "Sep"@
    } else if month == 10 {
        "Oct"@
    } else if month == 11 {
        "Nov"@
    } else {
        "Dec"@
    }
}

/// A time of day, such as `15:04:05`.
pub open spec fn clock_text(h: int, m: int, s: int) -> Seq<char> {
    two_digits(h).push(':') + (two_digits(m).push(':') + two_digits(s))
}

/// A date such as `Mon, 02 Jan 2006 15:04:05 GMT`.
pub open spec fn imf_text(weekday: Seq<char>, year: int, month: int, day: int, h: int, m: int, s: int) -> Seq<char> {
    weekday + ", "@ + (two_digits(day).push(' ') + (month_name(month).push(' ') + (four_digits(year).push(' ') + (
    clock_text(h, m, s).push(' ') + "GMT"@))))
}

/// The day of a date such as `02-Jan-06`.
pub open spec fn short_day(year: int, month: int, day: int) -> Seq<char> {
    two_digits(day).push('-') + (month_name(month).push('-') + two_digits(year % 100))
}

/// A date such as `Monday, 02-Jan-06 15:04:05 GMT`.
pub open spec fn rfc850_text(weekday: Seq<char>, year: int, month: int, day: int, h: int, m: int, s: int) -> Seq<char> {
    weekday + ", "@ + (short_day(year, month, day).push(' ') + (clock_text(h, m, s).push(' ') + "GMT"@))
}

/// The day of a month with two places, the first of them a space or a digit.
pub open spec fn padded_day(day: int) -> Seq<char> {
    if day < 10 {
        seq![' ', digit_char(day as nat)]
    } else {
        two_digits(day)
    }
}

/// A date such as `Mon Jan  2 15:04:05 2006`.
pub open spec fn asctime_text(weekday: Seq<char>, year: int, month: int, day: int, h: int, m: int, s: int) -> Seq<
    char,
> {
    weekday.push(' ') + (month_name(month).push(' ') + (padded_day(day).push(' ') + (clock_text(h, m, s).push(' ')
        + four_digits(year))))
}

proof fn lemma_two_digits(n: int)
    requires
        0 <= n < 100,
    ensures
        two_digits(n).len() == 2,
        is_digit(two_digits(n)[0]) && is_digit(two_digits(n)[1]),
        as_i64(two_digits(n)) == Some(n as i64),
{
    let s = two_digits(n);
    let (a, b) = ((n / 10) as nat, (n % 10) as nat);
    assert(digit_char(a) as nat == 48 + a && digit_char(b) as nat == 48 + b);
    assert(all_digits(s));
    reveal_with_fuel(value_of, 3);
    assert(s.drop_last() =~= seq![digit_char(a)]);
    assert(s.drop_last().drop_last() =~= seq![]);
    assert(value_of(s) == n);
}

proof fn lemma_four_digits(n: int)
    requires
        0 <= n < 10000,
    ensures
        four_digits(n).len() == 4,
        forall|i: int| 0 <= i < 4 ==> is_digit(#[trigger] four_digits(n)[i]),
        as_i64(four_digits(n)) == Some(n as i64),
{
    let s = four_digits(n);
    let (x, y) = (n / 100, n % 100);
    lemma_two_digits(x);
    lemma_two_digits(y);
    let (a, b, c, d) = ((x / 10) as nat, (x % 10) as nat, (y / 10) as nat, (y % 10) as nat);
    assert(s =~= seq![digit_char(a), digit_char(b), digit_char(c), digit_char(d)]);
    assert(digit_char(a) as nat == 48 + a && digit_char(b) as nat == 48 + b);
    assert(digit_char(c) as nat == 48 + c && digit_char(d) as nat == 48 + d);
    assert(all_digits(s));
    let (s3, s2, s1) = (
        seq![digit_char(a), digit_char(b), digit_char(c)],
        seq![digit_char(a), digit_char(b)],
        seq![digit_char(a)],
    );
    assert(s.drop_last() =~= s3 && s3.drop_last() =~= s2 && s2.drop_last() =~= s1 && s1.drop_last() =~= seq![]);
    assert(value_of(s1) == a) by {
        reveal_with_fuel(value_of, 2);
    }
    assert(value_of(s2) == 10 * a + b);
    assert(value_of(s3) == 100 * a + 10 * b + c);
    assert(value_of(s) == 1000 * a + 100 * b + 10 * c + d);
}

proof fn lemma_month_name(month: int)
    requires
        1 <= month <= 12,
    ensures
        month_name(month).len() == 3,
        month_number(month_name(month)) == Some(month as i64),
        forall|i: int| 0 <= i < 3 ==> is_letter(#[trigger] month_name(month)[i]),
{
    reveal_strlit("Jan");
    reveal_strlit("Feb");
    reveal_strlit("Mar");
    reveal_strlit("Apr");
    reveal_strlit("May");
    reveal_strlit("Jun");
    reveal_strlit("Jul");
    reveal_strlit("Aug");
    reveal_strlit("Sep");
    reveal_strlit("Oct");
    reveal_strlit("Nov");
    reveal_strlit("Dec");
    assert("Jan"@[0] == 'J' && "Jan"@[1] == 'a' && "Jan"@[2] == 'n');
    assert("Feb"@[0] == 'F' && "Mar"@[0] == 'M' && "Mar"@[2] == 'r' && "Apr"@[0] == 'A' && "Apr"@[1] == 'p');
    assert("May"@[0] == 'M' && "May"@[2] == 'y' && "Jun"@[0] == 'J' && "Jun"@[1] == 'u' && "Jun"@[2] == 'n');
    assert("Jul"@[0] == 'J' && "Jul"@[2] == 'l' && "Aug"@[0] == 'A' && "Aug"@[1] == 'u' && "Sep"@[0] == 'S');
    assert("Oct"@[0] == 'O' && "Nov"@[0] == 'N' && "Dec"@[0] == 'D');
}

/// Whether a character is an ASCII letter.
pub open spec fn is_letter(c: char) -> bool {
    ('a' <= c && c <= 'z') || ('A' <= c && c <= 'Z')
}

spec fn clock_char(c: char) -> bool {
    is_digit(c) || c == ':'
}

proof fn lemma_clock(h: int, m: int, s: int)
    requires
        0 <= h < 100,
        0 <= m < 100,
        0 <= s < 100,
    ensures
        clock(clock_text(h, m, s)) == Some((h as i64, m as i64, s as i64)),
        clock_text(h, m, s).len() == 8,
        forall|i: int| 0 <= i < 8 ==> !in_class(#[trigger] clock_text(h, m, s)[i], CharClass::Blank),
        forall|i: int| 0 <= i < 8 ==> clock_char(#[trigger] clock_text(h, m, s)[i]),
        as_i64(clock_text(h, m, s)) is None,
{
    let class = CharClass::Is(':');
    let (a, b, c) = (two_digits(h), two_digits(m), two_digits(s));
    let t = clock_text(h, m, s);
    lemma_two_digits(h);
    lemma_two_digits(m);
    lemma_two_digits(s);
    lemma_split_at_separator(a, ':', b.push(':') + c, class);
    lemma_split_at_separator(b, ':', c, class);
    lemma_single_piece(a, class);
    lemma_single_piece(b, class);
    lemma_single_piece(c, class);
    assert(split(t, class) =~= seq![a, b, c]);
    assert(t[0] == a[0] && t[1] == a[1] && t[2] == ':' && t[3] == b[0] && t[4] == b[1] && t[5] == ':' && t[6] == c[0]
        && t[7] == c[1]);
    assert(!is_digit(t[2]));
}

/// Whether the numbers of a date can be written with the digits that its forms
/// have for them. The calendar is not asked: a sixty-first second, or a
/// thirtieth of February, counts as the time that many seconds or days on.
pub open spec fn has_digits_for(year: int, month: int, day: int, h: int, m: int, s: int) -> bool {
    &&& 0 <= year <= 9999
    &&& 1 <= month <= 12
    &&& 0 <= day <= 99
    &&& 0 <= h <= 99
    &&& 0 <= m <= 99
    &&& 0 <= s <= 99
}

/// Days, hours, minutes and seconds count from the start of their month, each
/// by its length, also beyond where the calendar and the clock start anew.
pub proof fn law_times_count_on(year: int, month: int, day: int, h: int, m: int, s: int)
    ensures
        timestamp(year, month, day, h, m, s) == timestamp(year, month, 1, 0, 0, 0) + (day - 1) * 86400 + h * 3600 + m
            * 60 + s,
{
}

/// Dates such as `Mon, 02 Jan 2006 15:04:05 GMT` are read as what they say,
/// with every year of four digits.
pub proof fn law_dates_are_read(weekday: Seq<char>, year: int, month: int, day: int, h: int, m: int, s: int)
    requires
        weekday.len() == 3,
        has_digits_for(year, month, day, h, m, s),
    ensures
        http_date(imf_text(weekday, year, month, day, h, m, s)) == Some(timestamp(year, month, day, h, m, s)),
        imf_fixdate(imf_text(weekday, year, month, day, h, m, s)) == Some(timestamp(year, month, day, h, m, s)),
{
    let class = CharClass::Blank;
    let text = imf_text(weekday, year, month, day, h, m, s);
    let (d, mo, y, t) = (two_digits(day), month_name(month), four_digits(year), clock_text(h, m, s));
    let r4 = "GMT"@;
    let r3 = t.push(' ') + r4;
    let r2 = y.push(' ') + r3;
    let r1 = mo.push(' ') + r2;
    let r0 = d.push(' ') + r1;
    reveal_strlit(", ");
    reveal_strlit("GMT");
    lemma_two_digits(day);
    lemma_four_digits(year);
    lemma_month_name(month);
    lemma_clock(h, m, s);
    assert(text.skip(5) =~= r0);
    assert("GMT"@[0] == 'G' && "GMT"@[1] == 'M' && "GMT"@[2] == 'T');
    lemma_words_at_separator(d, ' ', r1, class);
    lemma_words_at_separator(mo, ' ', r2, class);
    lemma_words_at_separator(y, ' ', r3, class);
    lemma_words_at_separator(t, ' ', r4, class);
    lemma_single_word(r4, class);
    assert(words(r0, class) =~= seq![d, mo, y, t, r4]);
    assert(imf_fixdate(text) == Some(timestamp(year, month, day, h, m, s)));
}

/// Dates such as `Monday, 02-Jan-06 15:04:05 GMT` are read as what they say,
/// with every year from 1970 to 2069.
pub proof fn law_short_dates_are_read(weekday: Seq<char>, year: int, month: int, day: int, h: int, m: int, s: int)
    requires
        weekday.len() >= 6,
        forall|i: int| 0 <= i < weekday.len() ==> is_letter(#[trigger] weekday[i]),
        has_digits_for(year, month, day, h, m, s),
        1970 <= year <= 2069,
    ensures
        http_date(rfc850_text(weekday, year, month, day, h, m, s)) == Some(timestamp(year, month, day, h, m, s)),
        rfc850_date(rfc850_text(weekday, year, month, day, h, m, s)) == Some(timestamp(year, month, day, h, m, s)),
{
    let class = CharClass::Blank;
    let text = rfc850_text(weekday, year, month, day, h, m, s);
    let (d, t) = (short_day(year, month, day), clock_text(h, m, s));
    let r2 = "GMT"@;
    let r1 = t.push(' ') + r2;
    let r0 = d.push(' ') + r1;
    reveal_strlit(", ");
    reveal_strlit("GMT");
    lemma_short_day(year, month, day);
    lemma_clock(h, m, s);
    assert("GMT"@[0] == 'G' && "GMT"@[1] == 'M' && "GMT"@[2] == 'T');
    lemma_words_at_separator(d, ' ', r1, class);
    lemma_words_at_separator(t, ' ', r2, class);
    lemma_single_word(r2, class);
    assert(words(r0, class) =~= seq![d, t, r2]);
    // The first form does not fit: what would be the year is the time of day.
    assert(imf_fixdate(text) is None) by {
        let head = weekday.skip(5).push(',');
        assert(text.skip(5) =~= head.push(' ') + r0);
        assert forall|i: int| 0 <= i < head.len() implies !in_class(#[trigger] head[i], class) by {
            if i < head.len() - 1 {
                assert(is_letter(weekday[i + 5]));
            }
        }
        lemma_words_at_separator(head, ' ', r0, class);
        assert(words(text.skip(5), class)[2] == t);
    }
    // The second form does.
    lemma_behind_the_comma(weekday, r0);
    assert(rfc850_date(text) == Some(timestamp(year, month, day, h, m, s)));
}

/// The parts of a day such as `02-Jan-06`, and what they denote.
proof fn lemma_short_day(year: int, month: int, day: int)
    requires
        1 <= month <= 12,
        0 <= day <= 99,
        1970 <= year <= 2069,
    ensures
        ({
            let d = short_day(year, month, day);
            let p = split(d, CharClass::Is('-'));
            &&& d.len() == 9
            &&& forall|i: int| 0 <= i < 9 ==> !in_class(#[trigger] d[i], CharClass::Blank)
            &&& p.len() == 3
            &&& as_i64(p[0]) == Some(day as i64)
            &&& month_number(p[1]) == Some(month as i64)
            &&& full_year(as_i64(p[2])) == Some(year)
        }),
{
    let d = short_day(year, month, day);
    let yy = year % 100;
    let (dd, mo, y2) = (two_digits(day), month_name(month), two_digits(yy));
    lemma_two_digits(day);
    lemma_two_digits(yy);
    lemma_month_name(month);
    assert(is_letter(mo[0]) && is_letter(mo[1]) && is_letter(mo[2]));
    assert(d[0] == dd[0] && d[1] == dd[1] && d[2] == '-' && d[3] == mo[0] && d[4] == mo[1] && d[5] == mo[2] && d[6]
        == '-' && d[7] == y2[0] && d[8] == y2[1]);
    let dash = CharClass::Is('-');
    lemma_split_at_separator(dd, '-', mo.push('-') + y2, dash);
    lemma_split_at_separator(mo, '-', y2, dash);
    lemma_single_piece(dd, dash);
    lemma_single_piece(mo, dash);
    lemma_single_piece(y2, dash);
    assert(split(d, dash) =~= seq![dd, mo, y2]);
    assert(full_year(Some(yy as i64)) == Some(year));
}

/// Dates such as `Mon Jan  2 15:04:05 2006` are read as what they say, with
/// every year of four digits.
pub proof fn law_asctime_dates_are_read(weekday: Seq<char>, year: int, month: int, day: int, h: int, m: int, s: int)
    requires
        weekday.len() == 3,
        forall|i: int| 0 <= i < weekday.len() ==> is_letter(#[trigger] weekday[i]),
        has_digits_for(year, month, day, h, m, s),
    ensures
        http_date(asctime_text(weekday, year, month, day, h, m, s)) == Some(timestamp(year, month, day, h, m, s)),
{
    let class = CharClass::Blank;
    let text = asctime_text(weekday, year, month, day, h, m, s);
    let (d, mo, y, t) = (padded_day(day), month_name(month), four_digits(year), clock_text(h, m, s));
    let r3 = t.push(' ') + y;
    let r2 = d.push(' ') + r3;
    let r1 = mo.push(' ') + r2;
    lemma_four_digits(year);
    lemma_month_name(month);
    lemma_clock(h, m, s);
    lemma_words_at_separator(weekday, ' ', r1, class);
    lemma_words_at_separator(mo, ' ', r2, class);
    lemma_words_at_separator(t, ' ', y, class);
    lemma_single_word(y, class);
    let digits = lemma_padded_day(day, r3);
    assert(words(text, class) =~= seq![weekday, mo, digits, t, y]);
    assert(asctime_date(text) == Some(timestamp(year, month, day, h, m, s)));
    // The first form does not fit: what would be the day is the end of a name.
    let head = mo.skip(1);
    assert(text.skip(5) =~= head.push(' ') + r2);
    lemma_words_at_separator(head, ' ', r2, class);
    assert(is_letter(mo[1]));
    assert(!is_digit(head[0]) && head[0] != '+' && head[0] != '-');
    assert(as_i64(head) is None);
    assert(imf_fixdate(text) is None);
    // Nor does the second: there is no comma.
    lemma_prefix_len(text, CharClass::Is(','));
    assert forall|i: int| 0 <= i < text.len() implies #[trigger] text[i] != ',' by {
        if i < 3 {
            assert(is_letter(weekday[i]));
        } else if 4 <= i < 7 {
            assert(is_letter(mo[i - 4]));
        } else if 11 <= i < 19 {
            assert(text[i] == t[i - 11]);
            assert(clock_char(t[i - 11]));
        } else if 20 <= i {
            assert(is_digit(y[i - 20]));
        }
    }
    assert(rfc850_date(text) is None);
}

/// The word that a padded day gives, and what it denotes.
proof fn lemma_padded_day(day: int, rest: Seq<char>) -> (digits: Seq<char>)
    requires
        0 <= day <= 99,
    ensures
        words(padded_day(day).push(' ') + rest, CharClass::Blank) == seq![digits] + words(rest, CharClass::Blank),
        as_i64(digits) == Some(day as i64),
        padded_day(day).len() == 2,
        padded_day(day)[0] != ',' && padded_day(day)[1] != ',',
{
    if day < 10 {
        let digits = seq![digit_char(day as nat)];
        assert(digit_char(day as nat) as nat == 48 + day);
        assert(all_digits(digits));
        assert(value_of(digits) == day) by {
            reveal_with_fuel(value_of, 2);
        }
        assert(padded_day(day).push(' ') + rest =~= seq![' '] + (digits.push(' ') + rest));
        lemma_words_behind_separator(' ', digits.push(' ') + rest, CharClass::Blank);
        lemma_words_at_separator(digits, ' ', rest, CharClass::Blank);
        digits
    } else {
        let digits = two_digits(day);
        lemma_two_digits(day);
        lemma_words_at_separator(digits, ' ', rest, CharClass::Blank);
        digits
    }
}

/// The three forms of a date denote the same time.
pub proof fn law_forms_agree(
    short_name: Seq<char>,
    long_name: Seq<char>,
    year: int,
    month: int,
    day: int,
    h: int,
    m: int,
    s: int,
)
    requires
        short_name.len() == 3,
        long_name.len() >= 6,
        forall|i: int| 0 <= i < short_name.len() ==> is_letter(#[trigger] short_name[i]),
        forall|i: int| 0 <= i < long_name.len() ==> is_letter(#[trigger] long_name[i]),
        has_digits_for(year, month, day, h, m, s),
        1970 <= year <= 2069,
    ensures
        http_date(rfc850_text(long_name, year, month, day, h, m, s)) == http_date(
            imf_text(short_name, year, month, day, h, m, s),
        ),
        http_date(asctime_text(short_name, year, month, day, h, m, s)) == http_date(
            imf_text(short_name, year, month, day, h, m, s),
        ),
        rfc850_date(rfc850_text(long_name, year, month, day, h, m, s)) == imf_fixdate(
            imf_text(short_name, year, month, day, h, m, s),
        ),
{
    law_dates_are_read(short_name, year, month, day, h, m, s);
    law_short_dates_are_read(long_name, year, month, day, h, m, s);
    law_asctime_dates_are_read(short_name, year, month, day, h, m, s);
}

/// A month has the number of its English name, and no other text names one.
pub proof fn law_months_have_their_names(name: Seq<char>, month: int)
    ensures
        1 <= month <= 12 ==> month_number(month_name(month)) == Some(month as i64),
        month_number(name) matches Some(k) ==> 1 <= k <= 12 && name == month_name(k as int),
{
    if 1 <= month <= 12 {
        lemma_month_name(month);
    }
}

/// A header with a date such as `Mon, 02 Jan 2006 15:04:05 GMT` is read as the
/// seconds from the epoch to that date.
pub proof fn law_date_headers_are_read(weekday: Seq<char>, year: int, month: int, day: int, h: int, m: int, s: int)
    requires
        weekday.len() == 3,
        forall|i: int| 0 <= i < weekday.len() ==> is_letter(#[trigger] weekday[i]),
        has_digits_for(year, month, day, h, m, s),
    ensures
        date_of(encode_utf8(imf_text(weekday, year, month, day, h, m, s))) matches Some(t) && t == timestamp(
            year,
            month,
            day,
            h,
            m,
            s,
        ),
{
    let text = imf_text(weekday, year, month, day, h, m, s);
    law_dates_are_read(weekday, year, month, day, h, m, s);
    lemma_imf_is_plain(weekday, year, month, day, h, m, s);
    lemma_plain_text(text);
    lemma_timestamp_fits(year, month, day, h, m, s);
}

proof fn lemma_timestamp_fits(year: int, month: int, day: int, h: int, m: int, s: int)
    requires
        has_digits_for(year, month, day, h, m, s),
    ensures
        -100_000_000_000 <= timestamp(year, month, day, h, m, s) <= 1_000_000_000_000,
{
}

proof fn lemma_imf_is_plain(weekday: Seq<char>, year: int, month: int, day: int, h: int, m: int, s: int)
    requires
        weekday.len() == 3,
        forall|i: int| 0 <= i < weekday.len() ==> is_letter(#[trigger] weekday[i]),
        has_digits_for(year, month, day, h, m, s),
    ensures
        is_plain(imf_text(weekday, year, month, day, h, m, s)),
{
    let text = imf_text(weekday, year, month, day, h, m, s);
    let (d, mo, y, t) = (two_digits(day), month_name(month), four_digits(year), clock_text(h, m, s));
    reveal_strlit(", ");
    reveal_strlit("GMT");
    lemma_two_digits(day);
    lemma_four_digits(year);
    lemma_month_name(month);
    lemma_clock(h, m, s);
    assert(text.len() == 29);
    assert forall|i: int| 0 <= i < text.len() implies #[trigger] text[i] == '\t' || (' ' <= text[i] && text[i] <= '~') by {
        if i < 3 {
            assert(is_letter(weekday[i]));
        } else if 5 <= i < 7 {
            assert(text[i] == d[i - 5]);
        } else if 8 <= i < 11 {
            assert(text[i] == mo[i - 8]);
            assert(is_letter(mo[i - 8]));
        } else if 12 <= i < 16 {
            assert(text[i] == y[i - 12]);
            assert(is_digit(y[i - 12]));
        } else if 17 <= i < 25 {
            assert(text[i] == t[i - 17]);
            assert(clock_char(t[i - 17]));
        } else if 26 <= i {
            assert(text[i] == "GMT"@[i - 26]);
        }
    }
}

/// A date with a month that no calendar has is no date.
pub proof fn law_unknown_months_are_refused(
    weekday: Seq<char>,
    day: int,
    month: Seq<char>,
    year: int,
    h: int,
    m: int,
    s: int,
)
    requires
        weekday.len() == 3,
        forall|i: int| 0 <= i < weekday.len() ==> is_letter(#[trigger] weekday[i]),
        month.len() > 0,
        forall|i: int| 0 <= i < month.len() ==> is_letter(#[trigger] month[i]),
        forall|k: int| 1 <= k <= 12 ==> month != #[trigger] month_name(k),
        0 <= day < 100,
        0 <= year < 10000,
        0 <= h < 100,
        0 <= m < 100,
        0 <= s < 100,
    ensures
        http_date(
            weekday + ", "@ + (two_digits(day).push(' ') + (month.push(' ') + (four_digits(year).push(' ') + (clock_text(
                h,
                m,
                s,
            ).push(' ') + "GMT"@)))),
        ) is None,
{
    let class = CharClass::Blank;
    let (d, y, t) = (two_digits(day), four_digits(year), clock_text(h, m, s));
    let r4 = "GMT"@;
    let r3 = t.push(' ') + r4;
    let r2 = y.push(' ') + r3;
    let r1 = month.push(' ') + r2;
    let r0 = d.push(' ') + r1;
    let text = weekday + ", "@ + r0;
    reveal_strlit(", ");
    reveal_strlit("GMT");
    lemma_two_digits(day);
    lemma_four_digits(year);
    lemma_clock(h, m, s);
    assert("GMT"@[0] == 'G' && "GMT"@[1] == 'M' && "GMT"@[2] == 'T');
    assert forall|i: int| 0 <= i < month.len() implies !in_class(#[trigger] month[i], class) by {
        assert(is_letter(month[i]));
    }
    lemma_words_at_separator(d, ' ', r1, class);
    lemma_words_at_separator(month, ' ', r2, class);
    lemma_words_at_separator(y, ' ', r3, class);
    lemma_words_at_separator(t, ' ', r4, class);
    lemma_single_word(r4, class);
    assert(words(r0, class) =~= seq![d, month, y, t, r4]);
    assert(text.skip(5) =~= r0);
    law_months_have_their_names(month, 1);
    assert(month_number(month) is None) by {
        if month_number(month) is Some {
            let k = month_number(month).unwrap() as int;
            assert(month == month_name(k));
        }
    }
    assert(imf_fixdate(text) is None);
    let comma = CharClass::Is(',');
    lemma_prefix_len(text, comma);
    let n = prefix_len(text, comma) as int;
    assert(text[3] == ',');
    if n < 3 {
        assert(is_letter(weekday[n]));
        assert(text[n] == weekday[n]);
    }
    assert(text.skip(n + 2) =~= r0);
    lemma_single_piece(d, CharClass::Is('-'));
    assert(rfc850_date(text) is None);
    let first = weekday.push(',');
    assert(text =~= first.push(' ') + r0);
    assert forall|i: int| 0 <= i < first.len() implies !in_class(#[trigger] first[i], class) by {
        if i < 3 {
            assert(is_letter(weekday[i]));
        }
    }
    lemma_words_at_separator(first, ' ', r0, class);
    assert(words(text, class).len() == 6);
}

/// Whether a text can follow a time of day in the same word: nothing, or a
/// further colon and whatever stands there up to the next blank.
pub open spec fn follows_clock(s: Seq<char>) -> bool {
    s.len() > 0 ==> s[0] == ':' && forall|i: int| 0 <= i < s.len() ==> #[trigger] s[i] != ' ' && s[i] != '\t'
}

proof fn lemma_longer_clock(h: int, m: int, s: int, more: Seq<char>)
    requires
        0 <= h < 100,
        0 <= m < 100,
        0 <= s < 100,
        follows_clock(more),
    ensures
        clock(clock_text(h, m, s) + more) == Some((h as i64, m as i64, s as i64)),
        forall|i: int|
            0 <= i < (clock_text(h, m, s) + more).len() ==> !in_class(
                #[trigger] (clock_text(h, m, s) + more)[i],
                CharClass::Blank,
            ),
        (clock_text(h, m, s) + more).len() >= 8,
{
    let class = CharClass::Is(':');
    let t = clock_text(h, m, s);
    let (a, b, c) = (two_digits(h), two_digits(m), two_digits(s));
    lemma_clock(h, m, s);
    lemma_two_digits(h);
    lemma_two_digits(m);
    lemma_two_digits(s);
    lemma_split_at_separator(a, ':', b.push(':') + c, class);
    lemma_split_at_separator(b, ':', c, class);
    lemma_single_piece(a, class);
    lemma_single_piece(b, class);
    lemma_single_piece(c, class);
    assert(split(t, class) =~= seq![a, b, c]);
    if more.len() > 0 {
        let rest = more.drop_first();
        assert(t + more =~= t.push(':') + rest);
        lemma_split_at_separator(t, ':', rest, class);
        let all = split(t + more, class);
        assert(all[0] == a && all[1] == b && all[2] == c);
    } else {
        assert(t + more =~= t);
    }
    assert forall|i: int| 0 <= i < (t + more).len() implies !in_class(#[trigger] (t + more)[i], CharClass::Blank) by {
        if i < 8 {
            assert((t + more)[i] == t[i]);
        } else {
            assert((t + more)[i] == more[i - 8]);
        }
    }
}

/// What follows the time of day in a date such as `Mon, 02 Jan 2006 15:04:05
/// GMT` is not read: there may be no zone, or any words at all.
pub proof fn law_the_zone_is_not_read(
    weekday: Seq<char>,
    year: int,
    month: int,
    day: int,
    h: int,
    m: int,
    s: int,
    more: Seq<char>,
    tail: Seq<char>,
)
    requires
        weekday.len() == 3,
        has_digits_for(year, month, day, h, m, s),
        follows_clock(more),
        tail.len() > 0 ==> tail[0] == ' ',
    ensures
        http_date(
            weekday + ", "@ + (two_digits(day).push(' ') + (month_name(month).push(' ') + (four_digits(year).push(' ')
                + (clock_text(h, m, s) + more + tail)))),
        ) == Some(timestamp(year, month, day, h, m, s)),
{
    let class = CharClass::Blank;
    let (d, mo, y, t) = (two_digits(day), month_name(month), four_digits(year), clock_text(h, m, s) + more);
    let r3 = t + tail;
    let r2 = y.push(' ') + r3;
    let r1 = mo.push(' ') + r2;
    let r0 = d.push(' ') + r1;
    let text = weekday + ", "@ + r0;
    reveal_strlit(", ");
    lemma_two_digits(day);
    lemma_four_digits(year);
    lemma_month_name(month);
    lemma_longer_clock(h, m, s, more);
    assert(text.skip(5) =~= r0);
    lemma_words_at_separator(d, ' ', r1, class);
    lemma_words_at_separator(mo, ' ', r2, class);
    lemma_words_at_separator(y, ' ', r3, class);
    if tail.len() > 0 {
        let rest = tail.drop_first();
        assert(r3 =~= t.push(' ') + rest);
        lemma_words_at_separator(t, ' ', rest, class);
    } else {
        assert(r3 =~= t);
        lemma_single_word(t, class);
    }
    let p = words(r0, class);
    assert(p[0] == d && p[1] == mo && p[2] == y && p[3] == t);
    assert(imf_fixdate(text) == Some(timestamp(year, month, day, h, m, s)));
}

/// In a date such as `Monday, 02-Jan-06 15:04:05 GMT` some word has to follow
/// the time of day, but any will do.
pub proof fn law_short_dates_need_a_zone(
    weekday: Seq<char>,
    year: int,
    month: int,
    day: int,
    h: int,
    m: int,
    s: int,
    zone: Seq<char>,
)
    requires
        forall|i: int| 0 <= i < weekday.len() ==> is_letter(#[trigger] weekday[i]),
        has_digits_for(year, month, day, h, m, s),
        1970 <= year <= 2069,
        zone.len() > 0,
        forall|i: int| 0 <= i < zone.len() ==> is_letter(#[trigger] zone[i]),
    ensures
        rfc850_date(weekday + ", "@ + (short_day(year, month, day).push(' ') + clock_text(h, m, s))) is None,
        rfc850_date(
            weekday + ", "@ + (short_day(year, month, day).push(' ') + (clock_text(h, m, s).push(' ') + zone)),
        ) == Some(timestamp(year, month, day, h, m, s)),
{
    let class = CharClass::Blank;
    let (d, t) = (short_day(year, month, day), clock_text(h, m, s));
    let r1 = t.push(' ') + zone;
    let (short, long) = (d.push(' ') + t, d.push(' ') + r1);
    lemma_short_day(year, month, day);
    lemma_clock(h, m, s);
    assert forall|i: int| 0 <= i < zone.len() implies !in_class(#[trigger] zone[i], class) by {
        assert(is_letter(zone[i]));
    }
    lemma_words_at_separator(d, ' ', t, class);
    lemma_single_word(t, class);
    assert(words(short, class) =~= seq![d, t]);
    lemma_words_at_separator(d, ' ', r1, class);
    lemma_words_at_separator(t, ' ', zone, class);
    lemma_single_word(zone, class);
    assert(words(long, class) =~= seq![d, t, zone]);
    lemma_behind_the_comma(weekday, short);
    lemma_behind_the_comma(weekday, long);
}

proof fn lemma_behind_the_comma(weekday: Seq<char>, rest: Seq<char>)
    requires
        forall|i: int| 0 <= i < weekday.len() ==> is_letter(#[trigger] weekday[i]),
    ensures
        ({
            let text = weekday + ", "@ + rest;
            let n = prefix_len(text, CharClass::Is(',')) as int;
            n + 2 <= text.len() && text.skip(n + 2) == rest
        }),
{
    let text = weekday + ", "@ + rest;
    reveal_strlit(", ");
    lemma_prefix_len(text, CharClass::Is(','));
    let n = prefix_len(text, CharClass::Is(',')) as int;
    assert(text[weekday.len() as int] == ',');
    if n < weekday.len() {
        assert(text[n] == weekday[n]);
        assert(is_letter(weekday[n]));
    }
    assert(text.skip(n + 2) =~= rest);
}

/// A date such as `Mon Jan  2 15:04:05 2006` has no further words.
pub proof fn law_asctime_dates_end_with_the_year(
    weekday: Seq<char>,
    year: int,
    month: int,
    day: int,
    h: int,
    m: int,
    s: int,
    word: Seq<char>,
)
    requires
        weekday.len() == 3,
        forall|i: int| 0 <= i < weekday.len() ==> is_letter(#[trigger] weekday[i]),
        has_digits_for(year, month, day, h, m, s),
        word.len() > 0,
        forall|i: int| 0 <= i < word.len() ==> is_letter(#[trigger] word[i]),
    ensures
        asctime_date(
            weekday.push(' ') + (month_name(month).push(' ') + (padded_day(day).push(' ') + (clock_text(h, m, s).push(
                ' ',
            ) + (four_digits(year).push(' ') + word)))),
        ) is None,
{
    let class = CharClass::Blank;
    let (d, mo, y, t) = (padded_day(day), month_name(month), four_digits(year), clock_text(h, m, s));
    let r4 = y.push(' ') + word;
    let r3 = t.push(' ') + r4;
    let r2 = d.push(' ') + r3;
    let r1 = mo.push(' ') + r2;
    let text = weekday.push(' ') + r1;
    lemma_four_digits(year);
    lemma_month_name(month);
    lemma_clock(h, m, s);
    assert forall|i: int| 0 <= i < word.len() implies !in_class(#[trigger] word[i], class) by {
        assert(is_letter(word[i]));
    }
    lemma_words_at_separator(weekday, ' ', r1, class);
    lemma_words_at_separator(mo, ' ', r2, class);
    lemma_words_at_separator(t, ' ', r4, class);
    lemma_words_at_separator(y, ' ', word, class);
    lemma_single_word(word, class);
    let digits = lemma_padded_day(day, r3);
    assert(words(text, class) =~= seq![weekday, mo, digits, t, y, word]);
}

}
