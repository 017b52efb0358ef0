//! Spans of time, such as `1h 30min`.

use vstd::prelude::*;
use vstd::slice::slice_subrange;
use vstd::string::StringExecFns;
use crate::numbers::is_digit;
use crate::text::{chars_of, find, in_class, lemma_prefix_len, prefix_len, CharClass};

verus! {

/// A span of time: seconds, and nanoseconds below a second.
#[derive(Clone, Copy, PartialEq, Eq, Structural, Debug)]
pub struct Span {
    pub secs: u64,
    pub nanos: u32,
}

/// The span that a text such as `1h 30min` denotes, as seconds and
/// nanoseconds, or the message that says why it denotes none.
pub uninterp spec fn duration(s: Seq<char>) -> Result<(u64, u32), Seq<char>>;

// ---------------------------------------------------------------------------
// Texts that can be read
// ---------------------------------------------------------------------------

/// The number that the digits in a text denote, whatever stands between them.
pub open spec fn digits_value(s: Seq<char>) -> nat
    decreases s.len(),
{
    if s.len() == 0 {
        0
    } else if is_digit(s.last()) {
        (digits_value(s.drop_last()) * 10 + (s.last() as nat - 48)) as nat
    } else {
        digits_value(s.drop_last())
    }
}

/// The number of digits in a text.
pub open spec fn digit_count(s: Seq<char>) -> nat
    decreases s.len(),
{
    if s.len() == 0 {
        0
    } else {
        digit_count(s.drop_last()) + (if is_digit(s.last()) {
            1nat
        } else {
            0nat
        })
    }
}

/// A power of ten.
pub open spec fn ten_to(n: nat) -> nat
    decreases n,
{
    if n == 0 {
        1
    } else {
        10 * ten_to((n - 1) as nat)
    }
}

/// The nanoseconds of the unit that a text begins with; its first letters tell
/// it from the others.
pub open spec fn unit_nanos(s: Seq<char>) -> nat {
    let c = s[0];
    if c == 'u' || c == '\u{b5}' {
        1_000
    } else if c == 'm' && s.len() > 1 && (s[1] == 's' || (s[1] == 'i' && s.len() > 2 && s[2] == 'l')) {
        1_000_000
    } else if c == 's' {
        1_000_000_000
    } else if c == 'm' && !(s.len() > 1 && s[1] == 'o') {
        60_000_000_000
    } else if c == 'h' {
        3_600_000_000_000
    } else if c == 'd' {
        86_400_000_000_000
    } else if c == 'w' {
        604_800_000_000_000
    } else if c == 'm' || c == 'M' {
        2_630_016_000_000_000
    } else if c == 'y' {
        31_557_600_000_000_000
    } else {
        1
    }
}

/// The nanoseconds that the digits behind a point make of a unit. More digits
/// than a machine integer holds make none.
pub open spec fn fraction_nanos(part: Seq<char>, unit: nat) -> nat {
    if digit_count(part) <= MAX_FRACTION {
        digits_value(part) * unit / ten_to(digit_count(part))
    } else {
        0
    }
}

/// The largest number of digits behind a point.
pub const MAX_FRACTION: usize = 19;

/// The nanoseconds that a number with a unit makes: the digits before the
/// point, and the part of the unit behind it.
pub open spec fn number_nanos(number: Seq<char>, unit: nat) -> nat {
    let point = prefix_len(number, CharClass::Is('.')) as int;
    if point >= number.len() {
        digits_value(number) * unit
    } else {
        digits_value(number.take(point)) * unit + fraction_nanos(number.skip(point + 1), unit)
    }
}

/// The nanoseconds that a text of numbers and units makes, taken together. A
/// number is a run of digits, points and white space; one behind which nothing
/// stands has no unit, and does not count.
pub open spec fn span_nanos(s: Seq<char>) -> nat
    decreases s.len(),
    via span_nanos_decreases
{
    let n = prefix_len(s, CharClass::NoNumber) as int;
    if n >= s.len() {
        0
    } else {
        number_nanos(s.take(n), unit_nanos(s.skip(n))) + span_nanos(s.skip(n + 1))
    }
}

#[via_fn]
proof fn span_nanos_decreases(s: Seq<char>) {
    lemma_prefix_len(s, CharClass::NoNumber);
}

/// The nanoseconds from which on a span has more whole seconds than a machine
/// integer holds.
pub const TOO_MANY_NANOS: u128 = 18_446_744_073_709_551_616_000_000_000;

/// Whether a text has at most one number: no digit stands behind a unit that
/// stands behind a digit.
pub open spec fn has_one_number(s: Seq<char>) -> bool {
    forall|i: int, j: int, k: int|
        0 <= i < j < k < s.len() && is_digit(#[trigger] s[i]) && in_class(#[trigger] s[j], CharClass::NoNumber)
            ==> !is_digit(#[trigger] s[k])
}

/// Whether a text can be read without a panic: it has at most one number, or
/// its numbers do not add up to more seconds than a machine integer holds.
pub open spec fn reads_safely(s: Seq<char>) -> bool {
    has_one_number(s) || span_nanos(s) < TOO_MANY_NANOS
}

/// The message for numbers that add up to too many seconds.
pub open spec fn too_long() -> Seq<char> {
    "number is too large or cannot be represented without a lack of precision (values below 1ns are not supported)"@
}

/// The span that a text denotes, or the message that says why it denotes
/// none. Several numbers that add up to more seconds than a machine integer
/// holds are no span, whatever else the text has.
pub open spec fn span_of(s: Seq<char>) -> Result<(u64, u32), Seq<char>> {
    if reads_safely(s) {
        duration(s)
    } else {
        Err(too_long())
    }
}

// ---------------------------------------------------------------------------
// The outside call
// ---------------------------------------------------------------------------

/// What reading a duration gave.
pub open spec fn span_view(r: Result<Span, String>) -> Result<(u64, u32), Seq<char>> {
    match r {
        Ok(d) => Ok((d.secs, d.nanos)),
        Err(e) => Err(e@),
    }
}

/// `humantime::parse_duration`. Trusted: the span, or the message of the
/// error, depends on the text alone.
///
/// The call panics where numbers read so far make up all the seconds that a
/// machine integer holds, and the next one brings the nanoseconds to just one
/// second more. A single number does not get there, with a fraction or
/// without one; nor do several whose sum stays below.
#[verifier::external_body]
pub(crate) fn parse_span(s: &str) -> (r: Result<Span, String>)
    requires
        reads_safely(s@),
    ensures
        span_view(r) == duration(s@),
{
    match humantime::parse_duration(s) {
        Ok(d) => Ok(Span { secs: d.as_secs(), nanos: d.subsec_nanos() }),
        Err(e) => Err(e.to_string()),
    }
}

// ---------------------------------------------------------------------------
// Checks on the side of the caller
// ---------------------------------------------------------------------------

fn is_digit_char(c: char) -> (r: bool)
    ensures
        r == is_digit(c),
{
    '0' <= c && c <= '9'
}

fn reads_as_one_number(s: &[char]) -> (r: bool)
    ensures
        r == has_one_number(s@),
{
    let first: usize = first_digit(s);
    if first >= s.len() {
        return true;
    }
    let rest = slice_subrange(s, first, s.len());
    let end: usize = find(rest, CharClass::NoNumber);
    proof {
        lemma_prefix_len(rest@, CharClass::NoNumber);
    }
    let ghost stop = first + end;
    assert forall|j: int| first <= j < stop implies !in_class(#[trigger] s@[j], CharClass::NoNumber) by {
        assert(rest@[j - first] == s@[j]);
    }
    if end >= rest.len() {
        return true;
    }
    assert(rest@[end as int] == s@[stop]);
    let behind = slice_subrange(rest, end, rest.len());
    let next: usize = first_digit(behind);
    if next < behind.len() {
        assert(behind@[next as int] == s@[stop + next]);
        assert(first < stop < stop + next) by {
            assert(is_digit(s@[first as int]) && is_digit(s@[stop + next]));
        }
        return false;
    }
    assert forall|k: int| stop <= k < s@.len() implies !is_digit(#[trigger] s@[k]) by {
        assert(behind@[k - stop] == s@[k]);
    }
    true
}

fn first_digit(s: &[char]) -> (n: usize)
    ensures
        n <= s@.len(),
        n < s@.len() ==> is_digit(s@[n as int]),
        forall|i: int| 0 <= i < n ==> !is_digit(#[trigger] s@[i]),
{
    let mut n: usize = 0;
    while n < s.len() && !is_digit_char(s[n])
        invariant
            n <= s@.len(),
            forall|i: int| 0 <= i < n ==> !is_digit(#[trigger] s@[i]),
        decreases s@.len() - n,
    {
        n += 1;
    }
    n
}

/// The number that the digits in a text denote, if it is below the limit.
fn read_whole(s: &[char]) -> (r: Option<u128>)
    ensures
        r == (if digits_value(s@) < TOO_MANY_NANOS {
            Some(digits_value(s@) as u128)
        } else {
            None
        }),
{
    let mut value: u128 = 0;
    let mut fits = true;
    let mut i: usize = 0;
    while i < s.len()
        invariant
            i <= s@.len(),
            fits ==> value == digits_value(s@.take(i as int)) && value < TOO_MANY_NANOS,
            !fits ==> digits_value(s@.take(i as int)) >= TOO_MANY_NANOS,
        decreases s@.len() - i,
    {
        assert(s@.take(i + 1).drop_last() =~= s@.take(i as int));
        assert(s@.take(i + 1).last() == s@[i as int]);
        if is_digit_char(s[i]) && fits {
            value = value * 10 + ((s[i] as u8) - 48) as u128;
            fits = value < TOO_MANY_NANOS;
        }
        i += 1;
    }
    assert(s@.take(i as int) =~= s@);
    if fits {
        Some(value)
    } else {
        None
    }
}

proof fn lemma_ten_to_grows(m: nat, n: nat)
    requires
        m <= n,
    ensures
        1 <= ten_to(m) <= ten_to(n),
    decreases n,
{
    if m < n {
        lemma_ten_to_grows(m, (n - 1) as nat);
    } else if n > 0 {
        lemma_ten_to_grows((m - 1) as nat, (n - 1) as nat);
    }
}

fn read_fraction(part: &[char], unit: u128) -> (r: u128)
    requires
        1 <= unit <= 31_557_600_000_000_000,
    ensures
        r == fraction_nanos(part@, unit as nat),
        r <= unit,
{
    let mut value: u128 = 0;
    let mut scale: u128 = 1;
    let mut count: usize = 0;
    let mut i: usize = 0;
    assert(ten_to(19) == 10_000_000_000_000_000_000) by {
        reveal_with_fuel(ten_to, 20);
    }
    while i < part.len()
        invariant
            i <= part@.len(),
            count <= i,
            count == digit_count(part@.take(i as int)),
            count <= MAX_FRACTION ==> value == digits_value(part@.take(i as int)) && scale == ten_to(count as nat)
                && value < scale,
            ten_to(19) == 10_000_000_000_000_000_000,
        decreases part@.len() - i,
    {
        assert(part@.take(i + 1).drop_last() =~= part@.take(i as int));
        assert(part@.take(i + 1).last() == part@[i as int]);
        if is_digit_char(part[i]) {
            if count < MAX_FRACTION {
                proof {
                    lemma_ten_to_grows(count as nat, 18);
                    lemma_ten_to_grows(18, 19);
                }
                value = value * 10 + ((part[i] as u8) - 48) as u128;
                scale = scale * 10;
            }
            count += 1;
        }
        i += 1;
    }
    assert(part@.take(i as int) =~= part@);
    if count > MAX_FRACTION {
        return 0;
    }
    proof {
        lemma_ten_to_grows(count as nat, 19);
        assert(value * unit <= 10_000_000_000_000_000_000 * 31_557_600_000_000_000) by (nonlinear_arith)
            requires
                value <= 10_000_000_000_000_000_000,
                unit <= 31_557_600_000_000_000,
        ;
        assert(value * unit / (scale as int) <= unit) by (nonlinear_arith)
            requires
                0 <= value < scale,
                unit >= 1,
        ;
    }
    value * unit / scale
}

fn unit_size(s: &[char]) -> (n: u128)
    requires
        s@.len() > 0,
    ensures
        n == unit_nanos(s@),
        1 <= n <= 31_557_600_000_000_000,
{
    let c = s[0];
    if c == 'u' || c == '\u{b5}' {
        1_000
    } else if c == 'm' && s.len() > 1 && (s[1] == 's' || (s[1] == 'i' && s.len() > 2 && s[2] == 'l')) {
        1_000_000
    } else if c == 's' {
        1_000_000_000
    } else if c == 'm' && !(s.len() > 1 && s[1] == 'o') {
        60_000_000_000
    } else if c == 'h' {
        3_600_000_000_000
    } else if c == 'd' {
        86_400_000_000_000
    } else if c == 'w' {
        604_800_000_000_000
    } else if c == 'm' || c == 'M' {
        2_630_016_000_000_000
    } else if c == 'y' {
        31_557_600_000_000_000
    } else {
        1
    }
}

/// The nanoseconds that the digits before a point make of a unit, if they are
/// below the limit.
fn read_units(whole: &[char], unit: u128) -> (r: Option<u128>)
    requires
        1 <= unit <= 31_557_600_000_000_000,
    ensures
        r == (if digits_value(whole@) * unit < TOO_MANY_NANOS {
            Some((digits_value(whole@) * unit) as u128)
        } else {
            None
        }),
{
    let ghost value = digits_value(whole@);
    match read_whole(whole) {
        Some(n) => {
            let most: u128 = (TOO_MANY_NANOS - 1) / unit;
            if n <= most {
                assert(n * unit < TOO_MANY_NANOS) by (nonlinear_arith)
                    requires
                        n <= (TOO_MANY_NANOS - 1) / (unit as int),
                        unit >= 1,
                ;
                Some(n * unit)
            } else {
                assert(n * unit >= TOO_MANY_NANOS) by (nonlinear_arith)
                    requires
                        n > (TOO_MANY_NANOS - 1) / (unit as int),
                        unit >= 1,
                ;
                None
            }
        },
        None => {
            assert(value * unit >= TOO_MANY_NANOS) by (nonlinear_arith)
                requires
                    value >= TOO_MANY_NANOS,
                    unit >= 1,
            ;
            None
        },
    }
}

/// The nanoseconds that a number with a unit makes, if they are below the
/// limit.
fn read_number(number: &[char], unit: u128) -> (r: Option<u128>)
    requires
        1 <= unit <= 31_557_600_000_000_000,
    ensures
        r == (if number_nanos(number@, unit as nat) < TOO_MANY_NANOS {
            Some(number_nanos(number@, unit as nat) as u128)
        } else {
            None
        }),
{
    let point: usize = find(number, CharClass::Is('.'));
    if point >= number.len() {
        return read_units(number, unit);
    }
    let whole = slice_subrange(number, 0, point);
    let part = slice_subrange(number, point + 1, number.len());
    assert(whole@ =~= number@.take(point as int));
    assert(part@ =~= number@.skip(point + 1));
    let behind: u128 = read_fraction(part, unit);
    match read_units(whole, unit) {
        Some(before) => {
            let all: u128 = before + behind;
            if all < TOO_MANY_NANOS {
                Some(all)
            } else {
                None
            }
        },
        None => None,
    }
}

fn stays_below(s: &[char]) -> (r: bool)
    ensures
        r == (span_nanos(s@) < TOO_MANY_NANOS),
{
    let mut total: u128 = 0;
    let mut rest: &[char] = s;
    loop
        invariant
            total + span_nanos(rest@) == span_nanos(s@),
            total < TOO_MANY_NANOS,
        decreases rest@.len(),
    {
        let n: usize = find(rest, CharClass::NoNumber);
        if n >= rest.len() {
            return true;
        }
        let number = slice_subrange(rest, 0, n);
        let unit = slice_subrange(rest, n, rest.len());
        let tail = slice_subrange(rest, n + 1, rest.len());
        assert(number@ =~= rest@.take(n as int));
        assert(unit@ =~= rest@.skip(n as int));
        assert(tail@ =~= rest@.skip(n + 1));
        let nanos: u128 = match read_number(number, unit_size(unit)) {
            Some(nanos) => nanos,
            None => return false,
        };
        total = total + nanos;
        if total >= TOO_MANY_NANOS {
            return false;
        }
        rest = tail;
    }
}

/// Whether a duration text can be read without a panic.
pub fn can_read_span(s: &str) -> (r: bool)
    ensures
        r == reads_safely(s@),
{
    let all = chars_of(s);
    reads_as_one_number(all.as_slice()) || stays_below(all.as_slice())
}

/// Reads a duration such as `1h 30min`.
pub fn read_span(s: &str) -> (r: Result<Span, String>)
    ensures
        span_view(r) == span_of(s@),
{
    if can_read_span(s) {
        parse_span(s)
    } else {
        Err(
            String::from_str(
                "number is too large or cannot be represented without a lack of precision (values below 1ns are not supported)",
            ),
        )
    }
}

}
