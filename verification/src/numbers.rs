//! Decimal numbers: their text, and the numbers that a text denotes.

use vstd::prelude::*;
use vstd::slice::slice_subrange;

verus! {

/// The decimal digit for a number below ten.
pub open spec fn digit_char(d: nat) -> char {
    (48 + d) as char
}

/// The decimal text of a number, without leading zeros.
pub open spec fn decimal(n: nat) -> Seq<char>
    decreases n,
{
    if n < 10 {
        seq![digit_char(n)]
    } else {
        decimal(n / 10).push(digit_char(n % 10))
    }
}

/// Whether a character is a decimal digit.
pub open spec fn is_digit(c: char) -> bool {
    '0' <= c && c <= '9'
}

/// Whether a text consists of decimal digits.
pub open spec fn all_digits(s: Seq<char>) -> bool {
    forall|i: int| 0 <= i < s.len() ==> is_digit(#[trigger] s[i])
}

/// The number that a text of decimal digits denotes.
pub open spec fn value_of(s: Seq<char>) -> nat
    decreases s.len(),
{
    if s.len() == 0 {
        0
    } else {
        (value_of(s.drop_last()) * 10 + (s.last() as nat - 48)) as nat
    }
}

/// The number that a text denotes as an unsigned integer: decimal digits
/// behind an optional plus sign.
pub open spec fn unsigned(s: Seq<char>) -> Option<nat> {
    let body = if s.len() > 0 && s[0] == '+' { s.skip(1) } else { s };
    if body.len() > 0 && all_digits(body) {
        Some(value_of(body))
    } else {
        None
    }
}

/// The number that a text denotes as a signed integer: decimal digits behind
/// an optional plus or minus sign.
pub open spec fn signed(s: Seq<char>) -> Option<int> {
    if s.len() > 0 && s[0] == '-' {
        let body = s.skip(1);
        if body.len() > 0 && all_digits(body) {
            Some(-(value_of(body) as int))
        } else {
            None
        }
    } else {
        match unsigned(s) {
            Some(n) => Some(n as int),
            None => None,
        }
    }
}

/// The number that a text denotes, if it is an unsigned integer that fits.
pub open spec fn as_u64(s: Seq<char>) -> Option<u64> {
    match unsigned(s) {
        Some(n) => if n <= u64::MAX { Some(n as u64) } else { None },
        None => None,
    }
}

/// The number that a text of decimal digits denotes, if it fits. A sign is no
/// digit.
pub open spec fn as_digits(s: Seq<char>) -> Option<u64> {
    if s.len() > 0 && all_digits(s) && value_of(s) <= u64::MAX {
        Some(value_of(s) as u64)
    } else {
        None
    }
}

/// The number that a text denotes, if it is a signed integer that fits.
pub open spec fn as_i64(s: Seq<char>) -> Option<i64> {
    match signed(s) {
        Some(n) => if i64::MIN <= n <= i64::MAX { Some(n as i64) } else { None },
        None => None,
    }
}

/// Writes a number in decimal behind what a string holds.
pub(crate) fn push_decimal(s: &mut String, n: u64)
    ensures
        final(s)@ == old(s)@ + decimal(n as nat),
    decreases n,
{
    let ghost before = s@;
    if n >= 10 {
        push_decimal(s, n / 10);
        s.push(((48 + (n % 10)) as u8) as char);
    } else {
        s.push(((48 + n) as u8) as char);
    }
    assert(s@ =~= before + decimal(n as nat));
}

proof fn lemma_value_grows(s: Seq<char>, k: int)
    requires
        0 <= k <= s.len(),
        all_digits(s),
    ensures
        value_of(s.take(k)) <= value_of(s),
    decreases s.len() - k,
{
    if k < s.len() {
        lemma_value_grows(s, k + 1);
        assert(s.take(k + 1).drop_last() =~= s.take(k));
        assert(s.take(k + 1).last() == s[k]);
    } else {
        assert(s.take(k) =~= s);
    }
}

/// Reads decimal digits as a number no larger than `max`.
fn digits_up_to(s: &[char], max: u64) -> (r: Option<u64>)
    ensures
        r == (if s@.len() > 0 && all_digits(s@) && value_of(s@) <= max {
            Some(value_of(s@) as u64)
        } else {
            None
        }),
{
    if s.len() == 0 {
        return None;
    }
    let mut acc: u128 = 0;
    let mut i: usize = 0;
    while i < s.len()
        invariant
            i <= s@.len(),
            acc == value_of(s@.take(i as int)),
            acc <= max,
            forall|j: int| 0 <= j < i ==> is_digit(#[trigger] s@[j]),
        decreases s@.len() - i,
    {
        let c = s[i];
        if !('0' <= c && c <= '9') {
            assert(!is_digit(s@[i as int]));
            return None;
        }
        assert(s@.take(i + 1).drop_last() =~= s@.take(i as int));
        acc = acc * 10 + ((c as u8) - 48) as u128;
        i += 1;
        if acc > max as u128 {
            proof {
                if all_digits(s@) {
                    lemma_value_grows(s@, i as int);
                }
            }
            return None;
        }
    }
    assert(s@.take(i as int) =~= s@);
    Some(acc as u64)
}

/// Reads decimal digits.
pub(crate) fn parse_digits(s: &[char]) -> (r: Option<u64>)
    ensures
        r == as_digits(s@),
{
    digits_up_to(s, u64::MAX)
}

/// Reads an unsigned integer.
pub(crate) fn parse_u64(s: &[char]) -> (r: Option<u64>)
    ensures
        r == as_u64(s@),
{
    if s.len() > 0 && s[0] == '+' {
        let body = slice_subrange(s, 1, s.len());
        assert(body@ =~= s@.skip(1));
        digits_up_to(body, u64::MAX)
    } else {
        digits_up_to(s, u64::MAX)
    }
}

/// Reads a signed integer.
pub(crate) fn parse_i64(s: &[char]) -> (r: Option<i64>)
    ensures
        r == as_i64(s@),
{
    if s.len() > 0 && s[0] == '-' {
        let body = slice_subrange(s, 1, s.len());
        assert(body@ =~= s@.skip(1));
        match digits_up_to(body, 0x8000_0000_0000_0000) {
            Some(m) => Some((-(m as i128)) as i64),
            None => None,
        }
    } else if s.len() > 0 && s[0] == '+' {
        let body = slice_subrange(s, 1, s.len());
        assert(body@ =~= s@.skip(1));
        match digits_up_to(body, i64::MAX as u64) {
            Some(m) => Some(m as i64),
            None => None,
        }
    } else {
        match digits_up_to(s, i64::MAX as u64) {
            Some(m) => Some(m as i64),
            None => None,
        }
    }
}

/// Reading the decimal text of a number gives the number back.
pub proof fn law_decimal_reads_back(n: nat)
    ensures
        decimal(n).len() > 0,
        all_digits(decimal(n)),
        value_of(decimal(n)) == n,
        unsigned(decimal(n)) == Some(n),
    decreases n,
{
    reveal_with_fuel(value_of, 2);
    if n >= 10 {
        law_decimal_reads_back(n / 10);
        assert(decimal(n).drop_last() =~= decimal(n / 10));
        assert forall|i: int| 0 <= i < decimal(n).len() implies is_digit(#[trigger] decimal(n)[i]) by {
            if i < decimal(n).len() - 1 {
                assert(decimal(n)[i] == decimal(n / 10)[i]);
            }
        }
    } else {
        assert(decimal(n).drop_last() =~= Seq::<char>::empty());
    }
    assert(is_digit(decimal(n)[0]));
}

/// Different numbers have different decimal texts.
pub proof fn law_decimal_is_injective(a: nat, b: nat)
    requires
        decimal(a) == decimal(b),
    ensures
        a == b,
{
    law_decimal_reads_back(a);
    law_decimal_reads_back(b);
}

}
