//! Human-readable sizes, such as `512MiB`.

use vstd::prelude::*;
use vstd::slice::slice_subrange;
use vstd::string::StringExecFns;
use crate::numbers::{all_digits, as_u64, is_digit, parse_u64, value_of};
use crate::text::{
    chars_of, find, lemma_prefix_len, prefix_len, same_str, text_from, trim, trimmed, upper, upper_text, CharClass,
};

verus! {

/// Whether a character beyond ASCII has the Unicode `Alphabetic` property.
pub uninterp spec fn alphabetic_beyond_ascii(c: char) -> bool;

/// Whether a character has the Unicode `Alphabetic` property. Among the ASCII
/// characters the letters have it, and no other.
pub open spec fn alphabetic(c: char) -> bool {
    if (c as u32) < 128 {
        ('a' <= c && c <= 'z') || ('A' <= c && c <= 'Z')
    } else {
        alphabetic_beyond_ascii(c)
    }
}

/// Asks `char::is_alphabetic`.
///
/// Trusted: among the ASCII characters the answer is yes for the letters, and
/// for no other; beyond them it depends on the character alone.
#[verifier::external_body]
fn is_alphabetic(c: char) -> (yes: bool)
    ensures
        (c as u32) < 128 ==> yes == (('a' <= c && c <= 'z') || ('A' <= c && c <= 'Z')),
        (c as u32) >= 128 ==> yes == alphabetic_beyond_ascii(c),
{
    c.is_alphabetic()
}

/// Why a text is no size.
#[derive(Debug)]
pub enum SizeError {
    /// The text is no number of bytes, and no unit follows.
    NoUnit { size: String },
    /// What stands before the unit is no number.
    InvalidNumber { size: String },
    /// The unit is none of those known.
    UnknownUnit { unit: String, size: String },
}

/// What a size error says.
pub enum SizeFault {
    NoUnit { size: Seq<char> },
    InvalidNumber { size: Seq<char> },
    UnknownUnit { unit: Seq<char>, size: Seq<char> },
}

impl View for SizeError {
    type V = SizeFault;

    open spec fn view(&self) -> SizeFault {
        match self {
            SizeError::NoUnit { size } => SizeFault::NoUnit { size: size@ },
            SizeError::InvalidNumber { size } => SizeFault::InvalidNumber { size: size@ },
            SizeError::UnknownUnit { unit, size } => SizeFault::UnknownUnit { unit: unit@, size: size@ },
        }
    }
}

/// The message of a size error.
pub open spec fn fault_text(e: SizeFault) -> Seq<char> {
    match e {
        SizeFault::NoUnit { size } => "no unit found in size '"@ + size + "'"@,
        SizeFault::InvalidNumber { size } => "invalid number in size '"@ + size + "'"@,
        SizeFault::UnknownUnit { unit, size } => "unknown size unit '"@ + unit + "' in '"@ + size + "'"@,
    }
}

impl SizeError {
    /// The message of the error.
    pub fn message(&self) -> (s: String)
        ensures
            s@ == fault_text(self@),
    {
        match self {
            SizeError::NoUnit { size } => {
                let mut s = String::from_str("no unit found in size '");
                s.append(size.as_str());
                s.append("'");
                s
            },
            SizeError::InvalidNumber { size } => {
                let mut s = String::from_str("invalid number in size '");
                s.append(size.as_str());
                s.append("'");
                s
            },
            SizeError::UnknownUnit { unit, size } => {
                let mut s = String::from_str("unknown size unit '");
                s.append(unit.as_str());
                s.append("' in '");
                s.append(size.as_str());
                s.append("'");
                s
            },
        }
    }
}

// ---------------------------------------------------------------------------
// What a text denotes
// ---------------------------------------------------------------------------

/// The bytes of a unit, by its name in upper case.
pub open spec fn unit_bytes(unit: Seq<char>) -> Option<u64> {
    if unit == "B"@ {
        Some(1)
    } else if unit == "KB"@ {
        Some(1_000)
    } else if unit == "MB"@ {
        Some(1_000_000)
    } else if unit == "GB"@ {
        Some(1_000_000_000)
    } else if unit == "TB"@ {
        Some(1_000_000_000_000)
    } else if unit == "KIB"@ {
        Some(1_024)
    } else if unit == "MIB"@ {
        Some(1_048_576)
    } else if unit == "GIB"@ {
        Some(1_073_741_824)
    } else if unit == "TIB"@ {
        Some(1_099_511_627_776)
    } else {
        None
    }
}

/// The number of characters before the first letter.
pub open spec fn letters_at(s: Seq<char>) -> nat
    decreases s.len(),
{
    if s.len() == 0 || alphabetic(s[0]) {
        0
    } else {
        1 + letters_at(s.drop_first())
    }
}

/// A text without its sign.
pub open spec fn unsigned_part(s: Seq<char>) -> Seq<char> {
    if s.len() > 0 && (s[0] == '+' || s[0] == '-') {
        s.skip(1)
    } else {
        s
    }
}

/// Whether a text is a decimal number: digits with an optional point among,
/// before or behind them, and an optional sign.
pub open spec fn is_decimal(s: Seq<char>) -> bool {
    let body = unsigned_part(s);
    let point = point_at(body) as int;
    if point >= body.len() {
        body.len() > 0 && all_digits(body)
    } else {
        &&& body.len() > 1
        &&& all_digits(body.take(point))
        &&& all_digits(body.skip(point + 1))
    }
}

/// The number of characters before the first point.
pub open spec fn point_at(s: Seq<char>) -> nat {
    prefix_len(s, CharClass::Is('.'))
}

/// The largest number up to which every whole number of bytes has an exact
/// binary floating-point form.
pub const MAX_EXACT: u64 = 9_007_199_254_740_992;

/// What a size text denotes.
pub enum SizeMeaning {
    /// A whole number of bytes.
    Bytes(u64),
    /// A number times the bytes of a unit, to be computed with binary
    /// floating-point numbers.
    Scaled { number: Seq<char>, unit: u64 },
    /// No size.
    Fault(SizeFault),
}

/// What a number in front of a unit denotes. Numbers below zero denote no
/// bytes. Whole numbers are exact where the product is small enough.
pub open spec fn scaled(number: Seq<char>, unit: u64) -> SizeMeaning {
    let body = unsigned_part(number);
    if number.len() > 0 && number[0] == '-' {
        SizeMeaning::Bytes(0)
    } else if all_digits(body) && value_of(body) * unit <= MAX_EXACT {
        SizeMeaning::Bytes((value_of(body) * unit) as u64)
    } else {
        SizeMeaning::Scaled { number, unit }
    }
}

/// What a size text without white space around it denotes: a bare number of
/// bytes, or a number and a unit.
pub open spec fn trimmed_meaning(s: Seq<char>) -> SizeMeaning {
    let at = letters_at(s) as int;
    let number = trim(s.take(at), CharClass::WhiteSpace);
    let unit = upper(trim(s.skip(at), CharClass::WhiteSpace));
    match as_u64(s) {
        Some(n) => SizeMeaning::Bytes(n),
        None => if at >= s.len() {
            SizeMeaning::Fault(SizeFault::NoUnit { size: s })
        } else if !is_decimal(number) {
            SizeMeaning::Fault(SizeFault::InvalidNumber { size: s })
        } else {
            match unit_bytes(unit) {
                Some(bytes) => scaled(number, bytes),
                None => SizeMeaning::Fault(SizeFault::UnknownUnit { unit, size: s }),
            }
        },
    }
}

/// What a size text denotes.
pub open spec fn size_meaning(s: Seq<char>) -> SizeMeaning {
    trimmed_meaning(trim(s, CharClass::WhiteSpace))
}

// ---------------------------------------------------------------------------
// Reading
// ---------------------------------------------------------------------------

fn unit_size(unit: &[char]) -> (r: Option<u64>)
    ensures
        r == unit_bytes(unit@),
{
    if same_str(unit, "B") {
        Some(1)
    } else if same_str(unit, "KB") {
        Some(1_000)
    } else if same_str(unit, "MB") {
        Some(1_000_000)
    } else if same_str(unit, "GB") {
        Some(1_000_000_000)
    } else if same_str(unit, "TB") {
        Some(1_000_000_000_000)
    } else if same_str(unit, "KIB") {
        Some(1_024)
    } else if same_str(unit, "MIB") {
        Some(1_048_576)
    } else if same_str(unit, "GIB") {
        Some(1_073_741_824)
    } else if same_str(unit, "TIB") {
        Some(1_099_511_627_776)
    } else {
        None
    }
}

proof fn lemma_letters_at(s: Seq<char>, n: nat)
    requires
        n <= s.len(),
        n < s.len() ==> alphabetic(s[n as int]),
        forall|i: int| 0 <= i < n ==> !alphabetic(#[trigger] s[i]),
    ensures
        letters_at(s) == n,
    decreases s.len(),
{
    if n > 0 {
        assert(!alphabetic(s[0]));
        let rest = s.drop_first();
        assert forall|i: int| 0 <= i < n - 1 implies !alphabetic(#[trigger] rest[i]) by {
            assert(rest[i] == s[i + 1]);
        }
        lemma_letters_at(rest, (n - 1) as nat);
    }
}

fn find_letters(s: &[char]) -> (n: usize)
    ensures
        n == letters_at(s@),
        n <= s@.len(),
{
    let mut n: usize = 0;
    while n < s.len() && !is_alphabetic(s[n])
        invariant
            n <= s@.len(),
            forall|i: int| 0 <= i < n ==> !alphabetic(#[trigger] s@[i]),
        decreases s@.len() - n,
    {
        n += 1;
    }
    proof {
        lemma_letters_at(s@, n as nat);
    }
    n
}

fn only_digits(s: &[char]) -> (r: bool)
    ensures
        r == all_digits(s@),
{
    let mut i: usize = 0;
    while i < s.len()
        invariant
            i <= s@.len(),
            forall|j: int| 0 <= j < i ==> is_digit(#[trigger] s@[j]),
        decreases s@.len() - i,
    {
        if !('0' <= s[i] && s[i] <= '9') {
            assert(!is_digit(s@[i as int]));
            return false;
        }
        i += 1;
    }
    true
}

fn without_sign(s: &[char]) -> (r: &[char])
    ensures
        r@ == unsigned_part(s@),
{
    if s.len() > 0 && (s[0] == '+' || s[0] == '-') {
        let r = slice_subrange(s, 1, s.len());
        assert(r@ =~= s@.skip(1));
        r
    } else {
        s
    }
}

fn reads_as_decimal(s: &[char]) -> (r: bool)
    ensures
        r == is_decimal(s@),
{
    let body = without_sign(s);
    let point: usize = find(body, CharClass::Is('.'));
    if point >= body.len() {
        body.len() > 0 && only_digits(body)
    } else {
        let whole = slice_subrange(body, 0, point);
        let part = slice_subrange(body, point + 1, body.len());
        assert(whole@ =~= body@.take(point as int));
        assert(part@ =~= body@.skip(point + 1));
        body.len() > 1 && only_digits(whole) && only_digits(part)
    }
}

/// A whole number of bytes, where it is exact.
fn whole_bytes(number: &[char], unit: u64) -> (r: Option<u64>)
    requires
        is_decimal(number@),
        unit > 0,
    ensures
        r == (match scaled(number@, unit) {
            SizeMeaning::Bytes(n) => Some(n),
            _ => None,
        }),
{
    if number.len() > 0 && number[0] == '-' {
        return Some(0);
    }
    let body = without_sign(number);
    if !only_digits(body) {
        return None;
    }
    proof {
        assert(body@.len() > 0) by {
            lemma_prefix_len(body@, CharClass::Is('.'));
        }
        assert(body@[0] != '+') by {
            assert(is_digit(body@[0]));
        }
    }
    match parse_u64(body) {
        Some(n) => {
            if n <= MAX_EXACT / unit {
                assert(n * unit <= MAX_EXACT) by (nonlinear_arith)
                    requires
                        n <= MAX_EXACT / unit,
                        unit > 0,
                ;
                Some(n * unit)
            } else {
                assert(n * unit > MAX_EXACT) by (nonlinear_arith)
                    requires
                        n > MAX_EXACT / unit,
                        unit > 0,
                ;
                None
            }
        },
        None => {
            assert(value_of(body@) * unit > MAX_EXACT) by (nonlinear_arith)
                requires
                    value_of(body@) > u64::MAX,
                    unit > 0,
            ;
            None
        },
    }
}

/// A size text as it was read.
#[derive(Debug)]
pub enum SizeReading {
    /// A whole number of bytes.
    Bytes(u64),
    /// A number times the bytes of a unit, to be computed with binary
    /// floating-point numbers.
    Scaled { number: String, unit: u64 },
    /// No size.
    Fault(SizeError),
}

impl View for SizeReading {
    type V = SizeMeaning;

    open spec fn view(&self) -> SizeMeaning {
        match self {
            SizeReading::Bytes(n) => SizeMeaning::Bytes(*n),
            SizeReading::Scaled { number, unit } => SizeMeaning::Scaled { number: number@, unit: *unit },
            SizeReading::Fault(e) => SizeMeaning::Fault(e@),
        }
    }
}

/// Reads a human-readable size: a bare number of bytes, or a number and a
/// unit, in any case and with white space around them.
pub fn read_size(s: &str) -> (r: SizeReading)
    ensures
        r@ == size_meaning(s@),
{
    let all = chars_of(s);
    let s = trimmed(all.as_slice(), CharClass::WhiteSpace);
    if let Some(n) = parse_u64(s) {
        return SizeReading::Bytes(n);
    }
    let at: usize = find_letters(s);
    if at >= s.len() {
        return SizeReading::Fault(SizeError::NoUnit { size: text_from(s) });
    }
    let front = slice_subrange(s, 0, at);
    let back = slice_subrange(s, at, s.len());
    assert(front@ =~= s@.take(at as int));
    assert(back@ =~= s@.skip(at as int));
    let number = trimmed(front, CharClass::WhiteSpace);
    if !reads_as_decimal(number) {
        return SizeReading::Fault(SizeError::InvalidNumber { size: text_from(s) });
    }
    let unit = upper_text(trimmed(back, CharClass::WhiteSpace));
    match unit_size(unit.as_slice()) {
        Some(bytes) => match whole_bytes(number, bytes) {
            Some(n) => SizeReading::Bytes(n),
            None => SizeReading::Scaled { number: text_from(number), unit: bytes },
        },
        None => SizeReading::Fault(
            SizeError::UnknownUnit { unit: text_from(unit.as_slice()), size: text_from(s) },
        ),
    }
}

/// Reads a human-readable size as a number of bytes: `4096`, `512MiB`, `1GiB`,
/// `200MB`, `1TB`, `100KB`.
///
/// `scale` multiplies a decimal number by the bytes of its unit, where that
/// takes floating-point numbers: for fractions, and for products beyond
/// `MAX_EXACT`.
pub fn parse_size<F: Fn(String, u64) -> u64>(s: &str, scale: F) -> (r: Result<u64, SizeError>)
    requires
        forall|number: String, unit: u64| #[trigger] scale.requires((number, unit)),
    ensures
        match size_meaning(s@) {
            SizeMeaning::Bytes(n) => r matches Ok(m) && m == n,
            SizeMeaning::Scaled { number, unit } => r matches Ok(m) && exists|t: String, u: u64, n: u64|
                t@ == number && u == unit && n == m && #[trigger] scale.ensures((t, u), n),
            SizeMeaning::Fault(e) => r matches Err(f) && f@ == e,
        },
{
    match read_size(s) {
        SizeReading::Bytes(n) => Ok(n),
        SizeReading::Scaled { number, unit } => Ok(scale(number, unit)),
        SizeReading::Fault(e) => Err(e),
    }
}

}
