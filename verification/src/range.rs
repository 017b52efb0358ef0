//! Byte ranges: what a `Range` header asks of a body of known size.

use axum::http::HeaderValue;
use vstd::prelude::*;
use vstd::slice::slice_subrange;
use crate::fields::{text, value_bytes, value_str};
use crate::numbers::{as_digits, parse_digits};
use crate::text::{chars_of, find, has_prefix, lemma_prefix_len, prefix_len, starts_with, CharClass};

verus! {

/// What a `Range` header asks of a body.
#[derive(Clone, Copy, PartialEq, Eq, Structural, Debug)]
pub enum RangeRequest {
    /// The bytes from `start` up to, but not with, `end`.
    Part { start: u64, end: u64 },
    /// Bytes that begin where the body has ended.
    BeyondEnd,
    /// More than one range.
    Several,
    /// Nothing that can be read as a range of bytes.
    Malformed,
}

/// The smaller one of two numbers.
pub open spec fn smaller(a: int, b: int) -> int {
    if a <= b {
        a
    } else {
        b
    }
}

/// The bytes from `start` up to, but not with, `end`, where the body has them.
pub open spec fn bounded(start: int, end: int, total: u64) -> RangeRequest {
    if start >= total {
        RangeRequest::BeyondEnd
    } else {
        RangeRequest::Part { start: start as u64, end: end as u64 }
    }
}

/// What the part of a `Range` header behind `bytes=` asks of a body: `a-b`
/// for the bytes from `a` to `b`, `a-` for those from `a` on, and `-n` for
/// the last `n`. The numbers are written with digits alone, and `a` may not
/// exceed `b`, whatever the size of the body (RFC 7233, section 2.1).
pub open spec fn requested_bytes(s: Seq<char>, total: u64) -> RangeRequest {
    let dash = prefix_len(s, CharClass::Is('-')) as int;
    let (first, last) = (s.take(dash), s.skip(dash + 1));
    if s.contains(',') {
        RangeRequest::Several
    } else if dash >= s.len() {
        RangeRequest::Malformed
    } else if first.len() == 0 {
        match as_digits(last) {
            Some(n) => bounded(if n <= total { total - n } else { 0 }, total as int, total),
            None => RangeRequest::Malformed,
        }
    } else {
        match as_digits(first) {
            Some(start) => if last.len() == 0 {
                bounded(start as int, total as int, total)
            } else {
                match as_digits(last) {
                    Some(end) => if start > end {
                        RangeRequest::Malformed
                    } else {
                        bounded(start as int, smaller(end + 1, total as int), total)
                    },
                    None => RangeRequest::Malformed,
                }
            },
            None => RangeRequest::Malformed,
        }
    }
}

/// What the value of a `Range` header asks of a body.
pub open spec fn requested(bytes: Seq<u8>, total: u64) -> RangeRequest {
    match text(bytes) {
        Some(s) => if starts_with(s, "bytes="@) {
            requested_bytes(s.skip("bytes="@.len() as int), total)
        } else {
            RangeRequest::Malformed
        },
        None => RangeRequest::Malformed,
    }
}

/// The range that a request asks for, if a body of that size has it.
pub open spec fn satisfiable(r: RangeRequest) -> Option<(u64, u64)> {
    match r {
        RangeRequest::Part { start, end } => Some((start, end)),
        _ => None,
    }
}

fn bound(start: u64, end: u64, total: u64) -> (r: RangeRequest)
    ensures
        r == bounded(start as int, end as int, total),
{
    if start >= total {
        RangeRequest::BeyondEnd
    } else {
        RangeRequest::Part { start, end }
    }
}

fn read_bytes(s: &[char], total: u64) -> (r: RangeRequest)
    ensures
        r == requested_bytes(s@, total),
{
    let comma: usize = find(s, CharClass::Is(','));
    proof {
        lemma_prefix_len(s@, CharClass::Is(','));
    }
    if comma < s.len() {
        assert(s@[comma as int] == ',');
        return RangeRequest::Several;
    }
    assert(!s@.contains(','));
    let dash: usize = find(s, CharClass::Is('-'));
    if dash >= s.len() {
        return RangeRequest::Malformed;
    }
    let first = slice_subrange(s, 0, dash);
    let last = slice_subrange(s, dash + 1, s.len());
    assert(first@ =~= s@.take(dash as int));
    assert(last@ =~= s@.skip(dash + 1));
    if first.len() == 0 {
        match parse_digits(last) {
            Some(n) => bound(if n <= total { total - n } else { 0 }, total, total),
            None => RangeRequest::Malformed,
        }
    } else {
        match parse_digits(first) {
            Some(start) => if last.len() == 0 {
                bound(start, total, total)
            } else {
                match parse_digits(last) {
                    Some(end) => if start > end {
                        RangeRequest::Malformed
                    } else {
                        bound(start, if end < total { end + 1 } else { total }, total)
                    },
                    None => RangeRequest::Malformed,
                }
            },
            None => RangeRequest::Malformed,
        }
    }
}

/// Reads what the value of a `Range` header asks of a body of `total` bytes.
pub fn read_range(value: &HeaderValue, total: u64) -> (r: RangeRequest)
    ensures
        r == requested(value_bytes(*value), total),
{
    match value_str(value) {
        Some(s) => {
            let s = chars_of(s);
            let s = s.as_slice();
            proof {
                reveal_strlit("bytes=");
            }
            if has_prefix(s, "bytes=") {
                let rest = slice_subrange(s, 6, s.len());
                assert(rest@ =~= s@.skip(6));
                read_bytes(rest, total)
            } else {
                RangeRequest::Malformed
            }
        },
        None => RangeRequest::Malformed,
    }
}

/// Reads `Range: bytes=start-end` as the range from `start` up to, but not
/// with, `end`. There is none where more than one range is asked for, where
/// the body does not have it, and where the value is malformed.
pub fn parse_range_header(value: &HeaderValue, total: u64) -> (r: Option<(u64, u64)>)
    ensures
        r == satisfiable(requested(value_bytes(*value), total)),
{
    match read_range(value, total) {
        RangeRequest::Part { start, end } => Some((start, end)),
        _ => None,
    }
}

/// A range that is served lies within the body and is not empty.
pub proof fn law_ranges_lie_within_the_body(bytes: Seq<u8>, total: u64)
    ensures
        requested(bytes, total) matches RangeRequest::Part { start, end } ==> start < end <= total,
{
}

}
