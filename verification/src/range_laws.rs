//! What a range is for: which bytes of a body a client asks for.

use vstd::prelude::*;
use vstd::utf8::encode_utf8;
use crate::fields::{chars, is_plain, is_text, lemma_plain_text, lemma_text_is_plain};
use crate::numbers::{all_digits, as_digits, is_digit, value_of};
use crate::range::{requested, requested_bytes, satisfiable, RangeRequest};
use crate::text::{lemma_prefix_len, prefix_len, starts_with, CharClass};

verus! {

/// Whether a text is made of digits, at least one.
pub open spec fn is_number(s: Seq<char>) -> bool {
    s.len() > 0 && forall|i: int| 0 <= i < s.len() ==> '0' <= #[trigger] s[i] && s[i] <= '9'
}

/// The value of a `Range` header that asks for bytes by this text.
pub open spec fn range_value(s: Seq<char>) -> Seq<u8> {
    encode_utf8(seq!['b', 'y', 't', 'e', 's', '='] + s)
}

/// Digits denote a number by their places: the last one counts once, and all
/// before it ten times what they count by themselves.
pub proof fn law_digits_count_by_their_places(s: Seq<char>, c: char)
    requires
        '0' <= c && c <= '9',
    ensures
        value_of(seq![]) == 0,
        value_of(s.push(c)) == 10 * value_of(s) + (c as int - '0' as int),
        is_number(s) ==> as_digits(s) == (if value_of(s) <= u64::MAX {
            Some(value_of(s) as u64)
        } else {
            None
        }),
        !is_number(s) ==> as_digits(s) is None,
{
    assert(s.push(c).drop_last() =~= s);
    if s.len() > 0 && all_digits(s) {
        assert forall|i: int| 0 <= i < s.len() implies '0' <= #[trigger] s[i] && s[i] <= '9' by {
            assert(is_digit(s[i]));
        }
    }
}

proof fn lemma_range_value(s: Seq<char>, total: u64)
    requires
        is_plain(s),
    ensures
        requested(range_value(s), total) == requested_bytes(s, total),
{
    let all = seq!['b', 'y', 't', 'e', 's', '='] + s;
    reveal_strlit("bytes=");
    assert("bytes="@ =~= seq!['b', 'y', 't', 'e', 's', '=']);
    assert(is_plain(all));
    lemma_plain_text(all);
    assert(all.take(6) =~= "bytes="@);
    assert(all.skip(6) =~= s);
}

proof fn lemma_positions(a: Seq<char>, b: Seq<char>)
    requires
        forall|i: int| 0 <= i < a.len() ==> '0' <= #[trigger] a[i] && a[i] <= '9',
        forall|i: int| 0 <= i < b.len() ==> '0' <= #[trigger] b[i] && b[i] <= '9',
    ensures
        ({
            let s = a + seq!['-'] + b;
            &&& is_plain(s)
            &&& !s.contains(',')
            &&& prefix_len(s, CharClass::Is('-')) == a.len()
            &&& s.take(a.len() as int) == a
            &&& s.skip(a.len() + 1int) == b
        }),
{
    let s = a + seq!['-'] + b;
    assert forall|i: int| 0 <= i < s.len() implies (i < a.len() ==> #[trigger] s[i] == a[i]) && (i == a.len()
        ==> s[i] == '-') && (i > a.len() ==> s[i] == b[i - a.len() - 1]) by {}
    assert(is_plain(s)) by {
        assert forall|i: int| 0 <= i < s.len() implies #[trigger] s[i] == '\t' || (' ' <= s[i] && s[i] <= '~') by {}
    }
    if s.contains(',') {
        let i = choose|i: int| 0 <= i < s.len() && s[i] == ',';
        assert(s[i] != ',');
    }
    lemma_prefix_len(s, CharClass::Is('-'));
    let n = prefix_len(s, CharClass::Is('-')) as int;
    assert(s[a.len() as int] == '-');
    if n < a.len() {
        assert(s[n] == a[n]);
    }
    assert(s.take(a.len() as int) =~= a);
    assert(s.skip(a.len() + 1int) =~= b);
}

/// `bytes=a-b` asks for the bytes from `a` to `b`, as far as the body has
/// them. It is beyond the end just where the body has not even the first of
/// them, and no range at all where `a` comes behind `b`.
pub proof fn law_ranges_with_both_ends(a: Seq<char>, b: Seq<char>, total: u64)
    requires
        is_number(a),
        is_number(b),
    ensures
        ({
            let (first, last) = (value_of(a), value_of(b));
            let r = requested(range_value(a + seq!['-'] + b), total);
            if first > u64::MAX || last > u64::MAX || first > last {
                r == RangeRequest::Malformed
            } else if first >= total {
                r == RangeRequest::BeyondEnd
            } else if last < total {
                r == (RangeRequest::Part { start: first as u64, end: (last + 1) as u64 })
            } else {
                r == (RangeRequest::Part { start: first as u64, end: total })
            }
        }),
{
    lemma_positions(a, b);
    lemma_range_value(a + seq!['-'] + b, total);
    law_digits_count_by_their_places(a, '0');
    law_digits_count_by_their_places(b, '0');
}

/// `bytes=a-` asks for the bytes from `a` to the end of the body. It is beyond
/// the end just where the body has none of them.
pub proof fn law_ranges_without_a_last_byte(a: Seq<char>, total: u64)
    requires
        is_number(a),
    ensures
        ({
            let first = value_of(a);
            let r = requested(range_value(a + seq!['-']), total);
            if first > u64::MAX {
                r == RangeRequest::Malformed
            } else if first >= total {
                r == RangeRequest::BeyondEnd
            } else {
                r == (RangeRequest::Part { start: first as u64, end: total })
            }
        }),
{
    let none: Seq<char> = seq![];
    lemma_positions(a, none);
    assert(a + seq!['-'] + none =~= a + seq!['-']);
    lemma_range_value(a + seq!['-'], total);
    law_digits_count_by_their_places(a, '0');
}

/// `bytes=-n` asks for the last `n` bytes of the body, or for all of it where
/// it has no more. It is beyond the end just where that is no byte.
pub proof fn law_ranges_from_the_end(b: Seq<char>, total: u64)
    requires
        is_number(b),
    ensures
        ({
            let n = value_of(b);
            let r = requested(range_value(seq!['-'] + b), total);
            if n > u64::MAX {
                r == RangeRequest::Malformed
            } else if n == 0 || total == 0 {
                r == RangeRequest::BeyondEnd
            } else if n >= total {
                r == (RangeRequest::Part { start: 0, end: total })
            } else {
                r == (RangeRequest::Part { start: (total - n) as u64, end: total })
            }
        }),
{
    let none: Seq<char> = seq![];
    lemma_positions(none, b);
    assert(none + seq!['-'] + b =~= seq!['-'] + b);
    lemma_range_value(seq!['-'] + b, total);
    law_digits_count_by_their_places(b, '0');
}

/// More than one range is asked for just where a comma stands among the bytes
/// asked for.
pub proof fn law_commas_ask_for_several_ranges(s: Seq<char>, total: u64)
    requires
        is_plain(s),
    ensures
        requested(range_value(s), total) == RangeRequest::Several <==> s.contains(','),
{
    lemma_range_value(s, total);
}

/// Only what is written as a range of bytes asks for any: two positions of
/// digits around a hyphen, of which one may be missing.
pub proof fn law_only_ranges_are_read(bytes: Seq<u8>, total: u64)
    ensures
        requested(bytes, total) is Part || requested(bytes, total) is BeyondEnd ==> exists|a: Seq<char>, b: Seq<char>|
            #![trigger a + seq!['-'] + b]
            is_text(bytes) && bytes == range_value(a + seq!['-'] + b) && (is_number(a) || is_number(b)) && (a.len()
                == 0 || is_number(a)) && (b.len() == 0 || is_number(b)),
{
    if requested(bytes, total) is Part || requested(bytes, total) is BeyondEnd {
        let t = chars(bytes);
        lemma_text_is_plain(bytes);
        reveal_strlit("bytes=");
        assert(starts_with(t, "bytes="@));
        let s = t.skip(6);
        lemma_prefix_len(s, CharClass::Is('-'));
        let n = prefix_len(s, CharClass::Is('-')) as int;
        let (a, b) = (s.take(n), s.skip(n + 1));
        law_digits_count_by_their_places(a, '0');
        law_digits_count_by_their_places(b, '0');
        assert(s =~= a + seq!['-'] + b);
        assert("bytes="@ =~= seq!['b', 'y', 't', 'e', 's', '=']);
        assert(t =~= t.take(6) + s);
    }
}

/// What a request for a range asks for is what is handed on: a part by its
/// start and end, and nothing in every other case.
pub proof fn law_parts_are_handed_on(r: RangeRequest)
    ensures
        r matches RangeRequest::Part { start, end } ==> satisfiable(r) == Some((start, end)),
        !(r is Part) ==> satisfiable(r) is None,
{
}

}
