//! What durations are for: which texts are read, and which are too long.

use vstd::prelude::*;
use crate::numbers::{is_digit, value_of};
use crate::range_laws::is_number;
use crate::spans::{digits_value, duration, has_one_number, span_nanos, span_of, too_long, unit_nanos};
use crate::text::{in_class, lemma_prefix_len, prefix_len, CharClass};

verus! {

/// The name of a unit of time.
pub open spec fn unit_text(step: nat) -> Seq<char> {
    if step == 0 {
        seq!['n', 's']
    } else if step == 1 {
        seq!['u', 's']
    } else if step == 2 {
        seq!['m', 's']
    } else if step == 3 {
        seq!['s']
    } else if step == 4 {
        seq!['m', 'i', 'n']
    } else if step == 5 {
        seq!['h']
    } else if step == 6 {
        seq!['d', 'a', 'y', 's']
    } else if step == 7 {
        seq!['w']
    } else if step == 8 {
        seq!['m', 'o', 'n', 't', 'h', 's']
    } else {
        seq!['y']
    }
}

/// The nanoseconds of a unit of time. A month has 30.44 days, a year 365.25.
pub open spec fn unit_length(step: nat) -> nat {
    let second = 1_000_000_000;
    let day = 86_400 * second;
    if step == 0 {
        1
    } else if step == 1 {
        1_000
    } else if step == 2 {
        1_000_000
    } else if step == 3 {
        second
    } else if step == 4 {
        60 * second
    } else if step == 5 {
        3_600 * second
    } else if step == 6 {
        day
    } else if step == 7 {
        7 * day
    } else if step == 8 {
        day * 3044 / 100
    } else {
        day * 36525 / 100
    }
}

/// Numbers with units, each with a space behind it.
pub open spec fn spans_written(list: Seq<(Seq<char>, nat)>) -> Seq<char>
    decreases list.len(),
{
    if list.len() == 0 {
        seq![]
    } else {
        list[0].0 + unit_text(list[0].1) + seq![' '] + spans_written(list.drop_first())
    }
}

/// The nanoseconds of numbers with units, taken together.
pub open spec fn spans_total(list: Seq<(Seq<char>, nat)>) -> nat
    decreases list.len(),
{
    if list.len() == 0 {
        0
    } else {
        value_of(list[0].0) * unit_length(list[0].1) + spans_total(list.drop_first())
    }
}

/// Whether all numbers of a list are made of digits.
pub open spec fn all_numbers(list: Seq<(Seq<char>, nat)>) -> bool {
    forall|i: int| 0 <= i < list.len() ==> is_number((#[trigger] list[i]).0) && list[i].1 <= 9
}

proof fn lemma_digits(s: Seq<char>)
    requires
        forall|i: int| 0 <= i < s.len() ==> '0' <= #[trigger] s[i] && s[i] <= '9',
    ensures
        digits_value(s) == value_of(s),
    decreases s.len(),
{
    if s.len() > 0 {
        let before = s.drop_last();
        assert forall|i: int| 0 <= i < before.len() implies '0' <= #[trigger] before[i] && before[i] <= '9' by {
            assert(before[i] == s[i]);
        }
        lemma_digits(before);
        assert(s.last() == s[s.len() - 1]);
    }
}

proof fn lemma_spaced_digits(s: Seq<char>)
    requires
        is_number(s),
    ensures
        digits_value(seq![' '] + s) == value_of(s),
{
    lemma_digits(s);
    lemma_space_in_front(s);
}

proof fn lemma_space_in_front(s: Seq<char>)
    ensures
        digits_value(seq![' '] + s) == digits_value(s),
    decreases s.len(),
{
    let t = seq![' '] + s;
    if s.len() > 0 {
        assert(t.drop_last() =~= seq![' '] + s.drop_last());
        assert(t.last() == s.last());
        lemma_space_in_front(s.drop_last());
    } else {
        reveal_with_fuel(digits_value, 2);
        assert(t.drop_last() =~= seq![]);
        assert(t.last() == ' ');
    }
}

proof fn lemma_front(front: Seq<char>, rest: Seq<char>)
    requires
        forall|i: int| 0 <= i < front.len() ==> ('0' <= #[trigger] front[i] && front[i] <= '9') || front[i] == ' ',
        rest.len() > 0,
        in_class(rest[0], CharClass::NoNumber),
    ensures
        span_nanos(front + rest) == digits_value(front) * unit_nanos(rest) + span_nanos(rest.skip(1)),
{
    let s = front + rest;
    lemma_prefix_len(s, CharClass::NoNumber);
    let n = prefix_len(s, CharClass::NoNumber) as int;
    assert(s[front.len() as int] == rest[0]);
    if n < front.len() {
        assert(s[n] == front[n]);
    }
    assert(n == front.len());
    assert(s.take(n) =~= front);
    assert(s.skip(n) =~= rest);
    assert(s.skip(n + 1) =~= rest.skip(1));
    lemma_prefix_len(front, CharClass::Is('.'));
    let p = prefix_len(front, CharClass::Is('.')) as int;
    if p < front.len() {
        assert(front[p] == '.');
    }
}

proof fn lemma_letter_is_skipped(rest: Seq<char>)
    requires
        rest.len() > 0,
        in_class(rest[0], CharClass::NoNumber),
    ensures
        span_nanos(rest) == span_nanos(rest.skip(1)),
{
    let none: Seq<char> = seq![];
    lemma_front(none, rest);
    assert(none + rest =~= rest);
    assert(digits_value(none) == 0);
    assert(0 * unit_nanos(rest) == 0);
}

proof fn lemma_letters_are_skipped(word: Seq<char>, rest: Seq<char>)
    requires
        forall|i: int| 0 <= i < word.len() ==> in_class(#[trigger] word[i], CharClass::NoNumber),
    ensures
        span_nanos(word + rest) == span_nanos(rest),
    decreases word.len(),
{
    if word.len() > 0 {
        let s = word + rest;
        assert(s[0] == word[0]);
        lemma_letter_is_skipped(s);
        let less = word.drop_first();
        assert forall|i: int| 0 <= i < less.len() implies in_class(#[trigger] less[i], CharClass::NoNumber) by {
            assert(less[i] == word[i + 1]);
        }
        assert(s.skip(1) =~= less + rest);
        lemma_letters_are_skipped(less, rest);
    } else {
        assert(word + rest =~= rest);
    }
}

proof fn lemma_unit(step: nat, rest: Seq<char>)
    requires
        step <= 9,
    ensures
        unit_nanos(unit_text(step) + seq![' '] + rest) == unit_length(step),
        forall|i: int| 0 <= i < unit_text(step).len() ==> in_class(#[trigger] unit_text(step)[i], CharClass::NoNumber),
        unit_text(step).len() > 0,
{
    let u = unit_text(step);
    let s = u + seq![' '] + rest;
    assert(s[0] == u[0]);
    assert(s.len() >= 2);
    if u.len() > 1 {
        assert(s[1] == u[1]);
    } else {
        assert(s[1] == ' ');
    }
    if u.len() > 2 {
        assert(s[2] == u[2]);
    }
    assert(86_400nat * 1_000_000_000 * 3044 / 100 == 2_630_016_000_000_000);
    assert(86_400nat * 1_000_000_000 * 36525 / 100 == 31_557_600_000_000_000);
}

proof fn lemma_spans(list: Seq<(Seq<char>, nat)>, space: bool)
    requires
        all_numbers(list),
    ensures
        span_nanos((if space { seq![' '] } else { seq![] }) + spans_written(list)) == spans_total(list),
    decreases list.len(),
{
    let pad: Seq<char> = if space { seq![' '] } else { seq![] };
    if list.len() == 0 {
        let s = pad + spans_written(list);
        lemma_prefix_len(s, CharClass::NoNumber);
        let n = prefix_len(s, CharClass::NoNumber) as int;
        if n < s.len() {
            assert(s[n] == ' ');
        }
    } else {
        let (d, step) = list[0];
        assert(is_number(list[0].0));
        let tail = list.drop_first();
        assert forall|i: int| 0 <= i < tail.len() implies is_number((#[trigger] tail[i]).0) && tail[i].1 <= 9 by {
            assert(tail[i] == list[i + 1]);
        }
        lemma_spans(tail, true);
        let after = seq![' '] + spans_written(tail);
        let u = unit_text(step);
        let rest = u + after;
        lemma_unit(step, spans_written(tail));
        assert(rest =~= u + seq![' '] + spans_written(tail));
        assert(rest[0] == u[0]);
        let front = pad + d;
        assert forall|i: int| 0 <= i < front.len() implies ('0' <= #[trigger] front[i] && front[i] <= '9') || front[i]
            == ' ' by {
            if space && i > 0 {
                assert(front[i] == d[i - 1]);
            } else if !space {
                assert(front[i] == d[i]);
            }
        }
        lemma_front(front, rest);
        assert(pad + spans_written(list) =~= front + rest);
        lemma_spaced_digits(d);
        lemma_digits(d);
        if !space {
            assert(front =~= d);
        }
        let less = u.drop_first();
        assert forall|i: int| 0 <= i < less.len() implies in_class(#[trigger] less[i], CharClass::NoNumber) by {
            assert(less[i] == u[i + 1]);
        }
        lemma_letters_are_skipped(less, after);
        assert(rest.skip(1) =~= less + after);
    }
}

/// Numbers with units are read as long as they add up to no more seconds than
/// a machine integer holds; several that add up to more are refused.
pub proof fn law_durations_add_up(list: Seq<(Seq<char>, nat)>)
    requires
        all_numbers(list),
    ensures
        spans_total(list) < 0x1_0000_0000_0000_0000 * 1_000_000_000 ==> span_of(spans_written(list)) == duration(
            spans_written(list),
        ),
        list.len() >= 2 && spans_total(list) >= 0x1_0000_0000_0000_0000 * 1_000_000_000 ==> span_of(
            spans_written(list),
        ) == Err::<(u64, u32), Seq<char>>(too_long()),
{
    let s = spans_written(list);
    lemma_spans(list, false);
    let none: Seq<char> = seq![];
    assert(none + s =~= s);
    if list.len() >= 2 {
        let (a, b) = (list[0], list[1]);
        assert(is_number(list[0].0) && is_number(list[1].0));
        lemma_unit(a.1, none);
        let tail = list.drop_first();
        assert(tail[0] == b);
        let u = unit_text(a.1);
        let j = a.0.len() as int;
        let k = j + u.len() + 1;
        assert(s[0] == a.0[0]);
        assert(s[j] == u[0]);
        assert(spans_written(tail)[0] == b.0[0]);
        assert(s[k] == b.0[0]);
        assert(is_digit(s[0]) && in_class(s[j], CharClass::NoNumber) && is_digit(s[k]));
        assert(!has_one_number(s));
    }
}

/// A text with a single number is always left to the reader of durations: no
/// digit stands behind a character that is neither a digit nor a point nor a
/// space and that itself stands behind a digit.
pub proof fn law_single_numbers_are_read(s: Seq<char>)
    requires
        forall|i: int, j: int, k: int|
            0 <= i < j < k < s.len() && '0' <= #[trigger] s[i] && s[i] <= '9' && '0' <= #[trigger] s[k] && s[k] <= '9'
                ==> ('0' <= #[trigger] s[j] && s[j] <= '9') || s[j] == '.' || s[j] == ' ',
    ensures
        span_of(s) == duration(s),
{
    assert(has_one_number(s)) by {
        assert forall|i: int, j: int, k: int|
            0 <= i < j < k < s.len() && is_digit(#[trigger] s[i]) && in_class(#[trigger] s[j], CharClass::NoNumber)
                implies !is_digit(#[trigger] s[k]) by {}
    }
}

}
