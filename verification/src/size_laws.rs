//! What sizes are for: how many bytes a text such as `512MiB` stands for.

use vstd::prelude::*;
use crate::numbers::{all_digits, as_u64, is_digit, value_of};
use crate::range_laws::is_number;
use crate::size::{
    alphabetic, is_decimal, letters_at, size_meaning, unit_bytes, unsigned_part, MAX_EXACT, SizeFault, SizeMeaning,
};
use crate::text::{in_class, lemma_prefix_len, prefix_len, trim, trim_start, upper, CharClass};

verus! {

/// Whether a text is made of ASCII letters, at least one.
pub open spec fn is_word(s: Seq<char>) -> bool {
    s.len() > 0 && forall|i: int|
        0 <= i < s.len() ==> ('a' <= #[trigger] s[i] && s[i] <= 'z') || ('A' <= s[i] && s[i] <= 'Z')
}

/// Whether a text is made of spaces.
pub open spec fn is_gap(s: Seq<char>) -> bool {
    forall|i: int| 0 <= i < s.len() ==> #[trigger] s[i] == ' '
}

/// A power of a number.
pub open spec fn power(b: nat, e: nat) -> nat
    decreases e,
{
    if e == 0 {
        1
    } else {
        b * power(b, (e - 1) as nat)
    }
}

/// The name of a unit in upper case: `B`, or one of `K`, `M`, `G` and `T`
/// before it, with an `I` between them for the powers of 1024.
pub open spec fn unit_name(step: nat, binary: bool) -> Seq<char> {
    let letter = if step == 1 {
        'K'
    } else if step == 2 {
        'M'
    } else if step == 3 {
        'G'
    } else {
        'T'
    };
    if step == 0 {
        seq!['B']
    } else if binary {
        seq![letter, 'I', 'B']
    } else {
        seq![letter, 'B']
    }
}

/// The bytes of a unit: powers of 1024 where there is an `I`, of 1000 where
/// there is none.
pub open spec fn unit_worth(step: nat, binary: bool) -> nat {
    power(if binary { 1024 } else { 1000 }, step)
}

proof fn lemma_unit(u: Seq<char>, step: nat, binary: bool)
    requires
        step <= 4,
        u == unit_name(step, binary),
    ensures
        unit_bytes(u) == Some(unit_worth(step, binary) as u64),
        1 <= unit_worth(step, binary) <= 1_099_511_627_776,
{
    reveal_strlit("B");
    reveal_strlit("KB");
    reveal_strlit("MB");
    reveal_strlit("GB");
    reveal_strlit("TB");
    reveal_strlit("KIB");
    reveal_strlit("MIB");
    reveal_strlit("GIB");
    reveal_strlit("TIB");
    assert("B"@ =~= seq!['B']);
    assert("KB"@ =~= seq!['K', 'B']);
    assert("MB"@ =~= seq!['M', 'B']);
    assert("GB"@ =~= seq!['G', 'B']);
    assert("TB"@ =~= seq!['T', 'B']);
    assert("KIB"@ =~= seq!['K', 'I', 'B']);
    assert("MIB"@ =~= seq!['M', 'I', 'B']);
    assert("GIB"@ =~= seq!['G', 'I', 'B']);
    assert("TIB"@ =~= seq!['T', 'I', 'B']);
    assert(unit_worth(0, binary) == 1 && unit_worth(1, false) == 1_000 && unit_worth(2, false) == 1_000_000
        && unit_worth(3, false) == 1_000_000_000 && unit_worth(4, false) == 1_000_000_000_000 && unit_worth(1, true)
        == 1_024 && unit_worth(2, true) == 1_048_576 && unit_worth(3, true) == 1_073_741_824 && unit_worth(4, true)
        == 1_099_511_627_776) by {
        reveal_with_fuel(power, 5);
    }
    assert(u.len() == 1 || u.len() == 2 || u.len() == 3);
    assert(u[0] == 'B' || u[0] == 'K' || u[0] == 'M' || u[0] == 'G' || u[0] == 'T');
    if step > 0 {
        assert(u[0] == unit_name(step, binary)[0]);
    }
    assert("KB"@[0] == 'K' && "MB"@[0] == 'M' && "GB"@[0] == 'G' && "KIB"@[0] == 'K' && "MIB"@[0] == 'M' && "GIB"@[0]
        == 'G');
    assert("B"@.len() == 1 && "KB"@.len() == 2 && "MB"@.len() == 2 && "GB"@.len() == 2 && "TB"@.len() == 2
        && "KIB"@.len() == 3 && "MIB"@.len() == 3 && "GIB"@.len() == 3 && "TIB"@.len() == 3);
}

/// A known unit is one of the nine.
proof fn lemma_known_units(u: Seq<char>)
    requires
        unit_bytes(u) is Some,
    ensures
        exists|step: nat, binary: bool| step <= 4 && u == #[trigger] unit_name(step, binary),
{
    reveal_strlit("B");
    reveal_strlit("KB");
    reveal_strlit("MB");
    reveal_strlit("GB");
    reveal_strlit("TB");
    reveal_strlit("KIB");
    reveal_strlit("MIB");
    reveal_strlit("GIB");
    reveal_strlit("TIB");
    assert("B"@ =~= unit_name(0, false));
    assert("KB"@ =~= unit_name(1, false));
    assert("MB"@ =~= unit_name(2, false));
    assert("GB"@ =~= unit_name(3, false));
    assert("TB"@ =~= unit_name(4, false));
    assert("KIB"@ =~= unit_name(1, true));
    assert("MIB"@ =~= unit_name(2, true));
    assert("GIB"@ =~= unit_name(3, true));
    assert("TIB"@ =~= unit_name(4, true));
}

proof fn lemma_trim_gap(front: Seq<char>, gap: Seq<char>)
    requires
        is_gap(gap),
        front.len() > 0,
        !in_class(front[0], CharClass::WhiteSpace),
        !in_class(front.last(), CharClass::WhiteSpace),
    ensures
        trim(front + gap, CharClass::WhiteSpace) == front,
    decreases gap.len(),
{
    let class = CharClass::WhiteSpace;
    let all = front + gap;
    assert(all[0] == front[0]);
    assert(trim_start(all, class) == all);
    if gap.len() > 0 {
        let less = gap.drop_last();
        assert forall|i: int| 0 <= i < less.len() implies #[trigger] less[i] == ' ' by {
            assert(less[i] == gap[i]);
        }
        lemma_trim_gap(front, less);
        assert(all.last() == gap[gap.len() - 1]);
        assert(all.drop_last() =~= front + less);
        assert((front + less)[0] == front[0]);
        assert(trim_start(front + less, class) == front + less);
    } else {
        assert(all =~= front);
    }
}

proof fn lemma_letters_at(s: Seq<char>, n: nat)
    requires
        n < s.len(),
        alphabetic(s[n as int]),
        forall|i: int| 0 <= i < n ==> !alphabetic(#[trigger] s[i]),
    ensures
        letters_at(s) == n,
    decreases n,
{
    if n > 0 {
        let rest = s.drop_first();
        assert(!alphabetic(s[0]));
        assert forall|i: int| 0 <= i < n - 1 implies !alphabetic(#[trigger] rest[i]) by {
            assert(rest[i] == s[i + 1]);
        }
        assert(rest[n - 1] == s[n as int]);
        lemma_letters_at(rest, (n - 1) as nat);
    }
}

/// Whether a text may be a number: digits, points and signs.
pub open spec fn has_digits_and_points(s: Seq<char>) -> bool {
    s.len() > 0 && forall|i: int|
        0 <= i < s.len() ==> ('0' <= #[trigger] s[i] && s[i] <= '9') || s[i] == '.' || s[i] == '+' || s[i] == '-'
}

proof fn lemma_parts(number: Seq<char>, gap: Seq<char>, unit: Seq<char>)
    requires
        has_digits_and_points(number),
        is_gap(gap),
        is_word(unit),
    ensures
        ({
            let s = number + gap + unit;
            &&& trim(s, CharClass::WhiteSpace) == s
            &&& as_u64(s) is None
            &&& letters_at(s) == number.len() + gap.len()
            &&& trim(s.take((number.len() + gap.len()) as int), CharClass::WhiteSpace) == number
            &&& trim(s.skip((number.len() + gap.len()) as int), CharClass::WhiteSpace) == unit
        }),
{
    let class = CharClass::WhiteSpace;
    let s = number + gap + unit;
    let n = number.len() + gap.len();
    assert(s[0] == number[0] && s.last() == unit[unit.len() - 1]);
    assert(trim(s, class) == s);
    assert(s[n as int] == unit[0]);
    assert forall|i: int| 0 <= i < n implies !alphabetic(#[trigger] s[i]) by {
        if i < number.len() {
            assert(s[i] == number[i]);
        } else {
            assert(s[i] == gap[i - number.len()]);
        }
    }
    lemma_letters_at(s, n);
    assert(s.take(n as int) =~= number + gap);
    assert(s.skip(n as int) =~= unit);
    assert(number.last() == number[number.len() - 1]);
    lemma_trim_gap(number, gap);
    assert(unit.last() == unit[unit.len() - 1]);
    assert(trim(unit, class) == unit);
    assert(!is_digit(s[n as int]));
    if s[0] == '+' {
        assert(s.skip(1)[n - 1] == s[n as int]);
    }
}

/// Spaces around a size do not count.
pub proof fn law_spaces_around_sizes_do_not_count(before: Seq<char>, s: Seq<char>, behind: Seq<char>)
    requires
        is_gap(before),
        is_gap(behind),
        s.len() > 0,
        !in_class(s[0], CharClass::WhiteSpace),
        !in_class(s.last(), CharClass::WhiteSpace),
    ensures
        size_meaning(before + s + behind) == size_meaning(s),
    decreases before.len(),
{
    let class = CharClass::WhiteSpace;
    let all = before + s + behind;
    let none: Seq<char> = seq![];
    lemma_trim_gap(s, behind);
    lemma_trim_gap(s, none);
    assert(s + none =~= s);
    if before.len() > 0 {
        let less = before.drop_first();
        assert forall|i: int| 0 <= i < less.len() implies #[trigger] less[i] == ' ' by {
            assert(less[i] == before[i + 1]);
        }
        law_spaces_around_sizes_do_not_count(less, s, behind);
        assert(all[0] == before[0]);
        assert(all.drop_first() =~= less + s + behind);
        assert(trim(all, class) == trim(less + s + behind, class));
    } else {
        assert(all =~= s + behind);
    }
}

/// A sign in front of a whole number with a unit: a plus changes nothing of
/// what it stands for, and below zero there are no bytes.
pub proof fn law_signs_in_front_of_sizes(number: Seq<char>, gap: Seq<char>, unit: Seq<char>, step: nat, binary: bool)
    requires
        is_number(number),
        is_gap(gap),
        is_word(unit),
        step <= 4,
        upper(unit) == unit_name(step, binary),
    ensures
        size_meaning(seq!['-'] + number + gap + unit) == SizeMeaning::Bytes(0),
        value_of(number) * unit_worth(step, binary) <= MAX_EXACT ==> size_meaning(seq!['+'] + number + gap + unit)
            == size_meaning(number + gap + unit),
        value_of(number) <= u64::MAX ==> size_meaning(seq!['+'] + number) == size_meaning(number),
{
    let (plus, minus) = (seq!['+'] + number, seq!['-'] + number);
    lemma_signed(plus, number);
    lemma_signed(minus, number);
    lemma_parts(plus, gap, unit);
    lemma_parts(minus, gap, unit);
    lemma_unit(upper(unit), step, binary);
    law_units_multiply(number, gap, unit, step, binary);
    if value_of(number) <= u64::MAX {
        law_bare_numbers_are_bytes(number);
        assert(plus.last() == number[number.len() - 1]);
        assert(trim(plus, CharClass::WhiteSpace) == plus);
    }
}

proof fn lemma_signed(signed: Seq<char>, number: Seq<char>)
    requires
        is_number(number),
        signed == seq!['+'] + number || signed == seq!['-'] + number,
    ensures
        has_digits_and_points(signed),
        unsigned_part(signed) == number,
        signed.skip(1) == number,
        is_decimal(signed),
        all_digits(number),
{
    assert(signed.skip(1) =~= number);
    lemma_digits_are_decimal(number);
    assert forall|i: int| 0 <= i < signed.len() implies ('0' <= #[trigger] signed[i] && signed[i] <= '9') || signed[i]
        == '.' || signed[i] == '+' || signed[i] == '-' by {
        if i > 0 {
            assert(signed[i] == number[i - 1]);
        }
    }
}

/// A number with two points is none.
pub proof fn law_two_points_are_refused(
    a: Seq<char>,
    b: Seq<char>,
    c: Seq<char>,
    gap: Seq<char>,
    unit: Seq<char>,
)
    requires
        has_only_digits(a),
        has_only_digits(b),
        has_only_digits(c),
        is_gap(gap),
        is_word(unit),
    ensures
        ({
            let size = a + seq!['.'] + b + seq!['.'] + c + gap + unit;
            size_meaning(size) == SizeMeaning::Fault(SizeFault::InvalidNumber { size })
        }),
{
    let number = a + seq!['.'] + b + seq!['.'] + c;
    assert forall|i: int| 0 <= i < number.len() implies ('0' <= #[trigger] number[i] && number[i] <= '9') || number[i]
        == '.' by {
        if i < a.len() {
            assert(number[i] == a[i]);
        } else if a.len() < i < a.len() + 1 + b.len() {
            assert(number[i] == b[i - a.len() - 1]);
        } else if i > a.len() + 1 + b.len() {
            assert(number[i] == c[i - a.len() - b.len() - 2]);
        }
    }
    lemma_parts(number, gap, unit);
    assert(unsigned_part(number) == number);
    lemma_prefix_len(number, CharClass::Is('.'));
    let n = prefix_len(number, CharClass::Is('.')) as int;
    assert(number[a.len() as int] == '.');
    if n < a.len() {
        assert(number[n] == a[n]);
    }
    let rest = number.skip(n + 1);
    assert(n == a.len());
    assert(rest[b.len() as int] == '.');
    assert(!is_digit(rest[b.len() as int]));
}

/// Whether a text is made of digits, if of anything.
pub open spec fn has_only_digits(s: Seq<char>) -> bool {
    forall|i: int| 0 <= i < s.len() ==> '0' <= #[trigger] s[i] && s[i] <= '9'
}

/// A bare number is a number of bytes.
pub proof fn law_bare_numbers_are_bytes(number: Seq<char>)
    requires
        is_number(number),
        value_of(number) <= u64::MAX,
    ensures
        size_meaning(number) == SizeMeaning::Bytes(value_of(number) as u64),
{
    assert(number.last() == number[number.len() - 1]);
    assert(trim(number, CharClass::WhiteSpace) == number);
    assert(number[0] != '+');
    assert forall|i: int| 0 <= i < number.len() implies is_digit(#[trigger] number[i]) by {}
}

/// A number with a unit stands for that many times the bytes of the unit,
/// whatever the case of the unit and with or without spaces between them. The
/// product is exact as long as it stays within 2^53; beyond, it is left to
/// floating-point numbers.
pub proof fn law_units_multiply(number: Seq<char>, gap: Seq<char>, unit: Seq<char>, step: nat, binary: bool)
    requires
        is_number(number),
        is_gap(gap),
        is_word(unit),
        step <= 4,
        upper(unit) == unit_name(step, binary),
    ensures
        value_of(number) * unit_worth(step, binary) <= MAX_EXACT ==> size_meaning(number + gap + unit)
            == SizeMeaning::Bytes((value_of(number) * unit_worth(step, binary)) as u64),
        value_of(number) * unit_worth(step, binary) > MAX_EXACT ==> size_meaning(number + gap + unit) == (
        SizeMeaning::Scaled { number, unit: unit_worth(step, binary) as u64 }),
        MAX_EXACT == power(2, 53),
{
    lemma_parts(number, gap, unit);
    lemma_unit(upper(unit), step, binary);
    lemma_digits_are_decimal(number);
    assert(power(2, 53) == MAX_EXACT) by {
        reveal_with_fuel(power, 54);
    }
}

proof fn lemma_digits_are_decimal(number: Seq<char>)
    requires
        is_number(number),
    ensures
        is_decimal(number),
        unsigned_part(number) == number,
        all_digits(number),
        number[0] != '-',
        number[0] != '+',
{
    assert forall|i: int| 0 <= i < number.len() implies is_digit(#[trigger] number[i]) by {}
    lemma_prefix_len(number, CharClass::Is('.'));
    let n = prefix_len(number, CharClass::Is('.')) as int;
    if n < number.len() {
        assert(in_class(number[n], CharClass::Is('.')));
    }
}

/// A number with a point and a unit stands for a product that is left to
/// floating-point numbers: just that number times the bytes of the unit. The
/// digits may be missing before the point or behind it.
pub proof fn law_fractions_are_scaled(
    whole: Seq<char>,
    part: Seq<char>,
    gap: Seq<char>,
    unit: Seq<char>,
    step: nat,
    binary: bool,
)
    requires
        has_only_digits(whole),
        has_only_digits(part),
        whole.len() + part.len() > 0,
        is_gap(gap),
        is_word(unit),
        step <= 4,
        upper(unit) == unit_name(step, binary),
    ensures
        size_meaning(whole + seq!['.'] + part + gap + unit) == (SizeMeaning::Scaled {
            number: whole + seq!['.'] + part,
            unit: unit_worth(step, binary) as u64,
        }),
{
    let number = whole + seq!['.'] + part;
    assert forall|i: int| 0 <= i < number.len() implies ('0' <= #[trigger] number[i] && number[i] <= '9') || number[i]
        == '.' by {
        if i < whole.len() {
            assert(number[i] == whole[i]);
        } else if i > whole.len() {
            assert(number[i] == part[i - whole.len() - 1]);
        }
    }
    lemma_parts(number, gap, unit);
    lemma_unit(upper(unit), step, binary);
    assert(unsigned_part(number) == number);
    lemma_prefix_len(number, CharClass::Is('.'));
    let n = prefix_len(number, CharClass::Is('.')) as int;
    assert(number[whole.len() as int] == '.');
    if n < whole.len() {
        assert(number[n] == whole[n]);
    }
    assert(number.take(n) =~= whole);
    assert(number.skip(n + 1) =~= part);
    assert forall|i: int| 0 <= i < whole.len() implies is_digit(#[trigger] whole[i]) by {}
    assert forall|i: int| 0 <= i < part.len() implies is_digit(#[trigger] part[i]) by {}
    assert(!is_digit(number[n]));
}

/// A number with letters behind it that are no unit is refused, by the name of
/// what stands for the unit.
pub proof fn law_unknown_units_are_refused(number: Seq<char>, gap: Seq<char>, unit: Seq<char>)
    requires
        is_number(number),
        is_gap(gap),
        is_word(unit),
        forall|step: nat, binary: bool| step <= 4 ==> upper(unit) != #[trigger] unit_name(step, binary),
    ensures
        size_meaning(number + gap + unit) == SizeMeaning::Fault(
            SizeFault::UnknownUnit { unit: upper(unit), size: number + gap + unit },
        ),
{
    lemma_parts(number, gap, unit);
    lemma_digits_are_decimal(number);
    if unit_bytes(upper(unit)) is Some {
        lemma_known_units(upper(unit));
    }
}

/// A unit without a number, and text without letters that is no number, are
/// refused.
pub proof fn law_sizes_need_a_number(unit: Seq<char>)
    requires
        is_word(unit),
    ensures
        size_meaning(unit) == SizeMeaning::Fault(SizeFault::InvalidNumber { size: unit }),
        size_meaning(seq![]) == SizeMeaning::Fault(SizeFault::NoUnit { size: seq![] }),
{
    let none: Seq<char> = seq![];
    assert(unit.last() == unit[unit.len() - 1]);
    assert(trim(unit, CharClass::WhiteSpace) == unit);
    lemma_letters_at(unit, 0);
    assert(unit.take(0) =~= none);
    assert(trim(none, CharClass::WhiteSpace) == none);
    assert(!is_digit(unit[0]) && unit[0] != '+');
    assert(prefix_len(none, CharClass::Is('.')) == 0);
    assert(letters_at(none) == 0);
}

}
