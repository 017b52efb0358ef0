//! What holds of texts: case, order, and taking them apart and together.

use vstd::prelude::*;
use vstd::relations::sorted_by;
use crate::fields::{is_header_name, token_char};
use crate::numbers::{all_digits, as_i64, decimal, is_digit, law_decimal_reads_back, value_of};
use crate::range_laws::is_number;
use crate::text::{
    in_class, join, lemma_prefix_len, lemma_text_order, lemma_trim_end, lemma_trim_start, lower, prefix_len, sorted,
    split, starts_with, text_le, text_order, trim, trim_start, upper, CharClass,
};

verus! {

/// Changing the case of a text changes its ASCII letters, each by itself, and
/// nothing else.
pub proof fn law_case_changes_letters_only(s: Seq<char>, i: int)
    requires
        0 <= i < s.len(),
    ensures
        lower(s).len() == s.len(),
        upper(s).len() == s.len(),
        'A' <= s[i] && s[i] <= 'Z' ==> lower(s)[i] as int == s[i] as int + 32,
        !('A' <= s[i] && s[i] <= 'Z') ==> lower(s)[i] == s[i],
        'a' <= s[i] && s[i] <= 'z' ==> upper(s)[i] as int == s[i] as int - 32,
        !('a' <= s[i] && s[i] <= 'z') ==> upper(s)[i] == s[i],
{
}

/// A text begins with another one just where it has its characters in front.
pub proof fn law_beginnings(s: Seq<char>, p: Seq<char>)
    ensures
        starts_with(s, p) <==> p.len() <= s.len() && forall|i: int| 0 <= i < p.len() ==> #[trigger] p[i] == s[i],
        starts_with(p + s, p),
{
    if p.len() <= s.len() {
        if forall|i: int| 0 <= i < p.len() ==> #[trigger] p[i] == s[i] {
            assert(s.take(p.len() as int) =~= p);
        }
        if starts_with(s, p) {
            assert forall|i: int| 0 <= i < p.len() implies #[trigger] p[i] == s[i] by {
                assert(s.take(p.len() as int)[i] == s[i]);
            }
        }
    }
    assert((p + s).take(p.len() as int) =~= p);
}

/// Splitting a text at a character loses nothing: with the character between
/// them the pieces are the text again, and none of them has the character.
pub proof fn law_pieces_make_the_text(s: Seq<char>, c: char)
    ensures
        join(split(s, CharClass::Is(c)), c) == s,
        split(s, CharClass::Is(c)).len() > 0,
        forall|i: int| 0 <= i < split(s, CharClass::Is(c)).len() ==> !(#[trigger] split(s, CharClass::Is(c))[i]).contains(c),
    decreases s.len(),
{
    let class = CharClass::Is(c);
    lemma_prefix_len(s, class);
    let n = prefix_len(s, class) as int;
    if n >= s.len() {
        assert(split(s, class) =~= seq![s]);
        assert(!s.contains(c)) by {
            if s.contains(c) {
                let i = choose|i: int| 0 <= i < s.len() && s[i] == c;
                assert(in_class(s[i], class));
            }
        }
    } else {
        let (head, rest) = (s.take(n), s.skip(n + 1));
        law_pieces_make_the_text(rest, c);
        let tail = split(rest, class);
        lemma_join_front(head, tail, c);
        assert(s =~= head.push(c) + rest);
        assert(!head.contains(c)) by {
            if head.contains(c) {
                let i = choose|i: int| 0 <= i < head.len() && head[i] == c;
                assert(in_class(s[i], class));
            }
        }
        let all = split(s, class);
        assert(all =~= seq![head] + tail);
        assert forall|i: int| 0 <= i < all.len() implies !(#[trigger] all[i]).contains(c) by {
            if i > 0 {
                assert(all[i] == tail[i - 1]);
            }
        }
    }
}

proof fn lemma_join_front(head: Seq<char>, tail: Seq<Seq<char>>, c: char)
    requires
        tail.len() > 0,
    ensures
        join(seq![head] + tail, c) == head.push(c) + join(tail, c),
    decreases tail.len(),
{
    let all = seq![head] + tail;
    if tail.len() == 1 {
        assert(all.drop_last() =~= seq![head]);
        assert(join(seq![head], c) == head);
        assert(join(all, c) =~= head.push(c) + tail[0]);
    } else {
        assert(all.drop_last() =~= seq![head] + tail.drop_last());
        lemma_join_front(head, tail.drop_last(), c);
        assert(join(all, c) =~= head.push(c) + join(tail, c));
    }
}

/// Trimming takes characters of the class off both ends, all of them, and
/// leaves what is between.
pub proof fn law_trimming_takes_the_ends_off(s: Seq<char>, class: CharClass)
    ensures
        exists|k: int| #[trigger] is_middle(trim(s, class), s, k, class),
        trim(s, class).len() > 0 ==> !in_class(trim(s, class)[0], class) && !in_class(trim(s, class).last(), class),
{
    let opened = trim_start(s, class);
    lemma_trim_start(s, class);
    lemma_trim_end(opened, class);
    let t = trim(s, class);
    let k = s.len() - opened.len();
    assert(t =~= s.subrange(k, k + t.len()));
    assert forall|i: int| 0 <= i < s.len() && !(k <= i < k + t.len()) implies in_class(#[trigger] s[i], class) by {
        if i >= k {
            assert(opened[i - k] == s[i]);
        }
    }
    assert(is_middle(t, s, k, class));
    if t.len() > 0 {
        assert(t[0] == opened[0]);
    }
}

/// Whether a text is what stands in another one behind so many characters, with
/// nothing around it but characters of a class.
pub open spec fn is_middle(t: Seq<char>, s: Seq<char>, k: int, class: CharClass) -> bool {
    &&& 0 <= k <= k + t.len() <= s.len()
    &&& t == s.subrange(k, k + t.len())
    &&& forall|i: int| 0 <= i < s.len() && !(k <= i < k + t.len()) ==> in_class(#[trigger] s[i], class)
}

/// The classes of characters that texts are split at and trimmed of.
pub proof fn law_classes_of_characters(c: char, x: char)
    ensures
        in_class(c, CharClass::Is(x)) <==> c == x,
        in_class(c, CharClass::Blank) <==> c == ' ' || c == '\t',
        (c as u32) < 128 ==> (in_class(c, CharClass::WhiteSpace) <==> c == ' ' || 9 <= c as u32 <= 13),
        in_class(c, CharClass::NoNumber) <==> !in_class(c, CharClass::WhiteSpace) && c != '.' && !('0' <= c && c
            <= '9'),
{
}

/// Texts are ordered by the first character in which they differ, and a text
/// that another one begins with comes first; sorting puts the same texts into
/// that order.
pub proof fn law_sorting(list: Seq<Seq<char>>, p: Seq<char>, a: char, x: Seq<char>, b: char, y: Seq<char>)
    ensures
        sorted(list).to_multiset() == list.to_multiset(),
        sorted_by(sorted(list), text_order()),
        a < b ==> text_le(p + seq![a] + x, p + seq![b] + y) && !text_le(p + seq![b] + y, p + seq![a] + x),
        text_le(p, p + x),
        x.len() > 0 ==> !text_le(p + x, p),
{
    lemma_text_order();
    list.lemma_sort_by_ensures(text_order());
    lemma_order(p, a, x, b, y);
}

proof fn lemma_order(p: Seq<char>, a: char, x: Seq<char>, b: char, y: Seq<char>)
    ensures
        a < b ==> text_le(p + seq![a] + x, p + seq![b] + y) && !text_le(p + seq![b] + y, p + seq![a] + x),
        text_le(p, p + x),
        x.len() > 0 ==> !text_le(p + x, p),
    decreases p.len(),
{
    let (s, t, u) = (p + seq![a] + x, p + seq![b] + y, p + x);
    if p.len() > 0 {
        let q = p.drop_first();
        lemma_order(q, a, x, b, y);
        assert(s.drop_first() =~= q + seq![a] + x);
        assert(t.drop_first() =~= q + seq![b] + y);
        assert(u.drop_first() =~= q + x);
        assert(s[0] == p[0] && t[0] == p[0] && u[0] == p[0]);
    } else {
        assert(s[0] == a && t[0] == b);
    }
}

/// A number in decimal has digits only, without zeros in front, and the digits
/// denote it.
pub proof fn law_numbers_are_written_in_decimal(n: nat)
    ensures
        decimal(n).len() > 0,
        forall|i: int| 0 <= i < decimal(n).len() ==> '0' <= #[trigger] decimal(n)[i] && decimal(n)[i] <= '9',
        value_of(decimal(n)) == n,
        n > 0 ==> decimal(n)[0] != '0',
        decimal(0) == seq!['0'],
{
    law_decimal_reads_back(n);
    assert forall|i: int| 0 <= i < decimal(n).len() implies '0' <= #[trigger] decimal(n)[i] && decimal(n)[i] <= '9' by {
        assert(is_digit(decimal(n)[i]));
    }
    lemma_no_zero_in_front(n);
    assert(decimal(0) =~= seq!['0']);
}

proof fn lemma_no_zero_in_front(n: nat)
    ensures
        decimal(n).len() > 0,
        n > 0 ==> decimal(n)[0] != '0',
    decreases n,
{
    if n >= 10 {
        lemma_no_zero_in_front(n / 10);
        assert(decimal(n)[0] == decimal(n / 10)[0]);
    }
}

/// Whether a character delimits the parts of a header.
pub open spec fn is_delimiter(c: char) -> bool {
    ||| c == '(' || c == ')' || c == ',' || c == '/' || c == ':' || c == ';'
    ||| c == '<' || c == '=' || c == '>' || c == '?' || c == '@' || c == '"'
    ||| c == '[' || c == '\\' || c == ']' || c == '{' || c == '}'
}

/// The name of a header is made of visible ASCII characters that are no
/// delimiters, at least one of them and at most 65535.
pub proof fn law_header_names_have_no_delimiters(s: Seq<char>)
    ensures
        is_header_name(s) <==> 1 <= s.len() <= 65535 && forall|i: int|
            0 <= i < s.len() ==> '!' <= #[trigger] s[i] && s[i] <= '~' && !is_delimiter(s[i]),
{
    if is_header_name(s) {
        assert forall|i: int| 0 <= i < s.len() implies '!' <= #[trigger] s[i] && s[i] <= '~' && !is_delimiter(s[i]) by {
            assert(token_char(s[i]));
        }
    }
    if forall|i: int| 0 <= i < s.len() ==> '!' <= #[trigger] s[i] && s[i] <= '~' && !is_delimiter(s[i]) {
        assert forall|i: int| 0 <= i < s.len() implies token_char(#[trigger] s[i]) by {
            assert('!' <= s[i] && s[i] <= '~' && !is_delimiter(s[i]));
            let n = s[i] as u32;
            assert(33 <= n <= 126);
        }
    }
}

/// Digits are a number, with a plus in front the same one, and with a minus in
/// front its opposite, wherever it fits in 64 bits; nothing else is a number.
pub proof fn law_signs_are_read(digits: Seq<char>, other: Seq<char>)
    requires
        is_number(digits),
    ensures
        as_i64(digits) == (if value_of(digits) <= i64::MAX {
            Some(value_of(digits) as i64)
        } else {
            None
        }),
        as_i64(seq!['+'] + digits) == as_i64(digits),
        as_i64(seq!['-'] + digits) == (if -value_of(digits) >= i64::MIN {
            Some((-value_of(digits)) as i64)
        } else {
            None
        }),
        as_i64(other) is Some ==> is_number(other) || (other.len() > 0 && (other[0] == '+' || other[0] == '-')
            && is_number(other.skip(1))),
{
    let (plus, minus) = (seq!['+'] + digits, seq!['-'] + digits);
    assert forall|i: int| 0 <= i < digits.len() implies is_digit(#[trigger] digits[i]) by {}
    assert(all_digits(digits));
    assert(plus.skip(1) =~= digits);
    assert(minus.skip(1) =~= digits);
    assert(is_digit(digits[0]));
    if as_i64(other) is Some {
        let body = if other[0] == '+' || other[0] == '-' {
            other.skip(1)
        } else {
            other
        };
        assert(all_digits(body));
        assert forall|i: int| 0 <= i < body.len() implies '0' <= #[trigger] body[i] && body[i] <= '9' by {
            assert(is_digit(body[i]));
        }
    }
}

}
