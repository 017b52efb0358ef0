//! What `Vary` is for: which responses are not stored, and which requests
//! share an entry.

use vstd::prelude::*;
use vstd::utf8::encode_utf8;
use crate::fields::{
    chars, combined, is_header_name, is_plain, is_text, lemma_combined_lists_all, lemma_combined_step,
    lemma_plain_text, plain_values, token_char, values, Fields,
};
use crate::keys::{
    dimension, dimensions, header_text, keyed_names, uncacheable, variant_key, varies_on_everything, vary_names,
    vary_text,
};
use crate::proxy::storing;
use crate::request_laws::{lemma_no_line, lemma_one_line};
use crate::text::{
    in_class, join, lemma_filter_of_sum, lemma_members_of_both, lemma_single_piece, lemma_split_at_separator,
    lemma_text_order, list_members, lower, sorted, text_le, text_order, trim, trim_start, CharClass,
};

verus! {

/// Whether a text is made of spaces and tabs.
pub open spec fn is_blank(s: Seq<char>) -> bool {
    forall|i: int| 0 <= i < s.len() ==> #[trigger] s[i] == ' ' || s[i] == '\t'
}

/// Whether a text is a single name: it has no comma, and neither begins nor
/// ends with a space or a tab.
pub open spec fn is_one_name(s: Seq<char>) -> bool {
    &&& s.len() > 0
    &&& forall|i: int| 0 <= i < s.len() ==> #[trigger] s[i] != ','
    &&& s[0] != ' ' && s[0] != '\t'
    &&& s.last() != ' ' && s.last() != '\t'
}

/// Trimming takes the blanks off both ends.
pub(crate) proof fn lemma_trim_padded(pre: Seq<char>, s: Seq<char>, post: Seq<char>)
    requires
        is_blank(pre),
        is_blank(post),
        is_one_name(s),
    ensures
        trim(pre + s + post, CharClass::Blank) == s,
    decreases pre.len() + post.len(),
{
    let class = CharClass::Blank;
    let all = pre + s + post;
    if pre.len() > 0 {
        assert(all[0] == pre[0]);
        assert(in_class(all[0], class));
        let less = pre.drop_first();
        assert(all.drop_first() =~= less + s + post);
        assert forall|i: int| 0 <= i < less.len() implies #[trigger] less[i] == ' ' || less[i] == '\t' by {
            assert(less[i] == pre[i + 1]);
        }
        lemma_trim_padded(less, s, post);
    } else {
        assert(all =~= s + post);
        assert(all[0] == s[0]);
        assert(trim_start(all, class) == all);
        if post.len() > 0 {
            assert(all.last() == post[post.len() - 1]);
            let less = post.drop_last();
            assert(all.drop_last() =~= pre + s + less);
            assert forall|i: int| 0 <= i < less.len() implies #[trigger] less[i] == ' ' || less[i] == '\t' by {
                assert(less[i] == post[i]);
            }
            lemma_trim_padded(pre, s, less);
            assert((pre + s + less)[0] == s[0]);
        } else {
            assert(all =~= s);
        }
    }
}

/// The names that `Vary` lists stand between its commas, without the blanks
/// around them, and their case does not matter. `Authorization` is listed like
/// any other, but tells no variants apart.
pub proof fn law_vary_lists_names(pre: Seq<char>, name: Seq<char>, post: Seq<char>, rest: Seq<char>)
    requires
        is_blank(pre),
        is_blank(post),
        is_one_name(name),
    ensures
        vary_names(pre + name + post) == seq![lower(name)],
        vary_names(pre + name + post + seq![','] + rest) == seq![lower(name)] + vary_names(rest),
        keyed_names(pre + name + post + seq![','] + rest) == (if lower(name) == "authorization"@ {
            keyed_names(rest)
        } else {
            seq![lower(name)] + keyed_names(rest)
        }),
        keyed_names(pre + name + post) == (if lower(name) == "authorization"@ {
            seq![]
        } else {
            seq![lower(name)]
        }),
{
    let s = pre + name + post;
    let class = CharClass::Is(',');
    assert forall|i: int| 0 <= i < s.len() implies !in_class(#[trigger] s[i], class) by {
        if i < pre.len() {
            assert(s[i] == pre[i]);
        } else if i < pre.len() + name.len() {
            assert(s[i] == name[i - pre.len()]);
        } else {
            assert(s[i] == post[i - pre.len() - name.len()]);
        }
    }
    lemma_single_piece(s, class);
    lemma_trim_padded(pre, name, post);
    assert(list_members(s) =~= seq![name]);
    assert(vary_names(s) =~= seq![lower(name)]);
    let all = s + seq![','] + rest;
    assert(all =~= s.push(',') + rest);
    lemma_split_at_separator(s, ',', rest, class);
    assert(list_members(all) =~= list_members(s) + list_members(rest));
    assert(vary_names(all) =~= vary_names(s) + vary_names(rest));
    let keyed = |n: Seq<char>| n != "authorization"@;
    lemma_filter_of_sum(vary_names(s), vary_names(rest), keyed);
    lemma_filter_of_one(lower(name));
    assert(keyed_names(all) =~= keyed_names(s) + keyed_names(rest));
}

proof fn lemma_filter_of_one(n: Seq<char>)
    ensures
        seq![n].filter(|n: Seq<char>| n != "authorization"@) == (if n == "authorization"@ {
            seq![]
        } else {
            seq![n]
        }),
{
    reveal(Seq::filter);
    let keyed = |n: Seq<char>| n != "authorization"@;
    let none: Seq<Seq<char>> = seq![];
    assert(none.filter(keyed) =~= none);
    assert(seq![n].drop_last() =~= none);
    assert(seq![n].last() == n);
    assert(seq![n].filter(keyed) =~= (if n == "authorization"@ {
        none
    } else {
        none.push(n)
    }));
    assert(none.push(n) =~= seq![n]);
}

/// Whether a line of `Vary` forbids storing: it is the asterisk, or lists
/// `Authorization` in whatever case.
pub open spec fn forbids_storing(line: Seq<u8>) -> bool {
    is_text(line) && (trim(chars(line), CharClass::Blank) == seq!['*'] || vary_names(chars(line)).contains(
        "authorization"@,
    ))
}

proof fn lemma_members_come_from_lines(lines: Seq<Seq<u8>>, member: Seq<char>)
    requires
        list_members(combined(lines)).contains(member),
        member.len() > 0,
    ensures
        exists|i: int|
            0 <= i < lines.len() && is_text(#[trigger] lines[i]) && list_members(chars(lines[i])).contains(member),
    decreases lines.len(),
{
    if lines.len() == 0 {
        lemma_no_line();
        assert(lines =~= seq![]);
        let none = combined(lines);
        lemma_single_piece(none, CharClass::Is(','));
        let m = list_members(none);
        let k = choose|k: int| 0 <= k < m.len() && m[k] == member;
        assert(trim(none, CharClass::Blank) == none);
    } else {
        let before = lines.drop_last();
        let line = lines.last();
        lemma_combined_step(before, line);
        assert(before.push(line) =~= lines);
        let (a, b) = (list_members(combined(before)), list_members(chars(line)));
        let all = list_members(combined(lines));
        let k = choose|k: int| 0 <= k < all.len() && all[k] == member;
        if is_text(line) && plain_values(before).len() > 0 {
            lemma_members_of_both(combined(before), chars(line));
            assert(all == a + b);
            if k < a.len() {
                assert(a[k] == member);
            } else {
                assert(b[k - a.len()] == member);
            }
        }
        if is_text(line) && b.contains(member) {
            assert(lines[lines.len() - 1] == line);
        } else {
            assert(a.contains(member));
            lemma_members_come_from_lines(before, member);
            let i = choose|i: int|
                0 <= i < before.len() && is_text(#[trigger] before[i]) && list_members(chars(before[i])).contains(
                    member,
                );
            assert(lines[i] == before[i]);
        }
    }
}

/// A response is kept out of the cache just where a line of its `Vary` is the
/// asterisk or lists `Authorization`.
pub proof fn law_vary_decides_what_is_stored(
    resp: Fields,
    base: Seq<char>,
    cache_key: Seq<char>,
    client: Fields,
    size: u64,
    max_size: u64,
)
    ensures
        uncacheable(resp) <==> resp.contains_key("vary"@) && exists|i: int|
            0 <= i < resp["vary"@].len() && forbids_storing(#[trigger] resp["vary"@][i]),
        storing(base, cache_key, client, resp, size, max_size) is VaryPrevents <==> uncacheable(resp),
        storing(base, cache_key, client, resp, size, max_size) is TooLarge <==> !uncacheable(resp) && size > max_size,
{
    let lines = values(resp, "vary"@);
    reveal_strlit("*");
    reveal_strlit("authorization");
    assert("*"@ =~= seq!['*']);
    if uncacheable(resp) && !varies_on_everything(resp) {
        let names = vary_names(combined(lines));
        let k = choose|k: int| 0 <= k < names.len() && names[k] == "authorization"@;
        let member = list_members(combined(lines))[k];
        assert(list_members(combined(lines)).contains(member));
        assert(lower(member).len() == member.len());
        lemma_members_come_from_lines(lines, member);
        let i = choose|i: int|
            0 <= i < lines.len() && is_text(#[trigger] lines[i]) && list_members(chars(lines[i])).contains(member);
        let own = list_members(chars(lines[i]));
        let j = choose|j: int| 0 <= j < own.len() && own[j] == member;
        assert(vary_names(chars(lines[i]))[j] == "authorization"@);
        assert(forbids_storing(resp["vary"@][i]));
    }
    if varies_on_everything(resp) {
        let i = choose|i: int|
            0 <= i < lines.len() && is_text(#[trigger] lines[i]) && trim(chars(lines[i]), CharClass::Blank) == "*"@;
        assert(forbids_storing(resp["vary"@][i]));
    }
    if resp.contains_key("vary"@) && exists|i: int|
        0 <= i < resp["vary"@].len() && forbids_storing(#[trigger] resp["vary"@][i]) {
        let i = choose|i: int| 0 <= i < resp["vary"@].len() && forbids_storing(#[trigger] resp["vary"@][i]);
        if vary_names(chars(lines[i])).contains("authorization"@) {
            let own = vary_names(chars(lines[i]));
            let j = choose|j: int| 0 <= j < own.len() && own[j] == "authorization"@;
            let member = list_members(chars(lines[i]))[j];
            assert(list_members(chars(lines[i])).contains(member));
            lemma_combined_lists_all(lines, i, member);
            let all = list_members(combined(lines));
            let k = choose|k: int| 0 <= k < all.len() && all[k] == member;
            assert(vary_names(combined(lines))[k] == "authorization"@);
        } else {
            assert(is_text(lines[i]));
        }
    }
}

/// What a request's header says: nothing where it is missing, the text of its
/// only line, and with one more line that line's text behind the others. What
/// is not plain text says nothing.
pub proof fn law_header_lines_say_all(req: Fields, name: Seq<char>, lines: Seq<Seq<u8>>, line: Seq<u8>)
    requires
        is_header_name(name),
    ensures
        !req.contains_key(name) ==> header_text(req, name) == Seq::<char>::empty(),
        header_text(req.insert(name, seq![line]), name) == (if is_text(line) { chars(line) } else { seq![] }),
        header_text(req.insert(name, lines.push(line)), name) == (if !is_text(line) {
            header_text(req.insert(name, lines), name)
        } else if exists|i: int| 0 <= i < lines.len() && is_text(#[trigger] lines[i]) {
            header_text(req.insert(name, lines), name) + seq![',', ' '] + chars(line)
        } else {
            chars(line)
        }),
{
    lemma_no_line();
    lemma_one_line(line);
    lemma_combined_step(lines, line);
    reveal_strlit(", ");
    assert(seq![',', ' '] =~= ", "@);
    lemma_plain_count(lines);
    assert(header_text(req.insert(name, seq![line]), name) =~= (if is_text(line) { chars(line) } else { seq![] }));
}

proof fn lemma_plain_count(lines: Seq<Seq<u8>>)
    ensures
        plain_values(lines).len() > 0 <==> exists|i: int| 0 <= i < lines.len() && is_text(#[trigger] lines[i]),
    decreases lines.len(),
{
    reveal(Seq::filter);
    if lines.len() > 0 {
        let before = lines.drop_last();
        lemma_plain_count(before);
        if plain_values(before).len() > 0 {
            let i = choose|i: int| 0 <= i < before.len() && is_text(#[trigger] before[i]);
            assert(is_text(lines[i]));
        }
        if is_text(lines.last()) {
            assert(is_text(lines[lines.len() - 1]));
        }
        if exists|i: int| 0 <= i < lines.len() && is_text(#[trigger] lines[i]) {
            let i = choose|i: int| 0 <= i < lines.len() && is_text(#[trigger] lines[i]);
            if i < before.len() {
                assert(is_text(before[i]));
            }
        }
    }
}

/// Whether a text is a header name of letters, digits and hyphens.
pub open spec fn is_simple_name(s: Seq<char>) -> bool {
    &&& 1 <= s.len() <= 1000
    &&& forall|i: int|
        0 <= i < s.len() ==> {
            ||| 'a' <= #[trigger] s[i] && s[i] <= 'z'
            ||| 'A' <= s[i] && s[i] <= 'Z'
            ||| '0' <= s[i] && s[i] <= '9'
            ||| s[i] == '-'
        }
}

proof fn lemma_simple_name(s: Seq<char>)
    requires
        is_simple_name(s),
    ensures
        is_one_name(s),
        is_plain(s),
        is_header_name(lower(s)),
        trim(s, CharClass::Blank) == s,
        s[0] != '*',
{
    assert forall|i: int| 0 <= i < s.len() implies token_char(#[trigger] lower(s)[i]) by {
        let c = s[i];
        if 'A' <= c && c <= 'Z' {
            let d = lower(s)[i];
            assert(d as int == c as int + 32);
        }
    }
    assert(s.last() == s[s.len() - 1]);
    let none: Seq<char> = seq![];
    lemma_trim_padded(none, s, none);
    assert(none + s + none =~= s);
}

/// The key of a variant by a single header: the base key, and in brackets the
/// name of the header in lower case, an equals sign and what the request's
/// header says. A response without `Vary` has the base key.
pub proof fn law_variants_are_written_out(base: Seq<char>, req: Fields, resp: Fields, name: Seq<char>)
    requires
        is_simple_name(name),
        lower(name) != "authorization"@,
    ensures
        !resp.contains_key("vary"@) ==> variant_key(base, req, resp) == base,
        resp.contains_key("vary"@) && resp["vary"@] == seq![encode_utf8(name)] ==> variant_key(base, req, resp)
            == base + seq!['['] + lower(name) + seq!['='] + header_text(req, lower(name)) + seq![']'],
{
    if resp.contains_key("vary"@) && resp["vary"@] == seq![encode_utf8(name)] {
        let line = encode_utf8(name);
        lemma_simple_name(name);
        lemma_plain_text(name);
        lemma_one_line(line);
        reveal_strlit("*");
        assert("*"@[0] == '*');
        assert(vary_text(resp) == Some(name));
        assert(!varies_on_everything(resp)) by {
            if varies_on_everything(resp) {
                let lines = values(resp, "vary"@);
                let i = choose|i: int|
                    0 <= i < lines.len() && is_text(#[trigger] lines[i]) && trim(chars(lines[i]), CharClass::Blank)
                        == "*"@;
                assert(lines[i] == line);
            }
        }
        let none: Seq<char> = seq![];
        law_vary_lists_names(none, name, none, none);
        assert(none + name + none =~= name);
        let names = keyed_names(name);
        assert(names =~= seq![lower(name)]);
        let d = dimensions(req, name);
        assert(d =~= seq![dimension(req, lower(name))]);
        lemma_sorted_of_one(d);
        assert(join(d, ',') =~= d[0]);
        assert(variant_key(base, req, resp) =~= base + seq!['['] + lower(name) + seq!['='] + header_text(
            req,
            lower(name),
        ) + seq![']']);
    }
}

proof fn lemma_sorted_of_one(list: Seq<Seq<char>>)
    requires
        list.len() == 1,
    ensures
        sorted(list) == list,
{
    broadcast use vstd::seq_lib::group_to_multiset_ensures;

    lemma_text_order();
    list.lemma_sort_by_ensures(text_order());
    let s = sorted(list);
    assert(s.len() == s.to_multiset().len() && list.len() == list.to_multiset().len());
    assert(s.contains(s[0]));
    assert(s.to_multiset().count(s[0]) > 0);
    assert(list.to_multiset().count(s[0]) > 0);
    assert(list.contains(s[0]));
    assert(s =~= list);
}

/// The key of a variant by two headers: both stand in it with what the
/// request's headers say, in the order of their texts, and a comma between
/// them.
pub proof fn law_variants_by_two_headers(base: Seq<char>, req: Fields, resp: Fields, a: Seq<char>, b: Seq<char>)
    requires
        is_simple_name(a),
        is_simple_name(b),
        lower(a) != "authorization"@,
        lower(b) != "authorization"@,
        resp.contains_key("vary"@),
        resp["vary"@] == seq![encode_utf8(a + seq![','] + b)],
    ensures
        ({
            let x = lower(a) + seq!['='] + header_text(req, lower(a));
            let y = lower(b) + seq!['='] + header_text(req, lower(b));
            variant_key(base, req, resp) == base + seq!['['] + (if text_le(x, y) {
                x + seq![','] + y
            } else {
                y + seq![','] + x
            }) + seq![']']
        }),
{
    let v = a + seq![','] + b;
    let line = encode_utf8(v);
    lemma_simple_name(a);
    lemma_simple_name(b);
    assert(is_plain(v));
    lemma_plain_text(v);
    lemma_one_line(line);
    assert(vary_text(resp) == Some(v));
    let none: Seq<char> = seq![];
    law_vary_lists_names(none, a, none, b);
    law_vary_lists_names(none, b, none, none);
    assert(none + a + none =~= a);
    assert(none + b + none =~= b);
    assert(v[0] == a[0] && v.last() == b.last());
    assert(trim(v, CharClass::Blank) == v);
    reveal_strlit("*");
    assert("*"@.len() == 1 && v.len() >= 3);
    assert(!varies_on_everything(resp)) by {
        if varies_on_everything(resp) {
            let lines = values(resp, "vary"@);
            let i = choose|i: int|
                0 <= i < lines.len() && is_text(#[trigger] lines[i]) && trim(chars(lines[i]), CharClass::Blank) == "*"@;
            assert(lines[i] == line);
        }
    }
    assert(keyed_names(v) =~= seq![lower(a), lower(b)]);
    let (x, y) = (dimension(req, lower(a)), dimension(req, lower(b)));
    assert(x =~= lower(a) + seq!['='] + header_text(req, lower(a)));
    assert(y =~= lower(b) + seq!['='] + header_text(req, lower(b)));
    let d = dimensions(req, v);
    assert(d =~= seq![x, y]);
    lemma_sorted_of_two(x, y);
    let s = sorted(d);
    assert(s.drop_last() =~= seq![s[0]]);
    assert(join(seq![s[0]], ',') == s[0]);
    assert(join(s, ',') =~= s[0].push(',') + s[1]);
    assert(variant_key(base, req, resp) =~= base + seq!['['] + (s[0] + seq![','] + s[1]) + seq![']']);
}

proof fn lemma_sorted_of_two(x: Seq<char>, y: Seq<char>)
    ensures
        sorted(seq![x, y]) == (if text_le(x, y) {
            seq![x, y]
        } else {
            seq![y, x]
        }),
{
    broadcast use vstd::seq_lib::group_to_multiset_ensures;

    lemma_text_order();
    let list = seq![x, y];
    let other = seq![y, x];
    list.lemma_sort_by_ensures(text_order());
    let r = text_order();
    assert(r(x, y) || r(y, x));
    let wanted = if text_le(x, y) {
        list
    } else {
        other
    };
    assert(list =~= Seq::<Seq<char>>::empty().push(x).push(y));
    assert(other =~= Seq::<Seq<char>>::empty().push(y).push(x));
    assert(list.to_multiset() =~= other.to_multiset());
    assert(vstd::relations::sorted_by(wanted, r)) by {
        assert(r(x, x) && r(y, y));
    }
    vstd::seq_lib::lemma_sorted_unique(sorted(list), wanted, r);
}

}
