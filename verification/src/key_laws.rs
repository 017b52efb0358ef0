//! What cache keys tell apart, and what they do not depend on.

use vstd::prelude::*;
use crate::fields::{is_header_name, token_char, Fields};
use crate::keys::{
    dimension, dimensions, header_text, keyed_names, variant_key, varies_on_everything, vary_names, vary_text,
};
use crate::text::{join, lemma_text_order, sorted, starts_with, text_order};

verus! {

// ---------------------------------------------------------------------------
// What a key does not depend on
// ---------------------------------------------------------------------------

proof fn lemma_keyed_names(vary: Seq<char>, i: int)
    requires
        0 <= i < keyed_names(vary).len(),
    ensures
        keyed_names(vary)[i] != "authorization"@,
        vary_names(vary).contains(keyed_names(vary)[i]),
{
    let keyed = |n: Seq<char>| n != "authorization"@;
    vary_names(vary).lemma_filter_pred(keyed, i);
    vary_names(vary).lemma_filter_contains_rev(keyed, keyed_names(vary)[i]);
}

/// A key depends on no header of the request but those that `Vary` lists.
pub proof fn law_keys_depend_on_listed_headers_only(base: Seq<char>, a: Fields, b: Fields, resp: Fields)
    requires
        vary_text(resp) matches Some(vary) ==> forall|i: int|
            0 <= i < keyed_names(vary).len() ==> header_text(a, #[trigger] keyed_names(vary)[i]) == header_text(
                b,
                keyed_names(vary)[i],
            ),
    ensures
        variant_key(base, a, resp) == variant_key(base, b, resp),
{
    match vary_text(resp) {
        Some(vary) => {
            assert(dimensions(a, vary) =~= dimensions(b, vary)) by {
                assert forall|i: int| 0 <= i < keyed_names(vary).len() implies #[trigger] dimensions(a, vary)[i]
                    == dimensions(b, vary)[i] by {
                    let n = keyed_names(vary)[i];
                    assert(header_text(a, n) == header_text(b, n));
                }
            }
        },
        None => {},
    }
}

/// A key does not depend on the credentials of the request, whatever `Vary`
/// lists.
pub proof fn law_credentials_are_never_in_a_key(base: Seq<char>, req: Fields, resp: Fields, values: Seq<Seq<u8>>)
    ensures
        variant_key(base, req.insert("authorization"@, values), resp) == variant_key(base, req, resp),
        variant_key(base, req.remove("authorization"@), resp) == variant_key(base, req, resp),
{
    let a = req.insert("authorization"@, values);
    let b = req.remove("authorization"@);
    match vary_text(resp) {
        Some(vary) => {
            assert forall|i: int| 0 <= i < keyed_names(vary).len() implies header_text(
                a,
                #[trigger] keyed_names(vary)[i],
            ) == header_text(req, keyed_names(vary)[i]) && header_text(b, keyed_names(vary)[i]) == header_text(
                req,
                keyed_names(vary)[i],
            ) by {
                lemma_keyed_names(vary, i);
            }
        },
        None => {},
    }
    law_keys_depend_on_listed_headers_only(base, a, req, resp);
    law_keys_depend_on_listed_headers_only(base, b, req, resp);
}

proof fn lemma_map_multiset<A, B>(s: Seq<A>, t: Seq<A>, f: spec_fn(A) -> B)
    requires
        s.to_multiset() == t.to_multiset(),
    ensures
        s.map_values(f).to_multiset() == t.map_values(f).to_multiset(),
    decreases s.len(),
{
    broadcast use vstd::seq_lib::group_to_multiset_ensures;
    broadcast use vstd::multiset::group_multiset_axioms;

    assert(s.len() == s.to_multiset().len() && t.len() == t.to_multiset().len());
    if s.len() == 0 {
        assert(s.map_values(f) =~= t.map_values(f));
    } else {
        let x = s.last();
        assert(s.contains(x)) by {
            assert(s[s.len() - 1] == x);
        }
        assert(s.to_multiset().count(x) > 0);
        assert(t.contains(x));
        let j = choose|j: int| 0 <= j < t.len() && t[j] == x;
        let s2 = s.drop_last();
        let t2 = t.remove(j);
        assert(s.remove(s.len() - 1) =~= s2);
        assert(s2.to_multiset() =~= t2.to_multiset());
        lemma_map_multiset(s2, t2, f);
        let (fs, ft) = (s.map_values(f), t.map_values(f));
        assert(fs.remove(s.len() - 1) =~= s2.map_values(f));
        assert(ft.remove(j) =~= t2.map_values(f));
        assert(fs[s.len() - 1] == f(x) && ft[j] == f(x));
        assert(fs.to_multiset().count(f(x)) > 0 && ft.to_multiset().count(f(x)) > 0) by {
            assert(fs.contains(f(x)) && ft.contains(f(x)));
        }
        assert(fs.to_multiset() =~= fs.to_multiset().remove(f(x)).insert(f(x)));
        assert(ft.to_multiset() =~= ft.to_multiset().remove(f(x)).insert(f(x)));
    }
}

proof fn lemma_sorted_by_contents(a: Seq<Seq<char>>, b: Seq<Seq<char>>)
    requires
        a.to_multiset() == b.to_multiset(),
    ensures
        sorted(a) == sorted(b),
{
    lemma_text_order();
    a.lemma_sort_by_ensures(text_order());
    b.lemma_sort_by_ensures(text_order());
    vstd::seq_lib::lemma_sorted_unique(sorted(a), sorted(b), text_order());
}

/// The order in which `Vary` lists headers does not matter.
pub proof fn law_order_of_vary_does_not_matter(base: Seq<char>, req: Fields, a: Fields, b: Fields)
    requires
        !varies_on_everything(a),
        !varies_on_everything(b),
        vary_text(a) matches Some(va) && vary_text(b) matches Some(vb) && keyed_names(va).to_multiset()
            == keyed_names(vb).to_multiset(),
    ensures
        variant_key(base, req, a) == variant_key(base, req, b),
{
    broadcast use vstd::seq_lib::group_to_multiset_ensures;

    let va = vary_text(a).unwrap();
    let vb = vary_text(b).unwrap();
    let f = |n: Seq<char>| dimension(req, n);
    assert(keyed_names(va).len() == keyed_names(va).to_multiset().len());
    assert(keyed_names(vb).len() == keyed_names(vb).to_multiset().len());
    lemma_map_multiset(keyed_names(va), keyed_names(vb), f);
    assert(dimensions(req, va) =~= keyed_names(va).map_values(f));
    assert(dimensions(req, vb) =~= keyed_names(vb).map_values(f));
    lemma_sorted_by_contents(dimensions(req, va), dimensions(req, vb));
}

// ---------------------------------------------------------------------------
// What a key tells apart
// ---------------------------------------------------------------------------

/// Whether a value holds what could be taken for another header of a key: a
/// comma, the name of a header by which variants are told apart, and an equals
/// sign.
pub open spec fn embeds_header(value: Seq<char>, names: Seq<Seq<char>>) -> bool {
    exists|i: int, j: int|
        0 <= i < value.len() && 0 <= j < names.len() && value[i] == ',' && #[trigger] starts_with(
            value.skip(i + 1),
            names[j].push('='),
        )
}

/// Whether a text is a header as it stands in a key, with a value that holds
/// no other.
spec fn is_clear(part: Seq<char>, names: Seq<Seq<char>>) -> bool {
    exists|j: int|
        0 <= j < names.len() && #[trigger] starts_with(part, names[j].push('=')) && !embeds_header(
            part.skip(names[j].len() + 1int),
            names,
        )
}

/// Whether every name is a header name.
spec fn are_names(names: Seq<Seq<char>>) -> bool {
    forall|j: int| 0 <= j < names.len() ==> is_header_name(#[trigger] names[j])
}

proof fn lemma_first_separator(a: Seq<char>, x: Seq<char>, b: Seq<char>, y: Seq<char>, c: char)
    requires
        a.push(c) + x == b.push(c) + y,
        !a.contains(c),
        !b.contains(c),
    ensures
        a == b,
        x == y,
{
    let s = a.push(c) + x;
    assert(s[a.len() as int] == c);
    assert(s[b.len() as int] == c) by {
        assert((b.push(c) + y)[b.len() as int] == c);
    }
    if a.len() < b.len() {
        assert(b[a.len() as int] == s[a.len() as int]) by {
            assert((b.push(c) + y)[a.len() as int] == b[a.len() as int]);
        }
        assert(b.contains(c));
    }
    if b.len() < a.len() {
        assert(a[b.len() as int] == s[b.len() as int]);
        assert(a.contains(c));
    }
    assert(a =~= s.take(a.len() as int));
    assert(b =~= (b.push(c) + y).take(b.len() as int));
    assert(x =~= s.skip(a.len() + 1int));
    assert(y =~= (b.push(c) + y).skip(b.len() + 1int));
}

/// A part cannot begin inside another one.
proof fn lemma_no_part_inside(a: Seq<char>, x: Seq<char>, b: Seq<char>, y: Seq<char>, names: Seq<Seq<char>>)
    requires
        a.push(',') + x == b.push(',') + y,
        is_clear(x, names),
        is_clear(y, names),
        are_names(names),
    ensures
        x.len() >= y.len(),
{
    let s = a.push(',') + x;
    let t = b.push(',') + y;
    assert(s.len() == a.len() + 1 + x.len() && t.len() == b.len() + 1 + y.len());
    if x.len() < y.len() {
        let jy = choose|j: int|
            0 <= j < names.len() && #[trigger] starts_with(y, names[j].push('=')) && !embeds_header(
                y.skip(names[j].len() + 1int),
                names,
            );
        let head = names[jy].push('=');
        let k = y.len() - x.len() - 1;
        assert(y[k] == ',') by {
            assert(t[b.len() + 1 + k] == y[k]);
            assert(s[a.len() as int] == ',');
        }
        assert(y.skip(k + 1) =~= x) by {
            assert forall|i: int| 0 <= i < x.len() implies y[k + 1 + i] == x[i] by {
                assert(t[b.len() + 1 + k + 1 + i] == y[k + 1 + i]);
                assert(s[a.len() + 1 + i] == x[i]);
            }
        }
        lemma_name_is_told_apart(names[jy]);
        if k < head.len() {
            assert(head[k] == y.take(head.len() as int)[k]);
            assert(head[k] == ',');
            if k < names[jy].len() {
                assert(names[jy][k] == ',');
            }
        }
        let v = y.skip(names[jy].len() + 1int);
        let i = k - head.len();
        assert(v[i] == ',');
        assert(v.skip(i + 1) =~= x);
        assert(embeds_header(v, names));
    }
}

proof fn lemma_join_is_injective(a: Seq<Seq<char>>, b: Seq<Seq<char>>, names: Seq<Seq<char>>)
    requires
        a.len() == b.len(),
        are_names(names),
        forall|i: int| 0 <= i < a.len() ==> is_clear(#[trigger] a[i], names),
        forall|i: int| 0 <= i < b.len() ==> is_clear(#[trigger] b[i], names),
        join(a, ',') == join(b, ','),
    ensures
        a == b,
    decreases a.len(),
{
    if a.len() <= 1 {
        assert(a =~= b);
    } else {
        let (a2, b2) = (a.drop_last(), b.drop_last());
        let (x, y) = (a.last(), b.last());
        let (ja, jb) = (join(a2, ','), join(b2, ','));
        assert(is_clear(a[a.len() - 1], names) && is_clear(b[b.len() - 1], names));
        lemma_no_part_inside(ja, x, jb, y, names);
        lemma_no_part_inside(jb, y, ja, x, names);
        let (s, t) = (ja.push(',') + x, jb.push(',') + y);
        assert(s.len() == ja.len() + 1 + x.len() && t.len() == jb.len() + 1 + y.len());
        assert(x =~= s.skip(ja.len() + 1int));
        assert(y =~= t.skip(jb.len() + 1int));
        assert(ja =~= s.take(ja.len() as int));
        assert(jb =~= t.take(jb.len() as int));
        assert forall|i: int| 0 <= i < a2.len() implies is_clear(#[trigger] a2[i], names) by {
            assert(a2[i] == a[i]);
        }
        assert forall|i: int| 0 <= i < b2.len() implies is_clear(#[trigger] b2[i], names) by {
            assert(b2[i] == b[i]);
        }
        lemma_join_is_injective(a2, b2, names);
        assert(a =~= a2.push(x));
        assert(b =~= b2.push(y));
    }
}

proof fn lemma_name_is_told_apart(name: Seq<char>)
    requires
        is_header_name(name),
    ensures
        !name.contains(','),
        !name.contains('='),
{
    if name.contains(',') {
        let i = choose|i: int| 0 <= i < name.len() && name[i] == ',';
        assert(token_char(name[i]));
    }
    if name.contains('=') {
        let i = choose|i: int| 0 <= i < name.len() && name[i] == '=';
        assert(token_char(name[i]));
    }
}

/// Whether a `Vary` text tells variants apart by headers with proper names.
pub open spec fn varies_properly(vary: Seq<char>) -> bool {
    &&& keyed_names(vary).len() > 0
    &&& forall|i: int| 0 <= i < keyed_names(vary).len() ==> is_header_name(#[trigger] keyed_names(vary)[i])
}

/// Whether no header of a request by which variants are told apart holds what
/// could be taken for another one in a key.
pub open spec fn has_clear_values(req: Fields, vary: Seq<char>) -> bool {
    forall|i: int|
        0 <= i < keyed_names(vary).len() ==> !embeds_header(
            header_text(req, #[trigger] keyed_names(vary)[i]),
            keyed_names(vary),
        )
}

proof fn lemma_dimensions_are_clear(req: Fields, vary: Seq<char>)
    requires
        varies_properly(vary),
        has_clear_values(req, vary),
    ensures
        forall|i: int|
            0 <= i < sorted(dimensions(req, vary)).len() ==> is_clear(
                #[trigger] sorted(dimensions(req, vary))[i],
                keyed_names(vary),
            ),
{
    broadcast use vstd::seq_lib::group_to_multiset_ensures;

    let names = keyed_names(vary);
    let d = dimensions(req, vary);
    let s = sorted(d);
    lemma_text_order();
    d.lemma_sort_by_ensures(text_order());
    assert forall|i: int| 0 <= i < s.len() implies is_clear(#[trigger] s[i], names) by {
        assert(s.contains(s[i]));
        assert(d.contains(s[i]));
        let j = choose|j: int| 0 <= j < d.len() && d[j] == s[i];
        let name = names[j];
        let head = name.push('=');
        assert(!embeds_header(header_text(req, name), names));
        assert(s[i] == head + header_text(req, name));
        assert(s[i].take(head.len() as int) =~= head);
        assert(s[i].skip(name.len() + 1int) =~= header_text(req, name));
        assert(starts_with(s[i], names[j].push('=')));
    }
}

proof fn lemma_sorted_has_the_same(list: Seq<Seq<char>>)
    ensures
        sorted(list).to_multiset() == list.to_multiset(),
        sorted(list).len() == list.len(),
{
    broadcast use vstd::seq_lib::group_to_multiset_ensures;

    lemma_text_order();
    list.lemma_sort_by_ensures(text_order());
    assert(sorted(list).len() == sorted(list).to_multiset().len() && list.len() == list.to_multiset().len());
}

/// Two requests share a key only where they agree in every header by which
/// variants are told apart. With several such headers, none of them may hold
/// what could be taken for another one in a key.
pub proof fn law_keys_tell_variants_apart(base: Seq<char>, a: Fields, b: Fields, resp: Fields)
    requires
        !varies_on_everything(resp),
        vary_text(resp) matches Some(vary) && varies_properly(vary) && (keyed_names(vary).len() == 1 || (
        has_clear_values(a, vary) && has_clear_values(b, vary))),
        variant_key(base, a, resp) == variant_key(base, b, resp),
    ensures
        vary_text(resp) matches Some(vary) && forall|i: int|
            0 <= i < keyed_names(vary).len() ==> header_text(a, #[trigger] keyed_names(vary)[i]) == header_text(
                b,
                keyed_names(vary)[i],
            ),
{
    broadcast use vstd::seq_lib::group_to_multiset_ensures;

    let vary = vary_text(resp).unwrap();
    let (da, db) = (dimensions(a, vary), dimensions(b, vary));
    let (sa, sb) = (sorted(da), sorted(db));
    lemma_sorted_has_the_same(da);
    lemma_sorted_has_the_same(db);
    let (ja, jb) = (join(sa, ','), join(sb, ','));
    let (ka, kb) = (variant_key(base, a, resp), variant_key(base, b, resp));
    assert(ja.push(']') =~= ka.skip(base.len() + 1int));
    assert(jb.push(']') =~= kb.skip(base.len() + 1int));
    assert(ja =~= ja.push(']').drop_last());
    assert(jb =~= jb.push(']').drop_last());
    if keyed_names(vary).len() == 1 {
        assert(sa =~= sb);
    } else {
        lemma_dimensions_are_clear(a, vary);
        lemma_dimensions_are_clear(b, vary);
        lemma_join_is_injective(sa, sb, keyed_names(vary));
    }
    assert forall|i: int| 0 <= i < keyed_names(vary).len() implies header_text(a, #[trigger] keyed_names(vary)[i])
        == header_text(b, keyed_names(vary)[i]) by {
        let name = keyed_names(vary)[i];
        assert(da[i] == dimension(a, name));
        assert(da.contains(da[i]));
        assert(da.to_multiset().count(da[i]) > 0);
        assert(db.to_multiset().count(da[i]) > 0);
        assert(db.contains(da[i]));
        let j = choose|j: int| 0 <= j < db.len() && db[j] == da[i];
        let other = keyed_names(vary)[j];
        assert(db[j] == dimension(b, other));
        lemma_name_is_told_apart(name);
        lemma_name_is_told_apart(other);
        lemma_first_separator(name, header_text(a, name), other, header_text(b, other), '=');
    }
}

}
