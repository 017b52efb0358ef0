//! Header fields as JSON text: an array of `["name", "value"]` pairs.

use axum::http::HeaderMap;
use vstd::prelude::*;
use vstd::string::StringExecFns;
use vstd::utf8::encode_utf8;
use crate::fields::{
    appended, collected, fields_of, has_room, is_header_name, is_text, is_value, items, lemma_text_is_plain,
    name_str, new_headers, no_fields, offer_field, pair_texts, parse_name, parse_value, plain_values, value_byte,
    value_str, values, visible, Fields,
};
use crate::selection::{lemma_collected_names, lemma_room_for_fewer};
use crate::text::lower;

verus! {

/// Names and values, in order.
pub type Pairs = Seq<(Seq<char>, Seq<char>)>;

/// The JSON text of a list of pairs.
pub uninterp spec fn pairs_json(pairs: Seq<(Seq<char>, Seq<char>)>) -> Seq<char>;

/// The list of pairs that a JSON text denotes, if it denotes one.
pub uninterp spec fn json_pairs(json: Seq<char>) -> Option<Seq<(Seq<char>, Seq<char>)>>;

/// The texts of a list of string pairs.
pub open spec fn pair_views(list: Seq<(String, String)>) -> Pairs {
    list.map_values(|p: (String, String)| (p.0@, p.1@))
}

/// The texts of a list of string pairs that may be there.
pub open spec fn optional_pairs(list: Option<Vec<(String, String)>>) -> Option<Pairs> {
    match list {
        Some(l) => Some(pair_views(l@)),
        None => None,
    }
}

/// `serde_json::to_string` on a list of string pairs. Trusted: it succeeds,
/// its text depends on the strings alone, and reading the text gives the
/// strings back.
#[verifier::external_body]
fn write_pairs(list: &Vec<(String, String)>) -> (json: Option<String>)
    ensures
        json is Some,
        json matches Some(s) ==> s@ == pairs_json(pair_views(list@)),
        json matches Some(s) ==> json_pairs(s@) == Some(pair_views(list@)),
{
    serde_json::to_string(list).ok()
}

/// `serde_json::from_str` for a list of string pairs. Trusted: what it reads
/// depends on the text alone.
#[verifier::external_body]
fn read_pairs(json: &str) -> (list: Option<Vec<(String, String)>>)
    ensures
        optional_pairs(list) == json_pairs(json@),
{
    serde_json::from_str(json).ok()
}

// ---------------------------------------------------------------------------
// Writing
// ---------------------------------------------------------------------------

/// The fields that JSON text can hold: those whose values are plain text.
pub open spec fn textual(f: Fields) -> Fields {
    Map::new(
        |n: Seq<char>| f.contains_key(n) && plain_values(f[n]).len() > 0,
        |n: Seq<char>| plain_values(f[n]),
    )
}

/// Pairs as they stand in a header map.
pub open spec fn encoded(pairs: Pairs) -> Seq<(Seq<char>, Seq<u8>)> {
    pairs.map_values(|p: (Seq<char>, Seq<char>)| (p.0, encode_utf8(p.1)))
}

/// Whether a JSON text is a record of fields: it lists the names and values
/// of those that are plain text, the values of one name in their order, and
/// reads back as that list.
pub open spec fn is_record(json: Seq<char>, f: Fields) -> bool {
    exists|pairs: Pairs|
        json == #[trigger] pairs_json(pairs) && json_pairs(json) == Some(pairs) && collected(encoded(pairs))
            == textual(f)
}

proof fn lemma_textual_step(c: Fields, n: Seq<char>, v: Seq<u8>)
    ensures
        is_text(v) ==> textual(appended(c, n, v)) == appended(textual(c), n, v),
        !is_text(v) ==> textual(appended(c, n, v)) == textual(c),
{
    reveal(Seq::filter);
    let before = values(c, n);
    let after = before.push(v);
    assert(after.drop_last() =~= before);
    assert(plain_values(after) == (if is_text(v) {
        plain_values(before).push(v)
    } else {
        plain_values(before)
    }));
    assert(plain_values(seq![]) =~= seq![]);
    let l = textual(appended(c, n, v));
    if is_text(v) {
        let r = appended(textual(c), n, v);
        assert(l.dom() =~= r.dom());
        assert forall|m: Seq<char>| #[trigger] l.contains_key(m) implies l[m] == r[m] by {
            if m == n {
                assert(values(textual(c), n) =~= plain_values(before));
            }
        }
        assert(l =~= r);
    } else {
        assert(l =~= textual(c));
    }
}

/// Whether all names are in lower case.
pub open spec fn lower_names(f: Fields) -> bool {
    forall|n: Seq<char>| #[trigger] f.contains_key(n) ==> lower(n) == n
}

/// Writes the fields of a header map as JSON text. Values that are not plain
/// text are left out; the order of different names is that of the map. The
/// names turn out to be in lower case.
pub fn headers_to_json(headers: &HeaderMap) -> (json: String)
    ensures
        is_record(json@, fields_of(*headers)),
        lower_names(fields_of(*headers)),
{
    let list = items(headers);
    let ghost all = pair_texts(list@);
    let mut pairs: Vec<(String, String)> = Vec::new();
    let mut i: usize = 0;
    proof {
        assert(all.take(0) =~= seq![]);
        assert(encoded(pair_views(pairs@)) =~= seq![]);
        assert(textual(no_fields()) =~= no_fields());
    }
    while i < list.len()
        invariant
            i <= list@.len(),
            all == pair_texts(list@),
            collected(encoded(pair_views(pairs@))) == textual(collected(all.take(i as int))),
            forall|j: int| 0 <= j < i ==> lower((#[trigger] all[j]).0) == all[j].0,
        decreases list@.len() - i,
    {
        let ghost before = pairs@;
        let ghost n = all[i as int].0;
        let ghost v = all[i as int].1;
        proof {
            assert(all.take(i + 1).drop_last() =~= all.take(i as int));
            assert(all.take(i + 1).last() == all[i as int]);
            lemma_textual_step(collected(all.take(i as int)), n, v);
            lemma_text_is_plain(v);
        }
        let name = name_str(&list[i].0);
        match value_str(&list[i].1) {
            Some(s) => {
                pairs.push((String::from_str(name), String::from_str(s)));
                proof {
                    let e = encoded(pair_views(pairs@));
                    assert(e.drop_last() =~= encoded(pair_views(before)));
                    assert(e.last() == (n, v));
                }
            },
            None => {},
        }
        i += 1;
    }
    assert(all.take(i as int) =~= all);
    assert forall|n: Seq<char>| #[trigger] fields_of(*headers).contains_key(n) implies lower(n) == n by {
        lemma_collected_names(all, n);
        let j = choose|j: int| 0 <= j < all.len() && (#[trigger] all[j]).0 == n;
        assert(lower(all[j].0) == all[j].0);
    }
    match write_pairs(&pairs) {
        Some(s) => s,
        None => String::from_str("[]"),
    }
}

// ---------------------------------------------------------------------------
// Reading
// ---------------------------------------------------------------------------

/// Whether a pair of texts can stand in a header map.
pub open spec fn is_field(pair: (Seq<char>, Seq<char>)) -> bool {
    is_header_name(pair.0) && is_value(encode_utf8(pair.1))
}

/// The pairs that can stand in a header map, as they stand there.
pub open spec fn admitted(pairs: Pairs) -> Seq<(Seq<char>, Seq<u8>)> {
    pairs.filter(|p: (Seq<char>, Seq<char>)| is_field(p)).map_values(
        |p: (Seq<char>, Seq<char>)| (lower(p.0), encode_utf8(p.1)),
    )
}

/// The fields that a JSON text denotes; none where it is not a list of pairs.
pub open spec fn restored(json: Seq<char>) -> Fields {
    match json_pairs(json) {
        Some(pairs) => collected(admitted(pairs)),
        None => no_fields(),
    }
}

proof fn lemma_admitted_step(pairs: Pairs)
    requires
        pairs.len() > 0,
    ensures
        admitted(pairs) == (if is_field(pairs.last()) {
            admitted(pairs.drop_last()).push((lower(pairs.last().0), encode_utf8(pairs.last().1)))
        } else {
            admitted(pairs.drop_last())
        }),
{
    reveal(Seq::filter);
    if is_field(pairs.last()) {
        assert(admitted(pairs) =~= admitted(pairs.drop_last()).push(
            (lower(pairs.last().0), encode_utf8(pairs.last().1)),
        ));
    }
}

proof fn lemma_admitted_grows(pairs: Pairs, k: int)
    requires
        0 <= k <= pairs.len(),
    ensures
        collected(admitted(pairs.take(k))).dom().subset_of(collected(admitted(pairs)).dom()),
    decreases pairs.len() - k,
{
    if k < pairs.len() {
        lemma_admitted_grows(pairs, k + 1);
        lemma_admitted_step(pairs.take(k + 1));
        assert(pairs.take(k + 1).drop_last() =~= pairs.take(k));
        let a = admitted(pairs.take(k));
        if is_field(pairs.take(k + 1).last()) {
            assert(admitted(pairs.take(k + 1)).drop_last() =~= a);
        }
    } else {
        assert(pairs.take(k) =~= pairs);
    }
}

/// Reads header fields from JSON text. Pairs that are no header fields are
/// left out, and text that is no list of pairs gives no fields. There is no
/// result where a header map does not take all the fields.
///
/// A header map takes up to `MAX_NAMES` names, whatever they are. Beyond that
/// it rests on how they fall into its hash table, and nothing is said of it.
pub fn json_to_headers(json: &str) -> (headers: Option<HeaderMap>)
    ensures
        has_room(restored(json@)) ==> headers is Some,
        headers matches Some(h) ==> fields_of(h) == restored(json@),
{
    let mut headers = new_headers();
    let list: Vec<(String, String)> = match read_pairs(json) {
        Some(list) => list,
        None => return Some(headers),
    };
    let ghost all = pair_views(list@);
    let ghost fields = collected(admitted(all));
    let mut i: usize = 0;
    proof {
        reveal(Seq::filter);
        assert(admitted(all.take(0)) =~= seq![]);
    }
    while i < list.len()
        invariant
            i <= list@.len(),
            all == pair_views(list@),
            fields == collected(admitted(all)),
            fields == restored(json@),
            fields_of(headers) == collected(admitted(all.take(i as int))),
        decreases list@.len() - i,
    {
        proof {
            assert(all.take(i + 1).drop_last() =~= all.take(i as int));
            assert(all.take(i + 1).last() == (list@[i as int].0@, list@[i as int].1@));
            lemma_admitted_step(all.take(i + 1));
            let a = admitted(all.take(i + 1));
            if is_field(all.take(i + 1).last()) {
                assert(a.drop_last() =~= admitted(all.take(i as int)));
            }
            lemma_admitted_grows(all, i as int);
            if has_room(fields) {
                lemma_room_for_fewer(fields_of(headers), fields);
            }
        }
        match (parse_name(list[i].0.as_str()), parse_value(list[i].1.as_str())) {
            (Some(name), Some(value)) => {
                if !offer_field(&mut headers, name, value) {
                    return None;
                }
            },
            _ => {},
        }
        i += 1;
    }
    assert(all.take(i as int) =~= all);
    Some(headers)
}

// ---------------------------------------------------------------------------
// Laws
// ---------------------------------------------------------------------------

proof fn lemma_collected_holds(pairs: Seq<(Seq<char>, Seq<u8>)>, i: int)
    requires
        0 <= i < pairs.len(),
    ensures
        collected(pairs).contains_key(pairs[i].0),
        collected(pairs)[pairs[i].0].contains(pairs[i].1),
    decreases pairs.len(),
{
    let before = pairs.drop_last();
    let (n, v) = pairs.last();
    let list = values(collected(before), n).push(v);
    assert(collected(pairs) == collected(before).insert(n, list));
    if i == pairs.len() - 1 {
        assert(list[list.len() - 1] == v);
    } else {
        lemma_collected_holds(before, i);
        assert(before[i] == pairs[i]);
        if pairs[i].0 == n {
            let old_list = collected(before)[n];
            let j = choose|j: int| 0 <= j < old_list.len() && old_list[j] == pairs[i].1;
            assert(list[j] == pairs[i].1);
        }
    }
}

/// The fields whose names are header names. A connection may bring others, of
/// which a record keeps the text; they are not read back.
pub open spec fn readable(f: Fields) -> Fields {
    Map::new(|n: Seq<char>| f.contains_key(n) && is_header_name(n), |n: Seq<char>| f[n])
}

proof fn lemma_readable(pairs: Pairs)
    requires
        forall|i: int|
            0 <= i < pairs.len() ==> is_value(encode_utf8((#[trigger] pairs[i]).1)) && lower(pairs[i].0)
                == pairs[i].0,
    ensures
        collected(admitted(pairs)) == readable(collected(encoded(pairs))),
    decreases pairs.len(),
{
    if pairs.len() > 0 {
        let before = pairs.drop_last();
        let (n, v) = (pairs.last().0, encode_utf8(pairs.last().1));
        assert forall|i: int| 0 <= i < before.len() implies is_value(encode_utf8((#[trigger] before[i]).1)) && lower(
            before[i].0,
        ) == before[i].0 by {
            assert(before[i] == pairs[i]);
        }
        lemma_readable(before);
        lemma_admitted_step(pairs);
        assert(is_value(encode_utf8(pairs[pairs.len() - 1].1)));
        let c = collected(encoded(before));
        assert(encoded(pairs).drop_last() =~= encoded(before));
        assert(collected(encoded(pairs)) == appended(c, n, v));
        if is_header_name(n) {
            assert(admitted(pairs).drop_last() =~= admitted(before));
            assert(values(readable(c), n) =~= values(c, n));
            assert(appended(readable(c), n, v) =~= readable(appended(c, n, v)));
        } else {
            assert(readable(appended(c, n, v)) =~= readable(c));
        }
    } else {
        reveal(Seq::filter);
        assert(admitted(pairs) =~= seq![]);
        assert(encoded(pairs) =~= seq![]);
        assert(readable(no_fields()) =~= no_fields());
    }
}

/// Whether all values are plain text, and every name has one.
pub open spec fn plain_fields(f: Fields) -> bool {
    forall|n: Seq<char>|
        #[trigger] f.contains_key(n) ==> f[n].len() > 0 && forall|i: int|
            0 <= i < f[n].len() ==> is_text(#[trigger] f[n][i])
}

/// Reading a record of fields gives back those of them that are plain text,
/// with all the values of each name in their order.
pub proof fn law_records_read_back(json: Seq<char>, f: Fields)
    requires
        is_record(json, f),
        lower_names(f),
    ensures
        restored(json) == readable(textual(f)),
{
    let pairs = choose|pairs: Pairs|
        json == #[trigger] pairs_json(pairs) && json_pairs(json) == Some(pairs) && collected(encoded(pairs))
            == textual(f);
    assert forall|i: int| 0 <= i < pairs.len() implies is_value(encode_utf8((#[trigger] pairs[i]).1)) && lower(
        pairs[i].0,
    ) == pairs[i].0 by {
        let e = encoded(pairs);
        let n = pairs[i].0;
        let v = encode_utf8(pairs[i].1);
        lemma_collected_holds(e, i);
        assert(e[i] == (n, v));
        assert(textual(f).contains_key(n));
        assert(f.contains_key(n));
        assert(plain_values(f[n]).contains(v));
        let keep = |v: Seq<u8>| is_text(v);
        let j = choose|j: int| 0 <= j < plain_values(f[n]).len() && plain_values(f[n])[j] == v;
        f[n].lemma_filter_pred(keep, j);
        assert(is_text(v));
        assert forall|k: int| 0 <= k < v.len() implies value_byte(#[trigger] v[k]) by {
            assert(visible(v[k]));
        }
    }
    lemma_readable(pairs);
}

/// Fields that are plain text survive in a record just as they are.
pub proof fn law_plain_fields_survive(json: Seq<char>, f: Fields)
    requires
        is_record(json, f),
        lower_names(f),
        plain_fields(f),
    ensures
        restored(json) == readable(f),
{
    law_records_read_back(json, f);
    assert forall|n: Seq<char>| #[trigger] f.contains_key(n) implies plain_values(f[n]) == f[n] by {
        lemma_all_plain(f[n]);
    }
    assert(textual(f) =~= f);
}

proof fn lemma_all_plain(list: Seq<Seq<u8>>)
    requires
        forall|i: int| 0 <= i < list.len() ==> is_text(#[trigger] list[i]),
    ensures
        plain_values(list) == list,
    decreases list.len(),
{
    reveal(Seq::filter);
    if list.len() > 0 {
        lemma_all_plain(list.drop_last());
        assert(is_text(list[list.len() - 1]));
        assert(list =~= list.drop_last().push(list.last()));
    } else {
        assert(plain_values(list) =~= list);
    }
}

/// Of the pairs in a record, those are read that have a header name and a
/// value that a header may have, whatever the case of the name; no others are.
pub proof fn law_proper_pairs_are_read(json: Seq<char>, pairs: Pairs, name: Seq<char>)
    requires
        json_pairs(json) == Some(pairs),
    ensures
        restored(json).contains_key(name) <==> exists|i: int|
            0 <= i < pairs.len() && is_header_name((#[trigger] pairs[i]).0) && is_value(encode_utf8(pairs[i].1))
                && lower(pairs[i].0) == name,
        restored(json).contains_key(name) ==> restored(json)[name].len() > 0,
{
    lemma_proper_pairs(pairs, name);
}

proof fn lemma_proper_pairs(pairs: Pairs, name: Seq<char>)
    ensures
        collected(admitted(pairs)).contains_key(name) <==> exists|i: int|
            0 <= i < pairs.len() && is_header_name((#[trigger] pairs[i]).0) && is_value(encode_utf8(pairs[i].1))
                && lower(pairs[i].0) == name,
        collected(admitted(pairs)).contains_key(name) ==> collected(admitted(pairs))[name].len() > 0,
    decreases pairs.len(),
{
    if pairs.len() == 0 {
        reveal(Seq::filter);
        assert(admitted(pairs) =~= seq![]);
    } else {
        let before = pairs.drop_last();
        let last = pairs[pairs.len() - 1];
        lemma_proper_pairs(before, name);
        lemma_admitted_step(pairs);
        if is_field(last) {
            assert(admitted(pairs).drop_last() =~= admitted(before));
        }
        if collected(admitted(before)).contains_key(name) {
            let i = choose|i: int|
                0 <= i < before.len() && is_header_name((#[trigger] before[i]).0) && is_value(
                    encode_utf8(before[i].1),
                ) && lower(before[i].0) == name;
            assert(pairs[i] == before[i]);
        }
        if exists|i: int|
            0 <= i < pairs.len() && is_header_name((#[trigger] pairs[i]).0) && is_value(encode_utf8(pairs[i].1))
                && lower(pairs[i].0) == name {
            let i = choose|i: int|
                0 <= i < pairs.len() && is_header_name((#[trigger] pairs[i]).0) && is_value(encode_utf8(pairs[i].1))
                    && lower(pairs[i].0) == name;
            if i < before.len() {
                assert(before[i] == pairs[i]);
            }
        }
    }
}

/// A record with one more pair: a proper one adds its value behind those of
/// its name, whatever the case of the name, and leaves all other names alone;
/// any other one changes nothing.
pub proof fn law_pairs_add_their_values(json: Seq<char>, longer: Seq<char>, pairs: Pairs, name: Seq<char>, v: Seq<char>)
    requires
        json_pairs(json) == Some(pairs),
        json_pairs(longer) == Some(pairs.push((name, v))),
    ensures
        is_header_name(name) && is_value(encode_utf8(v)) ==> {
            &&& restored(longer).contains_key(lower(name))
            &&& restored(longer)[lower(name)] == (if restored(json).contains_key(lower(name)) {
                restored(json)[lower(name)].push(encode_utf8(v))
            } else {
                seq![encode_utf8(v)]
            })
            &&& forall|other: Seq<char>| other != lower(name) ==> {
                &&& #[trigger] restored(longer).contains_key(other) == restored(json).contains_key(other)
                &&& restored(json).contains_key(other) ==> restored(longer)[other] == restored(json)[other]
            }
        },
        !(is_header_name(name) && is_value(encode_utf8(v))) ==> restored(longer) == restored(json),
{
    let all = pairs.push((name, v));
    lemma_admitted_step(all);
    assert(all.drop_last() =~= pairs);
    if is_field((name, v)) {
        assert(admitted(all).drop_last() =~= admitted(pairs));
        assert(seq![encode_utf8(v)] =~= Seq::<Seq<u8>>::empty().push(encode_utf8(v)));
    }
}

}
