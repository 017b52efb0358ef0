//! Which header fields go from one message to another, and how they are
//! written there.

use axum::http::{HeaderMap, HeaderName, HeaderValue};
use vstd::prelude::*;
use crate::fields::{
    add_field, appended, collected, copy_name, copy_value, fields_of, has_room, items, name_str, name_text,
    new_headers, no_fields, pair_texts, replaced, set_field, values, Fields,
};
use crate::text::{chars_of, lower, lower_text, same_str};

verus! {

/// Whether a lower-case header name belongs to the connection rather than to
/// the message (RFC 7230, section 6.1).
pub open spec fn hop_by_hop(name: Seq<char>) -> bool {
    ||| name == "connection"@
    ||| name == "keep-alive"@
    ||| name == "proxy-authenticate"@
    ||| name == "proxy-authorization"@
    ||| name == "te"@
    ||| name == "trailers"@
    ||| name == "transfer-encoding"@
    ||| name == "upgrade"@
}

/// Whether a header belongs to the connection rather than to the message,
/// whatever the case of its name.
pub(crate) fn names_hop(name: &str) -> (r: bool)
    ensures
        r == hop_by_hop(lower(name@)),
{
    let name = chars_of(name);
    let n = lower_text(name.as_slice());
    let n = n.as_slice();
    same_str(n, "connection") || same_str(n, "keep-alive") || same_str(n, "proxy-authenticate")
        || same_str(n, "proxy-authorization") || same_str(n, "te") || same_str(n, "trailers")
        || same_str(n, "transfer-encoding") || same_str(n, "upgrade")
}

/// Whether a header of a response, by its lower-case name, is never stored:
/// credentials and challenges, session tokens, what belongs to the
/// connection, and what would be stale on replay.
pub open spec fn unsafe_to_store(name: Seq<char>) -> bool {
    ||| name == "authorization"@
    ||| name == "proxy-authorization"@
    ||| name == "www-authenticate"@
    ||| name == "proxy-authenticate"@
    ||| name == "set-cookie"@
    ||| name == "connection"@
    ||| name == "keep-alive"@
    ||| name == "te"@
    ||| name == "trailers"@
    ||| name == "transfer-encoding"@
    ||| name == "upgrade"@
    ||| name == "age"@
}

fn names_unsafe(name: &str) -> (r: bool)
    ensures
        r == unsafe_to_store(lower(name@)),
{
    let name = chars_of(name);
    let n = lower_text(name.as_slice());
    let n = n.as_slice();
    same_str(n, "authorization") || same_str(n, "proxy-authorization") || same_str(n, "www-authenticate")
        || same_str(n, "proxy-authenticate") || same_str(n, "set-cookie") || same_str(n, "connection")
        || same_str(n, "keep-alive") || same_str(n, "te") || same_str(n, "trailers")
        || same_str(n, "transfer-encoding") || same_str(n, "upgrade") || same_str(n, "age")
}

/// A choice of header fields.
#[derive(Clone, Copy, PartialEq, Eq, Structural, Debug)]
pub enum Selection {
    /// Every field.
    Every,
    /// What belongs to the message.
    EndToEnd,
    /// What belongs to the message, but for the length of its body.
    EndToEndPart,
    /// What may be stored.
    Storable,
}

/// Whether a choice takes a field, by its lower-case name.
pub open spec fn takes(sel: Selection, name: Seq<char>) -> bool {
    match sel {
        Selection::Every => true,
        Selection::EndToEnd => !hop_by_hop(name),
        Selection::EndToEndPart => !hop_by_hop(name) && name != "content-length"@,
        Selection::Storable => !unsafe_to_store(name),
    }
}

fn is_taken(sel: Selection, name: &str) -> (r: bool)
    requires
        lower(name@) == name@,
    ensures
        r == takes(sel, name@),
{
    match sel {
        Selection::Every => true,
        Selection::EndToEnd => !names_hop(name),
        Selection::EndToEndPart => {
            let n = chars_of(name);
            !names_hop(name) && !same_str(n.as_slice(), "content-length")
        },
        Selection::Storable => !names_unsafe(name),
    }
}

/// The fields that a choice takes.
pub open spec fn selected(f: Fields, sel: Selection) -> Fields {
    Map::new(|n: Seq<char>| f.contains_key(n) && takes(sel, n), |n: Seq<char>| f[n])
}

/// Two sets of fields in one, the values of the second behind those of the
/// first.
pub open spec fn joined(a: Fields, b: Fields) -> Fields {
    Map::new(
        |n: Seq<char>| a.contains_key(n) || b.contains_key(n),
        |n: Seq<char>| values(a, n) + values(b, n),
    )
}

/// Fields over which others were laid: the values of a name take the place of
/// all that were there.
pub open spec fn overlaid(a: Fields, b: Fields) -> Fields {
    Map::new(
        |n: Seq<char>| a.contains_key(n) || b.contains_key(n),
        |n: Seq<char>|
            if b.contains_key(n) {
                b[n]
            } else {
                a[n]
            },
    )
}

// ---------------------------------------------------------------------------
// Lists of fields
// ---------------------------------------------------------------------------

proof fn lemma_collected_grows(pairs: Seq<(Seq<char>, Seq<u8>)>, k: int)
    requires
        0 <= k <= pairs.len(),
    ensures
        collected(pairs.take(k)).dom().subset_of(collected(pairs).dom()),
    decreases pairs.len() - k,
{
    if k < pairs.len() {
        lemma_collected_grows(pairs, k + 1);
        assert(pairs.take(k + 1).drop_last() =~= pairs.take(k));
    } else {
        assert(pairs.take(k) =~= pairs);
    }
}

/// Fewer names need no more room.
pub proof fn lemma_room_for_fewer(a: Fields, b: Fields)
    requires
        a.dom().subset_of(b.dom()),
        has_room(b),
    ensures
        has_room(a),
{
    vstd::set_lib::lemma_set_subset_finite(b.dom(), a.dom());
    vstd::set_lib::lemma_len_subset(a.dom(), b.dom());
}

proof fn lemma_joined_step(base: Fields, c: Fields, sel: Selection, n: Seq<char>, v: Seq<u8>)
    ensures
        takes(sel, n) ==> appended(joined(base, selected(c, sel)), n, v) == joined(
            base,
            selected(appended(c, n, v), sel),
        ),
        !takes(sel, n) ==> selected(appended(c, n, v), sel) == selected(c, sel),
{
    if takes(sel, n) {
        let l = appended(joined(base, selected(c, sel)), n, v);
        let r = joined(base, selected(appended(c, n, v), sel));
        assert(l.dom() =~= r.dom());
        assert forall|m: Seq<char>| #[trigger] l.contains_key(m) implies l[m] == r[m] by {
            assert(l[m] =~= r[m]);
        }
        assert(l =~= r);
    } else {
        assert(selected(appended(c, n, v), sel) =~= selected(c, sel));
    }
}

proof fn lemma_overlaid_step(base: Fields, c: Fields, sel: Selection, n: Seq<char>, v: Seq<u8>)
    ensures
        takes(sel, n) && !c.contains_key(n) ==> replaced(overlaid(base, selected(c, sel)), n, v) == overlaid(
            base,
            selected(appended(c, n, v), sel),
        ),
        takes(sel, n) && c.contains_key(n) ==> appended(overlaid(base, selected(c, sel)), n, v) == overlaid(
            base,
            selected(appended(c, n, v), sel),
        ),
        !takes(sel, n) ==> selected(appended(c, n, v), sel) == selected(c, sel),
{
    let before = overlaid(base, selected(c, sel));
    let after = overlaid(base, selected(appended(c, n, v), sel));
    if !takes(sel, n) {
        assert(selected(appended(c, n, v), sel) =~= selected(c, sel));
    } else if c.contains_key(n) {
        assert(appended(before, n, v) =~= after);
    } else {
        assert(after[n] =~= seq![v]);
        assert(replaced(before, n, v) =~= after);
    }
}

/// What comes of a list of fields has just the names in the list.
pub proof fn lemma_collected_names(pairs: Seq<(Seq<char>, Seq<u8>)>, n: Seq<char>)
    ensures
        collected(pairs).contains_key(n) <==> exists|i: int| 0 <= i < pairs.len() && (#[trigger] pairs[i]).0 == n,
    decreases pairs.len(),
{
    if pairs.len() > 0 {
        let before = pairs.drop_last();
        lemma_collected_names(before, n);
        if collected(before).contains_key(n) {
            let i = choose|i: int| 0 <= i < before.len() && (#[trigger] before[i]).0 == n;
            assert(pairs[i].0 == n);
        }
        if pairs.last().0 == n {
            assert(pairs[pairs.len() - 1].0 == n);
        }
        if exists|i: int| 0 <= i < pairs.len() && (#[trigger] pairs[i]).0 == n {
            let i = choose|i: int| 0 <= i < pairs.len() && (#[trigger] pairs[i]).0 == n;
            if i < before.len() {
                assert(before[i].0 == n);
            }
        }
    }
}

/// Whether the name of a field stands further ahead in the list.
fn named_before(list: &Vec<(HeaderName, HeaderValue)>, i: usize) -> (r: bool)
    requires
        i < list@.len(),
    ensures
        r == collected(pair_texts(list@).take(i as int)).contains_key(pair_texts(list@)[i as int].0),
{
    let ghost pairs = pair_texts(list@);
    let ghost n = pairs[i as int].0;
    let name = chars_of(name_str(&list[i].0));
    let mut j: usize = 0;
    proof {
        lemma_collected_names(pairs.take(i as int), n);
    }
    while j < i
        invariant
            j <= i < list@.len(),
            pairs == pair_texts(list@),
            n == name@,
            n == pairs[i as int].0,
            forall|k: int| 0 <= k < j ==> (#[trigger] pairs[k]).0 != n,
            collected(pairs.take(i as int)).contains_key(n) <==> exists|k: int|
                0 <= k < i && (#[trigger] pairs.take(i as int)[k]).0 == n,
        decreases i - j,
    {
        assert(pairs[j as int].0 == name_text(list@[j as int].0));
        if same_str(name.as_slice(), name_str(&list[j].0)) {
            assert(pairs.take(i as int)[j as int].0 == n);
            return true;
        }
        j += 1;
    }
    assert forall|k: int| 0 <= k < i implies (#[trigger] pairs.take(i as int)[k]).0 != n by {
        assert(pairs[k].0 != n);
    }
    false
}

/// Adds the chosen fields of a message behind those that are there.
pub(crate) fn push_selected(dst: &mut HeaderMap, src: &HeaderMap, sel: Selection)
    requires
        has_room(joined(fields_of(*old(dst)), selected(fields_of(*src), sel))),
    ensures
        fields_of(*final(dst)) == joined(fields_of(*old(dst)), selected(fields_of(*src), sel)),
{
    let list = items(src);
    let ghost pairs = pair_texts(list@);
    let ghost base = fields_of(*dst);
    let ghost all = joined(base, selected(collected(pairs), sel));
    let mut i: usize = 0;
    proof {
        assert(pairs.take(0) =~= seq![]);
        assert(base =~= joined(base, selected(collected(pairs.take(0)), sel))) by {
            let r = joined(base, selected(no_fields(), sel));
            assert forall|m: Seq<char>| #[trigger] base.contains_key(m) implies base[m] == r[m] by {
                assert(base[m] =~= r[m]);
            }
        }
    }
    while i < list.len()
        invariant
            i <= list@.len(),
            pairs == pair_texts(list@),
            fields_of(*dst) == joined(base, selected(collected(pairs.take(i as int)), sel)),
            all == joined(base, selected(collected(pairs), sel)),
            has_room(all),
        decreases list@.len() - i,
    {
        let ghost before = collected(pairs.take(i as int));
        let ghost n = pairs[i as int].0;
        let ghost v = pairs[i as int].1;
        proof {
            assert(pairs.take(i + 1).drop_last() =~= pairs.take(i as int));
            assert(pairs.take(i + 1).last() == pairs[i as int]);
            assert(collected(pairs.take(i + 1)) == appended(before, n, v));
            lemma_joined_step(base, before, sel, n, v);
            lemma_collected_grows(pairs, i as int);
            assert(fields_of(*dst).dom().subset_of(all.dom()));
            lemma_room_for_fewer(fields_of(*dst), all);
        }
        if is_taken(sel, name_str(&list[i].0)) {
            add_field(dst, copy_name(&list[i].0), copy_value(&list[i].1));
        }
        i += 1;
    }
    assert(pairs.take(i as int) =~= pairs);
}

/// Lays the chosen fields of a message over those that are there: the first
/// value of a name takes the place of all that were there, and the others
/// follow it.
pub(crate) fn put_selected(dst: &mut HeaderMap, src: &HeaderMap, sel: Selection)
    requires
        has_room(overlaid(fields_of(*old(dst)), selected(fields_of(*src), sel))),
    ensures
        fields_of(*final(dst)) == overlaid(fields_of(*old(dst)), selected(fields_of(*src), sel)),
{
    let list = items(src);
    let ghost pairs = pair_texts(list@);
    let ghost base = fields_of(*dst);
    let ghost all = overlaid(base, selected(collected(pairs), sel));
    let mut i: usize = 0;
    proof {
        assert(pairs.take(0) =~= seq![]);
        assert(base =~= overlaid(base, selected(collected(pairs.take(0)), sel)));
    }
    while i < list.len()
        invariant
            i <= list@.len(),
            pairs == pair_texts(list@),
            fields_of(*dst) == overlaid(base, selected(collected(pairs.take(i as int)), sel)),
            all == overlaid(base, selected(collected(pairs), sel)),
            has_room(all),
        decreases list@.len() - i,
    {
        let ghost before = collected(pairs.take(i as int));
        let ghost n = pairs[i as int].0;
        let ghost v = pairs[i as int].1;
        proof {
            assert(pairs.take(i + 1).drop_last() =~= pairs.take(i as int));
            assert(pairs.take(i + 1).last() == pairs[i as int]);
            assert(collected(pairs.take(i + 1)) == appended(before, n, v));
            lemma_overlaid_step(base, before, sel, n, v);
            lemma_collected_grows(pairs, i as int);
            assert(fields_of(*dst).dom().subset_of(all.dom()));
            lemma_room_for_fewer(fields_of(*dst), all);
        }
        if is_taken(sel, name_str(&list[i].0)) {
            if named_before(&list, i) {
                add_field(dst, copy_name(&list[i].0), copy_value(&list[i].1));
            } else {
                set_field(dst, copy_name(&list[i].0), copy_value(&list[i].1));
            }
        }
        i += 1;
    }
    assert(pairs.take(i as int) =~= pairs);
}

/// The chosen fields of a message.
pub(crate) fn select(src: &HeaderMap, sel: Selection) -> (dst: HeaderMap)
    requires
        has_room(fields_of(*src)),
    ensures
        fields_of(dst) == selected(fields_of(*src), sel),
{
    let mut dst = new_headers();
    proof {
        assert(selected(fields_of(*src), sel).dom().subset_of(fields_of(*src).dom()));
        lemma_room_for_fewer(selected(fields_of(*src), sel), fields_of(*src));
        lemma_joined_with_nothing(selected(fields_of(*src), sel));
    }
    push_selected(&mut dst, src, sel);
    dst
}

/// Fields behind no others are just those fields.
pub proof fn lemma_joined_with_nothing(f: Fields)
    ensures
        joined(no_fields(), f) == f,
{
    let r = joined(no_fields(), f);
    assert forall|m: Seq<char>| #[trigger] f.contains_key(m) implies f[m] == r[m] by {
        assert(f[m] =~= r[m]);
    }
    assert(r =~= f);
}

}
