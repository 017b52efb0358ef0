//! Validators: what a conditional request asks the origin, and whose copy the
//! origin's answer confirms.

use axum::http::{HeaderMap, HeaderValue};
use vstd::prelude::*;
use vstd::slice::slice_subrange;
use vstd::string::{StrSliceExecFns, StringExecFns};
use vstd::utf8::encode_utf8;
use crate::date::{date_of, parse_http_date};
use crate::fields::{
    combined, copy_value, fields_of, first, has_room, is_plain, lemma_combined_is_plain, lemma_plain_text,
    lemma_text_is_plain, parse_value, read_lines, replaced, same_value, text_or_empty, value_bytes, value_list,
    value_str, values, Fields,
};
use crate::names::{assign, lookup, lookup_all, Name};
use crate::store::{CacheEntry, Entry};
use crate::text::{
    chars_of, has_prefix, lemma_trim_end, lemma_trim_start, pieces, same, split, starts_with, text_from, texts,
    trim, trim_start, trimmed, trimmed_end, trimmed_start, CharClass,
};

verus! {

// ---------------------------------------------------------------------------
// Entity tags
// ---------------------------------------------------------------------------

/// An entity tag without its weakness prefix and the quotes around it.
pub open spec fn bare_etag(s: Seq<char>) -> Seq<char> {
    trim(strong_etag(s), CharClass::Is('"'))
}

/// An entity tag without its weakness prefix.
pub open spec fn strong_etag(s: Seq<char>) -> Seq<char> {
    if starts_with(s, "W/"@) {
        s.skip(2)
    } else {
        s
    }
}

/// Strips the weakness prefix and the quotes around an entity tag: `W/"foo"`
/// becomes `foo`.
pub fn normalize_etag(s: &str) -> (r: &str)
    ensures
        r@ == bare_etag(s@),
{
    let all = chars_of(s);
    let all = all.as_slice();
    let skipped: usize = if has_prefix(all, "W/") { 2 } else { 0 };
    proof {
        reveal_strlit("W/");
        lemma_trim_start(strong_etag(s@), CharClass::Is('"'));
        lemma_trim_end(trim_start(strong_etag(s@), CharClass::Is('"')), CharClass::Is('"'));
    }
    let strong = slice_subrange(all, skipped, all.len());
    assert(strong@ =~= strong_etag(s@));
    let opened = trimmed_start(strong, CharClass::Is('"'));
    let bare = trimmed_end(opened, CharClass::Is('"'));
    let start: usize = all.len() - opened.len();
    let r = s.substring_char(start, start + bare.len());
    assert(r@ =~= bare@);
    r
}

/// Whether an entity tag stands in a comma-separated list, by weak comparison
/// (RFC 7232, section 2.3). Values that are not plain text are read as empty.
pub open spec fn listed(list: Seq<u8>, candidate: Seq<u8>) -> bool {
    let tags = split(text_or_empty(list), CharClass::Is(','));
    exists|i: int|
        0 <= i < tags.len() && bare_etag(trim(#[trigger] tags[i], CharClass::Blank)) == bare_etag(
            text_or_empty(candidate),
        )
}

/// The bare form of an entity tag given by its characters.
fn bare(s: &[char]) -> (r: &[char])
    ensures
        r@ == bare_etag(s@),
{
    if has_prefix(s, "W/") {
        proof {
            reveal_strlit("W/");
        }
        let strong = slice_subrange(s, 2, s.len());
        assert(strong@ =~= s@.skip(2));
        trimmed(strong, CharClass::Is('"'))
    } else {
        trimmed(s, CharClass::Is('"'))
    }
}

/// The characters of a header value, none where it is not plain text.
fn read_text(value: &HeaderValue) -> (r: Vec<char>)
    ensures
        r@ == text_or_empty(value_bytes(*value)),
{
    match value_str(value) {
        Some(s) => chars_of(s),
        None => {
            let r: Vec<char> = Vec::new();
            assert(r@ =~= text_or_empty(value_bytes(*value)));
            r
        },
    }
}

/// Whether `candidate` appears in the comma-separated `list`, where `W/"x"`
/// and `"x"` count as the same.
pub fn etag_list_contains(list: &HeaderValue, candidate: &HeaderValue) -> (r: bool)
    ensures
        r == listed(value_bytes(*list), value_bytes(*candidate)),
{
    let candidate_text = read_text(candidate);
    let wanted = bare(candidate_text.as_slice());
    let list_text = read_text(list);
    let tags = pieces(list_text.as_slice(), CharClass::Is(','));
    assert(texts(tags@).len() == tags@.len());
    let mut i: usize = 0;
    while i < tags.len()
        invariant
            i <= tags@.len(),
            texts(tags@) == split(text_or_empty(value_bytes(*list)), CharClass::Is(',')),
            texts(tags@).len() == tags@.len(),
            wanted@ == bare_etag(text_or_empty(value_bytes(*candidate))),
            forall|j: int|
                0 <= j < i ==> bare_etag(trim(#[trigger] texts(tags@)[j], CharClass::Blank)) != wanted@,
        decreases tags@.len() - i,
    {
        assert(texts(tags@)[i as int] == tags@[i as int]@);
        if same(bare(trimmed(tags[i], CharClass::Blank)), wanted) {
            return true;
        }
        i += 1;
    }
    false
}

// ---------------------------------------------------------------------------
// What the origin is asked
// ---------------------------------------------------------------------------

/// The forwarded headers with the cached entity tag beside the client's.
///
/// The tag goes in by itself where the client sent no `If-None-Match`, and
/// behind all that the client listed where that is anything else than the
/// tag. Otherwise what the client sent stays.
pub open spec fn with_etag(client: Fields, entry: Entry, fwd: Fields) -> Fields {
    let lines = values(client, "if-none-match"@);
    match entry.etag {
        Some(p) => if lines.len() == 0 {
            replaced(fwd, "if-none-match"@, p)
        } else if lines == seq![p] {
            fwd
        } else {
            replaced(fwd, "if-none-match"@, encode_utf8(combined(lines) + ", "@ + text_or_empty(p)))
        },
        None => fwd,
    }
}

/// Merges the client's `If-None-Match` and the cached `ETag`, so that the
/// origin can confirm either copy.
///
/// | Client   | Cache    | Action                        |
/// |----------|----------|-------------------------------|
/// | none     | none     | nothing                       |
/// | some     | none     | already forwarded; nothing    |
/// | none     | some     | the cached tag goes in        |
/// | "A"      | "A"      | already forwarded; nothing    |
/// | "A"      | "B"      | `"A", "B"`                    |
///
/// A client that sends several lines of `If-None-Match` sends one list.
pub fn merge_etag_validators(incoming: &HeaderMap, entry: &CacheEntry, fwd: &mut HeaderMap)
    requires
        has_room(fields_of(*old(fwd))),
    ensures
        fields_of(*final(fwd)) == with_etag(fields_of(*incoming), entry@, fields_of(*old(fwd))),
{
    let lines = lookup_all(incoming, Name::IfNoneMatch);
    let ghost sent = values(fields_of(*incoming), "if-none-match"@);
    assert(value_list(lines@).len() == lines@.len());
    match &entry.etag {
        Some(p) => {
            if lines.len() == 0 {
                assign(fwd, Name::IfNoneMatch, copy_value(p));
            } else if lines.len() == 1 && same_value(&lines[0], p) {
                assert(sent[0] == value_bytes(*p));
                assert(sent =~= seq![value_bytes(*p)]);
            } else {
                assert(sent != seq![value_bytes(*p)]) by {
                    assert(sent[0] == value_bytes(lines@[0]));
                }
                let (said, _) = read_lines(&lines);
                let mut merged = text_from(said.as_slice());
                merged.append(", ");
                match value_str(p) {
                    Some(s) => merged.append(s),
                    None => {},
                }
                proof {
                    assert(merged@ =~= combined(sent) + ", "@ + text_or_empty(value_bytes(*p)));
                    reveal_strlit(", ");
                    lemma_combined_is_plain(sent);
                    lemma_text_is_plain(value_bytes(*p));
                    assert(is_plain(merged@));
                    lemma_plain_text(merged@);
                }
                match parse_value(merged.as_str()) {
                    Some(v) => assign(fwd, Name::IfNoneMatch, v),
                    None => {},
                }
            }
        },
        None => {},
    }
}

/// The later one of two dates, the client's where they are equal, and the
/// cached one where either cannot be read.
pub open spec fn later_date(client: Seq<u8>, cached: Seq<u8>) -> Seq<u8> {
    match (date_of(client), date_of(cached)) {
        (Some(c), Some(p)) => if c >= p {
            client
        } else {
            cached
        },
        _ => cached,
    }
}

/// The forwarded headers with the later one of the client's date and the
/// cached date.
pub open spec fn with_date(client: Fields, entry: Entry, fwd: Fields) -> Fields {
    match (first(client, "if-modified-since"@), entry.last_modified) {
        (None, Some(p)) => replaced(fwd, "if-modified-since"@, p),
        (Some(c), Some(p)) => replaced(fwd, "if-modified-since"@, later_date(c, p)),
        _ => fwd,
    }
}

/// Merges the client's `If-Modified-Since` and the cached `Last-Modified`:
/// the later date is forwarded.
///
/// With a later client date this spares a body that the client already has,
/// with a later cached date one that the cache already has.
pub fn merge_ims_validators(incoming: &HeaderMap, entry: &CacheEntry, fwd: &mut HeaderMap)
    requires
        has_room(fields_of(*old(fwd))),
    ensures
        fields_of(*final(fwd)) == with_date(fields_of(*incoming), entry@, fields_of(*old(fwd))),
{
    match (lookup(incoming, Name::IfModifiedSince), &entry.last_modified) {
        (None, Some(p)) => {
            assign(fwd, Name::IfModifiedSince, copy_value(p));
        },
        (Some(c), Some(p)) => {
            let winner: &HeaderValue = match (parse_http_date(c), parse_http_date(p)) {
                (Some(c_secs), Some(p_secs)) => if c_secs >= p_secs {
                    c
                } else {
                    p
                },
                _ => p,
            };
            assign(fwd, Name::IfModifiedSince, copy_value(winner));
        },
        _ => {},
    }
}

// ---------------------------------------------------------------------------
// Whose copy the origin confirmed
// ---------------------------------------------------------------------------

/// The date of a header, if it is there and can be read.
pub open spec fn header_date(f: Fields, name: Seq<char>) -> Option<i64> {
    match first(f, name) {
        Some(v) => date_of(v),
        None => None,
    }
}

/// Whether an entity tag stands in one of several lists.
pub open spec fn listed_in_any(lists: Seq<Seq<u8>>, candidate: Seq<u8>) -> bool {
    exists|i: int| 0 <= i < lists.len() && listed(#[trigger] lists[i], candidate)
}

/// Whether an origin's 304 confirms the client's own copy.
///
/// Where the 304 has an `ETag`, that tag has to stand in one of the client's
/// `If-None-Match` lines. Where it has none, its `Last-Modified` may not be
/// later than the client's `If-Modified-Since`. Without usable validators it
/// does not.
pub open spec fn confirms_client(client: Fields, up304: Fields) -> bool {
    match first(up304, "etag"@) {
        Some(returned) => listed_in_any(values(client, "if-none-match"@), returned),
        None => match (header_date(client, "if-modified-since"@), header_date(up304, "last-modified"@)) {
            (Some(c), Some(l)) => l <= c,
            _ => false,
        },
    }
}

/// Whether `candidate` appears in one of the lists.
fn any_list_contains(lists: &Vec<HeaderValue>, candidate: &HeaderValue) -> (r: bool)
    ensures
        r == listed_in_any(value_list(lists@), value_bytes(*candidate)),
{
    let mut i: usize = 0;
    while i < lists.len()
        invariant
            i <= lists@.len(),
            forall|j: int|
                0 <= j < i ==> !listed(#[trigger] value_list(lists@)[j], value_bytes(*candidate)),
        decreases lists@.len() - i,
    {
        assert(value_list(lists@)[i as int] == value_bytes(lists@[i as int]));
        if etag_list_contains(&lists[i], candidate) {
            return true;
        }
        i += 1;
    }
    false
}

/// Decides after a 304 whether the client's own copy is current, so that it
/// gets the 304, or whether only the cached copy is, so that it gets a body.
pub fn did_client_validator_match(client: &HeaderMap, up304: &HeaderMap) -> (r: bool)
    ensures
        r == confirms_client(fields_of(*client), fields_of(*up304)),
{
    match lookup(up304, Name::Etag) {
        Some(returned) => any_list_contains(&lookup_all(client, Name::IfNoneMatch), returned),
        None => match (lookup(client, Name::IfModifiedSince), lookup(up304, Name::LastModified)) {
            (Some(c), Some(l)) => match (parse_http_date(c), parse_http_date(l)) {
                (Some(c), Some(l)) => l <= c,
                _ => false,
            },
            _ => false,
        },
    }
}

}
