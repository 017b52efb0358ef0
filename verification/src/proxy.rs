//! The decisions of a proxied request: where to look in the cache, what to ask
//! the origin, what to store and what to answer.

use axum::http::{HeaderMap, HeaderValue};
use vstd::prelude::*;
use vstd::string::StringExecFns;
use vstd::utf8::encode_utf8;
use crate::fields::{
    fields_of, first, has_room, is_plain, is_value, lemma_plain_text, name_count, new_headers, no_fields,
    number_value, parse_value, replaced, static_value, text_or_empty, value_bytes, Fields, MAX_NAMES,
};
use crate::headers::{add_via, forward_headers, via_text, with_via};
use crate::keys::{path_or_root, uncacheable, variant_key, vary_cache_key, vary_prevents_caching};
use crate::names::{assign, erase, lookup, Name};
use crate::numbers::{decimal, is_digit, law_decimal_reads_back, push_decimal};
use crate::range::{read_range, requested, RangeRequest};
use crate::selection::{
    joined, lemma_joined_with_nothing, overlaid, push_selected, put_selected, select, selected, Selection,
};
use crate::store::{CacheEntry, Entry};
use crate::text::{chars_of, optional_text, same_str, text_of};
use crate::validators::{
    confirms_client, did_client_validator_match, merge_etag_validators, merge_ims_validators, with_date, with_etag,
};

verus! {

// ---------------------------------------------------------------------------
// Room for headers
// ---------------------------------------------------------------------------

/// The header names that a proxied message gets beside those it has, at most.
pub const SPARE_NAMES: usize = 8;

/// Whether fields have at most the number of names given.
pub open spec fn within(f: Fields, n: int) -> bool {
    f.dom().finite() && f.dom().len() <= n
}

/// Whether the fields of one or two messages together leave room for the
/// names that the proxy adds.
pub open spec fn have_spare_room(a: Fields, b: Fields) -> bool {
    &&& a.dom().finite()
    &&& b.dom().finite()
    &&& a.dom().len() + b.dom().len() + SPARE_NAMES <= MAX_NAMES
}

/// The headers of an entry that may be there.
pub open spec fn headers_of(cached: Option<&CacheEntry>) -> Fields {
    match cached {
        Some(entry) => fields_of(entry.headers),
        None => no_fields(),
    }
}

/// Whether the headers of a message, together with those of an entry that may
/// be there, leave room for the names that the proxy adds.
pub fn leaves_room(headers: &HeaderMap, cached: Option<&CacheEntry>) -> (r: bool)
    ensures
        r == have_spare_room(fields_of(*headers), headers_of(cached)),
{
    let m: usize = name_count(headers);
    let n: usize = match cached {
        Some(entry) => name_count(&entry.headers),
        None => 0,
    };
    m <= MAX_NAMES && n <= MAX_NAMES && m + n + SPARE_NAMES <= MAX_NAMES
}

proof fn lemma_within_selected(f: Fields, sel: Selection, n: int)
    requires
        within(f, n),
    ensures
        within(selected(f, sel), n),
{
    assert(selected(f, sel).dom().subset_of(f.dom()));
    vstd::set_lib::lemma_set_subset_finite(f.dom(), selected(f, sel).dom());
    vstd::set_lib::lemma_len_subset(selected(f, sel).dom(), f.dom());
}

proof fn lemma_within_replaced(f: Fields, name: Seq<char>, value: Seq<u8>, n: int)
    requires
        within(f, n),
    ensures
        within(replaced(f, name, value), n + 1),
{
    assert(replaced(f, name, value).dom() =~= f.dom().insert(name));
}

proof fn lemma_within_overlaid(a: Fields, b: Fields, m: int, n: int)
    requires
        within(a, m),
        within(b, n),
    ensures
        within(overlaid(a, b), m + n),
{
    assert(overlaid(a, b).dom() =~= a.dom().union(b.dom()));
    vstd::set_lib::lemma_len_union(a.dom(), b.dom());
}

// ---------------------------------------------------------------------------
// Looking in the cache
// ---------------------------------------------------------------------------

/// Whether replies to a method are looked up and stored.
pub open spec fn cacheable_method(method: Seq<char>) -> bool {
    method == "GET"@
}

/// Whether replies to a method are looked up and stored.
pub fn is_cacheable_method(method: &str) -> (r: bool)
    ensures
        r == cacheable_method(method@),
{
    let m = chars_of(method);
    same_str(m.as_slice(), "GET")
}

/// The key under which a request looks once an entry was found under its base
/// key, given the headers of that entry.
pub open spec fn refined_key(base: Seq<char>, client: Fields, found: Option<Entry>) -> Seq<char> {
    match found {
        Some(entry) => variant_key(base, client, entry.headers),
        None => base,
    }
}

/// What an entry that may be there holds.
pub open spec fn entry_view(entry: Option<&CacheEntry>) -> Option<Entry> {
    match entry {
        Some(e) => Some(e@),
        None => None,
    }
}

/// Where a request looks after its base key.
#[derive(Debug)]
pub enum Lookup {
    /// What was found under the base key is what there is.
    Done { key: String },
    /// The variant has a key of its own, under which it is looked up anew.
    Again { key: String },
}

/// Where a request looks after its base key, by the contents.
pub enum LookupStep {
    Done { key: Seq<char> },
    Again { key: Seq<char> },
}

impl View for Lookup {
    type V = LookupStep;

    open spec fn view(&self) -> LookupStep {
        match self {
            Lookup::Done { key } => LookupStep::Done { key: key@ },
            Lookup::Again { key } => LookupStep::Again { key: key@ },
        }
    }
}

/// Where a request looks after its base key, given what was found there.
pub open spec fn lookup_step(base: Seq<char>, client: Fields, found: Option<Entry>) -> LookupStep {
    let key = refined_key(base, client, found);
    if key == base {
        LookupStep::Done { key }
    } else {
        LookupStep::Again { key }
    }
}

/// Decides under which key a request looks, by the `Vary` of the entry found
/// under its base key.
pub fn refine_key(base: &str, incoming: &HeaderMap, found: Option<&CacheEntry>) -> (step: Lookup)
    ensures
        step@ == lookup_step(base@, fields_of(*incoming), entry_view(found)),
{
    match found {
        Some(entry) => {
            let key = vary_cache_key(base, incoming, &entry.headers);
            let k = chars_of(key.as_str());
            if same_str(k.as_slice(), base) {
                Lookup::Done { key }
            } else {
                Lookup::Again { key }
            }
        },
        None => Lookup::Done { key: String::from_str(base) },
    }
}

/// The entry of an index under a key.
pub open spec fn at(index: Map<Seq<char>, Entry>, key: Seq<char>) -> Option<Entry> {
    if index.contains_key(key) {
        Some(index[key])
    } else {
        None
    }
}

/// The key and the entry that a request ends up with: what is under the base
/// key, or what is under the key that the entry found there leads to.
pub open spec fn looked_up(index: Map<Seq<char>, Entry>, base: Seq<char>, client: Fields) -> (
    Seq<char>,
    Option<Entry>,
) {
    match lookup_step(base, client, at(index, base)) {
        LookupStep::Done { key } => (key, at(index, base)),
        LookupStep::Again { key } => (key, at(index, key)),
    }
}

// ---------------------------------------------------------------------------
// Asking the origin
// ---------------------------------------------------------------------------

/// The headers that a request takes to the origin: those of the client that
/// belong to the message, with the proxy named in `Via`; without a range where
/// the whole body is wanted; and with the validators of the cached entry.
pub open spec fn forwarded(method: Seq<char>, client: Fields, cached: Option<Entry>) -> Fields {
    with_validators(
        client,
        cached,
        without_range(method, client, with_via(selected(client, Selection::EndToEnd))),
    )
}

/// The headers of a request for the whole body, where the client asks for a
/// range of a body that may be cached.
pub open spec fn without_range(method: Seq<char>, client: Fields, fwd: Fields) -> Fields {
    if cacheable_method(method) && first(client, "range"@) is Some {
        fwd.remove("range"@).remove("if-range"@)
    } else {
        fwd
    }
}

/// The headers of a request with the validators of the cached entry.
pub open spec fn with_validators(client: Fields, cached: Option<Entry>, fwd: Fields) -> Fields {
    match cached {
        Some(entry) => with_date(client, entry, with_etag(client, entry, fwd)),
        None => fwd,
    }
}

/// Builds the headers that a request takes to the origin.
pub fn forwarded_headers(method: &str, incoming: &HeaderMap, cached: Option<&CacheEntry>) -> (fwd: HeaderMap)
    requires
        have_spare_room(fields_of(*incoming), no_fields()),
    ensures
        fields_of(fwd) == forwarded(method@, fields_of(*incoming), entry_view(cached)),
{
    let ghost client = fields_of(*incoming);
    let ghost n = client.dom().len() as int;
    proof {
        lemma_within_selected(client, Selection::EndToEnd, n);
    }
    let mut fwd = forward_headers(incoming);
    proof {
        lemma_within_replaced(fields_of(fwd), "via"@, encode_utf8(via_text(fields_of(fwd))), n);
    }
    add_via(&mut fwd);
    if is_cacheable_method(method) {
        if let Some(_range) = lookup(incoming, Name::Range) {
            erase(&mut fwd, Name::Range);
            erase(&mut fwd, Name::IfRange);
        }
    }
    match cached {
        Some(entry) => {
            proof {
                lemma_within_etag(client, entry@, fields_of(fwd), n + 1);
            }
            merge_etag_validators(incoming, entry, &mut fwd);
            merge_ims_validators(incoming, entry, &mut fwd);
        },
        None => {},
    }
    fwd
}

proof fn lemma_within_etag(client: Fields, entry: Entry, fwd: Fields, n: int)
    requires
        within(fwd, n),
    ensures
        within(with_etag(client, entry, fwd), n + 1),
{
    match (first(client, "if-none-match"@), entry.etag) {
        (None, Some(p)) => lemma_within_replaced(fwd, "if-none-match"@, p, n),
        (Some(c), Some(p)) => lemma_within_replaced(
            fwd,
            "if-none-match"@,
            encode_utf8(text_or_empty(c) + ", "@ + text_or_empty(p)),
            n,
        ),
        _ => {},
    }
}

/// The address of a request at the origin: the base URL of the upstream with
/// the path and query of the request behind it.
pub fn upstream_url(upstream: &str, path_and_query: Option<&str>) -> (url: String)
    ensures
        url@ == upstream@ + path_or_root(optional_text(path_and_query)),
{
    let mut url = String::from_str(upstream);
    match path_and_query {
        Some(p) => url.append(p),
        None => url.append("/"),
    }
    url
}

// ---------------------------------------------------------------------------
// Replies
// ---------------------------------------------------------------------------

/// The body of a reply.
#[derive(Clone, Copy, PartialEq, Eq, Structural, Debug)]
pub enum ReplyBody {
    /// None.
    Empty,
    /// The origin's, as it came.
    Upstream,
    /// The whole body at hand: the cached one, or the one just downloaded.
    Whole,
    /// The bytes of the body at hand from `start` up to, but not with, `end`.
    Part { start: u64, end: u64 },
}

/// What the client gets.
#[derive(Debug)]
pub struct Reply {
    pub status: u16,
    pub headers: HeaderMap,
    pub body: ReplyBody,
}

/// The contents of a reply.
pub struct Answer {
    pub status: u16,
    pub headers: Fields,
    pub body: ReplyBody,
}

impl View for Reply {
    type V = Answer;

    open spec fn view(&self) -> Answer {
        Answer { status: self.status, headers: fields_of(self.headers), body: self.body }
    }
}

/// Whether the body of a reply came from the cache.
#[derive(Clone, Copy, PartialEq, Eq, Structural, Debug)]
pub enum CacheUse {
    Hit,
    Miss,
}

/// The text for whether the body of a reply came from the cache.
pub open spec fn cache_use_text(used: CacheUse) -> Seq<char> {
    match used {
        CacheUse::Hit => "HIT"@,
        CacheUse::Miss => "MISS"@,
    }
}

/// A cache key as a header value; a question mark where it cannot be one.
pub open spec fn key_value(key: Seq<char>) -> Seq<u8> {
    if is_value(encode_utf8(key)) {
        encode_utf8(key)
    } else {
        encode_utf8("?"@)
    }
}

/// The fields of a reply with the notes on how the cache was used.
pub open spec fn with_cache_headers(f: Fields, used: CacheUse, key: Seq<char>) -> Fields {
    replaced(
        replaced(f, "x-cache"@, encode_utf8(cache_use_text(used))),
        "x-cache-key"@,
        key_value(key),
    )
}

/// The fields of a reply with the notes on how the cache was used and the
/// proxy named in `Via`.
pub open spec fn noted(f: Fields, used: CacheUse, key: Seq<char>) -> Fields {
    with_via(with_cache_headers(f, used, key))
}

/// Notes in a reply how the cache was used.
fn set_cache_headers(dst: &mut HeaderMap, used: CacheUse, cache_key: &str)
    requires
        within(fields_of(*old(dst)), MAX_NAMES - 1),
    ensures
        fields_of(*final(dst)) == with_cache_headers(fields_of(*old(dst)), used, cache_key@),
{
    proof {
        reveal_strlit("HIT");
        reveal_strlit("MISS");
        reveal_strlit("?");
        lemma_plain_text("HIT"@);
        lemma_plain_text("MISS"@);
        lemma_plain_text("?"@);
        lemma_within_replaced(
            fields_of(*dst),
            "x-cache"@,
            encode_utf8(cache_use_text(used)),
            MAX_NAMES - 1,
        );
    }
    let note: HeaderValue = match used {
        CacheUse::Hit => static_value("HIT"),
        CacheUse::Miss => static_value("MISS"),
    };
    assign(dst, Name::XCache, note);
    let key: HeaderValue = match parse_value(cache_key) {
        Some(v) => v,
        None => static_value("?"),
    };
    assign(dst, Name::XCacheKey, key);
}

/// Notes in a reply how the cache was used, and names the proxy in `Via`.
fn note(dst: &mut HeaderMap, used: CacheUse, cache_key: &str)
    requires
        within(fields_of(*old(dst)), MAX_NAMES - 2),
    ensures
        fields_of(*final(dst)) == noted(fields_of(*old(dst)), used, cache_key@),
{
    proof {
        let f = fields_of(*dst);
        let x = encode_utf8(cache_use_text(used));
        lemma_within_replaced(f, "x-cache"@, x, MAX_NAMES - 2);
        lemma_within_replaced(replaced(f, "x-cache"@, x), "x-cache-key"@, key_value(cache_key@), MAX_NAMES - 1);
    }
    set_cache_headers(dst, used, cache_key);
    add_via(dst);
}

/// The fields of a reply that passes an origin's response on.
pub open spec fn passed_on(up: Fields, key: Seq<char>) -> Fields {
    noted(selected(up, Selection::EndToEnd), CacheUse::Miss, key)
}

fn passthrough_headers(up: &HeaderMap, cache_key: &str) -> (headers: HeaderMap)
    requires
        have_spare_room(fields_of(*up), no_fields()),
    ensures
        fields_of(headers) == passed_on(fields_of(*up), cache_key@),
{
    proof {
        lemma_within_selected(fields_of(*up), Selection::EndToEnd, MAX_NAMES - SPARE_NAMES);
    }
    let mut headers = select(up, Selection::EndToEnd);
    note(&mut headers, CacheUse::Miss, cache_key);
    headers
}

/// Stored fields with those of an origin's 304 laid over them.
pub open spec fn refreshed(stored: Fields, fresh: Fields) -> Fields {
    overlaid(stored, selected(fresh, Selection::EndToEnd))
}

/// Writes stored headers behind what is there, then lays the headers of the
/// origin's 304 that belong to the message over them (RFC 7234, section
/// 4.3.4).
pub(crate) fn apply_cached_headers(dst: &mut HeaderMap, stored: &HeaderMap, fresh_304: &HeaderMap)
    requires
        has_room(joined(fields_of(*old(dst)), selected(fields_of(*stored), Selection::Every))),
        has_room(
            refreshed(
                joined(fields_of(*old(dst)), selected(fields_of(*stored), Selection::Every)),
                fields_of(*fresh_304),
            ),
        ),
    ensures
        fields_of(*final(dst)) == refreshed(
            joined(fields_of(*old(dst)), selected(fields_of(*stored), Selection::Every)),
            fields_of(*fresh_304),
        ),
{
    push_selected(dst, stored, Selection::Every);
    put_selected(dst, fresh_304, Selection::EndToEnd);
}

/// A number as a header value.
pub open spec fn number_bytes(n: u64) -> Seq<u8> {
    encode_utf8(decimal(n as nat))
}

/// The fields of a reply with a whole cached body.
pub open spec fn cached_whole(entry: Entry, fresh: Fields, key: Seq<char>) -> Fields {
    noted(
        replaced(refreshed(entry.headers, fresh), "content-length"@, number_bytes(entry.blob_size)),
        CacheUse::Hit,
        key,
    )
}

fn cached_whole_headers(entry: &CacheEntry, up304: &HeaderMap, cache_key: &str) -> (headers: HeaderMap)
    requires
        have_spare_room(fields_of(entry.headers), fields_of(*up304)),
    ensures
        fields_of(headers) == cached_whole(entry@, fields_of(*up304), cache_key@),
{
    let ghost stored = fields_of(entry.headers);
    let ghost fresh = fields_of(*up304);
    let ghost (m, n) = (stored.dom().len() as int, fresh.dom().len() as int);
    proof {
        assert(selected(stored, Selection::Every) =~= stored);
        lemma_joined_with_nothing(stored);
        lemma_within_selected(fresh, Selection::EndToEnd, n);
        lemma_within_overlaid(stored, selected(fresh, Selection::EndToEnd), m, n);
        lemma_within_replaced(refreshed(stored, fresh), "content-length"@, number_bytes(entry.blob_size), m + n);
    }
    let mut headers = new_headers();
    apply_cached_headers(&mut headers, &entry.headers, up304);
    assign(&mut headers, Name::ContentLength, number_value(entry.blob_size));
    note(&mut headers, CacheUse::Hit, cache_key);
    headers
}

/// The text of `Content-Range` for a part of a body; the last byte counts.
pub open spec fn content_range_text(start: u64, end: u64, total: u64) -> Seq<char> {
    "bytes "@ + decimal(start as nat) + "-"@ + decimal((end - 1) as nat) + "/"@ + decimal(total as nat)
}

/// The text of `Content-Range` where a body does not have the part.
pub open spec fn unsatisfied_range_text(total: u64) -> Seq<char> {
    "bytes */"@ + decimal(total as nat)
}

/// The fields of a reply with a part of a body, from those of the whole.
pub open spec fn part_of(base: Fields, start: u64, end: u64, total: u64) -> Fields {
    replaced(
        replaced(
            replaced(
                selected(base, Selection::EndToEndPart),
                "content-range"@,
                encode_utf8(content_range_text(start, end, total)),
            ),
            "content-length"@,
            number_bytes((end - start) as u64),
        ),
        "accept-ranges"@,
        encode_utf8("bytes"@),
    )
}

proof fn lemma_decimal_is_plain(n: nat)
    ensures
        is_plain(decimal(n)),
{
    law_decimal_reads_back(n);
    assert forall|i: int| 0 <= i < decimal(n).len() implies #[trigger] decimal(n)[i] == '\t' || (' '
        <= decimal(n)[i] && decimal(n)[i] <= '~') by {
        assert(is_digit(decimal(n)[i]));
    }
}

fn content_range(start: u64, end: u64, total: u64) -> (value: HeaderValue)
    requires
        start < end,
    ensures
        value_bytes(value) == encode_utf8(content_range_text(start, end, total)),
{
    let mut s = String::from_str("bytes ");
    push_decimal(&mut s, start);
    s.append("-");
    push_decimal(&mut s, end - 1);
    s.append("/");
    push_decimal(&mut s, total);
    proof {
        reveal_strlit("bytes ");
        reveal_strlit("-");
        reveal_strlit("/");
        reveal_strlit("?");
        lemma_decimal_is_plain(start as nat);
        lemma_decimal_is_plain((end - 1) as nat);
        lemma_decimal_is_plain(total as nat);
        assert(s@ == content_range_text(start, end, total));
        assert(is_plain(s@));
        lemma_plain_text(s@);
        lemma_plain_text("?"@);
    }
    match parse_value(s.as_str()) {
        Some(v) => v,
        None => static_value("?"),
    }
}

fn unsatisfied_range(total: u64) -> (value: HeaderValue)
    ensures
        value_bytes(value) == encode_utf8(unsatisfied_range_text(total)),
{
    let mut s = String::from_str("bytes */");
    push_decimal(&mut s, total);
    proof {
        reveal_strlit("bytes */");
        reveal_strlit("?");
        lemma_decimal_is_plain(total as nat);
        assert(is_plain(s@));
        lemma_plain_text(s@);
        lemma_plain_text("?"@);
    }
    match parse_value(s.as_str()) {
        Some(v) => v,
        None => static_value("?"),
    }
}

proof fn lemma_within_part(base: Fields, start: u64, end: u64, total: u64, n: int)
    requires
        within(base, n),
    ensures
        within(part_of(base, start, end, total), n + 3),
{
    let a = selected(base, Selection::EndToEndPart);
    let b = replaced(a, "content-range"@, encode_utf8(content_range_text(start, end, total)));
    let c = replaced(b, "content-length"@, number_bytes((end - start) as u64));
    lemma_within_selected(base, Selection::EndToEndPart, n);
    lemma_within_replaced(a, "content-range"@, encode_utf8(content_range_text(start, end, total)), n);
    lemma_within_replaced(b, "content-length"@, number_bytes((end - start) as u64), n + 1);
    lemma_within_replaced(c, "accept-ranges"@, encode_utf8("bytes"@), n + 2);
}

fn part_headers(base_headers: &HeaderMap, start: u64, end: u64, total: u64) -> (headers: HeaderMap)
    requires
        have_spare_room(fields_of(*base_headers), no_fields()),
        start < end,
    ensures
        fields_of(headers) == part_of(fields_of(*base_headers), start, end, total),
{
    let ghost base = fields_of(*base_headers);
    proof {
        let a = selected(base, Selection::EndToEndPart);
        let b = replaced(a, "content-range"@, encode_utf8(content_range_text(start, end, total)));
        let n = MAX_NAMES - SPARE_NAMES;
        lemma_within_selected(base, Selection::EndToEndPart, n);
        lemma_within_replaced(a, "content-range"@, encode_utf8(content_range_text(start, end, total)), n);
        lemma_within_replaced(b, "content-length"@, number_bytes((end - start) as u64), n + 1);
        reveal_strlit("bytes");
        lemma_plain_text("bytes"@);
    }
    let mut headers = select(base_headers, Selection::EndToEndPart);
    assign(&mut headers, Name::ContentRange, content_range(start, end, total));
    assign(&mut headers, Name::ContentLength, number_value(end - start));
    assign(&mut headers, Name::AcceptRanges, static_value("bytes"));
    headers
}

/// The fields of a reply with a part of a cached body.
pub open spec fn cached_part(entry: Entry, fresh: Fields, start: u64, end: u64, key: Seq<char>) -> Fields {
    noted(refreshed(part_of(entry.headers, start, end, entry.blob_size), fresh), CacheUse::Hit, key)
}

fn cached_part_headers(entry: &CacheEntry, up304: &HeaderMap, start: u64, end: u64, cache_key: &str) -> (headers:
    HeaderMap)
    requires
        have_spare_room(fields_of(entry.headers), fields_of(*up304)),
        start < end,
    ensures
        fields_of(headers) == cached_part(entry@, fields_of(*up304), start, end, cache_key@),
{
    let ghost stored = fields_of(entry.headers);
    let ghost fresh = fields_of(*up304);
    let ghost (m, n) = (stored.dom().len() as int, fresh.dom().len() as int);
    proof {
        lemma_within_part(stored, start, end, entry.blob_size, m);
        lemma_within_selected(fresh, Selection::EndToEnd, n);
        lemma_within_overlaid(
            part_of(stored, start, end, entry.blob_size),
            selected(fresh, Selection::EndToEnd),
            m + 3,
            n,
        );
    }
    let mut headers = part_headers(&entry.headers, start, end, entry.blob_size);
    put_selected(&mut headers, up304, Selection::EndToEnd);
    note(&mut headers, CacheUse::Hit, cache_key);
    headers
}

/// The reply where a body does not have the range asked for.
pub open spec fn not_satisfiable(total: u64, used: CacheUse, key: Seq<char>) -> Answer {
    Answer {
        status: 416,
        headers: noted(
            replaced(no_fields(), "content-range"@, encode_utf8(unsatisfied_range_text(total))),
            used,
            key,
        ),
        body: ReplyBody::Empty,
    }
}

fn refuse_range(total: u64, used: CacheUse, cache_key: &str) -> (reply: Reply)
    ensures
        reply@ == not_satisfiable(total, used, cache_key@),
{
    let mut headers = new_headers();
    proof {
        lemma_within_replaced(no_fields(), "content-range"@, encode_utf8(unsatisfied_range_text(total)), 0);
    }
    assign(&mut headers, Name::ContentRange, unsatisfied_range(total));
    note(&mut headers, used, cache_key);
    Reply { status: 416, headers, body: ReplyBody::Empty }
}

// ---------------------------------------------------------------------------
// What the origin's response leads to
// ---------------------------------------------------------------------------

/// What follows the head of an origin's response.
#[derive(Debug)]
pub enum Next {
    /// Answer the client.
    Answer(Reply),
    /// Take the whole body in first.
    Download,
}

/// What follows the head of an origin's response, by its contents.
pub enum NextStep {
    Answer(Answer),
    Download,
}

impl View for Next {
    type V = NextStep;

    open spec fn view(&self) -> NextStep {
        match self {
            Next::Answer(r) => NextStep::Answer(r@),
            Next::Download => NextStep::Download,
        }
    }
}

/// The reply with a whole cached body.
pub open spec fn whole_from_cache(entry: Entry, fresh: Fields, key: Seq<char>) -> Answer {
    Answer { status: 200, headers: cached_whole(entry, fresh, key), body: ReplyBody::Whole }
}

/// The reply from a cached body that the origin has confirmed: the whole body,
/// or the range that the client asks for. More than one range gives the whole
/// body.
pub open spec fn served_from_cache(client: Fields, entry: Entry, fresh: Fields, key: Seq<char>) -> Answer {
    match first(client, "range"@) {
        Some(range) => match requested(range, entry.blob_size) {
            RangeRequest::Part { start, end } => Answer {
                status: 206,
                headers: cached_part(entry, fresh, start, end, key),
                body: ReplyBody::Part { start, end },
            },
            RangeRequest::Several => whole_from_cache(entry, fresh, key),
            _ => not_satisfiable(entry.blob_size, CacheUse::Hit, key),
        },
        None => whole_from_cache(entry, fresh, key),
    }
}

/// The reply that passes a 304 on.
pub open spec fn unmodified(up: Fields, key: Seq<char>) -> Answer {
    Answer { status: 304, headers: passed_on(up, key), body: ReplyBody::Empty }
}

/// What follows the head of an origin's response.
///
/// A 304 goes to the client where it confirms the client's own copy, or where
/// nothing is cached. Any other 304 confirms the cached copy, which is served.
/// The body of a 200 to a cacheable request is taken in. Everything else is
/// passed on as it is.
pub open spec fn next_step(
    method: Seq<char>,
    status: u16,
    client: Fields,
    up: Fields,
    cached: Option<Entry>,
    key: Seq<char>,
) -> NextStep {
    if status == 304 {
        match cached {
            Some(entry) => if confirms_client(client, up) {
                NextStep::Answer(unmodified(up, key))
            } else {
                NextStep::Answer(served_from_cache(client, entry, up, key))
            },
            None => NextStep::Answer(unmodified(up, key)),
        }
    } else if cacheable_method(method) && status == 200 {
        NextStep::Download
    } else {
        NextStep::Answer(
            Answer { status, headers: passed_on(up, key), body: ReplyBody::Upstream },
        )
    }
}

fn serve_whole(entry: &CacheEntry, up304: &HeaderMap, cache_key: &str) -> (reply: Reply)
    requires
        have_spare_room(fields_of(entry.headers), fields_of(*up304)),
    ensures
        reply@ == whole_from_cache(entry@, fields_of(*up304), cache_key@),
{
    Reply { status: 200, headers: cached_whole_headers(entry, up304, cache_key), body: ReplyBody::Whole }
}

fn serve_from_cache(incoming: &HeaderMap, entry: &CacheEntry, up304: &HeaderMap, cache_key: &str) -> (reply: Reply)
    requires
        have_spare_room(fields_of(entry.headers), fields_of(*up304)),
    ensures
        reply@ == served_from_cache(fields_of(*incoming), entry@, fields_of(*up304), cache_key@),
{
    match lookup(incoming, Name::Range) {
        Some(range) => match read_range(range, entry.blob_size) {
            RangeRequest::Part { start, end } => Reply {
                status: 206,
                headers: cached_part_headers(entry, up304, start, end, cache_key),
                body: ReplyBody::Part { start, end },
            },
            RangeRequest::Several => serve_whole(entry, up304, cache_key),
            RangeRequest::BeyondEnd => refuse_range(entry.blob_size, CacheUse::Hit, cache_key),
            RangeRequest::Malformed => refuse_range(entry.blob_size, CacheUse::Hit, cache_key),
        },
        None => serve_whole(entry, up304, cache_key),
    }
}

/// Decides what follows the head of an origin's response.
pub fn on_response(
    method: &str,
    status: u16,
    incoming: &HeaderMap,
    up_headers: &HeaderMap,
    cached: Option<&CacheEntry>,
    cache_key: &str,
) -> (next: Next)
    requires
        have_spare_room(fields_of(*up_headers), headers_of(cached)),
    ensures
        next@ == next_step(
            method@,
            status,
            fields_of(*incoming),
            fields_of(*up_headers),
            entry_view(cached),
            cache_key@,
        ),
{
    if status == 304 {
        match cached {
            Some(entry) => {
                if !did_client_validator_match(incoming, up_headers) {
                    return Next::Answer(serve_from_cache(incoming, entry, up_headers, cache_key));
                }
            },
            None => {},
        }
        Next::Answer(
            Reply {
                status: 304,
                headers: passthrough_headers(up_headers, cache_key),
                body: ReplyBody::Empty,
            },
        )
    } else if is_cacheable_method(method) && status == 200 {
        Next::Download
    } else {
        Next::Answer(
            Reply { status, headers: passthrough_headers(up_headers, cache_key), body: ReplyBody::Upstream },
        )
    }
}

// ---------------------------------------------------------------------------
// What a downloaded body leads to
// ---------------------------------------------------------------------------

/// What becomes of a downloaded body in the cache.
#[derive(Debug)]
pub enum StorePlan {
    /// It is stored under a key, and also under the key that the request
    /// looked under where that is another one.
    Store { key: String, also: Option<String> },
    /// The response's `Vary` makes caching unsafe.
    VaryPrevents,
    /// The body is too large.
    TooLarge,
}

/// What becomes of a downloaded body in the cache, by its contents.
pub enum Storing {
    Store { key: Seq<char>, also: Option<Seq<char>> },
    VaryPrevents,
    TooLarge,
}

impl View for StorePlan {
    type V = Storing;

    open spec fn view(&self) -> Storing {
        match self {
            StorePlan::Store { key, also } => Storing::Store { key: key@, also: text_of(*also) },
            StorePlan::VaryPrevents => Storing::VaryPrevents,
            StorePlan::TooLarge => Storing::TooLarge,
        }
    }
}

/// What becomes of a downloaded body in the cache: it is stored under the key
/// of the variant that the request asked for, unless its `Vary` forbids that
/// or it is too large.
///
/// Where the request had looked under another key, the body is also stored
/// there. For the first variant of a resource that is the base key, so that
/// the next request learns by which headers variants are told apart. A later
/// variant, which was led to its own key, leaves the base key alone.
pub open spec fn storing(
    base: Seq<char>,
    cache_key: Seq<char>,
    client: Fields,
    up: Fields,
    size: u64,
    max_size: u64,
) -> Storing {
    let key = variant_key(base, client, up);
    if uncacheable(up) {
        Storing::VaryPrevents
    } else if size > max_size {
        Storing::TooLarge
    } else {
        Storing::Store {
            key,
            also: if key == cache_key {
                None
            } else {
                Some(cache_key)
            },
        }
    }
}

/// Decides what becomes of a downloaded body in the cache, given the base key
/// of the request and the key that it looked under.
pub fn store_plan(
    base: &str,
    cache_key: &str,
    incoming: &HeaderMap,
    up_headers: &HeaderMap,
    size: u64,
    max_size: u64,
) -> (plan: StorePlan)
    ensures
        plan@ == storing(base@, cache_key@, fields_of(*incoming), fields_of(*up_headers), size, max_size),
{
    if vary_prevents_caching(up_headers) {
        return StorePlan::VaryPrevents;
    }
    if size > max_size {
        return StorePlan::TooLarge;
    }
    let key = vary_cache_key(base, incoming, up_headers);
    let k = chars_of(key.as_str());
    let also: Option<String> = if same_str(k.as_slice(), cache_key) {
        None
    } else {
        Some(String::from_str(cache_key))
    };
    StorePlan::Store { key, also }
}

/// The reply with a whole downloaded body.
pub open spec fn whole_download(up: Fields, size: u64, key: Seq<char>) -> Answer {
    Answer {
        status: 200,
        headers: noted(
            replaced(selected(up, Selection::EndToEnd), "content-length"@, number_bytes(size)),
            CacheUse::Miss,
            key,
        ),
        body: ReplyBody::Whole,
    }
}

/// The reply from a downloaded body: the whole body, or the range that the
/// client asks for. More than one range, or what cannot be read as one, gives
/// the whole body.
pub open spec fn served_from_download(client: Fields, up: Fields, size: u64, key: Seq<char>) -> Answer {
    match first(client, "range"@) {
        Some(range) => match requested(range, size) {
            RangeRequest::Part { start, end } => Answer {
                status: 206,
                headers: noted(part_of(up, start, end, size), CacheUse::Miss, key),
                body: ReplyBody::Part { start, end },
            },
            RangeRequest::BeyondEnd => not_satisfiable(size, CacheUse::Miss, key),
            _ => whole_download(up, size, key),
        },
        None => whole_download(up, size, key),
    }
}

/// Builds the reply from a body that was just downloaded.
pub fn download_reply(incoming: &HeaderMap, up_headers: &HeaderMap, size: u64, cache_key: &str) -> (reply: Reply)
    requires
        have_spare_room(fields_of(*up_headers), no_fields()),
    ensures
        reply@ == served_from_download(fields_of(*incoming), fields_of(*up_headers), size, cache_key@),
{
    match lookup(incoming, Name::Range) {
        Some(range) => match read_range(range, size) {
            RangeRequest::Part { start, end } => {
                proof {
                    lemma_within_part(fields_of(*up_headers), start, end, size, MAX_NAMES - SPARE_NAMES);
                }
                let mut headers = part_headers(up_headers, start, end, size);
                note(&mut headers, CacheUse::Miss, cache_key);
                return Reply { status: 206, headers, body: ReplyBody::Part { start, end } };
            },
            RangeRequest::BeyondEnd => return refuse_range(size, CacheUse::Miss, cache_key),
            RangeRequest::Several => {},
            RangeRequest::Malformed => {},
        },
        None => {},
    }
    proof {
        let n = MAX_NAMES - SPARE_NAMES;
        lemma_within_selected(fields_of(*up_headers), Selection::EndToEnd, n);
        lemma_within_replaced(
            selected(fields_of(*up_headers), Selection::EndToEnd),
            "content-length"@,
            number_bytes(size),
            n,
        );
    }
    let mut headers = select(up_headers, Selection::EndToEnd);
    assign(&mut headers, Name::ContentLength, number_value(size));
    note(&mut headers, CacheUse::Miss, cache_key);
    Reply { status: 200, headers, body: ReplyBody::Whole }
}

}
