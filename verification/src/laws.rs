//! What holds of the proxy as a whole: of a request from the lookup to the
//! reply, and of one request after another.

use vstd::prelude::*;
use vstd::utf8::encode_utf8;
use crate::date::date_of;
use crate::fields::{
    chars, combined, first, is_plain, is_text, lemma_combined_is_plain, lemma_combined_lists_all, lemma_plain_text,
    lemma_text_is_plain, no_fields, replaced, text_or_empty, values, Fields,
};
use crate::headers::{via_text, via_token, with_via};
use crate::key_laws::law_credentials_are_never_in_a_key;
use crate::keys::{keyed_names, uncacheable, variant_key, varies_on_everything, vary_names, vary_text};
use crate::proxy::{
    at, cache_use_text, cacheable_method, content_range_text, forwarded, key_value, looked_up, next_step, noted,
    number_bytes, part_of, refreshed, served_from_cache, served_from_download, storing, unsatisfied_range_text,
    with_cache_headers, with_validators, without_range, Answer, CacheUse, NextStep, ReplyBody, Storing,
};
use crate::range::{requested, RangeRequest};
use crate::selection::{hop_by_hop, selected, unsafe_to_store, Selection};
use crate::store::{entry_of, Entry};
use crate::text::{lemma_members_of_both, lemma_single_piece, list_members, split, starts_with, trim, CharClass};
use crate::validators::{bare_etag, confirms_client, listed};

verus! {

// ---------------------------------------------------------------------------
// The origin decides
// ---------------------------------------------------------------------------

/// A body is served from the cache only where the origin has answered this
/// very request with a 304, and something is cached for it.
pub proof fn law_cached_bodies_need_the_origin(
    method: Seq<char>,
    status: u16,
    client: Fields,
    up: Fields,
    cached: Option<Entry>,
    key: Seq<char>,
)
    ensures
        next_step(method, status, client, up, cached, key) matches NextStep::Answer(a) && (a.body is Whole
            || a.body is Part) ==> status == 304 && cached is Some && !confirms_client(client, up),
{
}

/// What the origin answers with anything but a 304, or a 200 to a cacheable
/// request, goes to the client with that status and that body: a client that
/// the origin refuses is refused.
pub proof fn law_other_answers_are_passed_on(
    method: Seq<char>,
    status: u16,
    client: Fields,
    up: Fields,
    cached: Option<Entry>,
    key: Seq<char>,
    name: Seq<char>,
)
    requires
        status != 304,
        !(cacheable_method(method) && status == 200),
    ensures
        next_step(method, status, client, up, cached, key) matches NextStep::Answer(a) && a.status == status && a.body
            == ReplyBody::Upstream && (hop_by_hop(name) || is_note(name) || values(a.headers, name) == values(up, name)),
{
    lemma_noted(selected(up, Selection::EndToEnd), CacheUse::Miss, key, name);
}

/// A 304 that confirms the client's own copy goes to the client without a
/// body; one that confirms only the cached copy becomes a 200 with that copy,
/// or a part of it where the client asks for a range.
pub proof fn law_confirmed_copies_decide_the_reply(
    method: Seq<char>,
    client: Fields,
    up: Fields,
    entry: Entry,
    key: Seq<char>,
)
    ensures
        next_step(method, 304, client, up, Some(entry), key) matches NextStep::Answer(a) && {
            &&& confirms_client(client, up) ==> a.status == 304 && a.body == ReplyBody::Empty
            &&& !confirms_client(client, up) && first(client, "range"@) is None ==> a.status == 200 && a.body
                == ReplyBody::Whole
            &&& !confirms_client(client, up) && (first(client, "range"@) matches Some(r) && requested(
                r,
                entry.blob_size,
            ) is Part) ==> a.status == 206 && a.body is Part
        },
        next_step(method, 304, client, up, None, key) matches NextStep::Answer(a) && a.status == 304 && a.body
            == ReplyBody::Empty,
{
}

/// Whether a header is one that the proxy writes on every reply.
pub open spec fn is_note(name: Seq<char>) -> bool {
    name == "x-cache"@ || name == "x-cache-key"@ || name == "via"@
}

proof fn lemma_note_names()
    ensures
        "x-cache"@ != "x-cache-key"@,
        "x-cache"@ != "via"@,
        "x-cache-key"@ != "via"@,
{
    reveal_strlit("x-cache");
    reveal_strlit("x-cache-key");
    reveal_strlit("via");
    assert("x-cache"@.len() != "x-cache-key"@.len());
    assert("x-cache"@.len() != "via"@.len());
}

proof fn lemma_noted(f: Fields, used: CacheUse, key: Seq<char>, name: Seq<char>)
    ensures
        !is_note(name) ==> values(noted(f, used, key), name) == values(f, name),
        !is_note(name) ==> noted(f, used, key).contains_key(name) == f.contains_key(name),
        first(noted(f, used, key), "x-cache"@) == Some(encode_utf8(cache_use_text(used))),
        first(noted(f, used, key), "x-cache-key"@) == Some(key_value(key)),
        first(noted(f, used, key), "via"@) == Some(encode_utf8(via_text(f))),
{
    lemma_note_names();
    let g = with_cache_headers(f, used, key);
    assert(values(g, "via"@) == values(f, "via"@));
}

/// Only bodies of 200 answers to cacheable requests are taken in, and so may
/// be stored.
pub proof fn law_only_full_answers_are_stored(
    method: Seq<char>,
    status: u16,
    client: Fields,
    up: Fields,
    cached: Option<Entry>,
    key: Seq<char>,
)
    ensures
        next_step(method, status, client, up, cached, key) is Download <==> method == "GET"@ && status == 200,
{
}

/// Every reply names the proxy in `Via`, and says whether the body came from
/// the cache and under which key it was looked for.
pub proof fn law_replies_are_noted(
    method: Seq<char>,
    status: u16,
    client: Fields,
    up: Fields,
    cached: Option<Entry>,
    key: Seq<char>,
    size: u64,
)
    ensures
        next_step(method, status, client, up, cached, key) matches NextStep::Answer(a) ==> is_noted(
            a,
            if status == 304 && cached is Some && !confirms_client(client, up) {
                CacheUse::Hit
            } else {
                CacheUse::Miss
            },
            key,
        ),
        is_noted(served_from_download(client, up, size, key), CacheUse::Miss, key),
{
    let step = next_step(method, status, client, up, cached, key);
    match step {
        NextStep::Answer(a) => {
            match cached {
                Some(entry) => {
                    lemma_cached_is_noted(client, entry, up, key);
                },
                None => {},
            }
            lemma_is_noted(selected(up, Selection::EndToEnd), CacheUse::Miss, key);
        },
        NextStep::Download => {},
    }
    lemma_download_is_noted(client, up, size, key);
}

/// Whether a reply carries the notes of the proxy.
pub open spec fn is_noted(a: Answer, used: CacheUse, key: Seq<char>) -> bool {
    &&& first(a.headers, "x-cache"@) == Some(encode_utf8(cache_use_text(used)))
    &&& first(a.headers, "x-cache-key"@) == Some(key_value(key))
    &&& first(a.headers, "via"@) matches Some(via) && names_proxy(via)
}

/// Whether the last entry of a `Via` value is the proxy.
pub open spec fn names_proxy(via: Seq<u8>) -> bool {
    is_text(via) && chars(via).len() >= via_token().len() && chars(via).skip(
        chars(via).len() - via_token().len(),
    ) == via_token()
}

proof fn lemma_via_names_proxy(f: Fields)
    ensures
        names_proxy(encode_utf8(via_text(f))),
{
    let t = via_text(f);
    let token = via_token();
    reveal_strlit("1.1 relaycache");
    reveal_strlit(", ");
    lemma_combined_is_plain(values(f, "via"@));
    assert(is_plain(token));
    assert(is_plain(t));
    lemma_plain_text(t);
    assert(t.skip(t.len() - token.len()) =~= token);
}

proof fn lemma_is_noted(f: Fields, used: CacheUse, key: Seq<char>)
    ensures
        first(noted(f, used, key), "x-cache"@) == Some(encode_utf8(cache_use_text(used))),
        first(noted(f, used, key), "x-cache-key"@) == Some(key_value(key)),
        first(noted(f, used, key), "via"@) matches Some(via) && names_proxy(via),
{
    lemma_noted(f, used, key, "via"@);
    lemma_via_names_proxy(f);
}

proof fn lemma_cached_is_noted(client: Fields, entry: Entry, up: Fields, key: Seq<char>)
    ensures
        is_noted(served_from_cache(client, entry, up, key), CacheUse::Hit, key),
{
    lemma_is_noted(
        replaced(
            refreshed(entry.headers, up),
            "content-length"@,
            number_bytes(entry.blob_size),
        ),
        CacheUse::Hit,
        key,
    );
    lemma_is_noted(
        replaced(
            no_fields(),
            "content-range"@,
            encode_utf8(unsatisfied_range_text(entry.blob_size)),
        ),
        CacheUse::Hit,
        key,
    );
    match first(client, "range"@) {
        Some(range) => match requested(range, entry.blob_size) {
            RangeRequest::Part { start, end } => {
                lemma_is_noted(
                    refreshed(part_of(entry.headers, start, end, entry.blob_size), up),
                    CacheUse::Hit,
                    key,
                );
            },
            _ => {},
        },
        None => {},
    }
}

proof fn lemma_download_is_noted(client: Fields, up: Fields, size: u64, key: Seq<char>)
    ensures
        is_noted(served_from_download(client, up, size, key), CacheUse::Miss, key),
{
    lemma_is_noted(
        replaced(selected(up, Selection::EndToEnd), "content-length"@, number_bytes(size)),
        CacheUse::Miss,
        key,
    );
    lemma_is_noted(
        replaced(no_fields(), "content-range"@, encode_utf8(unsatisfied_range_text(size))),
        CacheUse::Miss,
        key,
    );
    match first(client, "range"@) {
        Some(range) => match requested(range, size) {
            RangeRequest::Part { start, end } => {
                lemma_is_noted(part_of(up, start, end, size), CacheUse::Miss, key);
            },
            _ => {},
        },
        None => {},
    }
}

// ---------------------------------------------------------------------------
// What reaches the origin
// ---------------------------------------------------------------------------

/// Whether a header of a request is one that the proxy may rewrite.
pub open spec fn is_rewritten(name: Seq<char>) -> bool {
    ||| name == "via"@
    ||| name == "range"@
    ||| name == "if-range"@
    ||| name == "if-none-match"@
    ||| name == "if-modified-since"@
}

proof fn lemma_validators_keep(client: Fields, cached: Option<Entry>, fwd: Fields, name: Seq<char>)
    requires
        name != "if-none-match"@,
        name != "if-modified-since"@,
    ensures
        values(with_validators(client, cached, fwd), name) == values(fwd, name),
        with_validators(client, cached, fwd).contains_key(name) == fwd.contains_key(name),
{
}

/// Every header of the client that belongs to the message reaches the origin
/// with all its values, credentials and cookies among them; only `Via`, the
/// range and the validators may be rewritten.
pub proof fn law_client_headers_reach_the_origin(
    method: Seq<char>,
    client: Fields,
    cached: Option<Entry>,
    name: Seq<char>,
)
    requires
        !hop_by_hop(name),
        !is_rewritten(name),
    ensures
        values(forwarded(method, client, cached), name) == values(client, name),
{
    lemma_validators_keep(
        client,
        cached,
        without_range(method, client, with_via(selected(client, Selection::EndToEnd))),
        name,
    );
}

/// No header that belongs to the client's connection reaches the origin, and
/// the proxy is named in `Via`.
pub proof fn law_connection_headers_stay(method: Seq<char>, client: Fields, cached: Option<Entry>, name: Seq<char>)
    requires
        hop_by_hop(name),
    ensures
        !forwarded(method, client, cached).contains_key(name),
        first(forwarded(method, client, cached), "via"@) matches Some(via) && names_proxy(via),
{
    lemma_hop_names(name);
    lemma_request_names();
    let own = selected(client, Selection::EndToEnd);
    let fwd = without_range(method, client, with_via(own));
    lemma_validators_keep(client, cached, fwd, name);
    lemma_validators_keep(client, cached, fwd, "via"@);
    lemma_via_names_proxy(own);
}

proof fn lemma_hop_names(name: Seq<char>)
    requires
        hop_by_hop(name),
    ensures
        !is_rewritten(name),
        !is_note(name),
        name != "content-length"@,
        name != "content-range"@,
        name != "accept-ranges"@,
        unsafe_to_store(name),
{
    reveal_strlit("connection");
    reveal_strlit("keep-alive");
    reveal_strlit("proxy-authenticate");
    reveal_strlit("proxy-authorization");
    reveal_strlit("te");
    reveal_strlit("trailers");
    reveal_strlit("transfer-encoding");
    reveal_strlit("upgrade");
    reveal_strlit("via");
    reveal_strlit("range");
    reveal_strlit("if-range");
    reveal_strlit("if-none-match");
    reveal_strlit("if-modified-since");
    reveal_strlit("x-cache");
    reveal_strlit("x-cache-key");
    reveal_strlit("content-length");
    reveal_strlit("content-range");
    reveal_strlit("accept-ranges");
    let c = name[0];
    assert(c == 'c' || c == 'k' || c == 'p' || c == 't' || c == 'u');
    assert("via"@[0] == 'v' && "range"@[0] == 'r' && "if-range"@[0] == 'i' && "if-none-match"@[0] == 'i'
        && "if-modified-since"@[0] == 'i' && "x-cache"@[0] == 'x' && "x-cache-key"@[0] == 'x'
        && "accept-ranges"@[0] == 'a');
    assert("content-length"@[3] == 't' && "content-range"@[3] == 't');
    if c == 'c' {
        assert(name[3] == 'n');
    }
}

proof fn lemma_request_names()
    ensures
        "via"@ != "range"@,
        "via"@ != "if-range"@,
        "via"@ != "if-none-match"@,
        "via"@ != "if-modified-since"@,
        "range"@ != "if-none-match"@,
        "range"@ != "if-modified-since"@,
        "range"@ != "if-range"@,
        "if-range"@ != "if-none-match"@,
        "if-range"@ != "if-modified-since"@,
        "if-none-match"@ != "if-modified-since"@,
{
    reveal_strlit("via");
    reveal_strlit("range");
    reveal_strlit("if-range");
    reveal_strlit("if-none-match");
    reveal_strlit("if-modified-since");
    assert("via"@.len() == 3 && "range"@.len() == 5 && "if-range"@.len() == 8 && "if-none-match"@.len() == 13
        && "if-modified-since"@.len() == 17);
}

/// A cacheable request with a range goes to the origin without it: the origin
/// is asked for the whole body.
pub proof fn law_ranges_do_not_reach_the_origin(method: Seq<char>, client: Fields, cached: Option<Entry>)
    requires
        cacheable_method(method),
        first(client, "range"@) is Some,
    ensures
        !forwarded(method, client, cached).contains_key("range"@),
        !forwarded(method, client, cached).contains_key("if-range"@),
{
    lemma_request_names();
    let fwd = without_range(method, client, with_via(selected(client, Selection::EndToEnd)));
    lemma_validators_keep(client, cached, fwd, "range"@);
    lemma_validators_keep(client, cached, fwd, "if-range"@);
}

/// With a cached date, the date that the origin is asked about is the later
/// one of the client's and the cached one.
pub proof fn law_later_date_is_forwarded(method: Seq<char>, client: Fields, entry: Entry)
    requires
        entry.last_modified is Some,
    ensures
        first(forwarded(method, client, Some(entry)), "if-modified-since"@) matches Some(sent) && {
            let cached = entry.last_modified.unwrap();
            match first(client, "if-modified-since"@) {
                Some(own) => match (date_of(own), date_of(cached)) {
                    (Some(c), Some(p)) => (sent == own || sent == cached) && date_of(sent) == Some(
                        if c >= p {
                            c
                        } else {
                            p
                        },
                    ),
                    _ => sent == cached,
                },
                None => sent == cached,
            }
        },
{
    lemma_request_names();
}

// ---------------------------------------------------------------------------
// Entity tags
// ---------------------------------------------------------------------------

/// A weak tag and the strong tag of the same text count as the same.
pub proof fn law_weak_tags_match_strong_ones(tag: Seq<char>)
    requires
        !starts_with(tag, "W/"@),
    ensures
        bare_etag("W/"@ + tag) == bare_etag(tag),
{
    reveal_strlit("W/");
    let weak = "W/"@ + tag;
    assert(weak.take(2) =~= "W/"@);
    assert(weak.skip(2) =~= tag);
}

/// Whether an entity tag is one tag of plain text, without white space around
/// it.
pub open spec fn is_single_tag(tag: Seq<u8>) -> bool {
    is_text(tag) && !chars(tag).contains(',') && trim(chars(tag), CharClass::Blank) == chars(tag)
}

/// The entity tags that the origin is asked about include the cached one and
/// those of the client, on whichever line of `If-None-Match` they stand: it
/// can confirm either copy.
pub proof fn law_both_tags_are_asked_about(
    method: Seq<char>,
    client: Fields,
    entry: Entry,
    line: int,
    tag: Seq<u8>,
)
    requires
        entry.etag matches Some(cached) && is_single_tag(cached),
    ensures
        first(forwarded(method, client, Some(entry)), "if-none-match"@) matches Some(sent) && {
            let lines = values(client, "if-none-match"@);
            &&& listed(sent, entry.etag.unwrap())
            &&& 0 <= line < lines.len() && is_text(lines[line]) && listed(lines[line], tag) ==> listed(sent, tag)
        },
{
    let lines = values(client, "if-none-match"@);
    let cached = entry.etag.unwrap();
    let fwd = without_range(method, client, with_via(selected(client, Selection::EndToEnd)));
    lemma_request_names();
    reveal_strlit("if-none-match");
    assert(!hop_by_hop("if-none-match"@)) by {
        if hop_by_hop("if-none-match"@) {
            lemma_hop_names("if-none-match"@);
        }
    }
    assert(values(fwd, "if-none-match"@) == lines);
    let b = chars(cached);
    lemma_single_piece(b, CharClass::Is(','));
    assert(list_members(b) =~= seq![b]);
    assert(list_members(b)[0] == b);
    lemma_is_listed(cached, cached, b);
    if lines.len() > 0 && lines != seq![cached] {
        let a = combined(lines);
        let merged = a + ", "@ + b;
        let sent = encode_utf8(merged);
        lemma_combined_is_plain(lines);
        lemma_text_is_plain(cached);
        reveal_strlit(", ");
        assert(is_plain(merged));
        lemma_plain_text(merged);
        lemma_members_of_both(a, b);
        let (front, all) = (list_members(a), list_members(merged));
        assert(all[front.len() as int] == b);
        assert(all.contains(b));
        lemma_is_listed(sent, cached, b);
        if 0 <= line < lines.len() && is_text(lines[line]) && listed(lines[line], tag) {
            let tags = split(chars(lines[line]), CharClass::Is(','));
            let i = choose|i: int|
                0 <= i < tags.len() && bare_etag(trim(#[trigger] tags[i], CharClass::Blank)) == bare_etag(
                    text_or_empty(tag),
                );
            let member = list_members(chars(lines[line]))[i];
            assert(list_members(chars(lines[line])).contains(member));
            lemma_combined_lists_all(lines, line, member);
            let k = choose|k: int| 0 <= k < front.len() && front[k] == member;
            assert(all[k] == member);
            assert(all.contains(member));
            lemma_is_listed(sent, tag, member);
        }
    }
}

/// A tag is listed where a member of the list has the same bare form.
proof fn lemma_is_listed(list: Seq<u8>, tag: Seq<u8>, member: Seq<char>)
    requires
        is_text(list),
        list_members(chars(list)).contains(member),
        bare_etag(member) == bare_etag(text_or_empty(tag)),
    ensures
        listed(list, tag),
{
    let members = list_members(chars(list));
    let k = choose|k: int| 0 <= k < members.len() && members[k] == member;
    let tags = split(text_or_empty(list), CharClass::Is(','));
    assert(trim(tags[k], CharClass::Blank) == members[k]);
    assert(bare_etag(trim(tags[k], CharClass::Blank)) == bare_etag(text_or_empty(tag)));
}

// ---------------------------------------------------------------------------
// What is stored and found
// ---------------------------------------------------------------------------

/// The index of the cache after a downloaded body was dealt with.
pub open spec fn updated(index: Map<Seq<char>, Entry>, plan: Storing, entry: Entry) -> Map<Seq<char>, Entry> {
    match plan {
        Storing::Store { key, also } => match also {
            Some(base) => index.insert(key, entry).insert(base, entry),
            None => index.insert(key, entry),
        },
        _ => index,
    }
}

proof fn lemma_vary_is_stored(sha256: Seq<char>, size: u64, up: Fields)
    ensures
        vary_text(entry_of(sha256, size, up).headers) == vary_text(up),
        varies_on_everything(entry_of(sha256, size, up).headers) == varies_on_everything(up),
{
    reveal_strlit("vary");
    reveal_strlit("authorization");
    reveal_strlit("proxy-authorization");
    reveal_strlit("www-authenticate");
    reveal_strlit("proxy-authenticate");
    reveal_strlit("set-cookie");
    reveal_strlit("connection");
    reveal_strlit("keep-alive");
    reveal_strlit("te");
    reveal_strlit("trailers");
    reveal_strlit("transfer-encoding");
    reveal_strlit("upgrade");
    reveal_strlit("age");
    assert("vary"@.len() == 4);
    assert(!unsafe_to_store("vary"@));
}

/// A body that was stored is found by the next request for the same variant,
/// the request that stored it among them.
pub proof fn law_stored_bodies_are_found_again(
    index: Map<Seq<char>, Entry>,
    base: Seq<char>,
    client: Fields,
    up: Fields,
    sha256: Seq<char>,
    size: u64,
    max_size: u64,
    later: Fields,
)
    requires
        storing(base, looked_up(index, base, client).0, client, up, size, max_size) is Store,
        looked_up(index, base, later).0 == looked_up(index, base, client).0,
        variant_key(base, later, up) == variant_key(base, client, up),
    ensures
        looked_up(
            updated(
                index,
                storing(base, looked_up(index, base, client).0, client, up, size, max_size),
                entry_of(sha256, size, up),
            ),
            base,
            later,
        ).1 == Some(entry_of(sha256, size, up)),
{
    lemma_vary_is_stored(sha256, size, up);
}

/// Once a body was stored for a resource of which nothing was known, the
/// resource is known to have variants: every request is led to the key of its
/// own variant, and finds there what was there before.
pub proof fn law_first_variants_tell_the_way(
    index: Map<Seq<char>, Entry>,
    base: Seq<char>,
    client: Fields,
    up: Fields,
    sha256: Seq<char>,
    size: u64,
    max_size: u64,
    other: Fields,
)
    requires
        looked_up(index, base, client).0 == base,
        storing(base, base, client, up, size, max_size) is Store,
        variant_key(base, other, up) != variant_key(base, client, up),
    ensures
        looked_up(
            updated(index, storing(base, base, client, up, size, max_size), entry_of(sha256, size, up)),
            base,
            other,
        ) == (variant_key(base, other, up), at(index, variant_key(base, other, up))),
{
    lemma_vary_is_stored(sha256, size, up);
    lemma_variant_key_is_longer(base, client, up);
    lemma_variant_key_is_longer(base, other, up);
}

/// A variant that was looked for under its own key is stored there and nowhere
/// else: no other key changes, and with it no other request's lookup.
pub proof fn law_other_variants_are_left_alone(
    index: Map<Seq<char>, Entry>,
    base: Seq<char>,
    client: Fields,
    up: Fields,
    size: u64,
    max_size: u64,
    entry: Entry,
    other: Fields,
)
    requires
        storing(base, looked_up(index, base, client).0, client, up, size, max_size) is Store,
        looked_up(index, base, client).0 == variant_key(base, client, up),
        variant_key(base, client, up) != base,
        looked_up(index, base, other).0 != variant_key(base, client, up),
    ensures
        updated(
            index,
            storing(base, looked_up(index, base, client).0, client, up, size, max_size),
            entry,
        ) == index.insert(variant_key(base, client, up), entry),
        looked_up(index.insert(variant_key(base, client, up), entry), base, other) == looked_up(index, base, other),
{
}

proof fn lemma_variant_key_is_longer(base: Seq<char>, req: Fields, resp: Fields)
    ensures
        variant_key(base, req, resp) == base || variant_key(base, req, resp).len() > base.len(),
        variant_key(base, req, resp) == base <==> !(vary_text(resp) matches Some(vary) && !varies_on_everything(resp)
            && keyed_names(vary).len() > 0),
{
}

/// A response that varies on everything or on the credentials of the request
/// is never stored: no line of its `Vary` may be the asterisk, whatever the
/// other lines list, and `Authorization` may stand nowhere on any of them. Nor
/// is a body stored that is too large. Every other body is.
pub proof fn law_personal_and_large_bodies_are_not_stored(
    index: Map<Seq<char>, Entry>,
    base: Seq<char>,
    cache_key: Seq<char>,
    client: Fields,
    up: Fields,
    size: u64,
    max_size: u64,
    entry: Entry,
    line: int,
)
    ensures
        ({
            let after = updated(index, storing(base, cache_key, client, up, size, max_size), entry);
            let lines = values(up, "vary"@);
            &&& 0 <= line < lines.len() && is_text(lines[line]) && trim(chars(lines[line]), CharClass::Blank) == "*"@
                ==> after == index && variant_key(base, client, up) == base
            &&& 0 <= line < lines.len() && is_text(lines[line]) && vary_names(chars(lines[line])).contains(
                "authorization"@,
            ) ==> after == index
            &&& size > max_size ==> after == index
        }),
        !uncacheable(up) && size <= max_size ==> storing(base, cache_key, client, up, size, max_size) is Store,
{
    let lines = values(up, "vary"@);
    if 0 <= line < lines.len() && is_text(lines[line]) && vary_names(chars(lines[line])).contains("authorization"@) {
        let members = list_members(chars(lines[line]));
        let names = vary_names(chars(lines[line]));
        let i = choose|i: int| 0 <= i < names.len() && names[i] == "authorization"@;
        assert(members.contains(members[i]));
        lemma_combined_lists_all(lines, line, members[i]);
        let all = list_members(combined(lines));
        let k = choose|k: int| 0 <= k < all.len() && all[k] == members[i];
        assert(vary_names(combined(lines))[k] == "authorization"@);
    }
}

/// Where a request looks, and where a body is stored, does not depend on the
/// credentials of the request.
pub proof fn law_credentials_do_not_choose_entries(
    index: Map<Seq<char>, Entry>,
    base: Seq<char>,
    cache_key: Seq<char>,
    client: Fields,
    up: Fields,
    size: u64,
    max_size: u64,
    credentials: Seq<Seq<u8>>,
)
    ensures
        looked_up(index, base, client.insert("authorization"@, credentials)) == looked_up(index, base, client),
        looked_up(index, base, client.remove("authorization"@)) == looked_up(index, base, client),
        storing(base, cache_key, client.insert("authorization"@, credentials), up, size, max_size) == storing(
            base,
            cache_key,
            client,
            up,
            size,
            max_size,
        ),
        storing(base, cache_key, client.remove("authorization"@), up, size, max_size) == storing(
            base,
            cache_key,
            client,
            up,
            size,
            max_size,
        ),
{
    law_credentials_are_never_in_a_key(base, client, up, credentials);
    match at(index, base) {
        Some(entry) => law_credentials_are_never_in_a_key(base, client, entry.headers, credentials),
        None => {},
    }
}

// ---------------------------------------------------------------------------
// What the client gets
// ---------------------------------------------------------------------------

/// A whole body from the cache comes with the headers that were stored with
/// it; a header of the origin's 304 takes the place of a stored one, with all
/// its values.
pub proof fn law_stored_headers_are_replayed(client: Fields, entry: Entry, up: Fields, key: Seq<char>, name: Seq<char>)
    requires
        served_from_cache(client, entry, up, key).body is Whole,
        !is_note(name),
        name != "content-length"@,
    ensures
        values(served_from_cache(client, entry, up, key).headers, name) == (if up.contains_key(name) && !hop_by_hop(
            name,
        ) {
            up[name]
        } else {
            values(entry.headers, name)
        }),
{
    lemma_noted(
        replaced(
            refreshed(entry.headers, up),
            "content-length"@,
            number_bytes(entry.blob_size),
        ),
        CacheUse::Hit,
        key,
        name,
    );
}

/// The length of a whole body from the cache is that of the blob.
pub proof fn law_cached_length_is_the_blobs(client: Fields, entry: Entry, up: Fields, key: Seq<char>)
    requires
        served_from_cache(client, entry, up, key).body is Whole,
    ensures
        first(served_from_cache(client, entry, up, key).headers, "content-length"@) == Some(
            number_bytes(entry.blob_size),
        ),
{
    lemma_reply_names();
    lemma_noted(
        replaced(
            refreshed(entry.headers, up),
            "content-length"@,
            number_bytes(entry.blob_size),
        ),
        CacheUse::Hit,
        key,
        "content-length"@,
    );
}

proof fn lemma_reply_names()
    ensures
        !is_note("content-length"@),
        !is_note("content-range"@),
        !is_note("accept-ranges"@),
        "content-length"@ != "content-range"@,
        "content-length"@ != "accept-ranges"@,
        "content-range"@ != "accept-ranges"@,
{
    reveal_strlit("content-length");
    reveal_strlit("content-range");
    reveal_strlit("accept-ranges");
    reveal_strlit("x-cache");
    reveal_strlit("x-cache-key");
    reveal_strlit("via");
    assert("content-length"@.len() == 14 && "content-range"@.len() == 13 && "accept-ranges"@.len() == 13);
    assert("x-cache"@.len() == 7 && "x-cache-key"@.len() == 11 && "via"@.len() == 3);
    assert("content-range"@[0] == 'c' && "accept-ranges"@[0] == 'a');
}

/// Whether the headers of a reply describe a part of a body.
pub open spec fn describes_part(headers: Fields, start: u64, end: u64, total: u64) -> bool {
    &&& first(headers, "content-range"@) == Some(encode_utf8(content_range_text(start, end, total)))
    &&& first(headers, "content-length"@) == Some(number_bytes((end - start) as u64))
    &&& first(headers, "accept-ranges"@) == Some(encode_utf8("bytes"@))
}

/// A part of a body is what the client asked for, lies within the body, and is
/// described in the headers of the reply. Headers of the origin's 304 take
/// precedence, so that it may not hold any of those.
pub proof fn law_parts_are_described(client: Fields, entry: Entry, up: Fields, size: u64, key: Seq<char>)
    ensures
        served_from_download(client, up, size, key) matches a && (a.body matches ReplyBody::Part { start, end } ==> {
            &&& start < end <= size
            &&& a.status == 206
            &&& describes_part(a.headers, start, end, size)
        }),
        served_from_cache(client, entry, up, key) matches a && (a.body matches ReplyBody::Part { start, end } ==> {
            &&& start < end <= entry.blob_size
            &&& a.status == 206
            &&& !up.contains_key("content-range"@) && !up.contains_key("content-length"@) && !up.contains_key(
                "accept-ranges"@,
            ) ==> describes_part(a.headers, start, end, entry.blob_size)
        }),
{
    lemma_reply_names();
    match first(client, "range"@) {
        Some(range) => {
            match requested(range, size) {
                RangeRequest::Part { start, end } => {
                    let f = part_of(up, start, end, size);
                    lemma_noted(f, CacheUse::Miss, key, "content-range"@);
                    lemma_noted(f, CacheUse::Miss, key, "content-length"@);
                    lemma_noted(f, CacheUse::Miss, key, "accept-ranges"@);
                },
                _ => {},
            }
            match requested(range, entry.blob_size) {
                RangeRequest::Part { start, end } => {
                    let f = refreshed(part_of(entry.headers, start, end, entry.blob_size), up);
                    lemma_noted(f, CacheUse::Hit, key, "content-range"@);
                    lemma_noted(f, CacheUse::Hit, key, "content-length"@);
                    lemma_noted(f, CacheUse::Hit, key, "accept-ranges"@);
                },
                _ => {},
            }
        },
        None => {},
    }
}

/// A range that begins where the body has ended is refused, with the size of
/// the body; more than one range gives the whole body. Both hold whether the
/// body is cached or was just downloaded.
pub proof fn law_ranges_that_cannot_be_served(
    client: Fields,
    entry: Entry,
    up: Fields,
    size: u64,
    key: Seq<char>,
    range: Seq<u8>,
)
    requires
        first(client, "range"@) == Some(range),
    ensures
        requested(range, entry.blob_size) is BeyondEnd ==> is_refusal(
            served_from_cache(client, entry, up, key),
            entry.blob_size,
        ),
        requested(range, size) is BeyondEnd ==> is_refusal(served_from_download(client, up, size, key), size),
        requested(range, entry.blob_size) is Several ==> served_from_cache(client, entry, up, key).status == 200
            && served_from_cache(client, entry, up, key).body == ReplyBody::Whole,
        requested(range, size) is Several ==> served_from_download(client, up, size, key).status == 200
            && served_from_download(client, up, size, key).body == ReplyBody::Whole,
{
    lemma_reply_names();
    let refused = |total: u64|
        replaced(no_fields(), "content-range"@, encode_utf8(unsatisfied_range_text(total)));
    lemma_noted(refused(size), CacheUse::Miss, key, "content-range"@);
    lemma_noted(refused(entry.blob_size), CacheUse::Hit, key, "content-range"@);
}

/// Whether a reply refuses a range of a body of the size given.
pub open spec fn is_refusal(a: Answer, total: u64) -> bool {
    &&& a.status == 416
    &&& a.body == ReplyBody::Empty
    &&& first(a.headers, "content-range"@) == Some(encode_utf8(unsatisfied_range_text(total)))
}

/// No header that belongs to the origin's connection, now or when a body was
/// stored, reaches the client.
pub proof fn law_no_connection_headers_in_replies(
    method: Seq<char>,
    status: u16,
    client: Fields,
    up: Fields,
    stored: Fields,
    sha256: Seq<char>,
    blob_size: u64,
    size: u64,
    key: Seq<char>,
    name: Seq<char>,
)
    requires
        hop_by_hop(name),
    ensures
        next_step(method, status, client, up, Some(entry_of(sha256, blob_size, stored)), key) matches NextStep::Answer(
            a,
        ) ==> !a.headers.contains_key(name),
        next_step(method, status, client, up, None, key) matches NextStep::Answer(a) ==> !a.headers.contains_key(name),
        !served_from_download(client, up, size, key).headers.contains_key(name),
{
    lemma_hop_names(name);
    let entry = entry_of(sha256, blob_size, stored);
    let own = selected(up, Selection::EndToEnd);
    let refused = |total: u64|
        replaced(no_fields(), "content-range"@, encode_utf8(unsatisfied_range_text(total)));
    lemma_noted(own, CacheUse::Miss, key, name);
    lemma_noted(refused(size), CacheUse::Miss, key, name);
    lemma_noted(refused(blob_size), CacheUse::Hit, key, name);
    lemma_noted(replaced(own, "content-length"@, number_bytes(size)), CacheUse::Miss, key, name);
    lemma_noted(
        replaced(refreshed(entry.headers, up), "content-length"@, number_bytes(blob_size)),
        CacheUse::Hit,
        key,
        name,
    );
    match first(client, "range"@) {
        Some(range) => {
            match requested(range, size) {
                RangeRequest::Part { start, end } => {
                    lemma_noted(part_of(up, start, end, size), CacheUse::Miss, key, name);
                },
                _ => {},
            }
            match requested(range, blob_size) {
                RangeRequest::Part { start, end } => {
                    lemma_noted(
                        refreshed(part_of(entry.headers, start, end, blob_size), up),
                        CacheUse::Hit,
                        key,
                        name,
                    );
                },
                _ => {},
            }
        },
        None => {},
    }
}

}
