//! What a reply is for: which status, body and headers the client gets.

use vstd::prelude::*;
use vstd::utf8::encode_utf8;
use crate::fields::{is_plain, is_value, lemma_plain_text, value_byte, Fields};
use crate::numbers::decimal;
use crate::proxy::{
    next_step, noted, part_of, refreshed, served_from_cache, served_from_download, with_cache_headers, Answer,
    CacheUse, NextStep, ReplyBody,
};
use crate::range::{requested, RangeRequest};
use crate::request_laws::{
    agree_on, is_connection_header, law_the_proxy_comes_last_in_via, lemma_no_connection_headers,
};
use crate::selection::{joined, selected, Selection};
use crate::store::Entry;
use crate::validators::confirms_client;

verus! {

/// Whether a header is one of the notes that the proxy leaves on a reply.
pub open spec fn is_proxy_note(name: Seq<char>) -> bool {
    name == "x-cache"@ || name == "x-cache-key"@ || name == "via"@
}

/// Whether a header describes the part of a body that a reply carries.
pub open spec fn describes_a_part(name: Seq<char>) -> bool {
    name == "content-range"@ || name == "content-length"@ || name == "accept-ranges"@
}

/// Whether a header has a single value, which is this text.
pub open spec fn says(f: Fields, name: Seq<char>, text: Seq<char>) -> bool {
    f.contains_key(name) && f[name] == seq![encode_utf8(text)]
}

/// The first and the last byte of a part, and the size of the whole body.
pub open spec fn range_written(start: int, last: int, total: int) -> Seq<char> {
    "bytes "@ + decimal(start as nat) + "-"@ + decimal(last as nat) + "/"@ + decimal(total as nat)
}

proof fn lemma_reply_names_differ()
    ensures
        !is_proxy_note("content-length"@),
        !is_proxy_note("content-range"@),
        !is_proxy_note("accept-ranges"@),
        "content-length"@ != "content-range"@,
        "content-length"@ != "accept-ranges"@,
        "content-range"@ != "accept-ranges"@,
        "x-cache"@ != "x-cache-key"@,
        "x-cache"@ != "via"@,
        "x-cache-key"@ != "via"@,
{
    reveal_strlit("content-length");
    reveal_strlit("content-range");
    reveal_strlit("accept-ranges");
    reveal_strlit("x-cache");
    reveal_strlit("x-cache-key");
    reveal_strlit("via");
    assert("content-length"@.len() == 14 && "content-range"@.len() == 13 && "accept-ranges"@.len() == 13);
    assert("x-cache"@.len() == 7 && "x-cache-key"@.len() == 11 && "via"@.len() == 3);
    assert("content-range"@[0] == 'c' && "accept-ranges"@[0] == 'a');
}

/// The notes on a reply say how the cache was used and under which key; all
/// other headers are left as they are. A key that is plain text is written out.
pub proof fn law_notes_say_how_the_cache_was_used(f: Fields, used: CacheUse, key: Seq<char>, name: Seq<char>)
    ensures
        says(noted(f, used, key), "x-cache"@, if used == CacheUse::Hit { "HIT"@ } else { "MISS"@ }),
        is_plain(key) ==> says(noted(f, used, key), "x-cache-key"@, key),
        noted(f, used, key).contains_key("x-cache-key"@) && noted(f, used, key)["x-cache-key"@].len() == 1,
        noted(f, used, key).contains_key("via"@) && noted(f, used, key)["via"@].len() == 1,
        !is_proxy_note(name) ==> agree_on(noted(f, used, key), f, name),
{
    lemma_reply_names_differ();
    if is_plain(key) {
        lemma_plain_text(key);
    }
    let g = with_cache_headers(f, used, key);
    law_the_proxy_comes_last_in_via(g, seq![]);
    assert(agree_on(g, f, name) || is_proxy_note(name));
}

/// Whether bytes can be sent as the value of a header: no control characters
/// but tabs.
pub open spec fn can_be_sent(bytes: Seq<u8>) -> bool {
    forall|i: int| 0 <= i < bytes.len() ==> #[trigger] bytes[i] == 9 || (bytes[i] >= 32 && bytes[i] != 127)
}

/// The key is sent as it is wherever it can be, and as a question mark
/// elsewhere.
pub proof fn law_keys_are_sent_where_they_can_be(f: Fields, used: CacheUse, key: Seq<char>)
    ensures
        can_be_sent(encode_utf8(key)) ==> says(noted(f, used, key), "x-cache-key"@, key),
        !can_be_sent(encode_utf8(key)) ==> says(noted(f, used, key), "x-cache-key"@, "?"@),
{
    lemma_reply_names_differ();
    let bytes = encode_utf8(key);
    assert(can_be_sent(bytes) == is_value(bytes)) by {
        if can_be_sent(bytes) {
            assert forall|i: int| 0 <= i < bytes.len() implies value_byte(#[trigger] bytes[i]) by {}
        }
        if is_value(bytes) {
            assert forall|i: int| 0 <= i < bytes.len() implies #[trigger] bytes[i] == 9 || (bytes[i] >= 32 && bytes[i]
                != 127) by {
                assert(value_byte(bytes[i]));
            }
        }
    }
    law_the_proxy_comes_last_in_via(with_cache_headers(f, used, key), seq![]);
}

/// Headers that are written behind others take nothing from them: of each
/// name all values are there, those that were there before in front.
pub proof fn law_added_headers_come_behind(a: Fields, b: Fields, name: Seq<char>)
    ensures
        ({
            let all = joined(a, b);
            &&& all.contains_key(name) <==> a.contains_key(name) || b.contains_key(name)
            &&& a.contains_key(name) && !b.contains_key(name) ==> all[name] == a[name]
            &&& b.contains_key(name) && !a.contains_key(name) ==> all[name] == b[name]
            &&& a.contains_key(name) && b.contains_key(name) ==> {
                &&& all[name].len() == a[name].len() + b[name].len()
                &&& all[name].take(a[name].len() as int) == a[name]
                &&& all[name].skip(a[name].len() as int) == b[name]
            }
        }),
{
    let all = joined(a, b);
    if a.contains_key(name) && b.contains_key(name) {
        assert(all[name].take(a[name].len() as int) =~= a[name]);
        assert(all[name].skip(a[name].len() as int) =~= b[name]);
    } else if a.contains_key(name) {
        assert(all[name] =~= a[name]);
    } else if b.contains_key(name) {
        assert(all[name] =~= b[name]);
    }
}

/// The whole of a body that was just downloaded comes with status 200 and all
/// headers of the origin that belong to the message, with all their values;
/// only the length is that of the body. It is the answer to every request
/// without a range.
pub proof fn law_downloads_carry_the_origins_headers(
    client: Fields,
    up: Fields,
    size: u64,
    key: Seq<char>,
    name: Seq<char>,
)
    ensures
        ({
            let a = served_from_download(client, up, size, key);
            &&& !client.contains_key("range"@) ==> a.body == ReplyBody::Whole
            &&& a.body == ReplyBody::Whole ==> {
                &&& a.status == 200
                &&& says(a.headers, "content-length"@, decimal(size as nat))
                &&& says(a.headers, "x-cache"@, "MISS"@)
                &&& is_connection_header(name) ==> !a.headers.contains_key(name)
                &&& !is_connection_header(name) && name != "content-length"@ && !is_proxy_note(name) ==> agree_on(
                    a.headers,
                    up,
                    name,
                )
            }
        }),
{
    lemma_reply_names_differ();
    lemma_no_connection_headers();
    let f = selected(up, Selection::EndToEnd).insert("content-length"@, seq![encode_utf8(decimal(size as nat))]);
    law_notes_say_how_the_cache_was_used(f, CacheUse::Miss, key, name);
    law_notes_say_how_the_cache_was_used(f, CacheUse::Miss, key, "content-length"@);
}

/// A part of a body that was just downloaded comes with status 206, says which
/// part it is, and carries all other headers of the origin that belong to the
/// message.
pub proof fn law_parts_of_downloads_carry_the_origins_headers(
    client: Fields,
    up: Fields,
    size: u64,
    key: Seq<char>,
    name: Seq<char>,
)
    ensures
        ({
            let a = served_from_download(client, up, size, key);
            a.body matches ReplyBody::Part { start, end } ==> {
                &&& a.status == 206
                &&& says(a.headers, "content-range"@, range_written(start as int, end - 1, size as int))
                &&& says(a.headers, "content-length"@, decimal((end - start) as nat))
                &&& says(a.headers, "accept-ranges"@, "bytes"@)
                &&& says(a.headers, "x-cache"@, "MISS"@)
                &&& is_connection_header(name) ==> !a.headers.contains_key(name)
                &&& !is_connection_header(name) && !describes_a_part(name) && !is_proxy_note(name) ==> agree_on(
                    a.headers,
                    up,
                    name,
                )
            }
        }),
{
    lemma_reply_names_differ();
    lemma_no_connection_headers();
    let a = served_from_download(client, up, size, key);
    match a.body {
        ReplyBody::Part { start, end } => {
            lemma_requested_part(client["range"@][0], size);
            let f = part_of(up, start, end, size);
            law_notes_say_how_the_cache_was_used(f, CacheUse::Miss, key, name);
            law_notes_say_how_the_cache_was_used(f, CacheUse::Miss, key, "content-range"@);
            law_notes_say_how_the_cache_was_used(f, CacheUse::Miss, key, "content-length"@);
            law_notes_say_how_the_cache_was_used(f, CacheUse::Miss, key, "accept-ranges"@);
        },
        _ => {},
    }
}

proof fn lemma_requested_part(range: Seq<u8>, total: u64)
    ensures
        requested(range, total) matches RangeRequest::Part { start, end } ==> start < end <= total,
{
}

/// The whole of a cached body comes with status 200 and the headers that were
/// stored with it; those of the origin's 304 that belong to the message take
/// their place, with all their values. The length is that of the body. It is
/// the answer to every request without a range.
pub proof fn law_cached_bodies_carry_their_headers(
    client: Fields,
    entry: Entry,
    up: Fields,
    key: Seq<char>,
    name: Seq<char>,
)
    ensures
        ({
            let a = served_from_cache(client, entry, up, key);
            &&& !client.contains_key("range"@) ==> a.body == ReplyBody::Whole
            &&& a.body == ReplyBody::Whole ==> {
                &&& a.status == 200
                &&& says(a.headers, "content-length"@, decimal(entry.blob_size as nat))
                &&& says(a.headers, "x-cache"@, "HIT"@)
                &&& name != "content-length"@ && !is_proxy_note(name) ==> agree_on(
                    a.headers,
                    if up.contains_key(name) && !is_connection_header(name) {
                        up
                    } else {
                        entry.headers
                    },
                    name,
                )
            }
        }),
{
    lemma_reply_names_differ();
    lemma_no_connection_headers();
    let f = refreshed(entry.headers, up).insert(
        "content-length"@,
        seq![encode_utf8(decimal(entry.blob_size as nat))],
    );
    law_notes_say_how_the_cache_was_used(f, CacheUse::Hit, key, name);
    law_notes_say_how_the_cache_was_used(f, CacheUse::Hit, key, "content-length"@);
}

/// A part of a cached body comes with status 206 and the headers that were
/// stored with the body; those of the origin's 304 take their place. Unless
/// that 304 says otherwise, the reply says which part it is.
pub proof fn law_parts_of_cached_bodies_carry_their_headers(
    client: Fields,
    entry: Entry,
    up: Fields,
    key: Seq<char>,
    name: Seq<char>,
)
    ensures
        ({
            let a = served_from_cache(client, entry, up, key);
            a.body matches ReplyBody::Part { start, end } ==> {
                &&& a.status == 206
                &&& says(a.headers, "x-cache"@, "HIT"@)
                &&& !up.contains_key("content-range"@) ==> says(
                    a.headers,
                    "content-range"@,
                    range_written(start as int, end - 1, entry.blob_size as int),
                )
                &&& !up.contains_key("content-length"@) ==> says(
                    a.headers,
                    "content-length"@,
                    decimal((end - start) as nat),
                )
                &&& !up.contains_key("accept-ranges"@) ==> says(a.headers, "accept-ranges"@, "bytes"@)
                &&& up.contains_key(name) && !is_connection_header(name) && !is_proxy_note(name) ==> agree_on(
                    a.headers,
                    up,
                    name,
                )
                &&& is_connection_header(name) ==> !a.headers.contains_key(name)
                &&& !up.contains_key(name) && !is_connection_header(name) && !describes_a_part(name)
                    && !is_proxy_note(name) ==> agree_on(a.headers, entry.headers, name)
            }
        }),
{
    lemma_reply_names_differ();
    lemma_no_connection_headers();
    let a = served_from_cache(client, entry, up, key);
    match a.body {
        ReplyBody::Part { start, end } => {
            lemma_requested_part(client["range"@][0], entry.blob_size);
            let f = refreshed(part_of(entry.headers, start, end, entry.blob_size), up);
            law_notes_say_how_the_cache_was_used(f, CacheUse::Hit, key, name);
            law_notes_say_how_the_cache_was_used(f, CacheUse::Hit, key, "content-range"@);
            law_notes_say_how_the_cache_was_used(f, CacheUse::Hit, key, "content-length"@);
            law_notes_say_how_the_cache_was_used(f, CacheUse::Hit, key, "accept-ranges"@);
        },
        _ => {},
    }
}

/// Which answer a range gets: a part that the body has is sent, with just that
/// part as its body; one beyond the end is refused; several give the whole
/// body. What is no range is refused where the body is cached, and ignored
/// where it was just downloaded.
pub proof fn law_ranges_decide_the_answer(client: Fields, entry: Entry, up: Fields, size: u64, key: Seq<char>)
    requires
        client.contains_key("range"@),
        entry.blob_size == size,
    ensures
        ({
            let range = client["range"@][0];
            let (hit, miss) = (
                served_from_cache(client, entry, up, key),
                served_from_download(client, up, size, key),
            );
            match requested(range, size) {
                RangeRequest::Part { start, end } => hit.body == (ReplyBody::Part { start, end }) && miss.body == (
                ReplyBody::Part { start, end }),
                RangeRequest::BeyondEnd => is_refused(hit, size, "HIT"@) && is_refused(miss, size, "MISS"@),
                RangeRequest::Several => hit.body == ReplyBody::Whole && miss.body == ReplyBody::Whole,
                RangeRequest::Malformed => is_refused(hit, size, "HIT"@) && miss.body == ReplyBody::Whole,
            }
        }),
{
    lemma_reply_names_differ();
    let f = Map::<Seq<char>, Seq<Seq<u8>>>::empty().insert(
        "content-range"@,
        seq![encode_utf8("bytes */"@ + decimal(size as nat))],
    );
    law_notes_say_how_the_cache_was_used(f, CacheUse::Hit, key, "content-range"@);
    law_notes_say_how_the_cache_was_used(f, CacheUse::Miss, key, "content-range"@);
    assert forall|name: Seq<char>| noted(f, CacheUse::Hit, key).contains_key(name) || noted(
        f,
        CacheUse::Miss,
        key,
    ).contains_key(name) implies name == "content-range"@ || is_proxy_note(name) by {
        law_notes_say_how_the_cache_was_used(f, CacheUse::Hit, key, name);
        law_notes_say_how_the_cache_was_used(f, CacheUse::Miss, key, name);
    }
}

/// Whether a reply refuses a range: it has no body, and says nothing but the
/// size of the body and the proxy's notes.
pub open spec fn is_refused(a: Answer, total: u64, used: Seq<char>) -> bool {
    &&& a.status == 416
    &&& a.body == ReplyBody::Empty
    &&& says(a.headers, "content-range"@, "bytes */"@ + decimal(total as nat))
    &&& says(a.headers, "x-cache"@, used)
    &&& forall|name: Seq<char>| #[trigger] a.headers.contains_key(name) ==> name == "content-range"@ || is_proxy_note(name)
}

/// What the origin answers leads to a download, to the cache or to the client:
/// a 200 to a `GET` is downloaded; a 304 that confirms what is cached, and not
/// the client's own copy, is answered from the cache; everything else goes to
/// the client with the origin's status, body and headers.
pub proof fn law_the_origin_decides(
    method: Seq<char>,
    status: u16,
    client: Fields,
    up: Fields,
    cached: Option<Entry>,
    key: Seq<char>,
    name: Seq<char>,
)
    ensures
        ({
            let step = next_step(method, status, client, up, cached, key);
            if method == "GET"@ && status == 200 {
                step == NextStep::Download
            } else if status == 304 && cached is Some && !confirms_client(client, up) {
                step == NextStep::Answer(served_from_cache(client, cached.unwrap(), up, key))
            } else {
                step matches NextStep::Answer(a) && {
                    &&& a.status == status
                    &&& a.body == (if status == 304 { ReplyBody::Empty } else { ReplyBody::Upstream })
                    &&& says(a.headers, "x-cache"@, "MISS"@)
                    &&& is_connection_header(name) ==> !a.headers.contains_key(name)
                    &&& !is_connection_header(name) && !is_proxy_note(name) ==> agree_on(a.headers, up, name)
                }
            }
        }),
{
    lemma_no_connection_headers();
    law_notes_say_how_the_cache_was_used(selected(up, Selection::EndToEnd), CacheUse::Miss, key, name);
}

}
