//! What storing is for: what is kept of a response, and what comes back of it.

use vstd::prelude::*;
use vstd::utf8::encode_utf8;
use crate::blobs::{blob_location, lemma_address_has_shard, temp_name};
use crate::digest::{is_address, is_hex_digit};
use crate::fields::{is_value, value_byte, Fields};
use crate::header_json::restored;
use crate::numbers::decimal;
use crate::paths::path_join;
use crate::proxy::{served_from_cache, ReplyBody};
use crate::reply_laws::{can_be_sent, is_proxy_note, law_cached_bodies_carry_their_headers, says};
use crate::request_laws::agree_on;
use crate::selection::{selected, unsafe_to_store, Selection};
use crate::store::{
    as_events, drained, entry_of, is_expired, lemma_stopped, loaded, statements, stats_text, written, DbOp, Row,
    Statement, StoreStats, WriterEvent, WriterState,
};
use crate::tables::{after_ops, all_executed, executed, EntryRecord, Tables};

verus! {

/// Whether a header of a response is left out of the cache: credentials and
/// challenges, cookies, what belongs to the connection, and the age.
pub open spec fn is_left_out(name: Seq<char>) -> bool {
    ||| name == "authorization"@
    ||| name == "proxy-authorization"@
    ||| name == "www-authenticate"@
    ||| name == "proxy-authenticate"@
    ||| name == "set-cookie"@
    ||| name == "connection"@
    ||| name == "keep-alive"@
    ||| name == "te"@
    ||| name == "trailers"@
    ||| name == "transfer-encoding"@
    ||| name == "upgrade"@
    ||| name == "age"@
}

/// A header of a response is left out of its entry just where it is one of the
/// twelve that are never stored; every other one is there with all its values.
/// The entry has the first `ETag` and the first `Last-Modified` of the
/// response, and the digest and the size of its body.
pub proof fn law_entries_hold_the_response(sha256: Seq<char>, size: u64, response: Fields, name: Seq<char>)
    ensures
        ({
            let entry = entry_of(sha256, size, response);
            let safe = selected(response, Selection::Storable);
            &&& unsafe_to_store(name) <==> is_left_out(name)
            &&& is_left_out(name) ==> !entry.headers.contains_key(name) && !safe.contains_key(name)
            &&& !is_left_out(name) ==> agree_on(entry.headers, response, name) && agree_on(safe, response, name)
            &&& entry.etag == (if response.contains_key("etag"@) { Some(response["etag"@][0]) } else { None })
            &&& entry.last_modified == (if response.contains_key("last-modified"@) {
                Some(response["last-modified"@][0])
            } else {
                None
            })
            &&& entry.blob_sha256 == sha256
            &&& entry.blob_size == size
        }),
{
}

/// What says how a body is to be read and kept is stored with it.
pub proof fn law_content_headers_are_kept(sha256: Seq<char>, size: u64, response: Fields)
    ensures
        ({
            let kept = entry_of(sha256, size, response).headers;
            &&& agree_on(kept, response, "content-type"@)
            &&& agree_on(kept, response, "content-encoding"@)
            &&& agree_on(kept, response, "content-language"@)
            &&& agree_on(kept, response, "content-disposition"@)
            &&& agree_on(kept, response, "cache-control"@)
            &&& agree_on(kept, response, "expires"@)
            &&& agree_on(kept, response, "etag"@)
            &&& agree_on(kept, response, "last-modified"@)
            &&& agree_on(kept, response, "vary"@)
            &&& agree_on(kept, response, "link"@)
            &&& agree_on(kept, response, "location"@)
        }),
{
    reveal_strlit("authorization");
    reveal_strlit("proxy-authorization");
    reveal_strlit("www-authenticate");
    reveal_strlit("proxy-authenticate");
    reveal_strlit("set-cookie");
    reveal_strlit("connection");
    reveal_strlit("keep-alive");
    reveal_strlit("te");
    reveal_strlit("trailers");
    reveal_strlit("transfer-encoding");
    reveal_strlit("upgrade");
    reveal_strlit("age");
    reveal_strlit("content-type");
    reveal_strlit("content-encoding");
    reveal_strlit("content-language");
    reveal_strlit("content-disposition");
    reveal_strlit("cache-control");
    reveal_strlit("expires");
    reveal_strlit("etag");
    reveal_strlit("last-modified");
    reveal_strlit("vary");
    reveal_strlit("link");
    reveal_strlit("location");
    assert("authorization"@.len() == 13 && "proxy-authorization"@.len() == 19 && "www-authenticate"@.len() == 16
        && "proxy-authenticate"@.len() == 18 && "set-cookie"@.len() == 10 && "connection"@.len() == 10
        && "keep-alive"@.len() == 10 && "te"@.len() == 2 && "trailers"@.len() == 8 && "transfer-encoding"@.len() == 17
        && "upgrade"@.len() == 7 && "age"@.len() == 3);
    assert("authorization"@[0] == 'a' && "cache-control"@[0] == 'c' && "last-modified"@[0] == 'l');
    assert("www-authenticate"@[0] == 'w' && "content-encoding"@[0] == 'c' && "content-language"@[0] == 'c');
    assert("proxy-authorization"@[0] == 'p' && "content-disposition"@[0] == 'c');
    assert("upgrade"@[0] == 'u' && "expires"@[0] == 'e');
    assert("trailers"@[0] == 't' && "location"@[0] == 'l');
}

/// What was stored of a response comes back with its body: the client gets
/// every header that is not left out with all its values, unless the origin's
/// 304 brings a newer one.
pub proof fn law_stored_headers_come_back(
    client: Fields,
    sha256: Seq<char>,
    size: u64,
    response: Fields,
    up: Fields,
    key: Seq<char>,
    name: Seq<char>,
)
    requires
        !client.contains_key("range"@),
        !is_left_out(name),
        !up.contains_key(name),
        name != "content-length"@,
        !is_proxy_note(name),
    ensures
        ({
            let a = served_from_cache(client, entry_of(sha256, size, response), up, key);
            &&& a.status == 200
            &&& a.body == ReplyBody::Whole
            &&& agree_on(a.headers, response, name)
            &&& says(a.headers, "content-length"@, decimal(size as nat))
        }),
{
    law_entries_hold_the_response(sha256, size, response, name);
    law_cached_bodies_carry_their_headers(client, entry_of(sha256, size, response), up, key, name);
}

/// What comes back of a row: the address and the size as they are, and each
/// validator wherever it can be sent as the value of a header.
pub proof fn law_rows_give_their_entries(row: Row)
    ensures
        loaded(row).blob_sha256 == row.blob_sha256,
        loaded(row).blob_size == row.blob_size,
        loaded(row).headers == restored(row.headers_json),
        loaded(row).etag == (if row.etag is Some && can_be_sent(encode_utf8(row.etag.unwrap())) {
            Some(encode_utf8(row.etag.unwrap()))
        } else {
            None
        }),
        loaded(row).last_modified == (if row.last_modified is Some && can_be_sent(
            encode_utf8(row.last_modified.unwrap()),
        ) {
            Some(encode_utf8(row.last_modified.unwrap()))
        } else {
            None
        }),
{
    assert forall|bytes: Seq<u8>| #[trigger] can_be_sent(bytes) == is_value(bytes) by {
        if is_value(bytes) {
            assert forall|i: int| 0 <= i < bytes.len() implies #[trigger] bytes[i] == 9 || (bytes[i] >= 32 && bytes[i]
                != 127) by {
                assert(value_byte(bytes[i]));
            }
        }
    }
}

// ---------------------------------------------------------------------------
// Time
// ---------------------------------------------------------------------------

/// An entry is expired just where more seconds have gone by since it was used
/// last than it lives.
pub proof fn law_entries_expire_after_their_time(accessed: i64, now: i64, ttl_secs: u64)
    ensures
        is_expired(accessed, now, ttl_secs) <==> now - accessed > ttl_secs,
{
}

// ---------------------------------------------------------------------------
// The database
// ---------------------------------------------------------------------------

/// Using an entry moves the time of its last use and nothing else; deleting
/// one removes it and nothing else; asking for numbers changes nothing.
pub proof fn law_single_operations(t: Tables, key: String, now: i64, other: Seq<char>)
    ensures
        ({
            let touched = after_ops(t, seq![DbOp::TouchAccess { key, now }]);
            &&& touched.blobs == t.blobs
            &&& touched.entries.contains_key(other) == t.entries.contains_key(other)
            &&& t.entries.contains_key(other) ==> touched.entries[other] == (if other == key@ {
                EntryRecord { accessed_at: now, ..t.entries[other] }
            } else {
                t.entries[other]
            })
        }),
        ({
            let deleted = after_ops(t, seq![DbOp::DeleteEntry { key }]);
            &&& deleted.blobs == t.blobs
            &&& deleted.entries.contains_key(other) == (t.entries.contains_key(other) && other != key@)
            &&& deleted.entries.contains_key(other) ==> deleted.entries[other] == t.entries[other]
        }),
        after_ops(t, seq![DbOp::GetStats]) == t,
        written(WriterState::Running, as_events(seq![DbOp::GetStats])) == seq![Statement::CountBlobs],
{
    lemma_one_op(t, DbOp::TouchAccess { key, now });
    lemma_one_op(t, DbOp::DeleteEntry { key });
    lemma_one_op(t, DbOp::GetStats);
}

proof fn lemma_one_op(t: Tables, op: DbOp)
    requires
        op is TouchAccess || op is DeleteEntry || op is GetStats,
    ensures
        written(WriterState::Running, as_events(seq![op])) == statements(op),
        statements(op).len() == 1,
        after_ops(t, seq![op]) == executed(t, statements(op)[0]),
{
    let events = as_events(seq![op]);
    assert(events[0] == WriterEvent::Op(op));
    assert(events.drop_first() =~= seq![]);
    reveal_with_fuel(written, 2);
    assert(written(WriterState::Running, events) =~= statements(op));
    assert(statements(op).drop_first() =~= seq![]);
    reveal_with_fuel(all_executed, 2);
}

/// A writer that is told to finish still deletes the entries that it was told
/// to delete, in order, and does nothing else before it finishes.
pub proof fn law_queued_deletions_are_carried_out(op: DbOp)
    ensures
        op matches DbOp::DeleteEntry { key } ==> drained(op) == seq![Statement::DeleteEntry { key }],
        !(op is DeleteEntry) ==> drained(op).len() == 0,
{
}

/// A running writer carries its operations out in turn, each as if it were
/// alone, and nothing comes between them. Where nothing can come any more it
/// ends without further work.
pub proof fn law_operations_are_carried_out_in_turn(op: DbOp, rest: Seq<WriterEvent>)
    ensures
        !(op is Shutdown) ==> written(WriterState::Running, seq![WriterEvent::Op(op)] + rest) == written(
            WriterState::Running,
            as_events(seq![op]),
        ) + written(WriterState::Running, rest),
        written(WriterState::Running, seq![WriterEvent::NoMore] + rest) == Seq::<Statement>::empty(),
{
    let events = as_events(seq![op]);
    let all = seq![WriterEvent::Op(op)] + rest;
    let end = seq![WriterEvent::NoMore] + rest;
    assert(events[0] == WriterEvent::Op(op));
    assert(events.drop_first() =~= seq![]);
    assert(all.drop_first() =~= rest);
    assert(end.drop_first() =~= rest);
    lemma_stopped(rest);
    assert(written(WriterState::Running, events.drop_first()) =~= seq![]);
    if !(op is Shutdown) {
        assert(written(WriterState::Running, events) =~= statements(op));
        assert(written(WriterState::Running, all) =~= statements(op) + written(WriterState::Running, rest));
    }
}

/// The numbers of the health reply stand behind their names.
pub proof fn law_statistics_are_named(s: StoreStats)
    ensures
        stats_text(s) == "{\"entries\":"@ + decimal(s.entries as nat) + (",\"blobs\":"@ + decimal(s.blobs as nat))
            + (",\"blob_bytes\":"@ + decimal(s.blob_bytes as nat)) + "}"@,
{
    assert(stats_text(s) =~= "{\"entries\":"@ + decimal(s.entries as nat) + (",\"blobs\":"@ + decimal(
        s.blobs as nat,
    )) + (",\"blob_bytes\":"@ + decimal(s.blob_bytes as nat)) + "}"@);
}

// ---------------------------------------------------------------------------
// Files
// ---------------------------------------------------------------------------

/// A blob lies in a directory named by the first two digits of its address,
/// under the whole address; a temporary file lies in the root itself.
pub proof fn law_files_lie_in_their_places(root: Seq<char>, sha256: Seq<char>, n: u64)
    requires
        is_address(sha256),
        root.len() > 0,
        root.last() != '/',
    ensures
        blob_location(root, sha256) == root + seq!['/'] + sha256.take(2) + seq!['/'] + sha256,
        path_join(root, temp_name(n)) == root + seq!['/', '.', 't', 'm', 'p', '-'] + decimal(n as nat),
        blob_location(seq![], sha256) == sha256.take(2) + seq!['/'] + sha256,
{
    lemma_address_has_shard(sha256);
    reveal_strlit(".tmp-");
    assert(is_hex_digit(sha256[0]) && is_hex_digit(sha256[1]));
    let dir = sha256.take(2);
    assert(dir[0] == sha256[0] && dir.last() == sha256[1]);
    let parent = root.push('/') + dir;
    assert(parent.last() == sha256[1]);
    assert(blob_location(root, sha256) =~= root + seq!['/'] + dir + seq!['/'] + sha256);
    let none: Seq<char> = seq![];
    assert(none + dir =~= dir);
    assert(blob_location(none, sha256) =~= dir + seq!['/'] + sha256);
    assert(temp_name(n)[0] == '.');
    assert(path_join(root, temp_name(n)) =~= root + seq!['/', '.', 't', 'm', 'p', '-'] + decimal(n as nat));
}

/// A path behind another one: a slash stands between the two, but not a second
/// one; an absolute path stands for itself.
pub proof fn law_paths_are_put_together(a: Seq<char>, b: Seq<char>)
    requires
        a.len() > 0,
        a.last() != '/',
        b.len() > 0,
        b[0] != '/',
    ensures
        path_join(a, b) == a + seq!['/'] + b,
        path_join(a + seq!['/'], b) == a + seq!['/'] + b,
        path_join(seq![], b) == b,
        path_join(a, seq!['/'] + b) == seq!['/'] + b,
{
    let none: Seq<char> = seq![];
    assert(path_join(a, b) =~= a + seq!['/'] + b);
    assert((a + seq!['/']).last() == '/');
    assert(path_join(a + seq!['/'], b) =~= a + seq!['/'] + b);
    assert(path_join(none, b) =~= b);
    assert((seq!['/'] + b)[0] == '/');
}

}
