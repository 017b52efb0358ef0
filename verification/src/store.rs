//! The cache store: its entries, what of them goes to the database, and when.

use axum::http::{HeaderMap, HeaderValue};
use vstd::prelude::*;
use vstd::string::StringExecFns;
use vstd::utf8::encode_utf8;
use crate::fields::{
    chars, copy_headers, copy_value, fields_of, first, has_room, is_header_name, is_text, is_value,
    lemma_plain_text, lemma_text_is_plain, parse_value, text, value_bytes, value_str, Fields,
};
use crate::header_json::{
    headers_to_json, is_record, json_to_headers, law_plain_fields_survive, law_records_read_back, lower_names,
    plain_fields, readable, restored,
};
use crate::names::{lookup, name_of, Name};
use crate::numbers::{decimal, push_decimal};
use crate::selection::{select, selected, unsafe_to_store, Selection};
use crate::text::text_of;

pub use crate::blobs::{blob_path, make_temp_path};
pub use crate::digest::sha256_hex;

verus! {

// ---------------------------------------------------------------------------
// Entries
// ---------------------------------------------------------------------------

/// Metadata for a single cached resource variant. The body is never held
/// here, only the reference to its blob.
#[derive(Debug)]
pub struct CacheEntry {
    /// `ETag` of the response that was stored.
    pub etag: Option<HeaderValue>,
    /// `Last-Modified` of the response that was stored.
    pub last_modified: Option<HeaderValue>,
    /// The response headers that are replayed from the cache.
    pub headers: HeaderMap,
    /// SHA-256 digest of the body in hexadecimal.
    pub blob_sha256: String,
    /// Size of the body in bytes.
    pub blob_size: u64,
}

/// What a cache entry holds.
pub struct Entry {
    pub etag: Option<Seq<u8>>,
    pub last_modified: Option<Seq<u8>>,
    pub headers: Fields,
    pub blob_sha256: Seq<char>,
    pub blob_size: u64,
}

/// The bytes of a header value that may be there.
pub open spec fn optional_bytes(value: Option<HeaderValue>) -> Option<Seq<u8>> {
    match value {
        Some(v) => Some(value_bytes(v)),
        None => None,
    }
}

impl View for CacheEntry {
    type V = Entry;

    open spec fn view(&self) -> Entry {
        Entry {
            etag: optional_bytes(self.etag),
            last_modified: optional_bytes(self.last_modified),
            headers: fields_of(self.headers),
            blob_sha256: self.blob_sha256@,
            blob_size: self.blob_size,
        }
    }
}


/// A copy of a header value that may be there.
pub(crate) fn copy_optional(value: &Option<HeaderValue>) -> (copy: Option<HeaderValue>)
    ensures
        optional_bytes(copy) == optional_bytes(*value),
{
    match value {
        Some(v) => Some(copy_value(v)),
        None => None,
    }
}

impl Clone for CacheEntry {
    fn clone(&self) -> (copy: Self)
        ensures
            copy@ == self@,
    {
        CacheEntry {
            etag: copy_optional(&self.etag),
            last_modified: copy_optional(&self.last_modified),
            headers: copy_headers(&self.headers),
            blob_sha256: self.blob_sha256.clone(),
            blob_size: self.blob_size,
        }
    }
}

// ---------------------------------------------------------------------------
// Storing a response
// ---------------------------------------------------------------------------

/// The headers of a response that may be stored: credentials, challenges,
/// cookies, what belongs to the connection and `Age` are left out.
pub fn safe_response_headers(src: &HeaderMap) -> (dst: HeaderMap)
    requires
        has_room(fields_of(*src)),
    ensures
        fields_of(dst) == selected(fields_of(*src), Selection::Storable),
{
    select(src, Selection::Storable)
}

/// The entry for a response whose body is the blob given.
pub open spec fn entry_of(sha256: Seq<char>, size: u64, response: Fields) -> Entry {
    Entry {
        etag: first(response, "etag"@),
        last_modified: first(response, "last-modified"@),
        headers: selected(response, Selection::Storable),
        blob_sha256: sha256,
        blob_size: size,
    }
}

/// The first value of a header as text, if it is there and plain text.
pub open spec fn text_header(f: Fields, name: Seq<char>) -> Option<Seq<char>> {
    match first(f, name) {
        Some(v) => text(v),
        None => None,
    }
}

/// An operation for the database writer.
#[derive(Debug)]
pub enum DbOp {
    /// Write an entry, and the blob it refers to.
    Upsert {
        key: String,
        blob_sha256: String,
        blob_size: u64,
        etag: Option<String>,
        last_modified: Option<String>,
        headers_json: String,
        now: i64,
    },
    /// Note that an entry was used.
    TouchAccess { key: String, now: i64 },
    /// Remove an entry.
    DeleteEntry { key: String },
    /// Remove the blobs that no entry refers to.
    DeleteOrphanBlobs { blob_root: String },
    /// Count the blobs and their bytes.
    GetStats,
    /// Finish.
    Shutdown,
}

/// An entry as it stands in the database.
#[derive(Debug)]
pub struct EntryRow {
    pub key: String,
    pub blob_sha256: String,
    pub blob_size: u64,
    pub etag: Option<String>,
    pub last_modified: Option<String>,
    pub headers_json: String,
}

/// The contents of a database row.
pub struct Row {
    pub key: Seq<char>,
    pub blob_sha256: Seq<char>,
    pub blob_size: u64,
    pub etag: Option<Seq<char>>,
    pub last_modified: Option<Seq<char>>,
    pub headers_json: Seq<char>,
}

impl View for EntryRow {
    type V = Row;

    open spec fn view(&self) -> Row {
        Row {
            key: self.key@,
            blob_sha256: self.blob_sha256@,
            blob_size: self.blob_size,
            etag: text_of(self.etag),
            last_modified: text_of(self.last_modified),
            headers_json: self.headers_json@,
        }
    }
}

/// The row that an operation writes.
pub open spec fn written_row(op: DbOp) -> Option<Row> {
    match op {
        DbOp::Upsert { key, blob_sha256, blob_size, etag, last_modified, headers_json, now } => Some(
            Row {
                key: key@,
                blob_sha256: blob_sha256@,
                blob_size,
                etag: text_of(etag),
                last_modified: text_of(last_modified),
                headers_json: headers_json@,
            },
        ),
        _ => None,
    }
}

/// The time at which an operation takes place.
pub open spec fn time_of(op: DbOp) -> Option<i64> {
    match op {
        DbOp::Upsert { now, .. } => Some(now),
        DbOp::TouchAccess { now, .. } => Some(now),
        _ => None,
    }
}

/// Whether a row is that of a response under a key: its validators as far as
/// they are plain text, and a record of the headers that may be stored.
pub open spec fn is_row_of(row: Row, key: Seq<char>, sha256: Seq<char>, size: u64, response: Fields) -> bool {
    &&& row.key == key
    &&& row.blob_sha256 == sha256
    &&& row.blob_size == size
    &&& row.etag == text_header(response, "etag"@)
    &&& row.last_modified == text_header(response, "last-modified"@)
    &&& is_record(row.headers_json, selected(response, Selection::Storable))
}

/// The text of a header, if it is there and plain text.
fn header_string(map: &HeaderMap, name: Name) -> (r: Option<String>)
    ensures
        text_of(r) == text_header(fields_of(*map), name_of(name)),
{
    match lookup(map, name) {
        Some(v) => match value_str(v) {
            Some(s) => Some(String::from_str(s)),
            None => None,
        },
        None => None,
    }
}

fn header_copy(map: &HeaderMap, name: Name) -> (r: Option<HeaderValue>)
    ensures
        optional_bytes(r) == first(fields_of(*map), name_of(name)),
{
    match lookup(map, name) {
        Some(v) => Some(copy_value(v)),
        None => None,
    }
}

/// The entry and the database operation that put a response, whose body is
/// the blob given, under a key. The names of the headers that are stored turn
/// out to be in lower case.
pub fn index_entry(key: &str, sha256: &str, size: u64, response_headers: &HeaderMap, now: i64) -> (r: (
    CacheEntry,
    DbOp,
))
    requires
        has_room(fields_of(*response_headers)),
    ensures
        r.0@ == entry_of(sha256@, size, fields_of(*response_headers)),
        written_row(r.1) matches Some(row) && is_row_of(row, key@, sha256@, size, fields_of(*response_headers)),
        time_of(r.1) == Some(now),
        lower_names(selected(fields_of(*response_headers), Selection::Storable)),
{
    let safe = safe_response_headers(response_headers);
    let headers_json = headers_to_json(&safe);
    let entry = CacheEntry {
        etag: header_copy(response_headers, Name::Etag),
        last_modified: header_copy(response_headers, Name::LastModified),
        headers: safe,
        blob_sha256: String::from_str(sha256),
        blob_size: size,
    };
    let op = DbOp::Upsert {
        key: String::from_str(key),
        blob_sha256: String::from_str(sha256),
        blob_size: size,
        etag: header_string(response_headers, Name::Etag),
        last_modified: header_string(response_headers, Name::LastModified),
        headers_json,
        now,
    };
    (entry, op)
}

// ---------------------------------------------------------------------------
// Loading an entry
// ---------------------------------------------------------------------------

/// A stored validator as a header value, if it may be one.
pub open spec fn stored_value(s: Option<Seq<char>>) -> Option<Seq<u8>> {
    match s {
        Some(t) => if is_value(encode_utf8(t)) {
            Some(encode_utf8(t))
        } else {
            None
        },
        None => None,
    }
}

/// The entry that a database row denotes.
pub open spec fn loaded(row: Row) -> Entry {
    Entry {
        etag: stored_value(row.etag),
        last_modified: stored_value(row.last_modified),
        headers: restored(row.headers_json),
        blob_sha256: row.blob_sha256,
        blob_size: row.blob_size,
    }
}

fn load_value(s: &Option<String>) -> (r: Option<HeaderValue>)
    ensures
        optional_bytes(r) == stored_value(text_of(*s)),
{
    match s {
        Some(t) => parse_value(t.as_str()),
        None => None,
    }
}

/// Makes the entry of a database row, with its key. There is none where a
/// header map does not take all the header names of the row; up to
/// `MAX_NAMES` of them it takes.
pub fn entry_from_row(row: EntryRow) -> (r: Option<(String, CacheEntry)>)
    ensures
        has_room(restored(row@.headers_json)) ==> r is Some,
        r matches Some(e) ==> e.0@ == row@.key && e.1@ == loaded(row@),
{
    match json_to_headers(row.headers_json.as_str()) {
        Some(headers) => {
            let entry = CacheEntry {
                etag: load_value(&row.etag),
                last_modified: load_value(&row.last_modified),
                headers,
                blob_sha256: row.blob_sha256,
                blob_size: row.blob_size,
            };
            Some((row.key, entry))
        },
        None => None,
    }
}

// ---------------------------------------------------------------------------
// The database writer
// ---------------------------------------------------------------------------

/// What the database writer is doing.
#[derive(Clone, Copy, PartialEq, Eq, Structural, Debug)]
pub enum WriterState {
    /// It waits for operations and carries them out.
    Running,
    /// It was told to finish and empties its queue.
    Draining,
    /// It is done.
    Stopped,
}

/// What the database writer meets.
#[derive(Debug)]
pub enum WriterEvent {
    /// The next operation.
    Op(DbOp),
    /// The queue is empty, or nothing can come any more.
    NoMore,
}

/// What the database writer does to the database.
#[derive(Debug)]
pub enum Statement {
    /// Add a blob, unless it is there.
    InsertBlob { sha256: String, size: u64 },
    /// Add an entry, or replace the one under its key.
    UpsertEntry {
        key: String,
        blob_sha256: String,
        etag: Option<String>,
        last_modified: Option<String>,
        headers_json: String,
        now: i64,
    },
    /// Set the time at which an entry was last used.
    TouchEntry { key: String, now: i64 },
    /// Remove an entry.
    DeleteEntry { key: String },
    /// Find the blobs that no entry refers to, and remove each with its file.
    SweepBlobs { blob_root: String },
    /// Count the blobs and their bytes, and answer with the numbers.
    CountBlobs,
    /// Bring the write-ahead log into the database file.
    Checkpoint,
}

/// What a running writer does for an operation.
pub open spec fn statements(op: DbOp) -> Seq<Statement> {
    match op {
        DbOp::Upsert { key, blob_sha256, blob_size, etag, last_modified, headers_json, now } => seq![
            Statement::InsertBlob { sha256: blob_sha256, size: blob_size },
            Statement::UpsertEntry { key, blob_sha256, etag, last_modified, headers_json, now },
        ],
        DbOp::TouchAccess { key, now } => seq![Statement::TouchEntry { key, now }],
        DbOp::DeleteEntry { key } => seq![Statement::DeleteEntry { key }],
        DbOp::DeleteOrphanBlobs { blob_root } => seq![Statement::SweepBlobs { blob_root }],
        DbOp::GetStats => seq![Statement::CountBlobs],
        DbOp::Shutdown => seq![],
    }
}

/// What a writer that empties its queue does for an operation: it carries
/// deletions of entries out, and drops everything else.
pub open spec fn drained(op: DbOp) -> Seq<Statement> {
    match op {
        DbOp::DeleteEntry { key } => seq![Statement::DeleteEntry { key }],
        _ => seq![],
    }
}

/// One step of the database writer: its next state, and what it does.
pub open spec fn stepped(state: WriterState, event: WriterEvent) -> (WriterState, Seq<Statement>) {
    match (state, event) {
        (WriterState::Running, WriterEvent::Op(DbOp::Shutdown)) => (WriterState::Draining, seq![]),
        (WriterState::Running, WriterEvent::Op(op)) => (WriterState::Running, statements(op)),
        (WriterState::Running, WriterEvent::NoMore) => (WriterState::Stopped, seq![]),
        (WriterState::Draining, WriterEvent::Op(op)) => (WriterState::Draining, drained(op)),
        (WriterState::Draining, WriterEvent::NoMore) => (WriterState::Stopped, seq![Statement::Checkpoint]),
        (WriterState::Stopped, _) => (WriterState::Stopped, seq![]),
    }
}

/// Decides what the database writer does about an event, and how it goes on.
pub fn writer_step(state: WriterState, event: WriterEvent) -> (r: (WriterState, Vec<Statement>))
    ensures
        (r.0, r.1@) == stepped(state, event),
{
    let mut out: Vec<Statement> = Vec::new();
    let next: WriterState = match (state, event) {
        (WriterState::Running, WriterEvent::Op(op)) => match op {
            DbOp::Upsert { key, blob_sha256, blob_size, etag, last_modified, headers_json, now } => {
                out.push(Statement::InsertBlob { sha256: blob_sha256.clone(), size: blob_size });
                out.push(
                    Statement::UpsertEntry { key, blob_sha256, etag, last_modified, headers_json, now },
                );
                WriterState::Running
            },
            DbOp::TouchAccess { key, now } => {
                out.push(Statement::TouchEntry { key, now });
                WriterState::Running
            },
            DbOp::DeleteEntry { key } => {
                out.push(Statement::DeleteEntry { key });
                WriterState::Running
            },
            DbOp::DeleteOrphanBlobs { blob_root } => {
                out.push(Statement::SweepBlobs { blob_root });
                WriterState::Running
            },
            DbOp::GetStats => {
                out.push(Statement::CountBlobs);
                WriterState::Running
            },
            DbOp::Shutdown => WriterState::Draining,
        },
        (WriterState::Running, WriterEvent::NoMore) => WriterState::Stopped,
        (WriterState::Draining, WriterEvent::Op(op)) => {
            match op {
                DbOp::DeleteEntry { key } => out.push(Statement::DeleteEntry { key }),
                _ => {},
            }
            WriterState::Draining
        },
        (WriterState::Draining, WriterEvent::NoMore) => {
            out.push(Statement::Checkpoint);
            WriterState::Stopped
        },
        (WriterState::Stopped, _) => WriterState::Stopped,
    };
    assert(out@ =~= stepped(state, event).1);
    (next, out)
}

// ---------------------------------------------------------------------------
// Eviction
// ---------------------------------------------------------------------------

/// The time before which an entry has to have been used last to be expired.
pub fn eviction_cutoff(now: i64, ttl_secs: u64) -> (cutoff: i64)
    ensures
        forall|accessed: i64| accessed < cutoff <==> #[trigger] is_expired(accessed, now, ttl_secs),
{
    let exact: i128 = now as i128 - ttl_secs as i128;
    if exact < i64::MIN as i128 {
        i64::MIN
    } else {
        exact as i64
    }
}

/// Whether an entry has outlived its time without being used.
pub open spec fn is_expired(accessed: i64, now: i64, ttl_secs: u64) -> bool {
    accessed + ttl_secs < now
}

/// The operations of an eviction cycle: every expired entry goes first, then
/// the blobs that are no longer referred to.
pub open spec fn eviction(keys: Seq<String>, blob_root: String) -> Seq<DbOp> {
    keys.map_values(|key: String| DbOp::DeleteEntry { key }).push(DbOp::DeleteOrphanBlobs { blob_root })
}

/// The operations that evict the entries under the keys given.
pub fn eviction_ops(keys: &Vec<String>, blob_root: String) -> (ops: Vec<DbOp>)
    ensures
        ops@ == eviction(keys@, blob_root),
{
    let mut ops: Vec<DbOp> = Vec::new();
    let mut i: usize = 0;
    while i < keys.len()
        invariant
            i <= keys@.len(),
            ops@ == keys@.take(i as int).map_values(|key: String| DbOp::DeleteEntry { key }),
        decreases keys@.len() - i,
    {
        ops.push(DbOp::DeleteEntry { key: keys[i].clone() });
        i += 1;
        assert(ops@ =~= keys@.take(i as int).map_values(|key: String| DbOp::DeleteEntry { key }));
    }
    assert(keys@.take(i as int) =~= keys@);
    ops.push(DbOp::DeleteOrphanBlobs { blob_root });
    ops
}

// ---------------------------------------------------------------------------
// Statistics
// ---------------------------------------------------------------------------

/// Aggregate statistics of the store.
#[derive(Clone, Copy, PartialEq, Eq, Structural, Debug)]
pub struct StoreStats {
    pub entries: u64,
    pub blobs: u64,
    pub blob_bytes: u64,
}

/// Statistics as JSON text.
pub open spec fn stats_text(s: StoreStats) -> Seq<char> {
    "{\"entries\":"@ + decimal(s.entries as nat) + ",\"blobs\":"@ + decimal(s.blobs as nat) + ",\"blob_bytes\":"@
        + decimal(s.blob_bytes as nat) + "}"@
}

/// The body of a health reply.
pub fn health_body(stats: StoreStats) -> (s: String)
    ensures
        s@ == stats_text(stats),
{
    let mut s = String::from_str("{\"entries\":");
    push_decimal(&mut s, stats.entries);
    s.append(",\"blobs\":");
    push_decimal(&mut s, stats.blobs);
    s.append(",\"blob_bytes\":");
    push_decimal(&mut s, stats.blob_bytes);
    s.append("}");
    s
}

// ---------------------------------------------------------------------------
// Laws
// ---------------------------------------------------------------------------

/// Credentials, challenges, cookies, what belongs to the connection and `Age`
/// are never in an entry, neither in memory nor after a restart, and every
/// other header of the response is in the entry just as it was.
pub proof fn law_unsafe_headers_are_never_stored(
    row: Row,
    key: Seq<char>,
    sha256: Seq<char>,
    size: u64,
    response: Fields,
    name: Seq<char>,
)
    requires
        is_row_of(row, key, sha256, size, response),
        lower_names(selected(response, Selection::Storable)),
    ensures
        unsafe_to_store(name) ==> !entry_of(sha256, size, response).headers.contains_key(name),
        unsafe_to_store(name) ==> !loaded(row).headers.contains_key(name),
        !unsafe_to_store(name) ==> first(entry_of(sha256, size, response).headers, name) == first(response, name),
{
    law_records_read_back(row.headers_json, selected(response, Selection::Storable));
}

/// An entry whose response is plain text is the same after a restart, but for
/// headers with names that are no header names.
pub proof fn law_entries_survive_a_restart(
    row: Row,
    key: Seq<char>,
    sha256: Seq<char>,
    size: u64,
    response: Fields,
)
    requires
        is_row_of(row, key, sha256, size, response),
        lower_names(selected(response, Selection::Storable)),
        plain_fields(response),
    ensures
        row.key == key,
        loaded(row) == (Entry {
            headers: readable(entry_of(sha256, size, response).headers),
            ..entry_of(sha256, size, response)
        }),
        (forall|n: Seq<char>| #[trigger] response.contains_key(n) ==> is_header_name(n)) ==> loaded(row) == entry_of(
            sha256,
            size,
            response,
        ),
{
    let kept = selected(response, Selection::Storable);
    assert forall|n: Seq<char>| #[trigger] kept.contains_key(n) implies kept[n].len() > 0 && forall|i: int|
        0 <= i < kept[n].len() ==> is_text(#[trigger] kept[n][i]) by {
        assert(response.contains_key(n));
    }
    law_plain_fields_survive(row.headers_json, kept);
    lemma_text_header_survives(response, "etag"@);
    lemma_text_header_survives(response, "last-modified"@);
    if forall|n: Seq<char>| #[trigger] response.contains_key(n) ==> is_header_name(n) {
        assert forall|n: Seq<char>| #[trigger] kept.contains_key(n) implies is_header_name(n) by {
            assert(response.contains_key(n));
        }
        assert(readable(kept) =~= kept);
    }
}

proof fn lemma_text_header_survives(f: Fields, name: Seq<char>)
    requires
        plain_fields(f),
    ensures
        stored_value(text_header(f, name)) == first(f, name),
{
    match first(f, name) {
        Some(v) => {
            assert(f[name][0] == v);
            lemma_text_is_plain(v);
            lemma_plain_text(chars(v));
        },
        None => {},
    }
}

/// What the writer does to the database over a series of events.
pub open spec fn written(state: WriterState, events: Seq<WriterEvent>) -> Seq<Statement>
    decreases events.len(),
{
    if events.len() == 0 {
        seq![]
    } else {
        let (next, out) = stepped(state, events[0]);
        out + written(next, events.drop_first())
    }
}

/// A series of operations as events.
pub open spec fn as_events(ops: Seq<DbOp>) -> Seq<WriterEvent> {
    ops.map_values(|op: DbOp| WriterEvent::Op(op))
}

/// The deletions of entries among operations, in order.
pub open spec fn deletions(ops: Seq<DbOp>) -> Seq<Statement>
    decreases ops.len(),
{
    if ops.len() == 0 {
        seq![]
    } else {
        let rest = deletions(ops.drop_first());
        match ops[0] {
            DbOp::DeleteEntry { key } => seq![Statement::DeleteEntry { key }] + rest,
            _ => rest,
        }
    }
}

/// A writer that is told to finish carries out the deletions of entries that
/// are still queued, then brings the log into the database file, and does
/// nothing from then on.
pub proof fn law_shutdown_drains_and_checkpoints(queued: Seq<DbOp>, later: Seq<WriterEvent>)
    ensures
        written(
            WriterState::Running,
            seq![WriterEvent::Op(DbOp::Shutdown)] + as_events(queued) + seq![WriterEvent::NoMore] + later,
        ) == deletions(queued).push(Statement::Checkpoint),
{
    let rest = as_events(queued) + seq![WriterEvent::NoMore] + later;
    let all = seq![WriterEvent::Op(DbOp::Shutdown)] + as_events(queued) + seq![WriterEvent::NoMore] + later;
    assert(all.drop_first() =~= rest);
    lemma_draining(queued, later);
    assert(written(WriterState::Running, all) =~= written(WriterState::Draining, rest));
}

proof fn lemma_draining(queued: Seq<DbOp>, later: Seq<WriterEvent>)
    ensures
        written(WriterState::Draining, as_events(queued) + seq![WriterEvent::NoMore] + later) == deletions(
            queued,
        ).push(Statement::Checkpoint),
    decreases queued.len(),
{
    let all = as_events(queued) + seq![WriterEvent::NoMore] + later;
    if queued.len() == 0 {
        assert(all.drop_first() =~= later);
        lemma_stopped(later);
        assert(written(WriterState::Draining, all) =~= deletions(queued).push(Statement::Checkpoint));
    } else {
        let tail = queued.drop_first();
        assert(all.drop_first() =~= as_events(tail) + seq![WriterEvent::NoMore] + later);
        lemma_draining(tail, later);
        assert(written(WriterState::Draining, all) =~= deletions(queued).push(Statement::Checkpoint));
    }
}

/// A writer that is done does nothing.
pub(crate) proof fn lemma_stopped(later: Seq<WriterEvent>)
    ensures
        written(WriterState::Stopped, later) == Seq::<Statement>::empty(),
    decreases later.len(),
{
    if later.len() > 0 {
        lemma_stopped(later.drop_first());
    }
}

/// The statements of an eviction cycle: each expired entry is deleted, and the
/// sweep for unreferenced blobs comes after all of them.
pub proof fn law_sweep_follows_deletions(keys: Seq<String>, blob_root: String)
    ensures
        written(WriterState::Running, as_events(eviction(keys, blob_root))) == keys.map_values(
            |key: String| Statement::DeleteEntry { key },
        ).push(Statement::SweepBlobs { blob_root }),
    decreases keys.len(),
{
    let events = as_events(eviction(keys, blob_root));
    let wanted = keys.map_values(|key: String| Statement::DeleteEntry { key }).push(
        Statement::SweepBlobs { blob_root },
    );
    if keys.len() == 0 {
        assert(events[0] == WriterEvent::Op(DbOp::DeleteOrphanBlobs { blob_root }));
        assert(events.drop_first() =~= seq![]);
        assert(written(WriterState::Running, events.drop_first()) =~= seq![]);
        assert(written(WriterState::Running, events) =~= wanted);
    } else {
        let tail = keys.drop_first();
        assert(eviction(keys, blob_root)[0] == DbOp::DeleteEntry { key: keys[0] });
        assert(events[0] == WriterEvent::Op(DbOp::DeleteEntry { key: keys[0] }));
        assert(events.drop_first() =~= as_events(eviction(tail, blob_root)));
        law_sweep_follows_deletions(tail, blob_root);
        assert(written(WriterState::Running, events) =~= wanted);
    }
}

/// An entry that was just used is not expired, and one that has expired stays
/// so until it is used again.
pub proof fn law_use_keeps_entries_alive(now: i64, later: i64, accessed: i64, ttl_secs: u64)
    requires
        now <= later,
    ensures
        !is_expired(now, now, ttl_secs),
        is_expired(accessed, now, ttl_secs) ==> is_expired(accessed, later, ttl_secs),
{
}

}
