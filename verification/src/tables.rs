//! The two tables of the database, what each statement of the writer does to
//! them, and what they hold after a series of operations.

use vstd::prelude::*;
use crate::store::{
    as_events, eviction, statements, written, written_row, DbOp, Row, Statement, WriterEvent, WriterState,
};
use crate::text::text_of;

verus! {

/// A row of the table of entries.
pub struct EntryRecord {
    pub blob_sha256: Seq<char>,
    pub etag: Option<Seq<char>>,
    pub last_modified: Option<Seq<char>>,
    pub headers_json: Seq<char>,
    pub created_at: i64,
    pub accessed_at: i64,
}

/// The contents of the database: the entries by their keys, and the sizes of
/// the blobs by their digests.
#[verifier::ext_equal]
pub struct Tables {
    pub entries: Map<Seq<char>, EntryRecord>,
    pub blobs: Map<Seq<char>, u64>,
}

/// The blobs with one more, unless it is there. The database has no sizes
/// beyond those of signed integers.
pub open spec fn with_blob(blobs: Map<Seq<char>, u64>, sha256: Seq<char>, size: u64) -> Map<Seq<char>, u64> {
    if blobs.contains_key(sha256) || size > i64::MAX {
        blobs
    } else {
        blobs.insert(sha256, size)
    }
}

/// Whether an entry refers to a blob.
pub open spec fn is_referenced(t: Tables, sha256: Seq<char>) -> bool {
    exists|key: Seq<char>| #[trigger] t.entries.contains_key(key) && t.entries[key].blob_sha256 == sha256
}

/// The time at which the entry under a key came to be, the present where there
/// is none.
pub open spec fn creation_time(t: Tables, key: Seq<char>, now: i64) -> i64 {
    if t.entries.contains_key(key) {
        t.entries[key].created_at
    } else {
        now
    }
}

/// What a statement makes of the tables.
///
/// A blob that is there stays as it is. An entry takes the place of the one
/// under its key, but keeps the time at which that one came to be; without its
/// blob it is refused.
pub open spec fn executed(t: Tables, statement: Statement) -> Tables {
    match statement {
        Statement::InsertBlob { sha256, size } => Tables { blobs: with_blob(t.blobs, sha256@, size), ..t },
        Statement::UpsertEntry { key, blob_sha256, etag, last_modified, headers_json, now } => if t.blobs.contains_key(
            blob_sha256@,
        ) {
            let record = EntryRecord {
                blob_sha256: blob_sha256@,
                etag: text_of(etag),
                last_modified: text_of(last_modified),
                headers_json: headers_json@,
                created_at: creation_time(t, key@, now),
                accessed_at: now,
            };
            Tables { entries: t.entries.insert(key@, record), ..t }
        } else {
            t
        },
        Statement::TouchEntry { key, now } => if t.entries.contains_key(key@) {
            Tables {
                entries: t.entries.insert(key@, EntryRecord { accessed_at: now, ..t.entries[key@] }),
                ..t
            }
        } else {
            t
        },
        Statement::DeleteEntry { key } => Tables { entries: t.entries.remove(key@), ..t },
        Statement::SweepBlobs { .. } => Tables {
            blobs: t.blobs.restrict(Set::new(|sha256: Seq<char>| is_referenced(t, sha256))),
            ..t
        },
        Statement::CountBlobs => t,
        Statement::Checkpoint => t,
    }
}

/// What a series of statements makes of the tables.
pub open spec fn all_executed(t: Tables, list: Seq<Statement>) -> Tables
    decreases list.len(),
{
    if list.len() == 0 {
        t
    } else {
        all_executed(executed(t, list[0]), list.drop_first())
    }
}

/// What a running writer makes of the tables over a series of operations.
pub open spec fn after_ops(t: Tables, ops: Seq<DbOp>) -> Tables {
    all_executed(t, written(WriterState::Running, as_events(ops)))
}

proof fn lemma_executed_in_turn(t: Tables, a: Seq<Statement>, b: Seq<Statement>)
    ensures
        all_executed(t, a + b) == all_executed(all_executed(t, a), b),
    decreases a.len(),
{
    if a.len() == 0 {
        assert(a + b =~= b);
    } else {
        assert((a + b)[0] == a[0]);
        assert((a + b).drop_first() =~= a.drop_first() + b);
        lemma_executed_in_turn(executed(t, a[0]), a.drop_first(), b);
    }
}

proof fn lemma_first_op(t: Tables, op: DbOp, rest: Seq<DbOp>)
    requires
        !(op is Shutdown),
    ensures
        after_ops(t, seq![op] + rest) == after_ops(all_executed(t, statements(op)), rest),
{
    let events = as_events(seq![op] + rest);
    assert(events[0] == WriterEvent::Op(op));
    assert(events.drop_first() =~= as_events(rest));
    lemma_executed_in_turn(t, statements(op), written(WriterState::Running, as_events(rest)));
}

// ---------------------------------------------------------------------------
// Writing
// ---------------------------------------------------------------------------

/// The blobs of the database after an operation that writes an entry.
pub open spec fn blobs_with(blobs: Map<Seq<char>, u64>, op: DbOp) -> Map<Seq<char>, u64> {
    match written_row(op) {
        Some(row) => with_blob(blobs, row.blob_sha256, row.blob_size),
        None => blobs,
    }
}

/// Whether a record is what an operation writes, with the times given.
pub open spec fn is_record_of(record: EntryRecord, op: DbOp, created_at: i64) -> bool {
    op matches DbOp::Upsert { key, blob_sha256, blob_size, etag, last_modified, headers_json, now } && record == (
    EntryRecord {
        blob_sha256: blob_sha256@,
        etag: text_of(etag),
        last_modified: text_of(last_modified),
        headers_json: headers_json@,
        created_at,
        accessed_at: now,
    })
}

proof fn lemma_upsert(t: Tables, op: DbOp) -> (record: EntryRecord)
    requires
        op matches DbOp::Upsert { blob_size, .. } && blob_size <= i64::MAX,
    ensures
        op matches DbOp::Upsert { key, now, .. } && is_record_of(record, op, creation_time(t, key@, now))
            && all_executed(t, statements(op)) == (Tables {
            entries: t.entries.insert(key@, record),
            blobs: blobs_with(t.blobs, op),
        }),
{
    let list = statements(op);
    let second = seq![list[1]];
    assert(list.drop_first() =~= second);
    assert(second.drop_first() =~= seq![]);
    let one = executed(t, list[0]);
    let two = executed(one, list[1]);
    reveal_with_fuel(all_executed, 3);
    assert(all_executed(t, list) == two);
    match op {
        DbOp::Upsert { key, .. } => two.entries[key@],
        _ => arbitrary(),
    }
}

/// An entry that is written stands in the tables under its key, with its blob;
/// an entry that was there keeps the time at which it came to be. All other
/// entries and blobs stay as they are.
pub proof fn law_writes_change_one_entry(t: Tables, op: DbOp)
    requires
        op matches DbOp::Upsert { blob_size, .. } && blob_size <= i64::MAX,
    ensures
        op matches DbOp::Upsert { key, now, .. } && {
            let after = after_ops(t, seq![op]);
            &&& after.entries == t.entries.insert(key@, after.entries[key@])
            &&& is_record_of(after.entries[key@], op, creation_time(t, key@, now))
            &&& after.blobs == blobs_with(t.blobs, op)
        },
{
    let none: Seq<DbOp> = seq![];
    assert(seq![op] + none =~= seq![op]);
    lemma_first_op(t, op, none);
    assert(as_events(none) =~= seq![]);
    let record = lemma_upsert(t, op);
}

/// Of two writes under one key a single entry is left: all of it is that of
/// the second write, but for the time at which it came to be, which is that of
/// the first. The blobs of both are there; all other entries and blobs stay as
/// they are.
pub proof fn law_second_writes_keep_the_creation_time(t: Tables, one: DbOp, two: DbOp)
    requires
        one matches DbOp::Upsert { blob_size, .. } && blob_size <= i64::MAX,
        two matches DbOp::Upsert { blob_size, .. } && blob_size <= i64::MAX,
        one->Upsert_key@ == two->Upsert_key@,
    ensures
        ({
            let key = one->Upsert_key@;
            let after = after_ops(t, seq![one, two]);
            &&& after.entries == t.entries.insert(key, after.entries[key])
            &&& is_record_of(after.entries[key], two, creation_time(t, key, one->Upsert_now))
            &&& after.blobs == blobs_with(blobs_with(t.blobs, one), two)
        }),
{
    let key = one->Upsert_key@;
    assert(seq![one] + seq![two] =~= seq![one, two]);
    lemma_first_op(t, one, seq![two]);
    let middle = all_executed(t, statements(one));
    let record = lemma_upsert(t, one);
    law_writes_change_one_entry(middle, two);
    let after = after_ops(t, seq![one, two]);
    assert(middle.entries[key].created_at == creation_time(t, key, one->Upsert_now));
    assert(after.entries =~= t.entries.insert(key, after.entries[key]));
}

// ---------------------------------------------------------------------------
// Reading
// ---------------------------------------------------------------------------

/// The row that is read under a key: an entry with the size of its blob.
pub open spec fn row_at(t: Tables, key: Seq<char>) -> Option<Row> {
    if t.entries.contains_key(key) && t.blobs.contains_key(t.entries[key].blob_sha256) {
        let record = t.entries[key];
        Some(
            Row {
                key,
                blob_sha256: record.blob_sha256,
                blob_size: t.blobs[record.blob_sha256],
                etag: record.etag,
                last_modified: record.last_modified,
                headers_json: record.headers_json,
            },
        )
    } else {
        None
    }
}

/// The row that is read under a key is the one that was written last, as long
/// as blobs with the same digest have the same size.
pub proof fn law_written_rows_are_read(t: Tables, op: DbOp)
    requires
        op matches DbOp::Upsert { blob_sha256, blob_size, .. } && blob_size <= i64::MAX && (t.blobs.contains_key(
            blob_sha256@,
        ) ==> t.blobs[blob_sha256@] == blob_size),
    ensures
        op matches DbOp::Upsert { key, .. } && row_at(after_ops(t, seq![op]), key@) == written_row(op),
{
    law_writes_change_one_entry(t, op);
}

// ---------------------------------------------------------------------------
// Blobs and entries
// ---------------------------------------------------------------------------

/// Whether every entry has its blob.
pub open spec fn entries_have_blobs(t: Tables) -> bool {
    forall|key: Seq<char>|
        #[trigger] t.entries.contains_key(key) ==> t.blobs.contains_key(t.entries[key].blob_sha256)
}

proof fn lemma_statements_keep_blobs(t: Tables, statement: Statement)
    requires
        entries_have_blobs(t),
    ensures
        entries_have_blobs(executed(t, statement)),
{
    let after = executed(t, statement);
    assert forall|key: Seq<char>| #[trigger] after.entries.contains_key(key) implies after.blobs.contains_key(
        after.entries[key].blob_sha256,
    ) by {
        if t.entries.contains_key(key) {
            assert(t.blobs.contains_key(t.entries[key].blob_sha256));
            assert(is_referenced(t, t.entries[key].blob_sha256));
        }
    }
}

proof fn lemma_all_statements_keep_blobs(t: Tables, list: Seq<Statement>)
    requires
        entries_have_blobs(t),
    ensures
        entries_have_blobs(all_executed(t, list)),
    decreases list.len(),
{
    if list.len() > 0 {
        lemma_statements_keep_blobs(t, list[0]);
        lemma_all_statements_keep_blobs(executed(t, list[0]), list.drop_first());
    }
}

/// Whatever the writer is told, and in whatever state it is: every entry keeps
/// its blob.
pub proof fn law_entries_keep_their_blobs(t: Tables, state: WriterState, events: Seq<WriterEvent>)
    requires
        entries_have_blobs(t),
    ensures
        entries_have_blobs(all_executed(t, written(state, events))),
{
    lemma_all_statements_keep_blobs(t, written(state, events));
}

/// Whether a key is one of those in a list.
pub open spec fn is_among(key: Seq<char>, keys: Seq<String>) -> bool {
    exists|i: int| 0 <= i < keys.len() && (#[trigger] keys[i])@ == key
}

/// After an eviction cycle the expired entries are gone and all others are as
/// they were; every blob that an entry refers to is as it was, and there is no
/// other blob.
pub proof fn law_eviction_leaves_what_is_used(
    t: Tables,
    keys: Seq<String>,
    blob_root: String,
    key: Seq<char>,
    sha256: Seq<char>,
)
    ensures
        ({
            let after = after_ops(t, eviction(keys, blob_root));
            &&& after.entries.contains_key(key) <==> t.entries.contains_key(key) && !is_among(key, keys)
            &&& after.entries.contains_key(key) ==> after.entries[key] == t.entries[key]
            &&& after.blobs.contains_key(sha256) <==> t.blobs.contains_key(sha256) && is_referenced(after, sha256)
            &&& after.blobs.contains_key(sha256) ==> after.blobs[sha256] == t.blobs[sha256]
        }),
    decreases keys.len(),
{
    let ops = eviction(keys, blob_root);
    let after = after_ops(t, ops);
    let sweep = DbOp::DeleteOrphanBlobs { blob_root };
    if keys.len() == 0 {
        let none: Seq<DbOp> = seq![];
        assert(ops =~= seq![sweep] + none);
        lemma_first_op(t, sweep, none);
        assert(as_events(none) =~= seq![]);
        lemma_one_statement(t, Statement::SweepBlobs { blob_root });
        assert(after == executed(t, Statement::SweepBlobs { blob_root }));
        assert(after.entries == t.entries);
        assert(is_referenced(after, sha256) == is_referenced(t, sha256));
    } else {
        let tail = keys.drop_first();
        let first = DbOp::DeleteEntry { key: keys[0] };
        assert(ops =~= seq![first] + eviction(tail, blob_root));
        lemma_first_op(t, first, eviction(tail, blob_root));
        lemma_one_statement(t, Statement::DeleteEntry { key: keys[0] });
        let less = executed(t, Statement::DeleteEntry { key: keys[0] });
        law_eviction_leaves_what_is_used(less, tail, blob_root, key, sha256);
        assert(is_among(key, keys) <==> keys[0]@ == key || is_among(key, tail)) by {
            if is_among(key, tail) {
                let i = choose|i: int| 0 <= i < tail.len() && (#[trigger] tail[i])@ == key;
                assert(keys[i + 1]@ == key);
            }
            if is_among(key, keys) {
                let i = choose|i: int| 0 <= i < keys.len() && (#[trigger] keys[i])@ == key;
                if i > 0 {
                    assert(tail[i - 1]@ == key);
                }
            }
        }
    }
}

proof fn lemma_one_statement(t: Tables, statement: Statement)
    ensures
        all_executed(t, seq![statement]) == executed(t, statement),
{
    assert(seq![statement].drop_first() =~= seq![]);
    reveal_with_fuel(all_executed, 2);
}

}
