//! What holds of a database after any number of operations.

use crate::error::CndbError;
use crate::le::{le_bytes, lemma_le_bytes_len};
use crate::storage::consistency::{
    a_deletion_hides_one_document, a_new_database_is_consistent, an_append_is_read_back,
    committed_state, consistent, lemma_extended, lemma_sound_local, logged, read_document,
    record_within, settled, with_header, with_record,
};
use crate::storage::file::{perform_all, Outcome, MAX_FILE_LEN};
use crate::storage::header::{victim_of, LOG_START};
use crate::storage::index::{ids_are_never_reused, lemma_live_count, IndexView};
use crate::storage::log::{lemma_scan_local, scan, VerifyStep};
use crate::storage::operations::{
    drive_load, drive_read, drive_walk, measured, opening_finds_what_was_committed,
    reading_gives_live_documents_only, verifying_walks_the_whole_committed_log,
};
use crate::storage::protocol::{finds, indexes, opens, walks, OpenStep};
use crate::storage::record::{
    record_at, DocId, RecordKind, RecordRead, RecordView, MAX_RECORD_LEN, RECORD_HEADER_SIZE,
};
use crate::storage::recovery::{a_commit_is_durable, reopening_restores_the_committed_state};
use crate::storage::state::{committed_index, create_ops, fresh_engine, recover, EngineView};
use vstd::prelude::*;

verus! {

/// An engine and its file.
pub struct Database {
    pub engine: EngineView,
    pub file: Seq<u8>,
}

/// One finished operation.
pub enum Change {
    /// A document was appended.
    Append { kind: RecordKind, payload: Seq<u8> },
    /// A document was deleted.
    Delete { id: u64 },
    /// A commit was carried out, with the index stored as `index`.
    Commit { index: Seq<u8> },
    /// The handle was dropped and the file opened again.
    Reopen,
}

/// A brand-new database.
pub open spec fn new_database() -> Database {
    Database { engine: fresh_engine(), file: perform_all(Seq::empty(), create_ops()) }
}

/// The operation is not refused, and nothing runs out.
pub open spec fn allowed(db: Database, change: Change) -> bool {
    let engine = db.engine;
    match change {
        Change::Append { kind, payload } => {
            &&& payload.len() <= MAX_RECORD_LEN
            &&& engine.end + RECORD_HEADER_SIZE + payload.len() <= MAX_FILE_LEN
            &&& engine.index.next_doc_id < u64::MAX
        },
        Change::Delete { id } => {
            &&& engine.index.live(id)
            &&& engine.end + RECORD_HEADER_SIZE + 8 <= MAX_FILE_LEN
        },
        Change::Commit { index } => engine.dirty ==> {
            &&& indexes(index, engine)
            &&& index.len() <= MAX_RECORD_LEN
            &&& engine.end + RECORD_HEADER_SIZE + index.len() <= MAX_FILE_LEN
            &&& engine.header.generation < u64::MAX
        },
        Change::Reopen => true,
    }
}

/// What an operation makes of a database.
pub open spec fn apply(db: Database, change: Change) -> Database {
    let engine = db.engine;
    match change {
        Change::Append { kind, payload } => Database {
            engine: engine.appended(payload.len() as u64),
            file: with_record(db.file, engine.end, kind, payload),
        },
        Change::Delete { id } => Database {
            engine: engine.deleted(id),
            file: with_record(
                db.file,
                engine.end,
                RecordKind::Tombstone,
                le_bytes(id as nat, 8),
            ),
        },
        Change::Commit { index } => if engine.dirty {
            let len = index.len() as u64;
            let between = engine.extended(len);
            let header = between.next_header(engine.end, len);
            let written = with_record(db.file, engine.end, RecordKind::MasterIndex, index);
            Database {
                engine: between.committed(header),
                file: with_header(written, victim_of(engine.slots), header),
            }
        } else {
            db
        },
        Change::Reopen => Database { engine: recover(db.file)->Done_0, file: db.file },
    }
}

/// What a list of operations makes of a database.
pub open spec fn apply_all(db: Database, changes: Seq<Change>) -> Database
    decreases changes.len(),
{
    if changes.len() == 0 {
        db
    } else {
        apply(apply_all(db, changes.drop_last()), changes.last())
    }
}

/// None of a list of operations is refused.
pub open spec fn all_allowed(db: Database, changes: Seq<Change>) -> bool
    decreases changes.len(),
{
    changes.len() > 0 ==> all_allowed(db, changes.drop_last()) && allowed(
        apply_all(db, changes.drop_last()),
        changes.last(),
    )
}

/// One for each document ever stored, each deletion and each commit.
pub open spec fn tally(index: IndexView, generation: u64) -> nat {
    index.offsets.len() + index.dead.len() + generation as nat
}

/// The log holds one record for each document, each deletion and each commit,
/// and so does the part of it that is committed.
pub open spec fn counted(db: Database) -> bool {
    let header = db.engine.header;
    &&& logged(db.engine, db.file) == tally(db.engine.index, header.generation)
    &&& scan(db.file, LOG_START as nat, header.log_end as nat) == Outcome::Done(
        tally(committed_index(db.file, header)->Done_0, header.generation),
    )
}

/// What the live header commits is the same in every file with the same log.
proof fn lemma_committed_part(engine: EngineView, file: Seq<u8>, kind: RecordKind, payload: Seq<u8>)
    requires
        consistent(engine, file),
        payload.len() <= MAX_RECORD_LEN,
        engine.end + RECORD_HEADER_SIZE + payload.len() <= MAX_FILE_LEN,
    ensures
        ({
            let after = with_record(file, engine.end, kind, payload);
            let end = engine.header.log_end as nat;
            &&& committed_index(after, engine.header) == committed_index(file, engine.header)
            &&& scan(after, LOG_START as nat, end) == scan(file, LOG_START as nat, end)
        }),
{
    let after = with_record(file, engine.end, kind, payload);
    lemma_extended(engine, file, kind, payload);
    lemma_sound_local(file, after, engine.header);
    lemma_scan_local(file, after, LOG_START as nat, engine.header.log_end as nat);
}

/// Every operation keeps engine and file in step.
pub proof fn every_change_keeps_consistency(db: Database, change: Change)
    requires
        consistent(db.engine, db.file),
        settled(db.engine, db.file),
        allowed(db, change),
    ensures
        consistent(apply(db, change).engine, apply(db, change).file),
        settled(apply(db, change).engine, apply(db, change).file),
{
    match change {
        Change::Append { kind, payload } => {
            an_append_is_read_back(db.engine, db.file, kind, payload);
        },
        Change::Delete { id } => {
            a_deletion_hides_one_document(db.engine, db.file, id);
        },
        Change::Commit { index } => {
            if db.engine.dirty {
                a_commit_is_durable(db.engine, db.file, index);
            }
        },
        Change::Reopen => {
            reopening_restores_the_committed_state(db.engine, db.file);
        },
    }
}

/// Every operation keeps the count of records right.
pub proof fn every_change_keeps_the_count(db: Database, change: Change)
    requires
        consistent(db.engine, db.file),
        settled(db.engine, db.file),
        counted(db),
        allowed(db, change),
    ensures
        counted(apply(db, change)),
{
    let engine = db.engine;
    match change {
        Change::Append { kind, payload } => {
            an_append_is_read_back(engine, db.file, kind, payload);
            lemma_committed_part(engine, db.file, kind, payload);
            ids_are_never_reused(engine.index, engine.end);
        },
        Change::Delete { id } => {
            lemma_le_bytes_len(id as nat, 8);
            a_deletion_hides_one_document(engine, db.file, id);
            lemma_committed_part(
                engine,
                db.file,
                RecordKind::Tombstone,
                le_bytes(id as nat, 8),
            );
            lemma_live_count(engine.index);
        },
        Change::Commit { index } => {
            if engine.dirty {
                a_commit_is_durable(engine, db.file, index);
            }
        },
        Change::Reopen => {
            reopening_restores_the_committed_state(engine, db.file);
        },
    }
}

/// After any list of operations on a database that is in step with its file, it
/// still is.
pub proof fn every_history_is_consistent(db: Database, changes: Seq<Change>)
    requires
        consistent(db.engine, db.file),
        settled(db.engine, db.file),
        all_allowed(db, changes),
    ensures
        consistent(apply_all(db, changes).engine, apply_all(db, changes).file),
        settled(apply_all(db, changes).engine, apply_all(db, changes).file),
    decreases changes.len(),
{
    if changes.len() > 0 {
        every_history_is_consistent(db, changes.drop_last());
        every_change_keeps_consistency(apply_all(db, changes.drop_last()), changes.last());
    }
}

/// After any list of operations on a new database, a walk over the committed
/// log finds one record for each document, each deletion and each commit that
/// the live header knows of: the master index of a commit is a record like any
/// other, and nothing else is in the log.
pub proof fn a_walk_counts_documents_deletions_and_commits(changes: Seq<Change>)
    requires
        all_allowed(new_database(), changes),
    ensures
        ({
            let db = apply_all(new_database(), changes);
            let header = db.engine.header;
            &&& consistent(db.engine, db.file)
            &&& counted(db)
            &&& !db.engine.dirty ==> scan(
                db.file,
                LOG_START as nat,
                header.log_end as nat,
            ) == Outcome::Done(tally(db.engine.index, header.generation))
        }),
    decreases changes.len(),
{
    a_new_database_is_consistent();
    every_history_is_consistent(new_database(), changes);
    if changes.len() > 0 {
        let before = changes.drop_last();
        a_walk_counts_documents_deletions_and_commits(before);
        every_history_is_consistent(new_database(), before);
        every_change_keeps_the_count(apply_all(new_database(), before), changes.last());
    } else {
        let db = new_database();
        assert(scan(db.file, LOG_START as nat, LOG_START as nat) == Outcome::Done(0nat));
    }
}

/// A document is live at `offset`, in what the engine knows and in what is
/// committed, and the record is there.
pub open spec fn secured(db: Database, id: u64, offset: u64, record: RecordView) -> bool {
    let committed = committed_index(db.file, db.engine.header)->Done_0;
    &&& db.engine.index.live(id)
    &&& db.engine.index.offsets[id] == offset
    &&& committed.live(id)
    &&& committed.offsets[id] == offset
    &&& record_at(db.file, offset as nat) == Outcome::Done(record)
}

/// A secured document stays secured unless it is deleted.
proof fn lemma_secured(db: Database, change: Change, id: u64, offset: u64, record: RecordView)
    requires
        consistent(db.engine, db.file),
        settled(db.engine, db.file),
        allowed(db, change),
        secured(db, id, offset, record),
        change != (Change::Delete { id }),
    ensures
        secured(apply(db, change), id, offset, record),
{
    let engine = db.engine;
    assert(record_within(db.file, engine.index.offsets[id], engine.end));
    match change {
        Change::Append { kind, payload } => {
            lemma_extended(engine, db.file, kind, payload);
            lemma_committed_part(engine, db.file, kind, payload);
            ids_are_never_reused(engine.index, engine.end);
        },
        Change::Delete { id: other } => {
            lemma_le_bytes_len(other as nat, 8);
            let target = le_bytes(other as nat, 8);
            lemma_extended(engine, db.file, RecordKind::Tombstone, target);
            lemma_committed_part(engine, db.file, RecordKind::Tombstone, target);
        },
        Change::Commit { index } => {
            if engine.dirty {
                a_commit_is_durable(engine, db.file, index);
                let next = apply(db, change);
                assert(read_document(next.engine, next.file, id) == read_document(
                    engine,
                    db.file,
                    id,
                ));
            }
        },
        Change::Reopen => {
            reopening_restores_the_committed_state(engine, db.file);
        },
    }
}

/// The same, over a list of operations.
proof fn lemma_stays_secured(
    db: Database,
    changes: Seq<Change>,
    id: u64,
    offset: u64,
    record: RecordView,
)
    requires
        consistent(db.engine, db.file),
        settled(db.engine, db.file),
        secured(db, id, offset, record),
        all_allowed(db, changes),
        !changes.contains(Change::Delete { id }),
    ensures
        secured(apply_all(db, changes), id, offset, record),
    decreases changes.len(),
{
    if changes.len() > 0 {
        let before = changes.drop_last();
        assert(!before.contains(Change::Delete { id })) by {
            if before.contains(Change::Delete { id }) {
                let i = before.index_of(Change::Delete { id });
                assert(changes[i] == (Change::Delete { id }));
            }
        }
        assert(changes.last() != (Change::Delete { id })) by {
            assert(changes[changes.len() - 1] == changes.last());
        }
        lemma_stays_secured(db, before, id, offset, record);
        every_history_is_consistent(db, before);
        lemma_secured(apply_all(db, before), changes.last(), id, offset, record);
    }
}

/// A document that was committed reads the same after any list of operations
/// that does not delete it, reopening among them.
pub proof fn a_committed_document_is_never_lost(
    db: Database,
    changes: Seq<Change>,
    id: u64,
)
    requires
        consistent(db.engine, db.file),
        settled(db.engine, db.file),
        !db.engine.dirty,
        db.engine.index.live(id),
        all_allowed(db, changes),
        !changes.contains(Change::Delete { id }),
    ensures
        read_document(db.engine, db.file, id) is Done,
        read_document(apply_all(db, changes).engine, apply_all(db, changes).file, id)
            == read_document(db.engine, db.file, id),
{
    let offset = db.engine.index.offsets[id];
    assert(record_within(db.file, offset, db.engine.end));
    let record = record_at(db.file, offset as nat)->Done_0;
    lemma_stays_secured(db, changes, id, offset, record);
}

/// After any list of operations on a new database, verifying it to the end gives
/// one for each committed document, deletion and commit, whatever is pending.
pub proof fn verifying_counts_what_was_committed(
    changes: Seq<Change>,
    result: Result<VerifyStep, CndbError>,
    answers: nat,
)
    requires
        all_allowed(new_database(), changes),
        walks(apply_all(new_database(), changes).engine, result),
        apply_all(new_database(), changes).file.len() <= MAX_FILE_LEN,
        apply_all(new_database(), changes).file.len() <= usize::MAX,
        2 * apply_all(new_database(), changes).file.len() + 2 <= answers,
    ensures
        ({
            let db = apply_all(new_database(), changes);
            let index = committed_index(db.file, db.engine.header)->Done_0;
            result matches Ok(step) && drive_walk(step, db.file, answers) == Some(
                Outcome::Done(
                    index.offsets.len() + index.dead.len() + db.engine.header.generation as nat,
                ),
            )
        }),
{
    let db = apply_all(new_database(), changes);
    a_walk_counts_documents_deletions_and_commits(changes);
    verifying_walks_the_whole_committed_log(db.engine, db.file, result, answers);
}

/// After any list of operations on a new database, opening its file gives what
/// was last committed.
pub proof fn opening_finds_the_last_commit(
    changes: Seq<Change>,
    file_len: u64,
    result: Result<OpenStep, CndbError>,
)
    requires
        all_allowed(new_database(), changes),
        measured(apply_all(new_database(), changes).file, file_len),
        opens(file_len, result),
    ensures
        ({
            let db = apply_all(new_database(), changes);
            result matches Ok(OpenStep::Load(load)) && drive_load(load@, db.file, 3) == Some(
                Outcome::Done(committed_state(db.engine, db.file)),
            ) && (!db.engine.dirty ==> committed_state(db.engine, db.file) == db.engine)
        }),
{
    let db = apply_all(new_database(), changes);
    a_new_database_is_consistent();
    every_history_is_consistent(new_database(), changes);
    opening_finds_what_was_committed(db.engine, db.file, file_len, result);
}

/// A document that was committed is found again by reading it after any list of
/// operations that does not delete it, with the record it had.
pub proof fn reading_finds_what_was_committed(
    db: Database,
    changes: Seq<Change>,
    id: DocId,
    result: Result<RecordRead, CndbError>,
)
    requires
        consistent(db.engine, db.file),
        settled(db.engine, db.file),
        !db.engine.dirty,
        db.engine.index.live(id.0),
        all_allowed(db, changes),
        !changes.contains(Change::Delete { id: id.0 }),
        finds(apply_all(db, changes).engine, id, result),
        apply_all(db, changes).file.len() <= MAX_FILE_LEN,
    ensures
        result matches Ok(read) && drive_read(read, apply_all(db, changes).file, 2) == Some(
            record_at(db.file, db.engine.index.offsets[id.0] as nat),
        ),
{
    let after = apply_all(db, changes);
    a_committed_document_is_never_lost(db, changes, id.0);
    reading_gives_live_documents_only(after.engine, after.file, id, result);
}

} // verus!
