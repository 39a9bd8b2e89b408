//! The public database handle.

use crate::document::codec::{
    an_object_is_stored_as_bson_writes_it, bytes_to_document, document_to_bytes, document_to_json,
    document_to_text, from_bson_bytes, json_to_document, json_to_payload, json_type,
    payload_to_json, to_bson_bytes, JsonType,
};
use crate::error::{CndbError, ErrorView};
use crate::storage::consistency::{
    an_append_is_read_back, consistent, read_document, with_header, with_record,
};
use crate::storage::engine::{Stats, StorageEngine};
use crate::storage::file::{ops_view, perform_all, Outcome, MAX_FILE_LEN};
use crate::storage::header::victim_of;
use crate::storage::log::VerifyStep;
use crate::storage::operations::{
    appending_stores_the_document, drive_read, reading_gives_live_documents_only,
};
use crate::storage::protocol::{
    appends, commit_ready, commits, deletes, finds, indexes, opens, walks, CommitStage, CommitStep,
    OpenStep, RecordWrite,
};
use crate::storage::record::{
    record_at, DocId, Record, RecordKind, RecordRead, RecordView, MAX_RECORD_LEN,
    RECORD_HEADER_SIZE,
};
use crate::storage::recovery::a_commit_is_durable;
use crate::storage::state::{recover, EngineView};
use serde_json::Value;
use vstd::prelude::*;

verus! {

/// An open cndb database.
///
/// Writes are buffered until [`commit`](Self::commit); a handle dropped without
/// committing discards them, which is what makes an interrupted run leave the
/// file at its last consistent state rather than half-updated.
#[derive(Debug)]
pub struct Cndb {
    store: StorageEngine,
}

impl View for Cndb {
    type V = EngineView;

    closed spec fn view(&self) -> EngineView {
        self.store@
    }
}

impl Cndb {
    /// Open a file of `file_len` bytes, creating an empty database in a file
    /// that is empty.
    ///
    /// The engine that this ends with goes to [`over`](Self::over).
    pub fn open(file_len: u64) -> (result: Result<OpenStep, CndbError>)
        requires
            file_len <= MAX_FILE_LEN,
        ensures
            opens(file_len, result),
    {
        StorageEngine::open(file_len)
    }

    /// The database that an open engine stores.
    pub fn over(store: StorageEngine) -> (db: Self)
        ensures
            db@ == store@,
    {
        Cndb { store }
    }

    /// Prepare to store a JSON object.
    ///
    /// Refused if `doc` is not an object. Once the write is carried out,
    /// [`finish_insert`](Self::finish_insert) gives the document its id. Durable
    /// after [`commit`](Self::commit).
    pub fn insert(&self, doc: &Value) -> (result: Result<RecordWrite, CndbError>)
        requires
            self@.wf(),
        ensures
            match json_to_payload(*doc) {
                Ok(payload) => appends(self@, RecordKind::Blob, payload, result),
                Err(refusal) => result matches Err(e) && e@ == refusal,
            },
    {
        match to_bson_bytes(doc) {
            Err(e) => Err(e),
            Ok(bytes) => self.store.append(RecordKind::Blob, bytes.as_slice()),
        }
    }

    /// A document's record has been written: return the id it can be fetched
    /// by.
    pub fn finish_insert(&mut self, write: &RecordWrite) -> (id: DocId)
        requires
            old(self)@.wf(),
            write.fits(old(self)@),
            old(self)@.index.next_doc_id < u64::MAX,
        ensures
            final(self)@ == old(self)@.appended(write.len),
            final(self)@.wf(),
            id == DocId(old(self)@.index.next_doc_id),
    {
        self.store.finish_append(write)
    }

    /// Begin to fetch a document by id.
    ///
    /// The record that the read ends with goes to
    /// [`finish_get`](Self::finish_get).
    pub fn get(&self, id: DocId) -> (result: Result<RecordRead, CndbError>)
        ensures
            finds(self@, id, result),
    {
        self.store.read(id)
    }

    /// The document that a record holds.
    pub fn finish_get(record: Record) -> (result: Result<Value, CndbError>)
        ensures
            match result {
                Ok(value) => payload_to_json(record@.payload) == Ok::<Value, ErrorView>(value),
                Err(e) => payload_to_json(record@.payload) == Err::<Value, ErrorView>(e@),
            },
    {
        let payload = record.into_payload();
        from_bson_bytes(payload.as_slice())
    }

    /// Prepare to delete a document. Once the write is carried out,
    /// [`finish_delete`](Self::finish_delete) hides it.
    pub fn delete(&self, id: DocId) -> (result: Result<RecordWrite, CndbError>)
        requires
            self@.wf(),
        ensures
            deletes(self@, id, result),
    {
        self.store.tombstone(id)
    }

    /// A document's tombstone has been written: hide the document.
    pub fn finish_delete(&mut self, id: DocId, write: &RecordWrite)
        requires
            old(self)@.wf(),
            write.fits(old(self)@),
            write.len == 8,
            old(self)@.index.live(id.0),
        ensures
            final(self)@ == old(self)@.deleted(id.0),
            final(self)@.wf(),
    {
        self.store.finish_tombstone(id, write)
    }

    /// Make every write since the last commit durable, stage by stage.
    pub fn commit(&mut self, stage: CommitStage) -> (result: Result<CommitStep, CndbError>)
        requires
            commit_ready(old(self)@, stage),
        ensures
            final(self)@.wf(),
            commits(old(self)@, stage, final(self)@, result),
    {
        self.store.commit(stage)
    }

    /// Check every committed record's checksum. The walk ends with how many
    /// were read.
    pub fn verify(&self) -> (result: Result<VerifyStep, CndbError>)
        ensures
            walks(self@, result),
    {
        self.store.verify()
    }

    /// Number of live documents.
    pub fn len(&self) -> (count: usize)
        requires
            self@.index.dead.len() <= self@.index.offsets.len(),
        ensures
            count == self@.index.offsets.len() - self@.index.dead.len(),
            self@.index.wf() ==> count == self@.index.live_set().len(),
    {
        self.store.len()
    }

    /// True when no live documents remain.
    pub fn is_empty(&self) -> (empty: bool)
        requires
            self@.index.dead.len() <= self@.index.offsets.len(),
        ensures
            empty == (self@.index.dead.len() == self@.index.offsets.len()),
            self@.index.wf() ==> empty == (self@.index.live_set().len() == 0),
    {
        self.store.is_empty()
    }

    /// Every live document id, in no particular order.
    pub fn ids(&self) -> (ids: Vec<DocId>)
        ensures
            ids@.no_duplicates(),
            forall|id: u64| #[trigger] ids@.contains(DocId(id)) <==> self@.index.live(id),
    {
        self.store.live_ids()
    }

    /// A snapshot of engine state.
    pub fn stats(&self) -> (stats: Stats)
        requires
            self@.index.dead.len() <= self@.index.offsets.len(),
        ensures
            stats.generation == self@.header.generation,
            stats.live_docs == self@.index.offsets.len() - self@.index.dead.len(),
            stats.dead_docs == self@.index.dead.len(),
            stats.committed_len == self@.header.log_end,
            stats.pending_len == self@.end,
    {
        self.store.stats()
    }

    /// The underlying storage engine.
    pub fn store(&self) -> (store: &StorageEngine)
        ensures
            store@ == self@,
    {
        &self.store
    }
}

/// What fetching a document gives.
pub open spec fn get_document(engine: EngineView, file: Seq<u8>, id: u64) -> Outcome<Value> {
    match read_document(engine, file, id) {
        Outcome::Done(record) => match payload_to_json(record.payload) {
            Ok(value) => Outcome::Done(value),
            Err(e) => Outcome::Refused(e),
        },
        Outcome::Refused(e) => Outcome::Refused(e),
        Outcome::ReadFailed => Outcome::ReadFailed,
    }
}

/// Fetching a document that was inserted decodes the very bytes that the
/// document was encoded as, and every other document is fetched as before.
pub proof fn an_insert_is_fetched_back(
    engine: EngineView,
    file: Seq<u8>,
    doc: Value,
    payload: Seq<u8>,
)
    requires
        consistent(engine, file),
        json_to_payload(doc) == Ok::<Seq<u8>, ErrorView>(payload),
        payload.len() <= MAX_RECORD_LEN,
        engine.end + RECORD_HEADER_SIZE + payload.len() <= MAX_FILE_LEN,
        engine.index.next_doc_id < u64::MAX,
    ensures
        ({
            let next = engine.appended(payload.len() as u64);
            let after = with_record(file, engine.end, RecordKind::Blob, payload);
            let id = engine.index.next_doc_id;
            &&& consistent(next, after)
            &&& get_document(next, after, id) == match payload_to_json(payload) {
                Ok(value) => Outcome::Done(value),
                Err(e) => Outcome::Refused(e),
            }
            &&& forall|other: u64|
                other != id ==> #[trigger] get_document(next, after, other) == get_document(
                    engine,
                    file,
                    other,
                )
        }),
{
    an_append_is_read_back(engine, file, RecordKind::Blob, payload);
    let next = engine.appended(payload.len() as u64);
    let after = with_record(file, engine.end, RecordKind::Blob, payload);
    assert forall|other: u64| other != engine.index.next_doc_id implies #[trigger] get_document(
        next,
        after,
        other,
    ) == get_document(engine, file, other) by {
        assert(read_document(next, after, other) == read_document(engine, file, other));
    }
}

/// Every document that could be fetched before a commit is fetched after it all
/// the same, and again after the file is reopened: reopening gives the very
/// state that the commit left.
pub proof fn documents_survive_a_commit_and_reopening(
    engine: EngineView,
    file: Seq<u8>,
    payload: Seq<u8>,
)
    requires
        consistent(engine, file),
        indexes(payload, engine),
        payload.len() <= MAX_RECORD_LEN,
        engine.end + RECORD_HEADER_SIZE + payload.len() <= MAX_FILE_LEN,
        engine.header.generation < u64::MAX,
    ensures
        ({
            let len = payload.len() as u64;
            let between = engine.extended(len);
            let header = between.next_header(engine.end, len);
            let written = with_record(file, engine.end, RecordKind::MasterIndex, payload);
            let after = with_header(written, victim_of(engine.slots), header);
            recover(after) matches Outcome::Done(reopened) && {
                &&& reopened == between.committed(header)
                &&& consistent(reopened, after)
                &&& forall|id: u64| #[trigger]
                    get_document(reopened, after, id) == get_document(engine, file, id)
            }
        }),
{
    a_commit_is_durable(engine, file, payload);
    let len = payload.len() as u64;
    let between = engine.extended(len);
    let header = between.next_header(engine.end, len);
    let written = with_record(file, engine.end, RecordKind::MasterIndex, payload);
    let after = with_header(written, victim_of(engine.slots), header);
    let reopened = between.committed(header);
    assert forall|id: u64| #[trigger] get_document(reopened, after, id) == get_document(
        engine,
        file,
        id,
    ) by {
        assert(read_document(reopened, after, id) == read_document(engine, file, id));
    }
}

/// Inserting an object that `bson` can write stores all of what `bson` writes for
/// it, however long it is up to the limit of a record. Once the write is done,
/// fetching the new id gives what `bson` reads in those bytes: the object
/// itself, if that is what `bson` makes of what it wrote. Every other document
/// is fetched as before.
pub proof fn inserting_stores_what_bson_writes(
    engine: EngineView,
    file: Seq<u8>,
    doc: Value,
    document: bson::Document,
    bytes: Seq<u8>,
    result: Result<RecordWrite, CndbError>,
)
    requires
        consistent(engine, file),
        match json_to_payload(doc) {
            Ok(payload) => appends(engine, RecordKind::Blob, payload, result),
            Err(refusal) => result matches Err(e) && e@ == refusal,
        },
        json_type(doc) == JsonType::Object,
        json_to_document(doc) == Ok::<bson::Document, Seq<char>>(document),
        document_to_text(document) matches Ok(text) && text.len() <= 0x7fff_fffe,
        document_to_bytes(document) == Ok::<Seq<u8>, Seq<char>>(bytes),
        bytes.len() <= 67_108_864,
        engine.end + 9 + bytes.len() <= MAX_FILE_LEN,
        engine.index.next_doc_id < u64::MAX,
    ensures
        result matches Ok(write) && {
            let next = engine.appended(write.len);
            let after = perform_all(file, ops_view(write.ops@));
            let id = engine.index.next_doc_id;
            &&& consistent(next, after)
            &&& read_document(next, after, id) == Outcome::Done(
                RecordView { kind: RecordKind::Blob, payload: bytes },
            )
            &&& bytes_to_document(bytes) matches Ok(read) ==> match document_to_json(read) {
                Ok(value) => get_document(next, after, id) == Outcome::Done(value),
                Err(words) => get_document(next, after, id) == Outcome::<Value>::Refused(
                    ErrorView::Bson(words),
                ),
            }
            &&& bytes_to_document(bytes) matches Err(words) ==> get_document(next, after, id)
                == Outcome::<Value>::Refused(ErrorView::Bson(words))
            &&& forall|other: u64|
                other != id ==> #[trigger] get_document(next, after, other) == get_document(
                    engine,
                    file,
                    other,
                )
        },
{
    an_object_is_stored_as_bson_writes_it(doc, bytes);
    appending_stores_the_document(engine, file, RecordKind::Blob, bytes, result);
    let write = result->Ok_0;
    let next = engine.appended(write.len);
    let after = perform_all(file, ops_view(write.ops@));
    assert forall|other: u64| other != engine.index.next_doc_id implies #[trigger] get_document(
        next,
        after,
        other,
    ) == get_document(engine, file, other) by {
        assert(read_document(next, after, other) == read_document(engine, file, other));
    }
}

/// Fetching, from the first request to the value: a live document is read from
/// the file and decoded as `bson` decodes it; one that was deleted is reported as
/// deleted, committed or not; an id that no document has is not found.
pub proof fn getting_gives_live_documents_only(
    engine: EngineView,
    file: Seq<u8>,
    id: DocId,
    result: Result<RecordRead, CndbError>,
)
    requires
        finds(engine, id, result),
        file.len() <= MAX_FILE_LEN,
    ensures
        engine.index.dead.contains(id.0) ==> (result matches Err(e) && e@ == ErrorView::Deleted(id))
            && get_document(engine, file, id.0) == Outcome::<Value>::Refused(
            ErrorView::Deleted(id),
        ),
        !engine.index.dead.contains(id.0) && !engine.index.offsets.contains_key(id.0) ==> (
        result matches Err(e) && e@ == ErrorView::NotFound(id)) && get_document(engine, file, id.0)
            == Outcome::<Value>::Refused(ErrorView::NotFound(id)),
        !engine.index.dead.contains(id.0) && engine.index.offsets.contains_key(id.0) ==> (
        result matches Ok(read) && match record_at(file, engine.index.offsets[id.0] as nat) {
            Outcome::Done(record) => {
                &&& drive_read(read, file, 2) == Some(Outcome::Done(record))
                &&& match bytes_to_document(record.payload) {
                    Err(words) => get_document(engine, file, id.0) == Outcome::<Value>::Refused(
                        ErrorView::Bson(words),
                    ),
                    Ok(document) => match document_to_json(document) {
                        Err(words) => get_document(engine, file, id.0)
                            == Outcome::<Value>::Refused(ErrorView::Bson(words)),
                        Ok(value) => get_document(engine, file, id.0) == Outcome::Done(value),
                    },
                }
            },
            Outcome::Refused(e) => drive_read(read, file, 2) == Some(
                Outcome::<RecordView>::Refused(e),
            ) && get_document(engine, file, id.0) == Outcome::<Value>::Refused(e),
            Outcome::ReadFailed => drive_read(read, file, 2) == Some(
                Outcome::<RecordView>::ReadFailed,
            ),
        }),
{
    reading_gives_live_documents_only(engine, file, id, result);
}

} // verus!
