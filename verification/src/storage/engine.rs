//! The append-only storage engine.
//!
//! # Commit protocol
//!
//! A commit never overwrites a byte the live generation depends on:
//!
//! 1. Records are appended at `log_end` and the payload is flushed.
//! 2. The master index is appended *as an ordinary record*, then flushed.
//! 3. A header with `generation + 1` is written to the older slot and flushed.
//!
//! Step 3 is the commit point. A crash before it leaves the previous header
//! untouched, still pointing at the previous master index, with every new byte
//! sitting beyond the old `log_end` where the next append overwrites it. A
//! crash *during* it tears at most one header slot, and the other survives.
//!
//! Writing the master index into the log rather than into reserved space is
//! what makes this work. Appends always start past the live master record, so
//! it stays readable until its successor is committed.
//!
//! # Doing the I/O
//!
//! The engine decides; whoever owns the file acts. An operation that changes
//! the file comes in two halves: the first returns the [`FileOp`]s to carry
//! out, in order, and the second, called once they have all succeeded, brings
//! the engine up to date. When one of them fails the second half is not called,
//! and the engine still describes what it described before. Operations that
//! read the file hand out one request after another and are given the bytes.

use crate::error::{CndbError, ErrorView};
use crate::le::{lemma_le_bytes_len, to_le};
use crate::storage::file::{ops_view, FileOp, OpView, MAX_FILE_LEN};
use crate::storage::header::{
    initial_header, select_live, victim_slot, zeros, Header, HEADER_SIZE, HEADER_SLOTS, LOG_START,
};
use crate::storage::index::{empty_index, MasterIndex};
use crate::storage::log::{verify_from, VerifyStep};
use crate::storage::protocol::{
    appends, commit_ready, commits, deletes, finds, indexes, load_step, opens, region_step, walks,
    CommitStage, CommitStep, Load, LoadStep, LoadStepView, OpenStep, RecordWrite,
};
use crate::storage::record::{
    encode_frame, read_record_at, DocId, RecordKind, RecordRead, RecordStep, MAX_RECORD_LEN,
    RECORD_HEADER_SIZE,
};
use crate::storage::state::{
    create_ops, fresh_engine, header_ops, loaded, not_master_text, record_ops, region_slots,
    EngineView,
};
use crate::text::to_decimal;
use vstd::prelude::*;
use vstd::slice::slice_to_vec;
use vstd::string::StringExecFns;

verus! {

/// A single `.cndb` file, opened for reading and writing.
///
/// One writer at a time.
#[derive(Debug)]
pub struct StorageEngine {
    /// The live header, i.e. the last committed state.
    header: Header,
    /// Both decoded slots, so a commit can pick the one safe to overwrite.
    slots: [Option<Header>; HEADER_SLOTS],
    /// Which slot `header` came from.
    live_slot: usize,
    index: MasterIndex,
    /// First free byte. Runs ahead of `header.log_end` between commits.
    end: u64,
    /// Whether anything has been appended since the last commit.
    dirty: bool,
}

impl View for StorageEngine {
    type V = EngineView;

    closed spec fn view(&self) -> EngineView {
        EngineView {
            header: self.header,
            slots: self.slots@,
            live_slot: self.live_slot as int,
            index: self.index@,
            end: self.end,
            dirty: self.dirty,
        }
    }
}

/// A snapshot of engine state, for diagnostics and tests.
#[derive(Debug, Clone, Copy, PartialEq, Eq, Structural)]
pub struct Stats {
    pub generation: u64,
    pub live_docs: usize,
    pub dead_docs: usize,
    pub committed_len: u64,
    pub pending_len: u64,
}

/// Copy one header slot out of a header region.
fn slot_bytes(region: &Vec<u8>, slot: usize) -> (buf: [u8; HEADER_SIZE])
    requires
        slot < HEADER_SLOTS,
        region@.len() == LOG_START,
    ensures
        buf@ == region@.subrange(slot * HEADER_SIZE, (slot + 1) * HEADER_SIZE),
{
    let mut buf = [0u8; HEADER_SIZE];
    let mut i: usize = 0;
    while i < HEADER_SIZE
        invariant
            i <= HEADER_SIZE,
            slot < HEADER_SLOTS,
            region@.len() == LOG_START,
            forall|j: int| 0 <= j < i ==> buf@[j] == region@[slot * HEADER_SIZE + j],
        decreases HEADER_SIZE - i,
    {
        buf[i] = region[slot * HEADER_SIZE + i];
        i = i + 1;
    }
    assert(buf@ =~= region@.subrange(slot * HEADER_SIZE, (slot + 1) * HEADER_SIZE));
    buf
}

/// Complain about a header that points at some other record.
fn not_master(offset: u64, kind: RecordKind) -> (text: String)
    ensures
        text@ == not_master_text(offset as nat, kind),
{
    let name = match kind {
        RecordKind::Node => "Node",
        RecordKind::Edge => "Edge",
        RecordKind::Blob => "Blob",
        RecordKind::Tombstone => "Tombstone",
        RecordKind::MasterIndex => "MasterIndex",
    };
    let mut text = String::from_str("record at ");
    text.append(to_decimal(offset).as_str());
    text.append(" is ");
    text.append(name);
    text.append(", not a master index");
    text
}

impl StorageEngine {
    /// Open a file of `file_len` bytes: create an empty database in an empty
    /// file, recover the one in a file that holds something.
    pub fn open(file_len: u64) -> (result: Result<OpenStep, CndbError>)
        requires
            file_len <= MAX_FILE_LEN,
        ensures
            opens(file_len, result),
    {
        if file_len == 0 {
            return Ok(OpenStep::Create(StorageEngine::create()));
        }
        if file_len < LOG_START {
            return Err(CndbError::UnexpectedEof { offset: 0, needed: LOG_START });
        }
        Ok(OpenStep::Load(Load::Region { file_len }))
    }

    /// Lay down the header region of a brand-new database.
    ///
    /// Slot 0 holds generation 0; slot 1 stays zeroed and so decodes as
    /// invalid, which makes it the first commit's victim.
    fn create() -> (ops: Vec<FileOp>)
        ensures
            ops_view(ops@) == create_ops(),
    {
        let header = Header::initial().encode();
        let mut region: Vec<u8> = slice_to_vec(header.as_slice());
        let mut i: usize = 0;
        while i < HEADER_SIZE
            invariant
                i <= HEADER_SIZE,
                region@ == header@ + zeros(i as nat),
            decreases HEADER_SIZE - i,
        {
            region.push(0);
            i = i + 1;
            assert(region@ =~= header@ + zeros(i as nat));
        }
        let ops: Vec<FileOp> = vec![FileOp::Write { offset: 0, bytes: region }, FileOp::SyncAll];
        assert(ops_view(ops@) =~= create_ops());
        ops
    }

    /// The engine over a brand-new database whose header region is on disk.
    pub fn initialize() -> (engine: Self)
        ensures
            engine@ == fresh_engine(),
            engine@.wf(),
    {
        let header = Header::initial();
        let engine = StorageEngine {
            header,
            slots: [Some(header), None],
            live_slot: 0,
            index: MasterIndex::default(),
            end: LOG_START,
            dirty: false,
        };
        assert(engine.slots@ =~= seq![Some(initial_header()), None]);
        engine
    }

    /// Take the answer to recovery's request and go on with it.
    ///
    /// The answer must be as long as was asked for, and must come from a file
    /// that reaches that far.
    pub fn load(load: Load, reply: Vec<u8>) -> (result: Result<LoadStep, CndbError>)
        requires
            load@.wf(),
            reply@.len() == load@.wants().len,
            load@.reach() <= u64::MAX,
        ensures
            match result {
                Ok(step) => load_step(load@, reply@) == Ok::<LoadStepView, ErrorView>(step@),
                Err(e) => load_step(load@, reply@) == Err::<LoadStepView, ErrorView>(e@),
            },
            match result {
                Ok(LoadStep::More(next)) => next@.wf(),
                Ok(LoadStep::Done(engine)) => engine@.wf(),
                Err(_) => true,
            },
    {
        match load {
            Load::Region { file_len } => StorageEngine::load_region(file_len, reply),
            Load::Master { engine, read } => match read_record_at(read, reply) {
                Err(e) => Err(e),
                Ok(RecordStep::More(next)) => Ok(
                    LoadStep::More(Load::Master { engine, read: next }),
                ),
                Ok(RecordStep::Done(record)) => {
                    if !matches!(record.kind, RecordKind::MasterIndex) {
                        return Err(
                            CndbError::CorruptIndex(
                                not_master(engine.header.master_ptr, record.kind),
                            ),
                        );
                    }
                    match MasterIndex::decode(record.payload.as_slice()) {
                        Err(e) => Err(e),
                        Ok(index) => Ok(
                            LoadStep::Done(
                                StorageEngine {
                                    header: engine.header,
                                    slots: engine.slots,
                                    live_slot: engine.live_slot,
                                    index,
                                    end: engine.end,
                                    dirty: engine.dirty,
                                },
                            ),
                        ),
                    }
                },
            },
        }
    }

    /// Pick the live header out of the header region.
    fn load_region(file_len: u64, region: Vec<u8>) -> (result: Result<LoadStep, CndbError>)
        requires
            file_len <= MAX_FILE_LEN,
            region@.len() == LOG_START,
        ensures
            match result {
                Ok(step) => region_step(file_len, region@) == Ok::<LoadStepView, ErrorView>(step@),
                Err(e) => region_step(file_len, region@) == Err::<LoadStepView, ErrorView>(e@),
            },
            match result {
                Ok(LoadStep::More(next)) => next@.wf(),
                Ok(LoadStep::Done(engine)) => engine@.wf(),
                Err(_) => true,
            },
    {
        let mut slots: [Option<Header>; HEADER_SLOTS] = [None, None];
        let mut first_error: Option<CndbError> = None;
        match Header::decode(&slot_bytes(&region, 0), 0) {
            Ok(header) => {
                slots[0] = Some(header);
            },
            Err(e) => {
                first_error = Some(e);
            },
        }
        match Header::decode(&slot_bytes(&region, 1), 1) {
            Ok(header) => {
                slots[1] = Some(header);
            },
            Err(e) => {
                if first_error.is_none() {
                    first_error = Some(e);
                }
            },
        }
        assert(slots@ =~= region_slots(region@));

        // When both slots fail, report why the first one did: "wrong magic" or
        // "unsupported version" is far more useful than "no valid header".
        let (header, live_slot) = match select_live(&slots) {
            Ok(live) => live,
            Err(fallback) => {
                return match first_error {
                    Some(e) => Err(e),
                    None => Err(fallback),
                };
            },
        };
        if header.log_end > file_len {
            return Err(
                CndbError::UnexpectedEof { offset: file_len, needed: header.log_end },
            );
        }
        let engine = StorageEngine {
            header,
            slots,
            live_slot,
            index: MasterIndex::default(),
            end: header.log_end,
            dirty: false,
        };
        assert(engine@ =~= loaded(slots@, live_slot as int, empty_index()));
        if header.master_len == 0 {
            Ok(LoadStep::Done(engine))
        } else {
            Ok(
                LoadStep::More(
                    Load::Master {
                        engine,
                        read: RecordRead::Frame { offset: header.master_ptr },
                    },
                ),
            )
        }
    }

    /// Prepare to append a document.
    ///
    /// Once the write is carried out, [`finish_append`](Self::finish_append)
    /// gives the document its id. Durable only after [`commit`](Self::commit).
    pub fn append(&self, kind: RecordKind, payload: &[u8]) -> (result: Result<
        RecordWrite,
        CndbError,
    >)
        requires
            self@.wf(),
        ensures
            appends(self@, kind, payload@, result),
    {
        self.append_raw(kind, payload)
    }

    /// Prepare to append a framed record, leaving the index alone. Used for
    /// documents and for the master index itself.
    fn append_raw(&self, kind: RecordKind, payload: &[u8]) -> (result: Result<
        RecordWrite,
        CndbError,
    >)
        requires
            self@.wf(),
        ensures
            appends(self@, kind, payload@, result),
    {
        let len = payload.len() as u64;
        if len > MAX_RECORD_LEN {
            return Err(
                CndbError::RecordTooLarge { offset: self.end, len, max: MAX_RECORD_LEN },
            );
        }
        let offset = self.end;
        let frame = encode_frame(kind, payload);
        let ops: Vec<FileOp> = vec![
            FileOp::Write { offset, bytes: slice_to_vec(frame.as_slice()) },
            FileOp::Write { offset: offset + RECORD_HEADER_SIZE, bytes: slice_to_vec(payload) },
        ];
        assert(ops_view(ops@) =~= record_ops(offset, kind, payload@));
        Ok(RecordWrite { offset, len, ops })
    }

    /// A document's record has been written: index it and return its id.
    pub fn finish_append(&mut self, write: &RecordWrite) -> (id: DocId)
        requires
            old(self)@.wf(),
            write.fits(old(self)@),
            old(self)@.index.next_doc_id < u64::MAX,
        ensures
            final(self)@ == old(self)@.appended(write.len),
            final(self)@.wf(),
            id == DocId(old(self)@.index.next_doc_id),
    {
        self.end = write.offset + RECORD_HEADER_SIZE + write.len;
        self.dirty = true;
        let id = self.index.allocate_id();
        self.index.insert(id, write.offset);
        assert(self@ =~= old(self)@.appended(write.len));
        id
    }

    /// Begin to read a document's payload: that of the record which the read
    /// ends with.
    pub fn read(&self, id: DocId) -> (result: Result<RecordRead, CndbError>)
        ensures
            finds(self@, id, result),
    {
        self.read_record(id)
    }

    /// Begin to read a document with its record kind.
    pub fn read_record(&self, id: DocId) -> (result: Result<RecordRead, CndbError>)
        ensures
            finds(self@, id, result),
    {
        if self.index.dead.contains(&id.0) {
            return Err(CndbError::Deleted(id));
        }
        match self.index.offset_of(id) {
            Some(offset) => Ok(RecordRead::Frame { offset }),
            None => Err(CndbError::NotFound(id)),
        }
    }

    /// Prepare to mark a document deleted.
    ///
    /// Appends a tombstone so the deletion is itself recoverable. Once the
    /// write is carried out, [`finish_tombstone`](Self::finish_tombstone) hides
    /// the document. The document's own record stays on disk until compaction.
    pub fn tombstone(&self, id: DocId) -> (result: Result<RecordWrite, CndbError>)
        requires
            self@.wf(),
        ensures
            deletes(self@, id, result),
    {
        if self.index.dead.contains(&id.0) {
            return Err(CndbError::Deleted(id));
        }
        if !self.index.is_live(id) {
            return Err(CndbError::NotFound(id));
        }
        let target = to_le(id.0, 8);
        proof {
            lemma_le_bytes_len(id.0 as nat, 8);
        }
        self.append_raw(RecordKind::Tombstone, target.as_slice())
    }

    /// A document's tombstone has been written: hide the document.
    pub fn finish_tombstone(&mut self, id: DocId, write: &RecordWrite)
        requires
            old(self)@.wf(),
            write.fits(old(self)@),
            write.len == 8,
            old(self)@.index.live(id.0),
        ensures
            final(self)@ == old(self)@.deleted(id.0),
            final(self)@.wf(),
    {
        self.end = write.offset + RECORD_HEADER_SIZE + write.len;
        self.dirty = true;
        self.index.dead.insert(id.0);
        assert(self@ =~= old(self)@.deleted(id.0));
    }

    /// Make every append since the last commit durable.
    ///
    /// Start at [`CommitStage::Begin`] and carry out what each step asks for.
    /// A no-op when nothing has changed. A commit that is given up half way
    /// leaves the last committed state in force.
    pub fn commit(&mut self, stage: CommitStage) -> (result: Result<CommitStep, CndbError>)
        requires
            commit_ready(old(self)@, stage),
        ensures
            final(self)@.wf(),
            commits(old(self)@, stage, final(self)@, result),
    {
        match stage {
            // 1. Records reach disk before anything points at them.
            CommitStage::Begin => {
                if !self.dirty {
                    return Ok(CommitStep::Done);
                }
                let ops: Vec<FileOp> = vec![FileOp::SyncData];
                assert(ops_view(ops@) =~= seq![OpView::SyncData]);
                Ok(CommitStep::Act { ops, then: CommitStage::RecordsSynced })
            },
            // 2. The master index goes into the log like any other record.
            CommitStage::RecordsSynced => {
                let payload = match self.index.encode() {
                    Ok(payload) => payload,
                    Err(e) => return Err(e),
                };
                match self.append_raw(RecordKind::MasterIndex, payload.as_slice()) {
                    Err(e) => Err(e),
                    Ok(write) => {
                        assert(indexes(payload@, self@));
                        Ok(
                            CommitStep::Act {
                                ops: write.ops,
                                then: CommitStage::MasterWritten {
                                    offset: write.offset,
                                    len: write.len,
                                },
                            },
                        )
                    },
                }
            },
            // 3. The commit point.
            CommitStage::MasterWritten { offset, len } => {
                self.end = offset + RECORD_HEADER_SIZE + len;
                self.dirty = true;
                let next = Header {
                    generation: self.header.generation + 1,
                    master_ptr: offset,
                    master_len: len,
                    log_end: self.end,
                };
                let slot = victim_slot(&self.slots);
                let bytes = next.encode();
                let ops: Vec<FileOp> = vec![
                    FileOp::SyncData,
                    FileOp::Write {
                        offset: Header::slot_offset(slot),
                        bytes: slice_to_vec(bytes.as_slice()),
                    },
                    FileOp::SyncData,
                ];
                assert(ops_view(ops@) =~= header_ops(slot as int, next));
                assert(self@ =~= old(self)@.extended(len));
                Ok(CommitStep::Act { ops, then: CommitStage::HeaderSynced { next, slot } })
            },
            CommitStage::HeaderSynced { next, slot } => {
                self.header = next;
                self.slots[slot] = Some(next);
                self.live_slot = slot;
                self.dirty = false;
                assert(self@ =~= old(self)@.committed(next));
                Ok(CommitStep::Done)
            },
        }
    }

    /// Walk every record from the start of the log, checking all checksums.
    ///
    /// Ends with how many records were read. Only committed bytes are scanned.
    /// The walk goes on with [`verify_log`](crate::storage::log::verify_log).
    pub fn verify(&self) -> (result: Result<VerifyStep, CndbError>)
        ensures
            walks(self@, result),
    {
        verify_from(LOG_START, 0, self.header.log_end)
    }

    /// The committed generation. Increments on every commit that does work.
    pub fn generation(&self) -> (generation: u64)
        ensures
            generation == self@.header.generation,
    {
        self.header.generation
    }

    /// Which header slot currently holds the live generation.
    pub fn live_slot(&self) -> (slot: usize)
        ensures
            slot == self@.live_slot,
    {
        self.live_slot
    }

    /// True when appends are waiting for a commit.
    pub fn is_dirty(&self) -> (dirty: bool)
        ensures
            dirty == self@.dirty,
    {
        self.dirty
    }

    /// Read-only view of the master index.
    pub fn index(&self) -> (index: &MasterIndex)
        ensures
            index@ == self@.index,
    {
        &self.index
    }

    /// Number of live documents.
    pub fn len(&self) -> (count: usize)
        requires
            self@.index.dead.len() <= self@.index.offsets.len(),
        ensures
            count == self@.index.offsets.len() - self@.index.dead.len(),
            self@.index.wf() ==> count == self@.index.live_set().len(),
    {
        self.index.live_count()
    }

    /// True when no live documents remain.
    pub fn is_empty(&self) -> (empty: bool)
        requires
            self@.index.dead.len() <= self@.index.offsets.len(),
        ensures
            empty == (self@.index.dead.len() == self@.index.offsets.len()),
            self@.index.wf() ==> empty == (self@.index.live_set().len() == 0),
    {
        self.len() == 0
    }

    /// Every live document id, in no particular order.
    pub fn live_ids(&self) -> (ids: Vec<DocId>)
        ensures
            ids@.no_duplicates(),
            forall|id: u64| #[trigger] ids@.contains(DocId(id)) <==> self@.index.live(id),
    {
        self.index.live_ids()
    }

    /// A snapshot of engine state.
    pub fn stats(&self) -> (stats: Stats)
        requires
            self@.index.dead.len() <= self@.index.offsets.len(),
        ensures
            stats.generation == self@.header.generation,
            stats.live_docs == self@.index.offsets.len() - self@.index.dead.len(),
            stats.dead_docs == self@.index.dead.len(),
            stats.committed_len == self@.header.log_end,
            stats.pending_len == self@.end,
    {
        Stats {
            generation: self.header.generation,
            live_docs: self.index.live_count(),
            dead_docs: self.index.dead_count(),
            committed_len: self.header.log_end,
            pending_len: self.end,
        }
    }
}

} // verus!
