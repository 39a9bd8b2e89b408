//! What the engine and the owner of the file say to each other.
//!
//! Opening, reading and committing take several exchanges; the types here carry
//! an operation from one to the next. Each relation says what one call must
//! make of its arguments.

use crate::error::{CndbError, ErrorView};
use crate::le::le_bytes;
use crate::storage::engine::StorageEngine;
use crate::storage::file::{ops_view, FileOp, OpView, ReadRequest, MAX_FILE_LEN};
use crate::storage::header::{live_of, victim_of, Header, LOG_START};
use crate::storage::index::{empty_index, parse_index, IndexView};
use crate::storage::log::{arrival, VerifyStep};
use crate::storage::record::{
    read_step, DocId, RecordKind, RecordRead, RecordStepView, MAX_RECORD_LEN, RECORD_HEADER_SIZE,
};
use crate::storage::state::{
    create_ops, header_ops, loaded, master_index, record_ops, region_slots, slot_of, EngineView,
};
use vstd::prelude::*;

verus! {

/// How opening a file begins.
#[derive(Debug)]
pub enum OpenStep {
    /// The file is empty. Carry these out, then take
    /// [`StorageEngine::initialize`].
    Create(Vec<FileOp>),
    /// The file holds something. Answer [`Load::request`].
    Load(Load),
}

/// Recovering a database from its headers.
#[derive(Debug)]
pub enum Load {
    /// The header region of a file of this length is wanted.
    Region { file_len: u64 },
    /// All but the index is known; the record that holds the index is being
    /// read.
    Master { engine: StorageEngine, read: RecordRead },
}

/// Where recovery stands after an answer.
#[derive(Debug)]
pub enum LoadStep {
    /// Something more is wanted.
    More(Load),
    /// The database is open.
    Done(StorageEngine),
}

/// What a [`Load`] knows.
pub enum LoadView {
    Region { file_len: u64 },
    Master { engine: EngineView, read: RecordRead },
}

/// What a [`LoadStep`] says.
pub enum LoadStepView {
    More(LoadView),
    Done(EngineView),
}

impl View for Load {
    type V = LoadView;

    open spec fn view(&self) -> LoadView {
        match *self {
            Load::Region { file_len } => LoadView::Region { file_len },
            Load::Master { engine, read } => LoadView::Master { engine: engine@, read },
        }
    }
}

impl View for LoadStep {
    type V = LoadStepView;

    open spec fn view(&self) -> LoadStepView {
        match *self {
            LoadStep::More(load) => LoadStepView::More(load@),
            LoadStep::Done(engine) => LoadStepView::Done(engine@),
        }
    }
}

impl LoadView {
    /// The bytes that recovery wants next.
    pub open spec fn wants(self) -> ReadRequest {
        match self {
            LoadView::Region { .. } => ReadRequest { offset: 0, len: LOG_START },
            LoadView::Master { read, .. } => read.wants(),
        }
    }

    /// End of the bytes that the next answer holds.
    pub open spec fn reach(self) -> int {
        match self {
            LoadView::Region { .. } => LOG_START as int,
            LoadView::Master { read, .. } => read.reach(),
        }
    }

    /// The file is long enough to hold a database, and not too long.
    pub open spec fn wf(self) -> bool {
        match self {
            LoadView::Region { file_len } => LOG_START <= file_len <= MAX_FILE_LEN,
            LoadView::Master { engine, .. } => engine.wf(),
        }
    }
}

impl Load {
    /// The bytes that recovery wants next.
    pub fn request(&self) -> (request: ReadRequest)
        requires
            self@ matches LoadView::Master { read, .. } ==> read is Payload ==> read.offset()
                + RECORD_HEADER_SIZE <= u64::MAX,
        ensures
            request == self@.wants(),
    {
        match self {
            Load::Region { .. } => ReadRequest { offset: 0, len: LOG_START },
            Load::Master { read, .. } => read.request(),
        }
    }
}

/// Where recovery stands once the header region of a file of length `file_len`
/// is known.
pub open spec fn region_step(file_len: u64, region: Seq<u8>) -> Result<LoadStepView, ErrorView> {
    let slots = region_slots(region);
    match live_of(slots) {
        None => Err(slot_of(region, 0)->Err_0),
        Some(live) => {
            let header = slots[live]->Some_0;
            let engine = loaded(slots, live, empty_index());
            if header.log_end > file_len {
                Err(
                    ErrorView::UnexpectedEof {
                        offset: file_len as nat,
                        needed: header.log_end as nat,
                    },
                )
            } else if header.master_len == 0 {
                Ok(LoadStepView::Done(engine))
            } else {
                let read = RecordRead::Frame { offset: header.master_ptr };
                Ok(LoadStepView::More(LoadView::Master { engine, read }))
            }
        },
    }
}

/// Where recovery stands once `reply` has answered its request.
pub open spec fn load_step(load: LoadView, reply: Seq<u8>) -> Result<LoadStepView, ErrorView> {
    match load {
        LoadView::Region { file_len } => region_step(file_len, reply),
        LoadView::Master { engine, read } => match read_step(read, reply) {
            Err(e) => Err(e),
            Ok(RecordStepView::More(next)) => Ok(
                LoadStepView::More(LoadView::Master { engine, read: next }),
            ),
            Ok(RecordStepView::Done(record)) => match master_index(
                record,
                engine.header.master_ptr as nat,
            ) {
                Err(e) => Err(e),
                Ok(index) => Ok(LoadStepView::Done(EngineView { index, ..engine })),
            },
        },
    }
}

/// A record to be written at the end of the log.
#[derive(Debug)]
pub struct RecordWrite {
    /// Where the record will stand.
    pub offset: u64,
    /// Length of its payload.
    pub len: u64,
    /// What to do to the file.
    pub ops: Vec<FileOp>,
}

impl RecordWrite {
    /// This is the write of a record of some kind at the end of the log.
    pub open spec fn writes(self, engine: EngineView, kind: RecordKind, payload: Seq<u8>) -> bool {
        &&& self.offset == engine.end
        &&& self.len == payload.len()
        &&& self.len <= MAX_RECORD_LEN
        &&& ops_view(self.ops@) == record_ops(engine.end, kind, payload)
    }

    /// Once carried out, the write extends the log of `engine` within the reach
    /// of positioned I/O.
    pub open spec fn fits(self, engine: EngineView) -> bool {
        &&& self.offset == engine.end
        &&& self.offset + RECORD_HEADER_SIZE + self.len <= MAX_FILE_LEN
    }
}

/// How far a commit has come.
#[derive(Debug, Clone, Copy, PartialEq, Eq, Structural)]
pub enum CommitStage {
    /// Nothing has been done.
    Begin,
    /// Every record is on disk.
    RecordsSynced,
    /// A master index of `len` bytes was written at `offset`.
    MasterWritten { offset: u64, len: u64 },
    /// The header `next` is on disk in slot number `slot`.
    HeaderSynced { next: Header, slot: usize },
}

/// What a commit needs next.
#[derive(Debug)]
pub enum CommitStep {
    /// Carry out `ops` in order, then go on with stage `then`.
    Act { ops: Vec<FileOp>, then: CommitStage },
    /// The commit is complete.
    Done,
}

/// The engine is where a commit at `stage` left it.
pub open spec fn commit_ready(engine: EngineView, stage: CommitStage) -> bool {
    &&& engine.wf()
    &&& match stage {
        CommitStage::Begin => true,
        CommitStage::RecordsSynced => true,
        CommitStage::MasterWritten { offset, len } => {
            &&& offset == engine.end
            &&& offset + RECORD_HEADER_SIZE + len <= MAX_FILE_LEN
            &&& engine.header.generation < u64::MAX
        },
        CommitStage::HeaderSynced { next, slot } => {
            &&& slot == victim_of(engine.slots)
            &&& next.generation == engine.header.generation + 1
            &&& next.log_end == engine.end
        },
    }
}

/// `payload` is a stored form of the engine's index.
pub open spec fn indexes(payload: Seq<u8>, engine: EngineView) -> bool {
    &&& parse_index(payload) == Ok::<IndexView, ErrorView>(engine.index)
    &&& payload.len() == engine.index.stored_len()
}

/// The operations put the engine's index at the end of the log, as a record.
pub open spec fn writes_index(ops: Seq<FileOp>, engine: EngineView) -> bool {
    exists|payload: Seq<u8>|
        #![trigger indexes(payload, engine)]
        indexes(payload, engine) && ops_view(ops) == record_ops(
            engine.end,
            RecordKind::MasterIndex,
            payload,
        )
}

/// How opening a file of `file_len` bytes begins.
pub open spec fn opens(file_len: u64, result: Result<OpenStep, CndbError>) -> bool {
    match result {
        Ok(OpenStep::Create(ops)) => file_len == 0 && ops_view(ops@) == create_ops(),
        Ok(OpenStep::Load(load)) => file_len >= LOG_START && load@ == (LoadView::Region {
            file_len,
        }),
        Err(e) => 0 < file_len < LOG_START && e@ == (ErrorView::UnexpectedEof {
            offset: 0,
            needed: LOG_START as nat,
        }),
    }
}

/// How appending a record begins: with its write, or with a refusal when the
/// payload is over the limit.
pub open spec fn appends(
    engine: EngineView,
    kind: RecordKind,
    payload: Seq<u8>,
    result: Result<RecordWrite, CndbError>,
) -> bool {
    match result {
        Ok(write) => write.writes(engine, kind, payload),
        Err(e) => payload.len() > MAX_RECORD_LEN && e@ == (ErrorView::RecordTooLarge {
            offset: engine.end as nat,
            len: payload.len(),
            max: MAX_RECORD_LEN as nat,
        }),
    }
}

/// Why a document that is not live cannot be read or deleted.
pub open spec fn not_live(engine: EngineView, id: DocId, e: CndbError) -> bool {
    if engine.index.dead.contains(id.0) {
        e@ == ErrorView::Deleted(id)
    } else {
        !engine.index.offsets.contains_key(id.0) && e@ == ErrorView::NotFound(id)
    }
}

/// How reading a document begins.
pub open spec fn finds(
    engine: EngineView,
    id: DocId,
    result: Result<RecordRead, CndbError>,
) -> bool {
    match result {
        Ok(read) => engine.index.live(id.0) && read == (RecordRead::Frame {
            offset: engine.index.offsets[id.0],
        }),
        Err(e) => not_live(engine, id, e),
    }
}

/// How deleting a document begins: with the write of a tombstone that holds its
/// id.
pub open spec fn deletes(
    engine: EngineView,
    id: DocId,
    result: Result<RecordWrite, CndbError>,
) -> bool {
    match result {
        Ok(write) => engine.index.live(id.0) && write.writes(
            engine,
            RecordKind::Tombstone,
            le_bytes(id.0 as nat, 8),
        ),
        Err(e) => not_live(engine, id, e),
    }
}

/// What one stage of a commit makes of the engine, and what it asks for.
pub open spec fn commits(
    before: EngineView,
    stage: CommitStage,
    after: EngineView,
    result: Result<CommitStep, CndbError>,
) -> bool {
    match stage {
        CommitStage::Begin => {
            &&& after == before
            &&& match result {
                Ok(CommitStep::Done) => !before.dirty,
                Ok(CommitStep::Act { ops, then }) => before.dirty && ops_view(ops@)
                    == seq![OpView::SyncData] && then == CommitStage::RecordsSynced,
                Err(_) => false,
            }
        },
        CommitStage::RecordsSynced => {
            &&& after == before
            &&& match result {
                Ok(CommitStep::Act { ops, then }) => {
                    &&& before.index.stored_len() <= MAX_RECORD_LEN
                    &&& writes_index(ops@, before)
                    &&& then == (CommitStage::MasterWritten {
                        offset: before.end,
                        len: before.index.stored_len() as u64,
                    })
                },
                Ok(CommitStep::Done) => false,
                Err(e) => before.index.stored_len() > MAX_RECORD_LEN && e@ == (
                ErrorView::RecordTooLarge {
                    offset: before.end as nat,
                    len: before.index.stored_len(),
                    max: MAX_RECORD_LEN as nat,
                }),
            }
        },
        CommitStage::MasterWritten { offset, len } => {
            let next = before.extended(len).next_header(offset, len);
            let slot = victim_of(before.slots);
            &&& after == before.extended(len)
            &&& match result {
                Ok(CommitStep::Act { ops, then }) => ops_view(ops@) == header_ops(slot, next)
                    && then == (CommitStage::HeaderSynced { next, slot: slot as usize }),
                _ => false,
            }
        },
        CommitStage::HeaderSynced { next, slot } => {
            &&& after == before.committed(next)
            &&& result matches Ok(CommitStep::Done)
        },
    }
}

/// How a walk over the committed log begins.
pub open spec fn walks(engine: EngineView, result: Result<VerifyStep, CndbError>) -> bool {
    match result {
        Ok(step) => arrival(LOG_START, 0, engine.header.log_end) == Ok::<VerifyStep, ErrorView>(
            step,
        ),
        Err(e) => arrival(LOG_START, 0, engine.header.log_end) == Err::<VerifyStep, ErrorView>(e@),
    }
}

} // verus!
