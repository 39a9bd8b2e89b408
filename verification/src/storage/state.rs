//! What the engine knows, and what a file says it should know.

use crate::error::ErrorView;
use crate::storage::file::{OpView, Outcome, MAX_FILE_LEN};
use crate::storage::header::{
    header_bytes, initial_header, live_of, parse_header, victim_of, zeros, Header, HEADER_SIZE,
    HEADER_SLOTS, LOG_START,
};
use crate::storage::index::{empty_index, parse_index, IndexView};
use crate::storage::record::{
    frame_bytes, record_at, RecordKind, RecordView, RECORD_HEADER_SIZE,
};
use crate::text::decimal;
use vstd::prelude::*;

verus! {

/// What a storage engine knows.
#[verifier::ext_equal]
pub struct EngineView {
    /// The live header, i.e. the last committed state.
    pub header: Header,
    /// Both decoded slots.
    pub slots: Seq<Option<Header>>,
    /// Which slot `header` came from.
    pub live_slot: int,
    /// The index, uncommitted changes included.
    pub index: IndexView,
    /// First free byte. Runs ahead of `header.log_end` between commits.
    pub end: u64,
    /// Whether anything has been appended since the last commit.
    pub dirty: bool,
}

impl EngineView {
    /// The live header is the newest of the slots, and nothing lies beyond the
    /// reach of positioned I/O.
    pub open spec fn wf(self) -> bool {
        &&& self.slots.len() == HEADER_SLOTS
        &&& 0 <= self.live_slot < HEADER_SLOTS
        &&& live_of(self.slots) == Some(self.live_slot)
        &&& self.slots[self.live_slot] == Some(self.header)
        &&& self.header.log_end <= self.end <= MAX_FILE_LEN
    }

    /// After a record with a payload of `len` bytes was written at the end.
    pub open spec fn extended(self, len: u64) -> EngineView {
        EngineView {
            end: (self.end + RECORD_HEADER_SIZE + len) as u64,
            dirty: true,
            ..self
        }
    }

    /// After a document of `len` bytes was written at the end.
    pub open spec fn appended(self, len: u64) -> EngineView {
        EngineView { index: self.index.with_document(self.end), ..self.extended(len) }
    }

    /// After a document's tombstone was written at the end.
    pub open spec fn deleted(self, id: u64) -> EngineView {
        EngineView { index: self.index.without(id), ..self.extended(8) }
    }

    /// The header that commits this state, once a master index of `len` bytes
    /// was written at `offset`, right before the end.
    pub open spec fn next_header(self, offset: u64, len: u64) -> Header {
        Header {
            generation: (self.header.generation + 1) as u64,
            master_ptr: offset,
            master_len: len,
            log_end: self.end,
        }
    }

    /// After `next` became the live header, in the slot that was free for it.
    pub open spec fn committed(self, next: Header) -> EngineView {
        EngineView {
            header: next,
            slots: self.slots.update(victim_of(self.slots), Some(next)),
            live_slot: victim_of(self.slots),
            dirty: false,
            ..self
        }
    }
}

/// The two operations that put a record at `offset`.
pub open spec fn record_ops(offset: u64, kind: RecordKind, payload: Seq<u8>) -> Seq<OpView> {
    seq![
        OpView::Write { offset: offset as nat, bytes: frame_bytes(kind, payload) },
        OpView::Write { offset: (offset + RECORD_HEADER_SIZE) as nat, bytes: payload },
    ]
}

/// The header region of a brand-new database: generation 0 in slot 0, and a
/// slot 1 that is zeroed and so decodes as invalid.
pub open spec fn fresh_region() -> Seq<u8> {
    header_bytes(initial_header()) + zeros(64)
}

/// The operations that lay down a brand-new database.
pub open spec fn create_ops() -> Seq<OpView> {
    seq![OpView::Write { offset: 0, bytes: fresh_region() }, OpView::SyncAll]
}

/// What the engine knows of a brand-new database.
pub open spec fn fresh_engine() -> EngineView {
    EngineView {
        header: initial_header(),
        slots: seq![Some(initial_header()), None],
        live_slot: 0,
        index: empty_index(),
        end: LOG_START,
        dirty: false,
    }
}

/// The operation that writes a header to a slot.
pub open spec fn header_write(slot: int, header: Header) -> OpView {
    OpView::Write { offset: (slot * HEADER_SIZE) as nat, bytes: header_bytes(header) }
}

/// The operations that write a header to a slot, between two flushes.
pub open spec fn header_ops(slot: int, header: Header) -> Seq<OpView> {
    seq![OpView::SyncData, header_write(slot, header), OpView::SyncData]
}

/// What slot number `slot` of a header region holds, or what is wrong with it.
pub open spec fn slot_of(region: Seq<u8>, slot: int) -> Result<Header, ErrorView> {
    parse_header(
        region.subrange(slot * HEADER_SIZE, (slot + 1) * HEADER_SIZE),
        slot as nat,
    )
}

/// The valid headers of a header region.
pub open spec fn region_slots(region: Seq<u8>) -> Seq<Option<Header>> {
    Seq::new(
        HEADER_SLOTS as nat,
        |slot: int|
            match slot_of(region, slot) {
                Ok(header) => Some(header),
                Err(_) => None,
            },
    )
}

/// The name of a kind, as diagnostics give it.
pub open spec fn kind_name(kind: RecordKind) -> Seq<char> {
    match kind {
        RecordKind::Node => "Node"@,
        RecordKind::Edge => "Edge"@,
        RecordKind::Blob => "Blob"@,
        RecordKind::Tombstone => "Tombstone"@,
        RecordKind::MasterIndex => "MasterIndex"@,
    }
}

/// The complaint about a header that points at some other record.
pub open spec fn not_master_text(offset: nat, kind: RecordKind) -> Seq<char> {
    "record at "@ + decimal(offset) + " is "@ + kind_name(kind) + ", not a master index"@
}

/// The index that the record a header points at must hold.
pub open spec fn master_index(record: RecordView, offset: nat) -> Result<IndexView, ErrorView> {
    if record.kind != RecordKind::MasterIndex {
        Err(ErrorView::CorruptIndex(not_master_text(offset, record.kind)))
    } else {
        parse_index(record.payload)
    }
}

/// The index that a header committed.
pub open spec fn committed_index(file: Seq<u8>, header: Header) -> Outcome<IndexView> {
    if header.master_len == 0 {
        Outcome::Done(empty_index())
    } else {
        match record_at(file, header.master_ptr as nat) {
            Outcome::Done(record) => match master_index(record, header.master_ptr as nat) {
                Ok(index) => Outcome::Done(index),
                Err(e) => Outcome::Refused(e),
            },
            Outcome::Refused(e) => Outcome::Refused(e),
            Outcome::ReadFailed => Outcome::ReadFailed,
        }
    }
}

/// What an engine knows right after it loaded `index` through the live header
/// of `slots`.
pub open spec fn loaded(slots: Seq<Option<Header>>, live: int, index: IndexView) -> EngineView {
    let header = slots[live]->Some_0;
    EngineView { header, slots, live_slot: live, index, end: header.log_end, dirty: false }
}

/// What an engine knows after opening a file that is not empty, or why the file
/// is refused.
///
/// When both slots are invalid the error says what is wrong with the first.
pub open spec fn recover(file: Seq<u8>) -> Outcome<EngineView> {
    if file.len() < LOG_START {
        Outcome::Refused(ErrorView::UnexpectedEof { offset: 0, needed: LOG_START as nat })
    } else {
        let region = file.subrange(0, LOG_START as int);
        let slots = region_slots(region);
        match live_of(slots) {
            None => Outcome::Refused(slot_of(region, 0)->Err_0),
            Some(live) => {
                let header = slots[live]->Some_0;
                if header.log_end > file.len() {
                    Outcome::Refused(
                        ErrorView::UnexpectedEof {
                            offset: file.len(),
                            needed: header.log_end as nat,
                        },
                    )
                } else {
                    match committed_index(file, header) {
                        Outcome::Done(index) => Outcome::Done(loaded(slots, live, index)),
                        Outcome::Refused(e) => Outcome::Refused(e),
                        Outcome::ReadFailed => Outcome::ReadFailed,
                    }
                }
            },
        }
    }
}

} // verus!
