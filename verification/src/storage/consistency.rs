//! What keeps a database file and the engine that writes it in step.
//!
//! [`consistent`] is the invariant: a fresh database has it, and every append,
//! deletion and commit keeps it, finished or not.

use crate::error::ErrorView;
use crate::le::{le_bytes, lemma_le_bytes_len};
use crate::storage::file::{perform_all, write_at, OpView, Outcome, MAX_FILE_LEN};
use crate::storage::header::{
    header_bytes, header_roundtrip, initial_header, magic, victim_of, zeros, Header, HEADER_SIZE,
    HEADER_SLOTS, LOG_START,
};
use crate::storage::index::{
    deleting_hides_one_document, empty_index, ids_are_never_reused, IndexView,
};
use crate::storage::log::{lemma_scan_bound, lemma_scan_extend, lemma_scan_local, scan};
use crate::storage::record::{
    frame_bytes, frame_roundtrip, lemma_record_local, lemma_record_written, record_at, DocId,
    RecordKind, RecordView, MAX_RECORD_LEN, RECORD_HEADER_SIZE,
};
use crate::storage::state::{
    committed_index, create_ops, fresh_engine, fresh_region, header_ops, record_ops, region_slots,
    slot_of, EngineView,
};
use vstd::prelude::*;

verus! {

/// An intact record stands at `offset`, past the headers and before `end`, and a
/// walk over the log comes by it.
pub open spec fn record_within(file: Seq<u8>, offset: u64, end: u64) -> bool {
    &&& LOG_START <= offset
    &&& scan(file, LOG_START as nat, offset as nat) is Done
    &&& record_at(file, offset as nat) matches Outcome::Done(record) && offset + RECORD_HEADER_SIZE
        + record.payload.len() <= end
}

/// Every document of an index, deleted ones included, is an intact record
/// before `end`.
pub open spec fn documents_intact(file: Seq<u8>, index: IndexView, end: u64) -> bool {
    forall|id: u64| #[trigger]
        index.offsets.contains_key(id) ==> record_within(file, index.offsets[id], end)
}

/// The file holds everything that a header promises: a log of intact records
/// that ends where the header says, and in it an index and all its documents.
pub open spec fn sound(file: Seq<u8>, header: Header) -> bool {
    &&& LOG_START <= header.log_end <= file.len()
    &&& scan(file, LOG_START as nat, header.log_end as nat) is Done
    &&& header.master_len != 0 ==> record_within(file, header.master_ptr, header.log_end)
    &&& committed_index(file, header) matches Outcome::Done(index) && index.wf()
        && documents_intact(file, index, header.log_end)
}

/// The valid headers on disk.
pub open spec fn disk_slots(file: Seq<u8>) -> Seq<Option<Header>> {
    region_slots(file.subrange(0, LOG_START as int))
}

/// The other one of the two slots.
pub open spec fn partner(slot: int) -> int {
    1 - slot
}

/// A header beside the live one: it too is sound, it is distinguishable from
/// the live one, and the older of the two commits fewer bytes.
pub open spec fn partner_ok(file: Seq<u8>, live: Header, end: u64, other: Option<Header>) -> bool {
    other matches Some(h) ==> {
        &&& sound(file, h)
        &&& h.log_end <= end
        &&& h.generation != live.generation
        &&& h.generation < live.generation ==> h.log_end <= live.log_end
        &&& live.generation < h.generation ==> live.log_end <= h.log_end
    }
}

/// An engine and its file are in step.
///
/// - The live header is on disk and everything it promises is there.
/// - The other slot is invalid on disk or holds a sound header.
/// - The log up to the first free byte is nothing but intact records.
/// - Every document that the engine knows is among them.
/// - When nothing is waiting for a commit, the live header commits exactly what
///   the engine knows.
/// - When something is, the log runs ahead of what the live header commits.
pub open spec fn consistent(engine: EngineView, file: Seq<u8>) -> bool {
    let header = engine.header;
    &&& engine.wf()
    &&& engine.end <= file.len()
    &&& disk_slots(file)[engine.live_slot] == Some(header)
    &&& sound(file, header)
    &&& partner_ok(file, header, engine.end, disk_slots(file)[partner(engine.live_slot)])
    &&& scan(file, LOG_START as nat, engine.end as nat) is Done
    &&& engine.index.wf()
    &&& documents_intact(file, engine.index, engine.end)
    &&& !engine.dirty ==> engine.end == header.log_end && committed_index(file, header)
        == Outcome::Done(engine.index)
    &&& engine.dirty ==> header.log_end < engine.end
}

/// The engine knows both slots as they are on disk. This holds except after a
/// commit failed while it was writing a header.
pub open spec fn settled(engine: EngineView, file: Seq<u8>) -> bool {
    disk_slots(file) == engine.slots
}

/// What an engine knew when it last committed.
pub open spec fn committed_state(engine: EngineView, file: Seq<u8>) -> EngineView {
    EngineView {
        index: committed_index(file, engine.header)->Done_0,
        end: engine.header.log_end,
        dirty: false,
        ..engine
    }
}

/// The state `found` is that of a commit: the header is the one of `state`, the
/// index is the one it committed, and nothing is waiting.
pub open spec fn restores(found: EngineView, state: EngineView) -> bool {
    &&& found.header == state.header
    &&& found.index == state.index
    &&& found.end == state.header.log_end
    &&& !found.dirty
}

/// Every document that `engine` knows of reads in `after` as it does in `file`.
pub open spec fn reads_alike(engine: EngineView, file: Seq<u8>, after: Seq<u8>) -> bool {
    forall|id: u64| #[trigger]
        read_document(engine, after, id) == read_document(engine, file, id)
}

/// Two files hold the same bytes up to `end`, but for one header slot.
pub open spec fn agree_beside(file: Seq<u8>, other: Seq<u8>, slot: int, end: int) -> bool {
    &&& end <= file.len()
    &&& end <= other.len()
    &&& forall|i: int|
        0 <= i < end && !(slot * HEADER_SIZE <= i < (slot + 1) * HEADER_SIZE) ==> file[i]
            == other[i]
}

/// How many records the log holds, uncommitted ones included.
pub open spec fn logged(engine: EngineView, file: Seq<u8>) -> nat {
    scan(file, LOG_START as nat, engine.end as nat)->Done_0
}

/// Length of a file in which something now reaches up to `end`.
pub open spec fn grown(file: Seq<u8>, end: int) -> int {
    if file.len() < end {
        end
    } else {
        file.len() as int
    }
}

/// What reading a document gives.
pub open spec fn read_document(engine: EngineView, file: Seq<u8>, id: u64) -> Outcome<RecordView> {
    if engine.index.dead.contains(id) {
        Outcome::Refused(ErrorView::Deleted(DocId(id)))
    } else if !engine.index.offsets.contains_key(id) {
        Outcome::Refused(ErrorView::NotFound(DocId(id)))
    } else {
        record_at(file, engine.index.offsets[id] as nat)
    }
}

/// Two files hold the same bytes from `start` up to `end`.
pub open spec fn agree(file: Seq<u8>, other: Seq<u8>, start: int, end: int) -> bool {
    &&& end <= file.len()
    &&& end <= other.len()
    &&& forall|i: int| start <= i < end ==> file[i] == other[i]
}

/// The file after a record was written at `offset`.
pub open spec fn with_record(file: Seq<u8>, offset: u64, kind: RecordKind, payload: Seq<u8>) -> Seq<
    u8,
> {
    perform_all(file, record_ops(offset, kind, payload))
}

/// The file after a header was written to a slot.
pub open spec fn with_header(file: Seq<u8>, slot: int, header: Header) -> Seq<u8> {
    perform_all(file, header_ops(slot, header))
}

/// What a write changes, and what it leaves alone.
pub proof fn lemma_write_at(file: Seq<u8>, offset: nat, bytes: Seq<u8>)
    requires
        offset <= file.len(),
    ensures
        write_at(file, offset, bytes).len() == if file.len() < offset + bytes.len() {
            offset + bytes.len()
        } else {
            file.len()
        },
        write_at(file, offset, bytes).subrange(offset as int, offset as int + bytes.len())
            == bytes,
        agree(write_at(file, offset, bytes), file, 0, offset as int),
        agree(write_at(file, offset, bytes), file, offset as int + bytes.len(), file.len() as int)
            || file.len() < offset + bytes.len(),
{
    let end = offset as int + bytes.len();
    assert(write_at(file, offset, bytes).subrange(offset as int, end) =~= bytes);
}

/// A record that is written at the end of the file's log is there to be read,
/// and nothing before it has changed.
pub proof fn lemma_with_record(file: Seq<u8>, offset: u64, kind: RecordKind, payload: Seq<u8>)
    requires
        offset <= file.len(),
        payload.len() <= MAX_RECORD_LEN,
    ensures
        agree(with_record(file, offset, kind, payload), file, 0, offset as int),
        with_record(file, offset, kind, payload).len() == grown(
            file,
            offset + RECORD_HEADER_SIZE + payload.len(),
        ),
        record_at(with_record(file, offset, kind, payload), offset as nat) == Outcome::Done(
            RecordView { kind, payload },
        ),
{
    let ops = record_ops(offset, kind, payload);
    let frame = frame_bytes(kind, payload);
    let mid = write_at(file, offset as nat, frame);
    let start = (offset + RECORD_HEADER_SIZE) as nat;
    let after = write_at(mid, start, payload);
    reveal_with_fuel(perform_all, 3);
    assert(ops.drop_last() =~= seq![ops[0]]);
    assert(ops.drop_last().drop_last() =~= Seq::<OpView>::empty());
    assert(with_record(file, offset, kind, payload) == after);
    frame_roundtrip(kind, payload, offset as nat);
    lemma_write_at(file, offset as nat, frame);
    lemma_write_at(mid, start, payload);
    assert(after.subrange(offset as int, start as int) =~= mid.subrange(
        offset as int,
        start as int,
    ));
    lemma_record_written(after, offset as nat, kind, payload);
}

/// Writing a header touches its own slot and nothing else.
pub proof fn lemma_with_header(file: Seq<u8>, slot: int, header: Header)
    requires
        0 <= slot < HEADER_SLOTS,
        LOG_START <= file.len(),
    ensures
        with_header(file, slot, header).len() == file.len(),
        agree(with_header(file, slot, header), file, LOG_START as int, file.len() as int),
        disk_slots(with_header(file, slot, header)) == disk_slots(file).update(slot, Some(header)),
{
    let ops = header_ops(slot, header);
    let after = write_at(file, (slot * HEADER_SIZE) as nat, header_bytes(header));
    reveal_with_fuel(perform_all, 4);
    assert(ops.drop_last() =~= seq![ops[0], ops[1]]);
    assert(ops.drop_last().drop_last() =~= seq![ops[0]]);
    assert(ops.drop_last().drop_last().drop_last() =~= Seq::<OpView>::empty());
    assert(with_header(file, slot, header) == after);
    header_roundtrip(header, slot as nat);
    lemma_write_at(file, (slot * HEADER_SIZE) as nat, header_bytes(header));
    lemma_slot_replaced(file, after, slot);
    let region = after.subrange(0, LOG_START as int);
    assert(region.subrange(slot * HEADER_SIZE, (slot + 1) * HEADER_SIZE) =~= header_bytes(header));
    assert(disk_slots(after) =~= disk_slots(file).update(slot, Some(header)));
}

/// A change within one slot leaves what the other one holds as it was.
pub proof fn lemma_slot_replaced(file: Seq<u8>, other: Seq<u8>, slot: int)
    requires
        0 <= slot < HEADER_SLOTS,
        LOG_START <= file.len(),
        LOG_START <= other.len(),
        forall|i: int|
            0 <= i < LOG_START && !(slot * HEADER_SIZE <= i < (slot + 1) * HEADER_SIZE)
                ==> file[i] == other[i],
    ensures
        disk_slots(other)[partner(slot)] == disk_slots(file)[partner(slot)],
{
    let beside = partner(slot);
    let a = file.subrange(0, LOG_START as int).subrange(
        beside * HEADER_SIZE,
        (beside + 1) * HEADER_SIZE,
    );
    let b = other.subrange(0, LOG_START as int).subrange(
        beside * HEADER_SIZE,
        (beside + 1) * HEADER_SIZE,
    );
    assert(a =~= b);
}

/// The valid headers depend on the header region alone.
pub proof fn lemma_slots_local(file: Seq<u8>, other: Seq<u8>)
    requires
        agree(file, other, 0, LOG_START as int),
    ensures
        disk_slots(other) == disk_slots(file),
{
    assert(file.subrange(0, LOG_START as int) =~= other.subrange(0, LOG_START as int));
}

/// An intact record is the same in every file that holds the same bytes there.
pub proof fn lemma_record_within_local(file: Seq<u8>, other: Seq<u8>, offset: u64, end: u64)
    requires
        record_within(file, offset, end),
        agree(file, other, LOG_START as int, end as int),
    ensures
        record_within(other, offset, end),
        record_at(other, offset as nat) == record_at(file, offset as nat),
{
    lemma_record_local(file, other, offset as nat, end as nat);
    lemma_scan_local(file, other, LOG_START as nat, offset as nat);
}

/// Documents stay intact in every file that holds the same log.
pub proof fn lemma_documents_local(file: Seq<u8>, other: Seq<u8>, index: IndexView, end: u64)
    requires
        documents_intact(file, index, end),
        agree(file, other, LOG_START as int, end as int),
    ensures
        documents_intact(other, index, end),
        forall|id: u64| #[trigger]
            index.offsets.contains_key(id) ==> record_at(other, index.offsets[id] as nat)
                == record_at(file, index.offsets[id] as nat),
{
    assert forall|id: u64| #[trigger] index.offsets.contains_key(id) implies record_within(
        other,
        index.offsets[id],
        end,
    ) && record_at(other, index.offsets[id] as nat) == record_at(
        file,
        index.offsets[id] as nat,
    ) by {
        lemma_record_within_local(file, other, index.offsets[id], end);
    }
}

/// What a header promises is in every file that holds the same committed log.
pub proof fn lemma_sound_local(file: Seq<u8>, other: Seq<u8>, header: Header)
    requires
        sound(file, header),
        agree(file, other, LOG_START as int, header.log_end as int),
    ensures
        sound(other, header),
        committed_index(other, header) == committed_index(file, header),
{
    lemma_scan_local(file, other, LOG_START as nat, header.log_end as nat);
    if header.master_len != 0 {
        lemma_record_within_local(file, other, header.master_ptr, header.log_end);
    }
    let index = committed_index(file, header)->Done_0;
    lemma_documents_local(file, other, index, header.log_end);
}

/// A brand-new database is in step with its engine.
pub proof fn a_new_database_is_consistent()
    ensures
        consistent(fresh_engine(), perform_all(Seq::empty(), create_ops())),
        settled(fresh_engine(), perform_all(Seq::empty(), create_ops())),
        perform_all(Seq::empty(), create_ops()).len() == LOG_START,
{
    let file = perform_all(Seq::empty(), create_ops());
    let ops = create_ops();
    reveal_with_fuel(perform_all, 3);
    assert(ops.drop_last() =~= seq![ops[0]]);
    assert(ops.drop_last().drop_last() =~= Seq::<OpView>::empty());
    header_roundtrip(initial_header(), 0);
    lemma_write_at(Seq::empty(), 0, fresh_region());
    assert(file =~= fresh_region());
    let region = file.subrange(0, LOG_START as int);
    assert(region.subrange(0, 64) =~= header_bytes(initial_header()));
    assert(region.subrange(64, 128) =~= zeros(64));
    assert(zeros(64).subrange(0, 4)[0] != magic()[0]);
    assert(slot_of(region, 1) is Err);
    assert(disk_slots(file) =~= fresh_engine().slots);
    assert(scan(file, LOG_START as nat, LOG_START as nat) == Outcome::Done(0nat));
    assert(empty_index().wf());
}

/// Whatever happens to the file behind the log, as when a write fails half way,
/// engine and file stay in step and every document reads as before.
pub proof fn a_failed_write_changes_nothing(engine: EngineView, file: Seq<u8>, after: Seq<u8>)
    requires
        consistent(engine, file),
        agree(file, after, 0, engine.end as int),
    ensures
        consistent(engine, after),
        settled(engine, file) ==> settled(engine, after),
        reads_alike(engine, file, after),
{
    lemma_slots_local(file, after);
    lemma_sound_local(file, after, engine.header);
    if let Some(h) = disk_slots(file)[partner(engine.live_slot)] {
        lemma_sound_local(file, after, h);
    }
    lemma_scan_bound(file, LOG_START as nat, engine.end as nat);
    lemma_scan_local(file, after, LOG_START as nat, engine.end as nat);
    lemma_documents_local(file, after, engine.index, engine.end);
}

/// A header write that fails and leaves its slot invalid, or as it was, keeps
/// engine and file in step, and every document reads as before.
pub proof fn a_failed_header_write_changes_nothing(
    engine: EngineView,
    file: Seq<u8>,
    after: Seq<u8>,
)
    requires
        consistent(engine, file),
        agree_beside(file, after, victim_of(engine.slots), engine.end as int),
        disk_slots(after)[victim_of(engine.slots)] is None || disk_slots(after)[victim_of(
            engine.slots,
        )] == disk_slots(file)[victim_of(engine.slots)],
    ensures
        consistent(engine, after),
        reads_alike(engine, file, after),
{
    let slot = victim_of(engine.slots);
    assert(slot == partner(engine.live_slot));
    lemma_slot_replaced(file, after, slot);
    lemma_sound_local(file, after, engine.header);
    if let Some(h) = disk_slots(after)[slot] {
        lemma_sound_local(file, after, h);
    }
    lemma_scan_bound(file, LOG_START as nat, engine.end as nat);
    lemma_scan_local(file, after, LOG_START as nat, engine.end as nat);
    lemma_documents_local(file, after, engine.index, engine.end);
}

/// Appending a document keeps engine and file in step. The document can be read
/// at once under the id that it was given, and every other document reads as
/// before. The log holds one record more, and the file grows only as far as the
/// log outgrows it.
pub proof fn an_append_is_read_back(
    engine: EngineView,
    file: Seq<u8>,
    kind: RecordKind,
    payload: Seq<u8>,
)
    requires
        consistent(engine, file),
        payload.len() <= MAX_RECORD_LEN,
        engine.end + RECORD_HEADER_SIZE + payload.len() <= MAX_FILE_LEN,
        engine.index.next_doc_id < u64::MAX,
    ensures
        ({
            let next = engine.appended(payload.len() as u64);
            let after = with_record(file, engine.end, kind, payload);
            let id = engine.index.next_doc_id;
            &&& consistent(next, after)
            &&& settled(engine, file) ==> settled(next, after)
            &&& next.dirty
            &&& read_document(next, after, id) == Outcome::Done(RecordView { kind, payload })
            &&& forall|other: u64|
                other != id ==> #[trigger] read_document(next, after, other) == read_document(
                    engine,
                    file,
                    other,
                )
            &&& next.index.live_set().len() == engine.index.live_set().len() + 1
            &&& logged(next, after) == logged(engine, file) + 1
            &&& after.len() == grown(file, next.end as int)
        }),
{
    let next = engine.appended(payload.len() as u64);
    let after = with_record(file, engine.end, kind, payload);
    lemma_extended(engine, file, kind, payload);
    ids_are_never_reused(engine.index, engine.end);
    assert(documents_intact(after, next.index, next.end));
    assert(next.index.live_set() =~= engine.index.live_set().insert(engine.index.next_doc_id));
}

/// Deleting a document keeps engine and file in step. The document reads as
/// deleted from then on, and every other document reads as before. The log holds
/// one record more, and the file grows only as far as the log outgrows it.
pub proof fn a_deletion_hides_one_document(engine: EngineView, file: Seq<u8>, id: u64)
    requires
        consistent(engine, file),
        engine.index.live(id),
        engine.end + RECORD_HEADER_SIZE + 8 <= MAX_FILE_LEN,
    ensures
        ({
            let next = engine.deleted(id);
            let after = with_record(
                file,
                engine.end,
                RecordKind::Tombstone,
                le_bytes(id as nat, 8),
            );
            &&& consistent(next, after)
            &&& settled(engine, file) ==> settled(next, after)
            &&& next.dirty
            &&& read_document(next, after, id) == Outcome::<RecordView>::Refused(
                ErrorView::Deleted(DocId(id)),
            )
            &&& forall|other: u64|
                other != id ==> #[trigger] read_document(next, after, other) == read_document(
                    engine,
                    file,
                    other,
                )
            &&& next.index.live_set().len() == engine.index.live_set().len() - 1
            &&& logged(next, after) == logged(engine, file) + 1
            &&& after.len() == grown(file, next.end as int)
        }),
{
    lemma_le_bytes_len(id as nat, 8);
    lemma_extended(engine, file, RecordKind::Tombstone, le_bytes(id as nat, 8));
    deleting_hides_one_document(engine.index, id);
}

/// Writing a record at the end of the log keeps engine and file in step, and
/// every document reads as before.
pub proof fn lemma_extended(
    engine: EngineView,
    file: Seq<u8>,
    kind: RecordKind,
    payload: Seq<u8>,
)
    requires
        consistent(engine, file),
        payload.len() <= MAX_RECORD_LEN,
        engine.end + RECORD_HEADER_SIZE + payload.len() <= MAX_FILE_LEN,
    ensures
        ({
            let next = engine.extended(payload.len() as u64);
            let after = with_record(file, engine.end, kind, payload);
            &&& consistent(next, after)
            &&& disk_slots(after) == disk_slots(file)
            &&& logged(next, after) == logged(engine, file) + 1
            &&& after.len() == grown(file, next.end as int)
            &&& record_within(after, engine.end, next.end)
            &&& record_at(after, engine.end as nat) == Outcome::Done(RecordView { kind, payload })
            &&& agree(after, file, 0, engine.end as int)
            &&& forall|id: u64| #[trigger]
                engine.index.offsets.contains_key(id) ==> record_at(
                    after,
                    engine.index.offsets[id] as nat,
                ) == record_at(file, engine.index.offsets[id] as nat)
        }),
{
    let next = engine.extended(payload.len() as u64);
    let after = with_record(file, engine.end, kind, payload);
    let beside = disk_slots(file)[partner(engine.live_slot)];
    lemma_with_record(file, engine.end, kind, payload);
    lemma_slots_local(file, after);
    lemma_sound_local(file, after, engine.header);
    if let Some(h) = beside {
        lemma_sound_local(file, after, h);
    }
    lemma_scan_bound(file, LOG_START as nat, engine.end as nat);
    lemma_scan_local(file, after, LOG_START as nat, engine.end as nat);
    lemma_scan_extend(after, LOG_START as nat, engine.end as nat, RecordView { kind, payload });
    lemma_documents_local(file, after, engine.index, engine.end);
    assert(documents_intact(after, engine.index, next.end));
}

} // verus!
