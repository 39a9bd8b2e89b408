//! What survives: commits, reopening, and crashes.

use crate::error::ErrorView;
use crate::storage::consistency::{
    agree, agree_beside, committed_state, consistent, disk_slots, grown, lemma_documents_local,
    lemma_extended, lemma_record_within_local, lemma_slot_replaced, lemma_slots_local,
    lemma_sound_local, lemma_with_header, lemma_with_record, logged, partner, partner_ok,
    read_document, reads_alike, record_within, restores, settled, sound, with_header, with_record,
};
use crate::storage::file::{torn, Outcome, MAX_FILE_LEN};
use crate::storage::header::{
    header_roundtrip, live_of, parse_header, victim_of, Header, HEADER_SLOTS, LOG_START,
};
use crate::storage::index::{bincode_index, empty_index, IndexView};
use crate::storage::log::{lemma_scan_local, misaligned_text, scan};
use crate::storage::protocol::{indexes, load_step, LoadStepView, LoadView};
use crate::storage::record::{
    read_follows_the_file, read_outcome, record_at, RecordKind, RecordRead, RecordView,
    MAX_RECORD_LEN, RECORD_HEADER_SIZE,
};
use crate::storage::state::{
    committed_index, header_write, loaded, master_index, not_master_text, recover, slot_of,
    EngineView,
};
use crate::text::decimal;
use vstd::prelude::*;

verus! {

/// What the rest of recovery gives on a file that answers every request.
pub open spec fn load_outcome(load: LoadView, file: Seq<u8>) -> Outcome<EngineView> {
    match load {
        LoadView::Region { .. } => recover(file),
        LoadView::Master { engine, read } => match read_outcome(read, file) {
            Outcome::Done(record) => match master_index(record, engine.header.master_ptr as nat) {
                Ok(index) => Outcome::Done(EngineView { index, ..engine }),
                Err(e) => Outcome::Refused(e),
            },
            Outcome::Refused(e) => Outcome::Refused(e),
            Outcome::ReadFailed => Outcome::ReadFailed,
        },
    }
}

/// Recovery that is answered from a file ends as the file says: with the state
/// that its headers describe, with the error that keeps it from being opened,
/// or with a request that the file is too short to answer.
pub proof fn loading_follows_the_file(load: LoadView, file: Seq<u8>)
    requires
        load.wf(),
        load matches LoadView::Region { file_len } ==> file_len == file.len(),
        load matches LoadView::Master { read, .. } ==> read is Payload ==> read.offset()
            + RECORD_HEADER_SIZE <= u64::MAX,
    ensures
        if !load.wants().within(file) {
            load_outcome(load, file) == Outcome::<EngineView>::ReadFailed
        } else {
            match load_step(load, load.wants().answer(file)) {
                Err(e) => load_outcome(load, file) == Outcome::<EngineView>::Refused(e),
                Ok(LoadStepView::Done(engine)) => load_outcome(load, file) == Outcome::Done(engine),
                Ok(LoadStepView::More(next)) => load_outcome(load, file) == load_outcome(
                    next,
                    file,
                ),
            }
        },
{
    match load {
        LoadView::Region { file_len } => {
            let slots = disk_slots(file);
            if let Some(live) = live_of(slots) {
                let header = slots[live]->Some_0;
                if header.log_end <= file_len && header.master_len != 0 {
                    let engine = loaded(slots, live, empty_index());
                    if let Outcome::Done(index) = committed_index(file, header) {
                        assert(loaded(slots, live, index) =~= (EngineView { index, ..engine }));
                    }
                }
            }
        },
        LoadView::Master { read, .. } => {
            read_follows_the_file(read, file);
        },
    }
}

/// A file whose newest header is sound opens into a state that is in step with
/// it.
pub proof fn lemma_recovers(file: Seq<u8>, live: int)
    requires
        LOG_START <= file.len(),
        live_of(disk_slots(file)) == Some(live),
        disk_slots(file)[live] matches Some(header) && {
            &&& sound(file, header)
            &&& header.log_end <= MAX_FILE_LEN
            &&& partner_ok(file, header, header.log_end, disk_slots(file)[partner(live)])
        },
    ensures
        ({
            let header = disk_slots(file)[live]->Some_0;
            let engine = loaded(
                disk_slots(file),
                live,
                committed_index(file, header)->Done_0,
            );
            &&& recover(file) == Outcome::Done(engine)
            &&& consistent(engine, file)
            &&& settled(engine, file)
        }),
{
}

/// The live header of a consistent file's headers, and all that it takes to
/// recover it.
proof fn lemma_newest(engine: EngineView, file: Seq<u8>) -> (live: int)
    requires
        consistent(engine, file),
    ensures
        0 <= live < HEADER_SLOTS,
        live_of(disk_slots(file)) == Some(live),
        settled(engine, file) ==> live == engine.live_slot,
        disk_slots(file)[live] matches Some(header) && {
            &&& sound(file, header)
            &&& header.log_end <= engine.end
            &&& engine.header.generation <= header.generation
            &&& partner_ok(file, header, header.log_end, disk_slots(file)[partner(live)])
        },
{
    let here = engine.live_slot;
    match disk_slots(file)[partner(here)] {
        Some(h) => if h.generation > engine.header.generation {
            partner(here)
        } else {
            here
        },
        None => here,
    }
}

/// A file that holds the same headers, and the same log as far as the newest of
/// them commits it, opens into the same state, and every document in it reads
/// the same.
proof fn lemma_recovers_alike(engine: EngineView, file: Seq<u8>, other: Seq<u8>)
    requires
        consistent(engine, file),
        recover(file) matches Outcome::Done(base) ==> agree(
            file,
            other,
            0,
            base.header.log_end as int,
        ),
    ensures
        recover(file) matches Outcome::Done(base) && {
            &&& recover(other) == recover(file)
            &&& restores(base, base)
            &&& consistent(base, file)
            &&& settled(base, file)
            &&& consistent(base, other)
            &&& settled(base, other)
            &&& reads_alike(base, file, other)
            &&& base.header.generation >= engine.header.generation
            &&& base.header.log_end <= engine.end
            &&& settled(engine, file) ==> base == committed_state(engine, file)
        },
{
    let live = lemma_newest(engine, file);
    lemma_recovers(file, live);
    let base = recover(file)->Done_0;
    lemma_slots_local(file, other);
    lemma_sound_local(file, other, base.header);
    if let Some(h) = disk_slots(file)[partner(live)] {
        lemma_sound_local(file, other, h);
    }
    lemma_recovers(other, live);
    lemma_documents_local(file, other, base.index, base.end);
    if settled(engine, file) {
        assert(base =~= committed_state(engine, file));
    }
}

/// Reopening finds a committed state that is in step with the file: the one
/// that the engine last committed. When nothing was waiting for a commit, that
/// is what the engine knew.
///
/// Only after a commit failed while it was writing a header can the file hold a
/// newer generation than the engine knows of; that one is found then.
pub proof fn reopening_restores_the_committed_state(engine: EngineView, file: Seq<u8>)
    requires
        consistent(engine, file),
    ensures
        recover(file) matches Outcome::Done(found) && {
            &&& restores(found, found)
            &&& consistent(found, file)
            &&& settled(found, file)
            &&& found.header.generation >= engine.header.generation
            &&& settled(engine, file) ==> found == committed_state(engine, file)
            &&& settled(engine, file) && !engine.dirty ==> found == engine
        },
{
    lemma_recovers_alike(engine, file, file);
    if settled(engine, file) && !engine.dirty {
        assert(committed_state(engine, file) =~= engine);
    }
}

/// Nothing that is written behind the committed log is seen by recovery: a file
/// that was only changed there, or grew, opens into the same state, in which
/// every document reads as it did when it was committed.
pub proof fn uncommitted_bytes_are_never_seen(engine: EngineView, file: Seq<u8>, other: Seq<u8>)
    requires
        consistent(engine, file),
        agree(file, other, 0, recover(file)->Done_0.header.log_end as int),
    ensures
        recover(file) matches Outcome::Done(found) && {
            &&& recover(other) == recover(file)
            &&& consistent(found, other)
            &&& settled(found, other)
            &&& reads_alike(found, file, other)
            &&& settled(engine, file) ==> found == committed_state(engine, file)
        },
{
    lemma_recovers_alike(engine, file, other);
}

/// What a commit does, stage by stage. At every point at which it may stop,
/// engine and file are in step: once the index is written, once the header is
/// written too, and once the engine has taken note of it.
///
/// A finished commit advances the generation by one and moves to the other
/// header slot. All records are committed then, and the index is one more of
/// them. Every document reads as before, and so it does after the file is
/// reopened, since reopening gives exactly the engine's state.
pub proof fn a_commit_is_durable(engine: EngineView, file: Seq<u8>, payload: Seq<u8>)
    requires
        consistent(engine, file),
        indexes(payload, engine),
        payload.len() <= MAX_RECORD_LEN,
        engine.end + RECORD_HEADER_SIZE + payload.len() <= MAX_FILE_LEN,
        engine.header.generation < u64::MAX,
    ensures
        ({
            let len = payload.len() as u64;
            let between = engine.extended(len);
            let header = between.next_header(engine.end, len);
            let done = between.committed(header);
            let written = with_record(file, engine.end, RecordKind::MasterIndex, payload);
            let after = with_header(written, victim_of(engine.slots), header);
            &&& consistent(between, written)
            &&& consistent(between, after)
            &&& consistent(done, after)
            &&& settled(done, after)
            &&& recover(after) == Outcome::Done(done)
            &&& !done.dirty
            &&& done.index == engine.index
            &&& done.header.generation == engine.header.generation + 1
            &&& done.live_slot == partner(engine.live_slot)
            &&& scan(after, LOG_START as nat, done.header.log_end as nat) == Outcome::Done(
                logged(engine, file) + 1,
            )
            &&& after.len() == grown(file, done.end as int)
            &&& forall|id: u64| #[trigger]
                read_document(done, after, id) == read_document(engine, file, id)
        }),
{
    let len = payload.len() as u64;
    let between = engine.extended(len);
    let header = between.next_header(engine.end, len);
    let slot = victim_of(engine.slots);
    let done = between.committed(header);
    let written = with_record(file, engine.end, RecordKind::MasterIndex, payload);
    let after = with_header(written, slot, header);
    lemma_extended(engine, file, RecordKind::MasterIndex, payload);
    lemma_with_header(written, slot, header);
    assert(slot == partner(engine.live_slot));
    lemma_sound_local(written, after, engine.header);
    lemma_scan_local(written, after, LOG_START as nat, between.end as nat);
    lemma_documents_local(written, after, engine.index, between.end);
    lemma_record_within_local(written, after, engine.end, between.end);
    assert(committed_index(after, header) == Outcome::Done(engine.index));
    assert(sound(after, header));
    assert(disk_slots(after) =~= done.slots);
    assert(consistent(done, after));
    reopening_restores_the_committed_state(done, after);
}

/// The bytes that a header write leaves alone.
proof fn lemma_torn_header(written: Seq<u8>, slot: int, header: Header, after: Seq<u8>)
    requires
        0 <= slot < HEADER_SLOTS,
        LOG_START <= written.len(),
        torn(written, header_write(slot, header), after),
    ensures
        agree_beside(written, after, slot, written.len() as int),
{
    header_roundtrip(header, slot as nat);
}

/// A crash that leaves the live header and the newest committed log alone, and
/// the other slot invalid or as it was, loses nothing that was committed.
proof fn lemma_crash_without_a_new_header(engine: EngineView, file: Seq<u8>, after: Seq<u8>)
    requires
        consistent(engine, file),
        agree_beside(
            file,
            after,
            partner(engine.live_slot),
            recover(file)->Done_0.header.log_end as int,
        ),
        disk_slots(after)[partner(engine.live_slot)] is None || disk_slots(after)[partner(
            engine.live_slot,
        )] == disk_slots(file)[partner(engine.live_slot)],
    ensures
        recover(file) is Done,
        recover(after) matches Outcome::Done(found) && {
            &&& consistent(found, after)
            &&& settled(found, after)
            &&& reads_alike(found, file, after)
            &&& restores(
                found,
                if disk_slots(after)[partner(engine.live_slot)] is None {
                    committed_state(engine, file)
                } else {
                    recover(file)->Done_0
                },
            )
        },
{
    let here = engine.live_slot;
    let slot = partner(here);
    let newest = lemma_newest(engine, file);
    lemma_recovers(file, newest);
    let base = recover(file)->Done_0;
    lemma_slot_replaced(file, after, slot);
    lemma_sound_local(file, after, engine.header);
    match disk_slots(after)[slot] {
        None => {
            lemma_recovers(after, here);
        },
        Some(h) => {
            lemma_sound_local(file, after, h);
            lemma_recovers(after, newest);
        },
    }
    let found = recover(after)->Done_0;
    lemma_documents_local(file, after, found.index, found.end);
}

/// A crash that leaves the new header in its slot finds the commit complete.
proof fn lemma_crash_with_the_new_header(
    engine: EngineView,
    file: Seq<u8>,
    payload: Seq<u8>,
    after: Seq<u8>,
)
    requires
        consistent(engine, file),
        indexes(payload, engine),
        payload.len() <= MAX_RECORD_LEN,
        engine.end + RECORD_HEADER_SIZE + payload.len() <= MAX_FILE_LEN,
        engine.header.generation < u64::MAX,
        ({
            let len = payload.len() as u64;
            let header = engine.extended(len).next_header(engine.end, len);
            let slot = victim_of(engine.slots);
            let written = with_record(file, engine.end, RecordKind::MasterIndex, payload);
            &&& torn(written, header_write(slot, header), after)
            &&& disk_slots(after)[slot] == Some(header)
        }),
    ensures
        ({
            let len = payload.len() as u64;
            let between = engine.extended(len);
            let done = between.committed(between.next_header(engine.end, len));
            &&& recover(after) == Outcome::Done(done)
            &&& consistent(done, after)
            &&& settled(done, after)
            &&& reads_alike(done, file, after)
        }),
{
    let len = payload.len() as u64;
    let between = engine.extended(len);
    let header = between.next_header(engine.end, len);
    let done = between.committed(header);
    let slot = victim_of(engine.slots);
    let written = with_record(file, engine.end, RecordKind::MasterIndex, payload);
    assert(slot == partner(engine.live_slot));
    lemma_extended(engine, file, RecordKind::MasterIndex, payload);
    lemma_torn_header(written, slot, header, after);
    lemma_slot_replaced(written, after, slot);
    lemma_sound_local(written, after, engine.header);
    lemma_scan_local(written, after, LOG_START as nat, between.end as nat);
    lemma_documents_local(written, after, engine.index, between.end);
    lemma_record_within_local(written, after, engine.end, between.end);
    assert(committed_index(after, header) == Outcome::Done(engine.index));
    assert(sound(after, header));
    lemma_recovers(after, slot);
    assert(disk_slots(after) =~= done.slots);
    assert(recover(after)->Done_0 =~= done);
}

/// While the new header is being written, the log that was committed before
/// lies out of reach.
proof fn lemma_commit_spares_the_log(
    engine: EngineView,
    file: Seq<u8>,
    payload: Seq<u8>,
    header: Header,
    after: Seq<u8>,
)
    requires
        consistent(engine, file),
        payload.len() <= MAX_RECORD_LEN,
        engine.end + RECORD_HEADER_SIZE + payload.len() <= MAX_FILE_LEN,
        torn(
            with_record(file, engine.end, RecordKind::MasterIndex, payload),
            header_write(victim_of(engine.slots), header),
            after,
        ),
    ensures
        agree_beside(file, after, victim_of(engine.slots), engine.end as int),
{
    let slot = victim_of(engine.slots);
    let written = with_record(file, engine.end, RecordKind::MasterIndex, payload);
    lemma_with_record(file, engine.end, RecordKind::MasterIndex, payload);
    lemma_torn_header(written, slot, header, after);
}

/// A crash at any point of a commit leaves a database that opens, in step with
/// the file, at a state that was committed or was being committed:
///
/// - at the one that the commit was writing, if its header got into the slot;
/// - else at the one that the engine last committed, if the slot is invalid;
/// - else at the one that the file opened into before the commit. That is the
///   one the engine last committed, unless an earlier commit failed after its
///   header got into the slot; that header is found again then.
///
/// Every document of the state found reads as it did before the crash.
///
/// Until the header is being written, a crash may leave anything at all behind
/// the committed log. While it is being written, the crash may leave anything
/// in the slot; it is the checksum's part to tell a torn header from one that
/// was meant, so the slot is taken to be invalid, or to hold the header it held
/// or the one that was being written.
pub proof fn a_crash_during_a_commit_is_recoverable(
    engine: EngineView,
    file: Seq<u8>,
    payload: Seq<u8>,
    after: Seq<u8>,
)
    requires
        consistent(engine, file),
        indexes(payload, engine),
        payload.len() <= MAX_RECORD_LEN,
        engine.end + RECORD_HEADER_SIZE + payload.len() <= MAX_FILE_LEN,
        engine.header.generation < u64::MAX,
        ({
            let len = payload.len() as u64;
            let header = engine.extended(len).next_header(engine.end, len);
            let slot = victim_of(engine.slots);
            let written = with_record(file, engine.end, RecordKind::MasterIndex, payload);
            let held = disk_slots(after)[slot];
            ||| {
                &&& agree_beside(file, after, slot, recover(file)->Done_0.header.log_end as int)
                &&& held is None || held == disk_slots(file)[slot]
            }
            ||| {
                &&& torn(written, header_write(slot, header), after)
                &&& held is None || held == disk_slots(file)[slot] || held == Some(header)
            }
        }),
    ensures
        ({
            let len = payload.len() as u64;
            let between = engine.extended(len);
            let header = between.next_header(engine.end, len);
            let held = disk_slots(after)[victim_of(engine.slots)];
            &&& recover(file) is Done
            &&& settled(engine, file) ==> recover(file)->Done_0 == committed_state(engine, file)
            &&& recover(after) matches Outcome::Done(found) && {
                &&& consistent(found, after)
                &&& settled(found, after)
                &&& reads_alike(found, file, after)
                &&& if held == Some(header) {
                    found == between.committed(header)
                } else if held is None {
                    restores(found, committed_state(engine, file))
                } else {
                    restores(found, recover(file)->Done_0)
                }
            }
        }),
{
    let len = payload.len() as u64;
    let header = engine.extended(len).next_header(engine.end, len);
    let slot = victim_of(engine.slots);
    let written = with_record(file, engine.end, RecordKind::MasterIndex, payload);
    assert(slot == partner(engine.live_slot));
    lemma_recovers_alike(engine, file, file);
    assert(disk_slots(file)[slot] != Some(header));
    if disk_slots(after)[slot] == Some(header) {
        lemma_crash_with_the_new_header(engine, file, payload, after);
    } else {
        if torn(written, header_write(slot, header), after) {
            lemma_commit_spares_the_log(engine, file, payload, header, after);
        }
        lemma_crash_without_a_new_header(engine, file, after);
    }
}

/// When the newest header of a file is destroyed, the database falls back to
/// the generation before it: complete, in step with the file, and with every
/// document reading as it did.
pub proof fn a_torn_header_falls_back(
    engine: EngineView,
    file: Seq<u8>,
    live: int,
    previous: Header,
    after: Seq<u8>,
)
    requires
        consistent(engine, file),
        live_of(disk_slots(file)) == Some(live),
        disk_slots(file)[partner(live)] == Some(previous),
        file.len() == after.len(),
        agree_beside(file, after, live, file.len() as int),
        disk_slots(after)[live] is None,
    ensures
        settled(engine, file) ==> live == engine.live_slot,
        recover(after) matches Outcome::Done(found) && {
            &&& found.header == previous
            &&& found.header.generation < disk_slots(file)[live]->Some_0.generation
            &&& found.live_slot == partner(live)
            &&& committed_index(file, previous) == Outcome::Done(found.index)
            &&& consistent(found, after)
            &&& settled(found, after)
            &&& reads_alike(found, file, after)
            &&& victim_of(found.slots) == live
        },
{
    let newest = lemma_newest(engine, file);
    lemma_slot_replaced(file, after, live);
    lemma_sound_local(file, after, previous);
    lemma_recovers(after, partner(live));
    let found = recover(after)->Done_0;
    lemma_documents_local(file, after, found.index, found.end);
}

/// Cut off anywhere, a database is refused or opens into a state that is in
/// step with what is left: it never opens and then turns out to be damaged. The
/// state is the one that the whole file opens into, and every document in it
/// reads as in the whole file. It opens whenever the cut is behind all that was
/// written.
pub proof fn every_prefix_is_refused_or_consistent(engine: EngineView, file: Seq<u8>, len: nat)
    requires
        consistent(engine, file),
        len <= file.len(),
    ensures
        match recover(file.subrange(0, len as int)) {
            Outcome::Done(found) => {
                &&& consistent(found, file.subrange(0, len as int))
                &&& settled(found, file.subrange(0, len as int))
                &&& reads_alike(found, file, file.subrange(0, len as int))
                &&& recover(file) == Outcome::Done(found)
                &&& found.header.generation >= engine.header.generation
            },
            Outcome::Refused(_) => len < engine.end,
            Outcome::ReadFailed => false,
        },
{
    let prefix = file.subrange(0, len as int);
    let live = lemma_newest(engine, file);
    let header = disk_slots(file)[live]->Some_0;
    if len >= LOG_START {
        lemma_slots_local(file, prefix);
        if len >= header.log_end {
            lemma_recovers(file, live);
            lemma_recovers_alike(engine, file, prefix);
        }
    }
}

/// In a consistent database every live document can be read, and a walk over
/// the committed log finds nothing wrong.
pub proof fn a_consistent_database_reads_and_verifies(
    engine: EngineView,
    file: Seq<u8>,
    id: u64,
)
    requires
        consistent(engine, file),
    ensures
        engine.index.live(id) <==> read_document(engine, file, id) is Done,
        engine.index.live(id) ==> read_document(engine, file, id) == read_outcome(
            RecordRead::Frame { offset: engine.index.offsets[id] },
            file,
        ),
        scan(file, LOG_START as nat, engine.header.log_end as nat) is Done,
        engine.index.offsets.contains_key(id) ==> id < engine.index.next_doc_id,
{
    if engine.index.offsets.contains_key(id) {
        assert(record_within(file, engine.index.offsets[id], engine.end));
    }
}

/// What is refused on opening, and how. A file that cannot hold both headers ends
/// too early. When neither slot is valid, the fault of the first is reported: a
/// file of another kind for its letters, one of another version for its version.
/// A file that is shorter than its newest header says ends too early.
pub proof fn what_is_refused_on_opening(file: Seq<u8>)
    ensures
        file.len() < 128 ==> recover(file) == Outcome::<EngineView>::Refused(
            ErrorView::UnexpectedEof { offset: 0, needed: 128 },
        ),
        file.len() >= 128 ==> {
            let first = parse_header(file.subrange(0, 64), 0);
            let second = parse_header(file.subrange(64, 128), 1);
            &&& first is Err && second is Err ==> recover(file) == Outcome::<EngineView>::Refused(
                first->Err_0,
            )
            &&& forall|newest: Header|
                #![trigger newest_of(first, second, newest)]
                newest_of(first, second, newest) && newest.log_end > file.len() ==> recover(file)
                    == Outcome::<EngineView>::Refused(
                    ErrorView::UnexpectedEof {
                        offset: file.len(),
                        needed: newest.log_end as nat,
                    },
                )
        },
{
    if file.len() >= 128 {
        lemma_slot_reads(file);
    }
}

/// `newest` is the valid header with the higher generation, the second when they
/// are equal.
pub open spec fn newest_of(
    first: Result<Header, ErrorView>,
    second: Result<Header, ErrorView>,
    newest: Header,
) -> bool {
    match (first, second) {
        (Ok(a), Ok(b)) => newest == if a.generation > b.generation {
            a
        } else {
            b
        },
        (Ok(a), Err(_)) => newest == a,
        (Err(_), Ok(b)) => newest == b,
        (Err(_), Err(_)) => false,
    }
}

/// The two slots stand one behind the other at the start of the file.
proof fn lemma_slot_reads(file: Seq<u8>)
    requires
        file.len() >= 128,
    ensures
        slot_of(file.subrange(0, 128), 0) == parse_header(file.subrange(0, 64), 0),
        slot_of(file.subrange(0, 128), 1) == parse_header(file.subrange(64, 128), 1),
{
    assert(file.subrange(0, 128).subrange(0, 64) =~= file.subrange(0, 64));
    assert(file.subrange(0, 128).subrange(64, 128) =~= file.subrange(64, 128));
}

/// What a file opens into, whatever else is in it: the newest valid header
/// rules. The log ends where it says and nothing is waiting. Without a master
/// index the database is empty; else the index is what the record that the
/// header points at holds, which must be a master index that can be read.
pub proof fn the_newest_header_rules(file: Seq<u8>, newest: Header)
    requires
        file.len() >= 128,
        newest_of(
            parse_header(file.subrange(0, 64), 0),
            parse_header(file.subrange(64, 128), 1),
            newest,
        ),
        newest.log_end <= file.len(),
    ensures
        newest.master_len == 0 ==> (recover(file) matches Outcome::Done(found) && found.index
            == empty_index()),
        newest.master_len != 0 ==> match record_at(file, newest.master_ptr as nat) {
            Outcome::Refused(e) => recover(file) == Outcome::<EngineView>::Refused(e),
            Outcome::ReadFailed => recover(file) == Outcome::<EngineView>::ReadFailed,
            Outcome::Done(record) => if record.kind != RecordKind::MasterIndex {
                recover(file) matches Outcome::Refused(ErrorView::CorruptIndex(_))
            } else {
                match bincode_index(record.payload) {
                    Err(words) => recover(file) == Outcome::<EngineView>::Refused(
                        ErrorView::CorruptIndex(words),
                    ),
                    Ok((offsets, dead, next_doc_id)) => recover(file) matches Outcome::Done(found)
                        && found.index == (IndexView { offsets, dead, next_doc_id }),
                }
            },
        },
        recover(file) matches Outcome::Done(found) ==> {
            &&& found.header == newest
            &&& found.end == newest.log_end
            &&& !found.dirty
            &&& 0 <= found.live_slot < 2
            &&& found.slots.len() == 2
            &&& found.slots[found.live_slot] == Some(newest)
            &&& forall|i: int|
                0 <= i < 2 ==> #[trigger] found.slots[i] == match parse_header(
                    file.subrange(64 * i, 64 * i + 64),
                    i as nat,
                ) {
                    Ok(header) => Some(header),
                    Err(_) => None,
                }
        },
{
    lemma_slot_reads(file);
    let slots = disk_slots(file);
    assert(slots[0] == match parse_header(file.subrange(0, 64), 0) {
        Ok(header) => Some(header),
        Err(_) => None,
    });
    assert(slots[1] == match parse_header(file.subrange(64, 128), 1) {
        Ok(header) => Some(header),
        Err(_) => None,
    });
}

/// A file of another kind is refused for its letters, whatever is in it.
pub proof fn a_foreign_file_is_refused(file: Seq<u8>)
    requires
        file.len() >= 128,
        file.subrange(0, 4) != seq![67u8, 78u8, 68u8, 66u8],
        file.subrange(64, 68) != seq![67u8, 78u8, 68u8, 66u8],
    ensures
        recover(file) == Outcome::<EngineView>::Refused(
            ErrorView::BadMagic {
                expected: seq![67u8, 78u8, 68u8, 66u8],
                found: file.subrange(0, 4),
            },
        ),
{
    lemma_slot_reads(file);
    assert(file.subrange(0, 64).subrange(0, 4) =~= file.subrange(0, 4));
    assert(file.subrange(64, 128).subrange(0, 4) =~= file.subrange(64, 68));
}

/// How the two complaints about a log that does not fit its header read.
pub proof fn how_complaints_read(offset: nat, end: nat)
    ensures
        not_master_text(offset, RecordKind::Node) == "record at "@ + decimal(offset) + " is "@
            + "Node"@ + ", not a master index"@,
        not_master_text(offset, RecordKind::Edge) == "record at "@ + decimal(offset) + " is "@
            + "Edge"@ + ", not a master index"@,
        not_master_text(offset, RecordKind::Blob) == "record at "@ + decimal(offset) + " is "@
            + "Blob"@ + ", not a master index"@,
        not_master_text(offset, RecordKind::Tombstone) == "record at "@ + decimal(offset) + " is "@
            + "Tombstone"@ + ", not a master index"@,
        misaligned_text(offset, end) == "log ends at "@ + decimal(offset) + ", header says "@
            + decimal(end),
{
}

/// A header that points at a record of another kind is refused with that
/// complaint.
pub proof fn a_header_must_point_at_an_index(file: Seq<u8>, newest: Header, record: RecordView)
    requires
        file.len() >= 128,
        newest_of(
            parse_header(file.subrange(0, 64), 0),
            parse_header(file.subrange(64, 128), 1),
            newest,
        ),
        newest.log_end <= file.len(),
        newest.master_len != 0,
        record_at(file, newest.master_ptr as nat) == Outcome::Done(record),
        record.kind != RecordKind::MasterIndex,
    ensures
        recover(file) == Outcome::<EngineView>::Refused(
            ErrorView::CorruptIndex(not_master_text(newest.master_ptr as nat, record.kind)),
        ),
{
    lemma_slot_reads(file);
    let slots = disk_slots(file);
    assert(slots[0] is Some || slots[1] is Some);
}

} // verus!
