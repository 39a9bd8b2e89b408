//! What the operations of the engine come to, once everything they ask for has
//! been done.
//!
//! Each law takes what a call may return, answers every request from the file,
//! carries out every operation on it, and says what that ends with.

use crate::checksum::damaged_within;
use crate::error::{CndbError, ErrorView};
use crate::le::{le_bytes, lemma_le_bytes_len};
use crate::storage::consistency::{
    a_deletion_hides_one_document, a_failed_write_changes_nothing, a_new_database_is_consistent,
    agree, an_append_is_read_back, committed_state, consistent, disk_slots, lemma_sound_local,
    lemma_with_record, partner, read_document, reads_alike, record_within, restores, settled,
    with_header, with_record,
};
use crate::storage::file::{ops_view, perform_all, torn, OpView, Outcome, MAX_FILE_LEN};
use crate::storage::header::{header_roundtrip, victim_of, LOG_START};
use crate::storage::index::ids_are_never_reused;
use crate::storage::log::{
    a_walk_is_a_scan, lemma_scan_local, lemma_scan_refused, scan, verify_follows_the_file,
    verify_outcome, verify_step, Verify, VerifyStep,
};
use crate::storage::protocol::{
    appends, commits, deletes, finds, indexes, load_step, opens, walks, writes_index, CommitStage,
    CommitStep, LoadStepView, LoadView, OpenStep, RecordWrite,
};
use crate::storage::record::{
    a_damaged_payload_is_refused, read_follows_the_file, read_step, record_at, DocId, RecordKind,
    RecordRead, RecordStepView, RecordView, MAX_RECORD_LEN,
};
use crate::storage::recovery::{
    a_commit_is_durable, a_crash_during_a_commit_is_recoverable, loading_follows_the_file,
    reopening_restores_the_committed_state,
};
use crate::storage::state::{
    committed_index, fresh_engine, header_ops, header_write, record_ops, recover, EngineView,
};
use vstd::prelude::*;

verus! {

/// What a read gives when its requests are answered from a file, if it ends
/// within `answers` of them.
pub open spec fn drive_read(read: RecordRead, file: Seq<u8>, answers: nat) -> Option<
    Outcome<RecordView>,
>
    decreases answers,
{
    if answers == 0 {
        None
    } else if !read.wants().within(file) {
        Some(Outcome::ReadFailed)
    } else {
        match read_step(read, read.wants().answer(file)) {
            Err(e) => Some(Outcome::Refused(e)),
            Ok(RecordStepView::Done(record)) => Some(Outcome::Done(record)),
            Ok(RecordStepView::More(next)) => drive_read(next, file, (answers - 1) as nat),
        }
    }
}

/// What a walk gives when its requests are answered from a file, if it ends
/// within `answers` of them.
pub open spec fn drive_walk(step: VerifyStep, file: Seq<u8>, answers: nat) -> Option<Outcome<nat>>
    decreases answers,
{
    match step {
        VerifyStep::Done(count) => Some(Outcome::Done(count as nat)),
        VerifyStep::More(run) => if answers == 0 {
            None
        } else if !run.read.wants().within(file) {
            Some(Outcome::ReadFailed)
        } else {
            match verify_step(run, run.read.wants().answer(file)) {
                Err(e) => Some(Outcome::Refused(e)),
                Ok(next) => drive_walk(next, file, (answers - 1) as nat),
            }
        },
    }
}

/// What recovery gives when its requests are answered from a file, if it ends
/// within `answers` of them.
pub open spec fn drive_load(load: LoadView, file: Seq<u8>, answers: nat) -> Option<
    Outcome<EngineView>,
>
    decreases answers,
{
    if answers == 0 {
        None
    } else if !load.wants().within(file) {
        Some(Outcome::ReadFailed)
    } else {
        match load_step(load, load.wants().answer(file)) {
            Err(e) => Some(Outcome::Refused(e)),
            Ok(LoadStepView::Done(engine)) => Some(Outcome::Done(engine)),
            Ok(LoadStepView::More(next)) => drive_load(next, file, (answers - 1) as nat),
        }
    }
}

/// Two answers are all it takes to read the record at an offset.
pub proof fn two_answers_read_a_record(offset: u64, file: Seq<u8>)
    requires
        file.len() <= MAX_FILE_LEN,
    ensures
        drive_read(RecordRead::Frame { offset }, file, 2) == Some(record_at(file, offset as nat)),
{
    let read = RecordRead::Frame { offset };
    reveal_with_fuel(drive_read, 3);
    read_follows_the_file(read, file);
    if read.wants().within(file) {
        if let Ok(RecordStepView::More(next)) = read_step(read, read.wants().answer(file)) {
            read_follows_the_file(next, file);
        }
    }
}

/// Reading a document gives its record while the document is live, and is
/// refused from then on: a deleted document reads as deleted, whether or not the
/// deletion is committed, and an id that no document has is not found.
pub proof fn reading_gives_live_documents_only(
    engine: EngineView,
    file: Seq<u8>,
    id: DocId,
    result: Result<RecordRead, CndbError>,
)
    requires
        finds(engine, id, result),
        file.len() <= MAX_FILE_LEN,
    ensures
        result is Ok <==> engine.index.offsets.contains_key(id.0) && !engine.index.dead.contains(
            id.0,
        ),
        engine.index.dead.contains(id.0) ==> (result matches Err(e) && e@ == ErrorView::Deleted(
            id,
        )),
        !engine.index.dead.contains(id.0) && !engine.index.offsets.contains_key(id.0) ==> (
        result matches Err(e) && e@ == ErrorView::NotFound(id)),
        result matches Ok(read) ==> drive_read(read, file, 2) == Some(
            record_at(file, engine.index.offsets[id.0] as nat),
        ),
        match result {
            Ok(read) => drive_read(read, file, 2) == Some(read_document(engine, file, id.0)),
            Err(e) => read_document(engine, file, id.0) == Outcome::<RecordView>::Refused(e@),
        },
{
    if engine.index.live(id.0) {
        two_answers_read_a_record(engine.index.offsets[id.0], file);
    }
}

/// Where a walk stands lies within reach of the file it reads.
spec fn on_its_way(run: Verify, file: Seq<u8>) -> bool {
    &&& 128 + 9 * run.count <= run.read.offset()
    &&& match run.read {
        RecordRead::Frame { offset } => offset <= file.len() + 128,
        RecordRead::Payload { offset, frame } => offset + 9 <= file.len() && frame.len
            <= MAX_RECORD_LEN,
    }
}

/// How many answers a walk can take at most from where it stands.
spec fn answers_left(run: Verify, file: Seq<u8>) -> int {
    2 * (file.len() + 128 - run.read.offset()) + match run.read {
        RecordRead::Frame { .. } => 2int,
        RecordRead::Payload { .. } => 1int,
    }
}

/// A walk on its way ends as its outcome says, within the answers it has left.
proof fn lemma_drive_walk(run: Verify, file: Seq<u8>, answers: nat)
    requires
        on_its_way(run, file),
        file.len() <= MAX_FILE_LEN,
        file.len() <= usize::MAX,
        answers_left(run, file) <= answers,
    ensures
        drive_walk(VerifyStep::More(run), file, answers) == Some(verify_outcome(run, file)),
    decreases answers,
{
    verify_follows_the_file(run, file);
    if run.read.wants().within(file) {
        let reply = run.read.wants().answer(file);
        if let Ok(VerifyStep::More(next)) = verify_step(run, reply) {
            lemma_drive_walk(next, file, (answers - 1) as nat);
        }
    }
}

/// Running a verification to its end gives what the committed log holds, from
/// its first byte to its last, whatever is pending behind it: the number of its
/// records when all are intact, else the first fault.
pub proof fn verifying_walks_the_whole_committed_log(
    engine: EngineView,
    file: Seq<u8>,
    result: Result<VerifyStep, CndbError>,
    answers: nat,
)
    requires
        walks(engine, result),
        file.len() <= MAX_FILE_LEN,
        file.len() <= usize::MAX,
        2 * file.len() + 2 <= answers,
    ensures
        match result {
            Ok(step) => drive_walk(step, file, answers) == Some(
                scan(file, 128, engine.header.log_end as nat),
            ),
            Err(e) => scan(file, 128, engine.header.log_end as nat) == Outcome::<nat>::Refused(e@),
        },
{
    a_walk_is_a_scan(file, LOG_START, engine.header.log_end);
    if let Ok(VerifyStep::More(run)) = result {
        lemma_drive_walk(run, file, answers);
    }
}

/// Verifying finds damage to any committed document: when its payload was
/// changed within four consecutive bytes, a walk over the committed log is
/// refused with that record's offset, and so is reading the document.
pub proof fn verifying_finds_damage(
    engine: EngineView,
    file: Seq<u8>,
    other: Seq<u8>,
    id: u64,
    record: RecordView,
    at: int,
)
    requires
        consistent(engine, file),
        committed_index(file, engine.header) matches Outcome::Done(index)
            && index.offsets.contains_key(id) && record_at(file, index.offsets[id] as nat)
            == Outcome::Done(record),
        damaged_within(file, other, at),
        forall|i: int|
            0 <= i < file.len() && !(committed_index(file, engine.header)->Done_0.offsets[id] + 9
                <= i < committed_index(file, engine.header)->Done_0.offsets[id] + 9
                + record.payload.len()) ==> #[trigger] file[i] == other[i],
    ensures
        ({
            let offset = committed_index(file, engine.header)->Done_0.offsets[id] as nat;
            &&& record_at(other, offset) == Outcome::<RecordView>::Refused(
                ErrorView::RecordChecksum { offset },
            )
            &&& scan(other, 128, engine.header.log_end as nat) == Outcome::<nat>::Refused(
                ErrorView::RecordChecksum { offset },
            )
        }),
{
    let index = committed_index(file, engine.header)->Done_0;
    let offset = index.offsets[id];
    assert(record_within(file, offset, engine.header.log_end));
    a_damaged_payload_is_refused(file, other, offset as nat, record, at);
    lemma_scan_local(file, other, LOG_START as nat, offset as nat);
    lemma_scan_refused(
        other,
        LOG_START as nat,
        offset as nat,
        engine.header.log_end as nat,
        ErrorView::RecordChecksum { offset: offset as nat },
    );
}

/// The file as `file` and its length agree on it.
pub open spec fn measured(file: Seq<u8>, file_len: u64) -> bool {
    file.len() == file_len && file_len <= MAX_FILE_LEN
}

/// Three answers are all it takes to recover a database.
proof fn lemma_three_answers(load: LoadView, file: Seq<u8>, file_len: u64)
    requires
        measured(file, file_len),
        load == (LoadView::Region { file_len }),
        LOG_START <= file_len,
    ensures
        drive_load(load, file, 3) == Some(recover(file)),
{
    reveal_with_fuel(drive_load, 4);
    loading_follows_the_file(load, file);
    if let Ok(LoadStepView::More(next)) = load_step(load, load.wants().answer(file)) {
        loading_follows_the_file(next, file);
        if next.wants().within(file) {
            if let Ok(LoadStepView::More(last)) = load_step(next, next.wants().answer(file)) {
                loading_follows_the_file(last, file);
            }
        }
    }
}

/// Opening creates a database in an empty file and in no other. Of any other
/// file it asks no write, and it ends as the file's own headers say. The
/// database that is created is empty, at generation 0, and opens as such.
pub proof fn opening_follows_the_file(
    file: Seq<u8>,
    file_len: u64,
    result: Result<OpenStep, CndbError>,
)
    requires
        measured(file, file_len),
        opens(file_len, result),
    ensures
        match result {
            Ok(OpenStep::Create(ops)) => {
                let made = perform_all(file, ops_view(ops@));
                &&& file.len() == 0
                &&& made.len() == 128
                &&& ops_view(ops@).len() == 2
                &&& ops_view(ops@)[0] matches OpView::Write { offset, bytes } && offset == 0
                    && bytes.len() == 128
                &&& ops_view(ops@)[1] is SyncAll
                &&& consistent(fresh_engine(), made)
                &&& settled(fresh_engine(), made)
                &&& recover(made) == Outcome::Done(fresh_engine())
                &&& fresh_engine().header.generation == 0
                &&& fresh_engine().live_slot == 0
                &&& !fresh_engine().dirty
                &&& fresh_engine().index.next_doc_id == 1
                &&& fresh_engine().index.offsets == Map::<u64, u64>::empty()
                &&& fresh_engine().index.dead == Set::<u64>::empty()
            },
            Ok(OpenStep::Load(load)) => {
                &&& file.len() > 0
                &&& drive_load(load@, file, 3) == Some(recover(file))
            },
            Err(e) => {
                &&& 0 < file.len() < 128
                &&& recover(file) == Outcome::<EngineView>::Refused(e@)
            },
        },
        result matches Ok(OpenStep::Create(_)) <==> file.len() == 0,
{
    match result {
        Ok(OpenStep::Create(ops)) => {
            assert(file =~= Seq::empty());
            a_new_database_is_consistent();
            header_roundtrip(fresh_engine().header, 0);
            let made = perform_all(file, ops_view(ops@));
            reopening_restores_the_committed_state(fresh_engine(), made);
        },
        Ok(OpenStep::Load(load)) => {
            lemma_three_answers(load@, file, file_len);
        },
        Err(_) => {},
    }
}

/// Opening the file of a database gives what that database last committed, and
/// just what it knew when nothing was waiting for a commit.
pub proof fn opening_finds_what_was_committed(
    engine: EngineView,
    file: Seq<u8>,
    file_len: u64,
    result: Result<OpenStep, CndbError>,
)
    requires
        consistent(engine, file),
        settled(engine, file),
        measured(file, file_len),
        opens(file_len, result),
    ensures
        result matches Ok(OpenStep::Load(load)) && drive_load(load@, file, 3) == Some(
            Outcome::Done(committed_state(engine, file)),
        ) && (!engine.dirty ==> committed_state(engine, file) == engine),
{
    opening_follows_the_file(file, file_len, result);
    reopening_restores_the_committed_state(engine, file);
}

/// Appending refuses a payload over 64 MiB and no other. What it asks for is
/// written behind everything that stands in the file; once that is done the
/// document reads back with its kind and payload, under an id that is higher
/// than every id before it, and every other document reads as it did. Nothing
/// that is committed changes.
pub proof fn appending_stores_the_document(
    engine: EngineView,
    file: Seq<u8>,
    kind: RecordKind,
    payload: Seq<u8>,
    result: Result<RecordWrite, CndbError>,
)
    requires
        consistent(engine, file),
        appends(engine, kind, payload, result),
        payload.len() <= 67_108_864 ==> engine.end + 9 + payload.len() <= MAX_FILE_LEN,
        engine.index.next_doc_id < u64::MAX,
    ensures
        result is Err <==> payload.len() > 67_108_864,
        result matches Err(e) ==> e@ == (ErrorView::RecordTooLarge {
            offset: engine.end as nat,
            len: payload.len(),
            max: 67_108_864,
        }),
        result matches Ok(write) ==> {
            let next = engine.appended(write.len);
            let after = perform_all(file, ops_view(write.ops@));
            let id = engine.index.next_doc_id;
            &&& write.fits(engine)
            &&& agree(file, after, 0, engine.end as int)
            &&& consistent(next, after)
            &&& settled(engine, file) ==> settled(next, after)
            &&& read_document(next, after, id) == Outcome::Done(RecordView { kind, payload })
            &&& read_document(engine, file, id) == Outcome::<RecordView>::Refused(
                ErrorView::NotFound(DocId(id)),
            )
            &&& forall|other: u64|
                other != id ==> #[trigger] read_document(next, after, other) == read_document(
                    engine,
                    file,
                    other,
                )
            &&& forall|other: u64| #[trigger]
                engine.index.offsets.contains_key(other) ==> other < id
            &&& next.index.next_doc_id == id + 1
            &&& next.header == engine.header
            &&& next.live_slot == engine.live_slot
            &&& next.end == engine.end + 9 + payload.len()
            &&& committed_index(after, next.header) == committed_index(file, engine.header)
        },
{
    if let Ok(write) = result {
        let after = perform_all(file, ops_view(write.ops@));
        assert(after == with_record(file, engine.end, kind, payload));
        an_append_is_read_back(engine, file, kind, payload);
        lemma_with_record(file, engine.end, kind, payload);
        lemma_sound_local(file, after, engine.header);
        ids_are_never_reused(engine.index, engine.end);
    }
}

/// Deleting is refused for what cannot be read, with the same error, and for
/// nothing else. What it asks for is written behind everything that stands in
/// the file: a tombstone that holds the id. Once that is done the document reads
/// as deleted, whether or not that is committed, and every other document reads
/// as it did. Nothing that is committed changes.
pub proof fn deleting_hides_the_document(
    engine: EngineView,
    file: Seq<u8>,
    id: DocId,
    result: Result<RecordWrite, CndbError>,
)
    requires
        consistent(engine, file),
        deletes(engine, id, result),
        engine.end + 17 <= MAX_FILE_LEN,
    ensures
        match result {
            Ok(_) => read_document(engine, file, id.0) is Done,
            Err(e) => read_document(engine, file, id.0) == Outcome::<RecordView>::Refused(e@),
        },
        result matches Ok(write) ==> {
            let next = engine.deleted(id.0);
            let after = perform_all(file, ops_view(write.ops@));
            &&& write.fits(engine)
            &&& write.len == 8
            &&& agree(file, after, 0, engine.end as int)
            &&& consistent(next, after)
            &&& settled(engine, file) ==> settled(next, after)
            &&& read_document(next, after, id.0) == Outcome::<RecordView>::Refused(
                ErrorView::Deleted(id),
            )
            &&& forall|other: u64|
                other != id.0 ==> #[trigger] read_document(next, after, other) == read_document(
                    engine,
                    file,
                    other,
                )
            &&& record_at(after, engine.end as nat) == Outcome::Done(
                RecordView { kind: RecordKind::Tombstone, payload: le_bytes(id.0 as nat, 8) },
            )
            &&& next.index.next_doc_id == engine.index.next_doc_id
            &&& next.index.offsets == engine.index.offsets
            &&& next.header == engine.header
            &&& next.live_slot == engine.live_slot
            &&& next.end == engine.end + 17
            &&& next.dirty
            &&& committed_index(after, next.header) == committed_index(file, engine.header)
        },
{
    if engine.index.live(id.0) {
        assert(record_within(file, engine.index.offsets[id.0], engine.end));
    }
    if let Ok(write) = result {
        let target = le_bytes(id.0 as nat, 8);
        let after = perform_all(file, ops_view(write.ops@));
        lemma_le_bytes_len(id.0 as nat, 8);
        assert(after == with_record(file, engine.end, RecordKind::Tombstone, target));
        a_deletion_hides_one_document(engine, file, id.0);
        lemma_with_record(file, engine.end, RecordKind::Tombstone, target);
        lemma_sound_local(file, after, engine.header);
    }
}

/// One call of a commit: the engine before and after it, the stage it was called
/// with, what it returned, and the file at the time.
pub struct Exchange {
    pub before: EngineView,
    pub stage: CommitStage,
    pub result: Result<CommitStep, CndbError>,
    pub after: EngineView,
    pub file: Seq<u8>,
}

impl Exchange {
    /// The operations that the call asked for.
    pub open spec fn asked(self) -> Seq<OpView> {
        match self.result {
            Ok(CommitStep::Act { ops, .. }) => ops_view(ops@),
            _ => Seq::empty(),
        }
    }

    /// The file once they have been carried out.
    pub open spec fn left(self) -> Seq<u8> {
        perform_all(self.file, self.asked())
    }
}

/// The calls of a commit in order: it begins at the beginning, and whoever owns
/// the file does what each call asks for and goes on with the stage it names.
pub open spec fn commit_run(run: Seq<Exchange>) -> bool {
    &&& run.len() > 0
    &&& run[0].stage == CommitStage::Begin
    &&& forall|i: int|
        0 <= i < run.len() ==> #[trigger] commits(
            run[i].before,
            run[i].stage,
            run[i].after,
            run[i].result,
        )
    &&& forall|i: int, j: int|
        #![trigger run[i], run[j]]
        0 <= i < run.len() && 0 <= j < run.len() && j == i + 1 ==> {
            &&& run[i].result matches Ok(CommitStep::Act { then, .. }) && run[j].stage == then
            &&& run[j].before == run[i].after
            &&& run[j].file == run[i].left()
        }
}

/// All operations that a commit asked for, in order.
pub open spec fn asked_in_all(run: Seq<Exchange>) -> Seq<OpView>
    decreases run.len(),
{
    if run.len() == 0 {
        Seq::empty()
    } else {
        asked_in_all(run.drop_last()) + run.last().asked()
    }
}

/// There is room for the index, and a generation left to commit.
pub open spec fn has_room(engine: EngineView) -> bool {
    &&& engine.end + 9 + engine.index.stored_len() <= MAX_FILE_LEN
    &&& engine.header.generation < u64::MAX
}

/// A commit of something that was waiting takes four calls; this is what passes
/// between them.
proof fn lemma_commit_shape(run: Seq<Exchange>) -> (payload: Seq<u8>)
    requires
        commit_run(run),
        run.last().result matches Ok(CommitStep::Done),
        run[0].before.dirty,
        run[0].before.wf(),
    ensures
        ({
            let engine = run[0].before;
            let file = run[0].file;
            let len = payload.len() as u64;
            let between = engine.extended(len);
            let header = between.next_header(engine.end, len);
            let slot = victim_of(engine.slots);
            let written = with_record(file, engine.end, RecordKind::MasterIndex, payload);
            &&& run.len() == 4
            &&& indexes(payload, engine)
            &&& payload.len() <= MAX_RECORD_LEN
            &&& run[0].asked() == seq![OpView::SyncData]
            &&& run[1].asked() == record_ops(engine.end, RecordKind::MasterIndex, payload)
            &&& run[2].asked() == header_ops(slot, header)
            &&& run[3].asked() == Seq::<OpView>::empty()
            &&& run[2].file == written
            &&& run[3].after == between.committed(header)
            &&& run[3].file == with_header(written, slot, header)
        }),
{
    let engine = run[0].before;
    let file = run[0].file;
    assert(commits(run[0].before, run[0].stage, run[0].after, run[0].result));
    assert(run.len() > 1) by {
        if run.len() == 1 {
            assert(run.last() == run[0]);
        }
    }
    assert(run[1].stage == CommitStage::RecordsSynced && run[1].before == engine && run[1].file
        == run[0].left());
    reveal_with_fuel(perform_all, 2);
    assert(run[0].asked() =~= seq![OpView::SyncData]);
    assert(run[0].asked().drop_last() =~= Seq::<OpView>::empty());
    assert(run[1].file == file);
    assert(commits(run[1].before, run[1].stage, run[1].after, run[1].result));
    assert(run.len() > 2) by {
        if run.len() == 2 {
            assert(run.last() == run[1]);
        }
    }
    assert(run[2].before == engine && run[2].file == run[1].left());
    let ops = run[1].result->Ok_0->Act_ops;
    assert(writes_index(ops@, engine));
    let payload = choose|payload: Seq<u8>|
        #![trigger indexes(payload, engine)]
        indexes(payload, engine) && ops_view(ops@) == record_ops(
            engine.end,
            RecordKind::MasterIndex,
            payload,
        );
    assert(run[2].stage == (CommitStage::MasterWritten {
        offset: engine.end,
        len: payload.len() as u64,
    }));
    assert(commits(run[2].before, run[2].stage, run[2].after, run[2].result));
    assert(run.len() > 3) by {
        if run.len() == 3 {
            assert(run.last() == run[2]);
        }
    }
    assert(run[3].file == run[2].left() && run[3].before == run[2].after);
    assert(commits(run[3].before, run[3].stage, run[3].after, run[3].result));
    assert(run.len() == 4) by {
        if run.len() > 4 {
            assert(run[4].before == run[3].after);
        }
    }
    payload
}

/// A commit that is carried out to its end makes everything durable: nothing is
/// waiting any more, the index is the one that the engine had, every document
/// reads as before, and the file opens into exactly the state that the engine is
/// left in. That is one generation further, in the other header slot. When
/// nothing was waiting, the commit is over at once and nothing is asked for.
pub proof fn a_finished_commit_is_durable(run: Seq<Exchange>)
    requires
        commit_run(run),
        run.last().result matches Ok(CommitStep::Done),
        consistent(run[0].before, run[0].file),
        settled(run[0].before, run[0].file),
        has_room(run[0].before),
    ensures
        ({
            let engine = run[0].before;
            let file = run[0].file;
            let done = run.last().after;
            let after = run.last().file;
            &&& recover(after) == Outcome::Done(done)
            &&& consistent(done, after)
            &&& settled(done, after)
            &&& !done.dirty
            &&& done.index == engine.index
            &&& committed_index(after, done.header) == Outcome::Done(engine.index)
            &&& forall|id: u64| #[trigger]
                read_document(done, after, id) == read_document(engine, file, id)
            &&& engine.dirty ==> done.header.generation == engine.header.generation + 1
                && done.live_slot == partner(engine.live_slot)
            &&& !engine.dirty ==> done == engine && after == file && asked_in_all(run)
                == Seq::<OpView>::empty()
        }),
{
    let engine = run[0].before;
    let file = run[0].file;
    assert(commits(run[0].before, run[0].stage, run[0].after, run[0].result));
    if engine.dirty {
        let payload = lemma_commit_shape(run);
        a_commit_is_durable(engine, file, payload);
    } else {
        assert(run.len() == 1) by {
            if run.len() > 1 {
                assert(run[1].before == run[0].after);
            }
        }
        assert(run.last() == run[0]);
        reopening_restores_the_committed_state(engine, file);
        reveal_with_fuel(asked_in_all, 2);
        assert(run.drop_last() =~= Seq::<Exchange>::empty());
        assert(asked_in_all(run) =~= Seq::<OpView>::empty());
    }
}

/// The same of an engine whose earlier commit failed while writing a header:
/// once something is waiting and a commit is finished, the file opens into
/// exactly the state that the engine is left in.
pub proof fn a_repeated_commit_is_durable(run: Seq<Exchange>)
    requires
        commit_run(run),
        run.last().result matches Ok(CommitStep::Done),
        consistent(run[0].before, run[0].file),
        run[0].before.dirty,
        has_room(run[0].before),
    ensures
        recover(run.last().file) == Outcome::Done(run.last().after),
        consistent(run.last().after, run.last().file),
        settled(run.last().after, run.last().file),
        run.last().after.index == run[0].before.index,
        !run.last().after.dirty,
{
    let payload = lemma_commit_shape(run);
    a_commit_is_durable(run[0].before, run[0].file, payload);
}

/// A commit is refused only when the index outgrows what a record may hold, and
/// then nothing has been written and the engine is as it was.
pub proof fn only_an_outgrown_index_is_refused(run: Seq<Exchange>)
    requires
        commit_run(run),
        run.last().result is Err,
        run[0].before.wf(),
    ensures
        run[0].before.dirty,
        run[0].before.index.stored_len() > 67_108_864,
        run.last().result->Err_0@ == (ErrorView::RecordTooLarge {
            offset: run[0].before.end as nat,
            len: run[0].before.index.stored_len(),
            max: 67_108_864,
        }),
        run.last().after == run[0].before,
        run.last().file == run[0].file,
{
    assert(commits(run[0].before, run[0].stage, run[0].after, run[0].result));
    assert(run.len() > 1) by {
        if run.len() == 1 {
            assert(run.last() == run[0]);
        }
    }
    assert(run[1].before == run[0].after && run[1].file == run[0].left());
    reveal_with_fuel(perform_all, 2);
    assert(run[0].asked() =~= seq![OpView::SyncData]);
    assert(run[0].asked().drop_last() =~= Seq::<OpView>::empty());
    assert(commits(run[1].before, run[1].stage, run[1].after, run[1].result));
    if run.len() > 2 {
        assert(run[2].before == run[1].after);
        assert(commits(run[2].before, run[2].stage, run[2].after, run[2].result));
        if run.len() > 3 {
            assert(run[3].before == run[2].after);
            assert(commits(run[3].before, run[3].stage, run[3].after, run[3].result));
            if run.len() > 4 {
                assert(run[4].before == run[3].after);
            } else {
                assert(run.last() == run[3]);
            }
        } else {
            assert(run.last() == run[2]);
        }
    } else {
        assert(run.last() == run[1]);
    }
}

/// The operations of four calls are those of each, one after another.
proof fn lemma_asked_by_four(run: Seq<Exchange>)
    requires
        run.len() == 4,
    ensures
        asked_in_all(run) == run[0].asked() + run[1].asked() + run[2].asked() + run[3].asked(),
{
    let three = run.drop_last();
    let two = three.drop_last();
    let one = two.drop_last();
    reveal_with_fuel(asked_in_all, 5);
    assert(one.drop_last() =~= Seq::<Exchange>::empty());
    assert(one.last() == run[0]);
    assert(two.last() == run[1]);
    assert(three.last() == run[2]);
    assert(run.last() == run[3]);
    assert(Seq::<OpView>::empty() + run[0].asked() =~= run[0].asked());
}

/// The order in which a commit does things. Everything written before it is
/// flushed first. It writes behind the log, and into the header slot that is not
/// live, and nowhere else, so that no byte that the live generation depends on
/// is touched. Right before and right after the header is written there is a
/// flush, and the header is the last thing written.
#[verifier::rlimit(30)]
pub proof fn a_commit_flushes_around_its_header(run: Seq<Exchange>)
    requires
        commit_run(run),
        run.last().result matches Ok(CommitStep::Done),
        run[0].before.wf(),
        run[0].before.dirty,
    ensures
        ({
            let engine = run[0].before;
            let ops = asked_in_all(run);
            let at = ops.len() - 2;
            &&& ops.len() >= 3
            &&& ops[0] is SyncData
            &&& ops[at - 1] is SyncData
            &&& ops[at + 1] is SyncData
            &&& ops[at] matches OpView::Write { offset, bytes } && offset == 64 * partner(
                engine.live_slot,
            ) && bytes.len() == 64
            &&& forall|i: int|
                0 <= i < at ==> (#[trigger] ops[i] matches OpView::Write { offset, .. } ==> offset
                    >= engine.end)
        }),
{
    let engine = run[0].before;
    let payload = lemma_commit_shape(run);
    let len = payload.len() as u64;
    let header = engine.extended(len).next_header(engine.end, len);
    let slot = victim_of(engine.slots);
    let middle = record_ops(engine.end, RecordKind::MasterIndex, payload);
    let last = header_ops(slot, header);
    assert(slot == partner(engine.live_slot));
    header_roundtrip(header, 0);
    lemma_asked_by_four(run);
    let ops = asked_in_all(run);
    assert(ops == seq![OpView::SyncData] + middle + last + Seq::<OpView>::empty());
    assert(ops.len() == 6);
    assert(ops[0] == OpView::SyncData);
    assert(ops[1] == middle[0] && ops[2] == middle[1]);
    assert(ops[3] == last[0] && ops[4] == last[1] && ops[5] == last[2]);
}

/// A commit can be given up after any of its calls, with what the call asked for
/// done: engine and file are in step, and every document reads as before.
pub proof fn a_commit_can_stop_anywhere(run: Seq<Exchange>, i: int)
    requires
        commit_run(run),
        run.last().result matches Ok(CommitStep::Done),
        consistent(run[0].before, run[0].file),
        run[0].before.dirty,
        has_room(run[0].before),
        0 <= i < run.len(),
    ensures
        consistent(run[i].after, run[i].left()),
        forall|id: u64| #[trigger]
            read_document(run[i].after, run[i].left(), id) == read_document(
                run[0].before,
                run[0].file,
                id,
            ),
{
    let engine = run[0].before;
    let file = run[0].file;
    let payload = lemma_commit_shape(run);
    lemma_commit_states(run);
    a_commit_is_durable(engine, file, payload);
    lemma_with_record(file, engine.end, RecordKind::MasterIndex, payload);
    let written = run[2].file;
    a_failed_write_changes_nothing(engine, file, written);
    if i == 2 {
        let next = run[3].after;
        let between = run[2].after;
        assert forall|id: u64| #[trigger] read_document(between, run[2].left(), id)
            == read_document(engine, file, id) by {
            assert(read_document(next, run[3].file, id) == read_document(engine, file, id));
        }
    }
}

/// What the engine knows after each call of a commit, and what the file holds
/// after what it asked for.
proof fn lemma_commit_states(run: Seq<Exchange>)
    requires
        commit_run(run),
        run.len() == 4,
        run.last().result matches Ok(CommitStep::Done),
        run[0].before.dirty,
        run[0].before.wf(),
    ensures
        run[0].after == run[0].before,
        run[0].left() == run[0].file,
        run[1].after == run[0].before,
        run[1].left() == run[2].file,
        run[2].after == run[0].before.extended(run[0].before.index.stored_len() as u64),
        run[2].left() == run[3].file,
        run[3].left() == run[3].file,
{
    let engine = run[0].before;
    let payload = lemma_commit_shape(run);
    assert(commits(run[0].before, run[0].stage, run[0].after, run[0].result));
    assert(run[1].before == run[0].after && run[1].file == run[0].left());
    assert(commits(run[1].before, run[1].stage, run[1].after, run[1].result));
    assert(run[2].before == run[1].after && run[2].file == run[1].left());
    assert(commits(run[2].before, run[2].stage, run[2].after, run[2].result));
    assert(run[3].before == run[2].after && run[3].file == run[2].left());
    reveal_with_fuel(perform_all, 2);
    assert(run[0].asked().drop_last() =~= Seq::<OpView>::empty());
}

/// A crash while a commit's header is being written is recovered from: the
/// database opens at what the commit was writing, or at what was committed
/// before it, in step with the file, and every document of the state found reads
/// as it did. As ever it is the checksum's part to tell a torn header from one
/// that was meant.
pub proof fn a_crash_at_the_header_is_recoverable(run: Seq<Exchange>, after: Seq<u8>)
    requires
        commit_run(run),
        run.last().result matches Ok(CommitStep::Done),
        consistent(run[0].before, run[0].file),
        settled(run[0].before, run[0].file),
        run[0].before.dirty,
        has_room(run[0].before),
        torn(run[2].file, run[2].asked()[1], after),
        ({
            let slot = partner(run[0].before.live_slot);
            let held = disk_slots(after)[slot];
            ||| held is None
            ||| held == disk_slots(run[0].file)[slot]
            ||| held == Some(run[3].after.header)
        }),
    ensures
        recover(after) matches Outcome::Done(found) && {
            &&& consistent(found, after)
            &&& settled(found, after)
            &&& reads_alike(found, run[0].file, after)
            &&& found == run[3].after || restores(
                found,
                committed_state(run[0].before, run[0].file),
            )
        },
{
    let engine = run[0].before;
    let file = run[0].file;
    let payload = lemma_commit_shape(run);
    let len = payload.len() as u64;
    let header = engine.extended(len).next_header(engine.end, len);
    let slot = victim_of(engine.slots);
    assert(slot == partner(engine.live_slot));
    assert(run[2].asked()[1] == header_write(slot, header));
    a_crash_during_a_commit_is_recoverable(engine, file, payload, after);
}

} // verus!
