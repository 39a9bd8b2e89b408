//! Walking the record log from its start, checking every checksum.

use crate::error::{CndbError, ErrorView};
use crate::storage::file::Outcome;
use crate::storage::record::{
    frame_bytes, frame_roundtrip, lemma_record_local, lemma_record_written, read_follows_the_file,
    read_frame_at, read_outcome, read_step, record_at, verify_payload, RecordRead, RecordStepView,
    RecordView, MAX_RECORD_LEN, RECORD_HEADER_SIZE,
};
use crate::text::{decimal, to_decimal};
use vstd::prelude::*;
use vstd::string::StringExecFns;

verus! {

/// The complaint about a log whose records do not end where the header says.
pub open spec fn misaligned_text(offset: nat, end: nat) -> Seq<char> {
    "log ends at "@ + decimal(offset) + ", header says "@ + decimal(end)
}

fn misaligned(offset: u64, end: u64) -> (text: String)
    ensures
        text@ == misaligned_text(offset as nat, end as nat),
{
    let mut text = String::from_str("log ends at ");
    text.append(to_decimal(offset).as_str());
    text.append(", header says ");
    text.append(to_decimal(end).as_str());
    text
}

/// How many records lie between `offset` and `end`, if the log between them is
/// nothing but intact records.
pub open spec fn scan(file: Seq<u8>, offset: nat, end: nat) -> Outcome<nat>
    decreases (if offset < end {
        end - offset
    } else {
        0
    }),
{
    if offset < end {
        match record_at(file, offset) {
            Outcome::Done(record) => match scan(
                file,
                offset + RECORD_HEADER_SIZE as nat + record.payload.len(),
                end,
            ) {
                Outcome::Done(n) => Outcome::Done(n + 1),
                failure => failure,
            },
            Outcome::Refused(e) => Outcome::Refused(e),
            Outcome::ReadFailed => Outcome::ReadFailed,
        }
    } else if offset == end {
        Outcome::Done(0)
    } else {
        Outcome::Refused(ErrorView::CorruptIndex(misaligned_text(offset, end)))
    }
}

/// A walk over the log, in the middle of reading a record.
#[derive(Debug, Clone, Copy, PartialEq, Eq, Structural)]
pub struct Verify {
    /// Where the log must end.
    pub end: u64,
    /// Records read so far.
    pub count: usize,
    /// The record being read.
    pub read: RecordRead,
}

/// Where a walk stands.
#[derive(Debug, Clone, Copy, PartialEq, Eq, Structural)]
pub enum VerifyStep {
    /// Something more is wanted.
    More(Verify),
    /// The log is intact and holds this many records.
    Done(usize),
}

/// Where a walk stands that has read `count` records and arrived at `offset`.
pub open spec fn arrival(offset: u64, count: usize, end: u64) -> Result<VerifyStep, ErrorView> {
    if offset < end {
        Ok(VerifyStep::More(Verify { end, count, read: RecordRead::Frame { offset } }))
    } else if offset == end {
        Ok(VerifyStep::Done(count))
    } else {
        Err(ErrorView::CorruptIndex(misaligned_text(offset as nat, end as nat)))
    }
}

/// Where a walk stands once `reply` has answered its request.
pub open spec fn verify_step(run: Verify, reply: Seq<u8>) -> Result<VerifyStep, ErrorView> {
    match read_step(run.read, reply) {
        Err(e) => Err(e),
        Ok(RecordStepView::More(next)) => Ok(VerifyStep::More(Verify { read: next, ..run })),
        Ok(RecordStepView::Done(record)) => arrival(
            run.read.reach() as u64,
            (run.count + 1) as usize,
            run.end,
        ),
    }
}

/// What the rest of a walk gives on a file that answers every request.
pub open spec fn verify_outcome(run: Verify, file: Seq<u8>) -> Outcome<nat> {
    match read_outcome(run.read, file) {
        Outcome::Done(record) => match scan(
            file,
            run.read.offset() as nat + RECORD_HEADER_SIZE as nat + record.payload.len(),
            run.end as nat,
        ) {
            Outcome::Done(n) => Outcome::Done(run.count as nat + 1 + n),
            failure => failure,
        },
        Outcome::Refused(e) => Outcome::Refused(e),
        Outcome::ReadFailed => Outcome::ReadFailed,
    }
}

/// Arrive at `offset` after `count` records.
pub fn verify_from(offset: u64, count: usize, end: u64) -> (result: Result<VerifyStep, CndbError>)
    ensures
        match result {
            Ok(step) => arrival(offset, count, end) == Ok::<VerifyStep, ErrorView>(step),
            Err(e) => arrival(offset, count, end) == Err::<VerifyStep, ErrorView>(e@),
        },
{
    if offset < end {
        Ok(VerifyStep::More(Verify { end, count, read: RecordRead::Frame { offset } }))
    } else if offset != end {
        Err(CndbError::CorruptIndex(misaligned(offset, end)))
    } else {
        Ok(VerifyStep::Done(count))
    }
}

/// Take the answer to a walk's request and go on with it.
///
/// The answer must be as long as was asked for, and must come from a file that
/// reaches that far.
pub fn verify_log(run: Verify, reply: Vec<u8>) -> (result: Result<VerifyStep, CndbError>)
    requires
        reply@.len() == run.read.wants().len,
        run.read.reach() <= u64::MAX,
        run.count < usize::MAX,
    ensures
        match result {
            Ok(step) => verify_step(run, reply@) == Ok::<VerifyStep, ErrorView>(step),
            Err(e) => verify_step(run, reply@) == Err::<VerifyStep, ErrorView>(e@),
        },
{
    match run.read {
        RecordRead::Frame { offset } => match read_frame_at(offset, &reply) {
            Err(e) => Err(e),
            Ok(frame) => Ok(
                VerifyStep::More(
                    Verify {
                        end: run.end,
                        count: run.count,
                        read: RecordRead::Payload { offset, frame },
                    },
                ),
            ),
        },
        RecordRead::Payload { offset, frame } => match verify_payload(
            &frame,
            reply.as_slice(),
            offset,
        ) {
            Err(e) => Err(e),
            Ok(()) => verify_from(offset + frame.total_len(), run.count + 1, run.end),
        },
    }
}

/// A walk that is answered from a file ends as the file says: with the number
/// of records in it, with the first error among them, or with a request that
/// the file is too short to answer.
pub proof fn verify_follows_the_file(run: Verify, file: Seq<u8>)
    requires
        run.read.reach() <= u64::MAX,
        run.count < usize::MAX,
    ensures
        if !run.read.wants().within(file) {
            verify_outcome(run, file) == Outcome::<nat>::ReadFailed
        } else {
            match verify_step(run, run.read.wants().answer(file)) {
                Err(e) => verify_outcome(run, file) == Outcome::<nat>::Refused(e),
                Ok(VerifyStep::Done(count)) => verify_outcome(run, file) == Outcome::Done(
                    count as nat,
                ),
                Ok(VerifyStep::More(next)) => verify_outcome(run, file) == verify_outcome(
                    next,
                    file,
                ),
            }
        },
{
    read_follows_the_file(run.read, file);
}

/// A walk from the start of the log counts what [`scan`] counts.
pub proof fn a_walk_is_a_scan(file: Seq<u8>, offset: u64, end: u64)
    ensures
        match arrival(offset, 0, end) {
            Err(e) => scan(file, offset as nat, end as nat) == Outcome::<nat>::Refused(e),
            Ok(VerifyStep::Done(count)) => scan(file, offset as nat, end as nat) == Outcome::Done(
                count as nat,
            ),
            Ok(VerifyStep::More(run)) => scan(file, offset as nat, end as nat) == verify_outcome(
                run,
                file,
            ),
        },
{
}

/// A scan is the same in every file that holds the same bytes there.
pub proof fn lemma_scan_local(file: Seq<u8>, other: Seq<u8>, offset: nat, end: nat)
    requires
        scan(file, offset, end) is Done,
        end <= file.len(),
        end <= other.len(),
        forall|i: int| offset <= i < end ==> file[i] == other[i],
    ensures
        scan(other, offset, end) == scan(file, offset, end),
    decreases end - offset,
{
    if offset < end {
        let record = record_at(file, offset)->Done_0;
        let next = offset + RECORD_HEADER_SIZE as nat + record.payload.len();
        lemma_scan_bound(file, next, end);
        lemma_record_local(file, other, offset, end);
        lemma_scan_local(file, other, next, end);
    }
}

pub proof fn lemma_scan_bound(file: Seq<u8>, offset: nat, end: nat)
    requires
        scan(file, offset, end) is Done,
    ensures
        offset <= end,
{
}

/// One more record after an intact stretch of log.
pub proof fn lemma_scan_extend(file: Seq<u8>, offset: nat, end: nat, record: RecordView)
    requires
        scan(file, offset, end) is Done,
        record_at(file, end) == Outcome::Done(record),
    ensures
        scan(file, offset, end + RECORD_HEADER_SIZE as nat + record.payload.len()) == Outcome::Done(
            scan(file, offset, end)->Done_0 + 1,
        ),
    decreases end - offset,
{
    let last = end + RECORD_HEADER_SIZE as nat + record.payload.len();
    if offset < end {
        let first = record_at(file, offset)->Done_0;
        let next = offset + RECORD_HEADER_SIZE as nat + first.payload.len();
        lemma_scan_bound(file, next, end);
        lemma_scan_extend(file, next, end, record);
    } else {
        lemma_scan_bound(file, offset, end);
        assert(scan(file, last, last) == Outcome::Done(0nat));
    }
}

/// A walk that comes by a record which is refused ends with that refusal.
pub proof fn lemma_scan_refused(file: Seq<u8>, start: nat, offset: nat, end: nat, e: ErrorView)
    requires
        scan(file, start, offset) is Done,
        offset < end,
        record_at(file, offset) == Outcome::<RecordView>::Refused(e),
    ensures
        scan(file, start, end) == Outcome::<nat>::Refused(e),
    decreases offset - start,
{
    lemma_scan_bound(file, start, offset);
    if start < offset {
        let first = record_at(file, start)->Done_0;
        let next = start + RECORD_HEADER_SIZE as nat + first.payload.len();
        lemma_scan_bound(file, next, offset);
        lemma_scan_refused(file, next, offset, end, e);
    }
}

/// The records of a log, framed and put end to end.
pub open spec fn framed(records: Seq<RecordView>) -> Seq<u8>
    decreases records.len(),
{
    if records.len() == 0 {
        Seq::empty()
    } else {
        framed(records.drop_last()) + frame_bytes(records.last().kind, records.last().payload)
            + records.last().payload
    }
}

/// A stretch of log that is nothing but framed records is walked to its end, and
/// every record in it is counted.
pub proof fn a_walk_counts_what_was_framed(file: Seq<u8>, start: nat, records: Seq<RecordView>)
    requires
        forall|i: int| 0 <= i < records.len() ==> records[i].payload.len() <= MAX_RECORD_LEN,
        start + framed(records).len() <= file.len(),
        file.subrange(start as int, start as int + framed(records).len()) == framed(records),
    ensures
        scan(file, start, start + framed(records).len()) == Outcome::Done(records.len()),
    decreases records.len(),
{
    if records.len() == 0 {
        assert(scan(file, start, start) == Outcome::Done(0nat));
    } else {
        let before = records.drop_last();
        let last = records.last();
        let all = framed(records);
        let at = start + framed(before).len();
        let mid = at + RECORD_HEADER_SIZE;
        let end = start + all.len();
        frame_roundtrip(last.kind, last.payload, at);
        let whole = file.subrange(start as int, end as int);
        assert(file.subrange(start as int, at as int) =~= framed(before)) by {
            assert forall|i: int| 0 <= i < framed(before).len() implies file[start + i]
                == framed(before)[i] by {
                assert(whole[i] == all[i]);
            }
        }
        assert(file.subrange(at as int, mid as int) =~= frame_bytes(last.kind, last.payload)) by {
            assert forall|i: int| 0 <= i < RECORD_HEADER_SIZE implies file[at + i]
                == frame_bytes(last.kind, last.payload)[i] by {
                assert(whole[at - start + i] == all[at - start + i]);
            }
        }
        assert(file.subrange(mid as int, end as int) =~= last.payload) by {
            assert forall|i: int| 0 <= i < last.payload.len() implies file[mid + i]
                == last.payload[i] by {
                assert(whole[mid - start + i] == all[mid - start + i]);
            }
        }
        a_walk_counts_what_was_framed(file, start, before);
        lemma_record_written(file, at, last.kind, last.payload);
        lemma_scan_extend(file, start, at, last);
    }
}

/// How a walk over a log goes, whatever is in it: it is over at its end and
/// nowhere else; past its end it complains; before its end it takes the record
/// it stands at and goes on behind it, or ends with what is wrong there.
pub proof fn how_a_walk_goes(file: Seq<u8>, offset: nat, end: nat)
    ensures
        offset == end ==> scan(file, offset, end) == Outcome::Done(0nat),
        offset > end ==> scan(file, offset, end) == Outcome::<nat>::Refused(
            ErrorView::CorruptIndex(misaligned_text(offset, end)),
        ),
        offset < end ==> match record_at(file, offset) {
            Outcome::Done(record) => {
                let rest = scan(file, offset + 9 + record.payload.len(), end);
                &&& rest matches Outcome::Done(n) ==> scan(file, offset, end) == Outcome::Done(
                    n + 1,
                )
                &&& rest !is Done ==> scan(file, offset, end) == rest
            },
            Outcome::Refused(e) => scan(file, offset, end) == Outcome::<nat>::Refused(e),
            Outcome::ReadFailed => scan(file, offset, end) == Outcome::<nat>::ReadFailed,
        },
{
}

} // verus!
