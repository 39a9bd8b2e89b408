//! Record framing for the append-only log.
//!
//! Every record is `[len: u32][kind: u8][crc32: u32][payload]`, little-endian,
//! with the checksum taken over the payload alone.

use crate::checksum::{crc32, damage_changes_the_checksum, damaged_within};
use crate::error::{result_view, CndbError, ErrorView};
use crate::le::{
    from_le, le_bytes, le_rewrite, le_roundtrip, le_value, lemma_capacities, lemma_le_bytes_len,
    lemma_le_value_bound, to_le,
};
use crate::storage::file::{Outcome, ReadRequest};
use crate::text::{decimal, to_decimal};
use vstd::prelude::*;
use vstd::slice::slice_subrange;
use vstd::string::StringExecFns;

verus! {

/// Bytes of framing preceding every payload.
pub const RECORD_HEADER_SIZE: u64 = 9;

/// The same, as the length of a buffer.
pub const FRAME_SIZE: usize = 9;

/// Largest payload accepted, a guard against absurd allocations when framing is
/// corrupt.
pub const MAX_RECORD_LEN: u64 = 67_108_864;

/// Identifier of a stored document, unique for the life of the database.
#[derive(Debug, Clone, Copy, PartialEq, Eq, PartialOrd, Ord, Hash, Structural)]
pub struct DocId(pub u64);

impl Default for DocId {
    fn default() -> (id: Self)
        ensures
            id == DocId(0),
    {
        DocId(0)
    }
}

impl DocId {
    /// The id as people read it: `#` and the number.
    pub fn to_text(self) -> (text: String)
        ensures
            text@ == seq!['#'] + decimal(self.0 as nat),
    {
        proof {
            reveal_strlit("#");
        }
        let mut text = String::from_str("#");
        text.append(to_decimal(self.0).as_str());
        assert("#"@ =~= seq!['#']);
        text
    }
}

/// What a record holds.
#[derive(Debug, Clone, Copy, PartialEq, Eq, Structural)]
pub enum RecordKind {
    /// A graph node.
    Node,
    /// A graph edge.
    Edge,
    /// An unstructured document.
    Blob,
    /// Marks an earlier record dead. Payload is the target `DocId`.
    Tombstone,
    /// A serialized master index, written by every commit.
    MasterIndex,
}

/// The byte that stands for a kind on disk.
pub open spec fn kind_tag(kind: RecordKind) -> u8 {
    match kind {
        RecordKind::Node => 0,
        RecordKind::Edge => 1,
        RecordKind::Blob => 2,
        RecordKind::Tombstone => 3,
        RecordKind::MasterIndex => 4,
    }
}

/// The kind that a byte stands for, if any.
pub open spec fn tag_kind(tag: u8) -> Option<RecordKind> {
    if tag == 0 {
        Some(RecordKind::Node)
    } else if tag == 1 {
        Some(RecordKind::Edge)
    } else if tag == 2 {
        Some(RecordKind::Blob)
    } else if tag == 3 {
        Some(RecordKind::Tombstone)
    } else if tag == 4 {
        Some(RecordKind::MasterIndex)
    } else {
        None
    }
}

impl RecordKind {
    /// Parse a kind tag. `offset` only labels errors.
    pub fn from_tag(tag: u8, offset: u64) -> (result: Result<Self, CndbError>)
        ensures
            match result {
                Ok(kind) => tag_kind(tag) == Some(kind),
                Err(e) => tag_kind(tag) is None && e@ == (ErrorView::UnknownRecordKind {
                    kind: tag,
                    offset: offset as nat,
                }),
            },
    {
        match tag {
            0 => Ok(RecordKind::Node),
            1 => Ok(RecordKind::Edge),
            2 => Ok(RecordKind::Blob),
            3 => Ok(RecordKind::Tombstone),
            4 => Ok(RecordKind::MasterIndex),
            kind => Err(CndbError::UnknownRecordKind { kind, offset }),
        }
    }

    /// The byte that stands for this kind on disk.
    pub fn tag(self) -> (tag: u8)
        ensures
            tag == kind_tag(self),
    {
        match self {
            RecordKind::Node => 0,
            RecordKind::Edge => 1,
            RecordKind::Blob => 2,
            RecordKind::Tombstone => 3,
            RecordKind::MasterIndex => 4,
        }
    }

    /// True for records that carry user data rather than engine bookkeeping.
    pub fn is_document(self) -> (yes: bool)
        ensures
            yes == (self == RecordKind::Node || self == RecordKind::Edge || self
                == RecordKind::Blob),
    {
        matches!(self, RecordKind::Node | RecordKind::Edge | RecordKind::Blob)
    }
}

/// A record read back out of the log.
#[derive(Debug, Clone, PartialEq, Eq)]
pub struct Record {
    pub kind: RecordKind,
    pub payload: Vec<u8>,
}

impl Record {
    /// What the record carries, without its kind.
    pub fn into_payload(self) -> (payload: Vec<u8>)
        ensures
            payload@ == self@.payload,
    {
        self.payload
    }
}

/// What a [`Record`] holds, with the payload as a sequence.
pub struct RecordView {
    pub kind: RecordKind,
    pub payload: Seq<u8>,
}

impl View for Record {
    type V = RecordView;

    open spec fn view(&self) -> RecordView {
        RecordView { kind: self.kind, payload: self.payload@ }
    }
}

/// The frame that precedes `payload` on disk.
pub open spec fn frame_bytes(kind: RecordKind, payload: Seq<u8>) -> Seq<u8> {
    le_bytes(payload.len(), 4) + seq![kind_tag(kind)] + le_bytes(crc32(payload) as nat, 4)
}

/// Build the 9-byte frame preceding `payload`.
///
/// The length field holds the payload's length modulo 2^32; the engine refuses
/// payloads that long before framing them.
pub fn encode_frame(kind: RecordKind, payload: &[u8]) -> (frame: [u8; FRAME_SIZE])
    ensures
        frame@ == frame_bytes(kind, payload@),
{
    let len = to_le(payload.len() as u64, 4);
    let sum = to_le(crc32fast::hash(payload) as u64, 4);
    proof {
        lemma_le_bytes_len(payload@.len(), 4);
        lemma_le_bytes_len(crc32(payload@) as nat, 4);
    }
    let frame = [
        len[0],
        len[1],
        len[2],
        len[3],
        kind.tag(),
        sum[0],
        sum[1],
        sum[2],
        sum[3],
    ];
    assert(frame@ =~= frame_bytes(kind, payload@));
    frame
}

/// A parsed frame, before its payload is read.
#[derive(Debug, Clone, Copy, PartialEq, Eq, Structural)]
pub struct Frame {
    pub len: u64,
    pub kind: RecordKind,
    pub crc: u32,
}

impl Frame {
    /// Total on-disk size of the record, framing included.
    pub fn total_len(&self) -> (total: u64)
        requires
            RECORD_HEADER_SIZE + self.len <= u64::MAX,
        ensures
            total == RECORD_HEADER_SIZE + self.len,
    {
        RECORD_HEADER_SIZE + self.len
    }
}

/// What the nine bytes `buf`, read from `offset`, say of the record there.
pub open spec fn parse_frame(buf: Seq<u8>, offset: nat) -> Result<Frame, ErrorView> {
    let len = le_value(buf.subrange(0, 4));
    if len > MAX_RECORD_LEN {
        Err(ErrorView::RecordTooLarge { offset, len, max: MAX_RECORD_LEN as nat })
    } else {
        match tag_kind(buf[4]) {
            None => Err(ErrorView::UnknownRecordKind { kind: buf[4], offset }),
            Some(kind) => Ok(
                Frame { len: len as u64, kind, crc: le_value(buf.subrange(5, 9)) as u32 },
            ),
        }
    }
}

/// Each kind has a tag of its own, and no other tag stands for a kind.
pub proof fn kinds_and_tags_match(kind: RecordKind, tag: u8)
    ensures
        tag_kind(kind_tag(kind)) == Some(kind),
        tag_kind(tag) matches Some(k) ==> kind_tag(k) == tag,
{
}

/// Parse a frame read from `offset`.
pub fn decode_frame(buf: &[u8; FRAME_SIZE], offset: u64) -> (result: Result<Frame, CndbError>)
    ensures
        result_view(result) == parse_frame(buf@, offset as nat),
{
    let len = from_le(slice_subrange(buf.as_slice(), 0, 4));
    if len > MAX_RECORD_LEN {
        return Err(CndbError::RecordTooLarge { offset, len, max: MAX_RECORD_LEN });
    }
    let kind = match RecordKind::from_tag(buf[4], offset) {
        Ok(kind) => kind,
        Err(e) => return Err(e),
    };
    let crc = from_le(slice_subrange(buf.as_slice(), 5, 9));
    proof {
        lemma_le_value_bound(buf@.subrange(5, 9));
        lemma_capacities();
    }
    Ok(Frame { len, kind, crc: crc as u32 })
}

/// A frame that was written is read back as it was, if the payload is short
/// enough to be stored.
pub proof fn frame_roundtrip(kind: RecordKind, payload: Seq<u8>, offset: nat)
    requires
        payload.len() <= MAX_RECORD_LEN,
    ensures
        frame_bytes(kind, payload).len() == RECORD_HEADER_SIZE,
        parse_frame(frame_bytes(kind, payload), offset) == Ok::<Frame, ErrorView>(
            Frame { len: payload.len() as u64, kind, crc: crc32(payload) },
        ),
{
    let bytes = frame_bytes(kind, payload);
    let sum = crc32(payload) as nat;
    lemma_le_bytes_len(payload.len(), 4);
    lemma_le_bytes_len(sum, 4);
    lemma_capacities();
    le_roundtrip(payload.len(), 4);
    le_roundtrip(sum, 4);
    assert(bytes.subrange(0, 4) =~= le_bytes(payload.len(), 4));
    assert(bytes.subrange(5, 9) =~= le_bytes(sum, 4));
}

/// Where the parts of a frame stand: the payload's length, the kind's tag, and
/// the payload's checksum.
pub proof fn frame_layout(kind: RecordKind, payload: Seq<u8>)
    requires
        payload.len() <= 67_108_864,
    ensures
        frame_bytes(kind, payload).len() == 9,
        le_value(frame_bytes(kind, payload).subrange(0, 4)) == payload.len(),
        frame_bytes(kind, payload)[4] == match kind {
            RecordKind::Node => 0u8,
            RecordKind::Edge => 1u8,
            RecordKind::Blob => 2u8,
            RecordKind::Tombstone => 3u8,
            RecordKind::MasterIndex => 4u8,
        },
        le_value(frame_bytes(kind, payload).subrange(5, 9)) == crc32(payload),
{
    let bytes = frame_bytes(kind, payload);
    let sum = crc32(payload) as nat;
    lemma_le_bytes_len(payload.len(), 4);
    lemma_le_bytes_len(sum, 4);
    lemma_capacities();
    le_roundtrip(payload.len(), 4);
    le_roundtrip(sum, 4);
    assert(bytes.subrange(0, 4) =~= le_bytes(payload.len(), 4));
    assert(bytes.subrange(5, 9) =~= le_bytes(sum, 4));
}

/// What any nine bytes are taken for. A length over the limit is refused before
/// anything else is looked at; then a tag that no kind has.
pub proof fn what_a_frame_says(buf: Seq<u8>, offset: nat)
    requires
        buf.len() == 9,
    ensures
        ({
            let len = le_value(buf.subrange(0, 4));
            if len > 67_108_864 {
                parse_frame(buf, offset) == Err::<Frame, ErrorView>(
                    ErrorView::RecordTooLarge { offset, len, max: 67_108_864 },
                )
            } else if buf[4] > 4 {
                parse_frame(buf, offset) == Err::<Frame, ErrorView>(
                    ErrorView::UnknownRecordKind { kind: buf[4], offset },
                )
            } else {
                parse_frame(buf, offset) matches Ok(frame) && {
                    &&& frame.len == len
                    &&& kind_tag(frame.kind) == buf[4]
                    &&& frame.crc == le_value(buf.subrange(5, 9))
                }
            }
        }),
{
    lemma_le_value_bound(buf.subrange(5, 9));
    lemma_capacities();
}

/// Verify a payload against the checksum in its frame.
pub fn verify_payload(frame: &Frame, payload: &[u8], offset: u64) -> (result: Result<
    (),
    CndbError,
>)
    ensures
        match result {
            Ok(()) => crc32(payload@) == frame.crc,
            Err(e) => crc32(payload@) != frame.crc && e@ == (ErrorView::RecordChecksum {
                offset: offset as nat,
            }),
        },
{
    if crc32fast::hash(payload) != frame.crc {
        return Err(CndbError::RecordChecksum { offset });
    }
    Ok(())
}

/// What the nine bytes `frame` says of the payload that follows it at `offset`.
pub open spec fn payload_at(file: Seq<u8>, offset: nat, frame: Frame) -> Outcome<RecordView> {
    let start = offset + RECORD_HEADER_SIZE;
    if start + frame.len > file.len() {
        Outcome::ReadFailed
    } else {
        let payload = file.subrange(start, start + frame.len);
        if crc32(payload) != frame.crc {
            Outcome::Refused(ErrorView::RecordChecksum { offset })
        } else {
            Outcome::Done(RecordView { kind: frame.kind, payload })
        }
    }
}

/// The record at `offset` of a file: framed, within the file, and matching its
/// checksum.
pub open spec fn record_at(file: Seq<u8>, offset: nat) -> Outcome<RecordView> {
    if offset + RECORD_HEADER_SIZE > file.len() {
        Outcome::ReadFailed
    } else {
        match parse_frame(file.subrange(offset as int, offset + RECORD_HEADER_SIZE), offset) {
            Err(e) => Outcome::Refused(e),
            Ok(frame) => payload_at(file, offset, frame),
        }
    }
}

/// Reading one record, and verifying its checksum.
#[derive(Debug, Clone, Copy, PartialEq, Eq, Structural)]
pub enum RecordRead {
    /// The frame at `offset` is wanted.
    Frame { offset: u64 },
    /// The frame is known; its payload is wanted.
    Payload { offset: u64, frame: Frame },
}

/// Where a read stands after an answer.
#[derive(Debug)]
pub enum RecordStep {
    /// Something more is wanted.
    More(RecordRead),
    /// The record is complete and intact.
    Done(Record),
}

/// What a [`RecordStep`] says.
pub enum RecordStepView {
    More(RecordRead),
    Done(RecordView),
}

impl View for RecordStep {
    type V = RecordStepView;

    open spec fn view(&self) -> RecordStepView {
        match *self {
            RecordStep::More(next) => RecordStepView::More(next),
            RecordStep::Done(record) => RecordStepView::Done(record@),
        }
    }
}

/// Where a read stands once `reply` has answered its request.
pub open spec fn read_step(read: RecordRead, reply: Seq<u8>) -> Result<RecordStepView, ErrorView> {
    match read {
        RecordRead::Frame { offset } => match parse_frame(reply, offset as nat) {
            Err(e) => Err(e),
            Ok(frame) => Ok(RecordStepView::More(RecordRead::Payload { offset, frame })),
        },
        RecordRead::Payload { offset, frame } => if crc32(reply) != frame.crc {
            Err(ErrorView::RecordChecksum { offset: offset as nat })
        } else {
            Ok(RecordStepView::Done(RecordView { kind: frame.kind, payload: reply }))
        },
    }
}

/// What the rest of a read gives on a file that answers every request.
pub open spec fn read_outcome(read: RecordRead, file: Seq<u8>) -> Outcome<RecordView> {
    match read {
        RecordRead::Frame { offset } => record_at(file, offset as nat),
        RecordRead::Payload { offset, frame } => payload_at(file, offset as nat, frame),
    }
}

impl RecordRead {
    /// First byte of the record being read.
    pub open spec fn offset(self) -> u64 {
        match self {
            RecordRead::Frame { offset } => offset,
            RecordRead::Payload { offset, .. } => offset,
        }
    }

    /// End of the bytes that the next answer holds.
    pub open spec fn reach(self) -> int {
        match self {
            RecordRead::Frame { offset } => offset + RECORD_HEADER_SIZE,
            RecordRead::Payload { offset, frame } => offset + RECORD_HEADER_SIZE + frame.len,
        }
    }

    /// The bytes that the read wants next.
    pub open spec fn wants(self) -> ReadRequest {
        match self {
            RecordRead::Frame { offset } => ReadRequest { offset, len: RECORD_HEADER_SIZE },
            RecordRead::Payload { offset, frame } => ReadRequest {
                offset: (offset + RECORD_HEADER_SIZE) as u64,
                len: frame.len,
            },
        }
    }

    /// The bytes that the read wants next.
    pub fn request(&self) -> (request: ReadRequest)
        requires
            *self is Payload ==> self.offset() + RECORD_HEADER_SIZE <= u64::MAX,
        ensures
            request == self.wants(),
    {
        match *self {
            RecordRead::Frame { offset } => ReadRequest { offset, len: RECORD_HEADER_SIZE },
            RecordRead::Payload { offset, frame } => ReadRequest {
                offset: offset + RECORD_HEADER_SIZE,
                len: frame.len,
            },
        }
    }
}

/// Take the answer to a read's request and go on with it.
///
/// The answer must be as long as was asked for, and must come from a file that
/// reaches that far.
pub fn read_record_at(read: RecordRead, reply: Vec<u8>) -> (result: Result<RecordStep, CndbError>)
    requires
        reply@.len() == read.wants().len,
        read.reach() <= u64::MAX,
    ensures
        match result {
            Ok(step) => read_step(read, reply@) == Ok::<RecordStepView, ErrorView>(step@),
            Err(e) => read_step(read, reply@) == Err::<RecordStepView, ErrorView>(e@),
        },
{
    match read {
        RecordRead::Frame { offset } => {
            match read_frame_at(offset, &reply) {
                Err(e) => Err(e),
                Ok(frame) => Ok(RecordStep::More(RecordRead::Payload { offset, frame })),
            }
        },
        RecordRead::Payload { offset, frame } => {
            match verify_payload(&frame, reply.as_slice(), offset) {
                Err(e) => Err(e),
                Ok(()) => Ok(RecordStep::Done(Record { kind: frame.kind, payload: reply })),
            }
        },
    }
}

/// Validate the record frame `reply` that was read at `offset`.
pub fn read_frame_at(offset: u64, reply: &Vec<u8>) -> (result: Result<Frame, CndbError>)
    requires
        reply@.len() == RECORD_HEADER_SIZE,
    ensures
        result_view(result) == parse_frame(reply@, offset as nat),
{
    let buf = [
        reply[0],
        reply[1],
        reply[2],
        reply[3],
        reply[4],
        reply[5],
        reply[6],
        reply[7],
        reply[8],
    ];
    assert(buf@ =~= reply@);
    decode_frame(&buf, offset)
}

/// A read that is answered from a file ends as the file says: with the record
/// at its offset, with the error of that record, or with a request that the
/// file is too short to answer.
pub proof fn read_follows_the_file(read: RecordRead, file: Seq<u8>)
    requires
        read is Payload ==> read.offset() + RECORD_HEADER_SIZE <= u64::MAX,
    ensures
        if !read.wants().within(file) {
            read_outcome(read, file) == Outcome::<RecordView>::ReadFailed
        } else {
            match read_step(read, read.wants().answer(file)) {
                Err(e) => read_outcome(read, file) == Outcome::<RecordView>::Refused(e),
                Ok(RecordStepView::Done(record)) => read_outcome(read, file) == Outcome::Done(
                    record,
                ),
                Ok(RecordStepView::More(next)) => read_outcome(read, file) == read_outcome(
                    next,
                    file,
                ),
            }
        },
{
}

/// A record that was framed and written is there to be read.
pub proof fn lemma_record_written(
    file: Seq<u8>,
    offset: nat,
    kind: RecordKind,
    payload: Seq<u8>,
)
    requires
        payload.len() <= MAX_RECORD_LEN,
        offset + RECORD_HEADER_SIZE + payload.len() <= file.len(),
        file.subrange(offset as int, offset + RECORD_HEADER_SIZE) == frame_bytes(kind, payload),
        file.subrange(
            offset + RECORD_HEADER_SIZE,
            offset + RECORD_HEADER_SIZE + payload.len(),
        ) == payload,
    ensures
        record_at(file, offset) == Outcome::Done(RecordView { kind, payload }),
{
    frame_roundtrip(kind, payload, offset);
}

/// A record is the same in every file that holds the same bytes there.
pub proof fn lemma_record_local(file: Seq<u8>, other: Seq<u8>, offset: nat, end: nat)
    requires
        record_at(file, offset) matches Outcome::Done(record) && offset + RECORD_HEADER_SIZE
            + record.payload.len() <= end,
        end <= file.len(),
        end <= other.len(),
        forall|i: int| offset <= i < end ==> file[i] == other[i],
    ensures
        record_at(other, offset) == record_at(file, offset),
{
    let mid = offset + RECORD_HEADER_SIZE;
    assert(file.subrange(offset as int, mid as int) =~= other.subrange(offset as int, mid as int));
    let frame = parse_frame(file.subrange(offset as int, mid as int), offset)->Ok_0;
    assert(file.subrange(mid as int, mid + frame.len) =~= other.subrange(
        mid as int,
        mid + frame.len,
    ));
}

/// Damage to a stored payload within four consecutive bytes, a single flipped
/// bit for one, never goes undetected: the record is refused from then on.
pub proof fn a_damaged_payload_is_refused(
    file: Seq<u8>,
    other: Seq<u8>,
    offset: nat,
    record: RecordView,
    at: int,
)
    requires
        record_at(file, offset) == Outcome::Done(record),
        damaged_within(file, other, at),
        forall|i: int|
            0 <= i < file.len() && !(offset + RECORD_HEADER_SIZE <= i < offset + RECORD_HEADER_SIZE
                + record.payload.len()) ==> #[trigger] file[i] == other[i],
    ensures
        record_at(other, offset) == Outcome::<RecordView>::Refused(
            ErrorView::RecordChecksum { offset },
        ),
{
    let start = offset + RECORD_HEADER_SIZE;
    let end = start + record.payload.len();
    let damaged = other.subrange(start as int, end as int);
    assert(file.subrange(offset as int, start as int) =~= other.subrange(
        offset as int,
        start as int,
    ));
    if record.payload == damaged {
        assert forall|i: int| 0 <= i < file.len() implies file[i] == other[i] by {
            if start <= i < end {
                assert(record.payload[i - start] == damaged[i - start]);
            }
        }
        assert(file =~= other);
    }
    assert forall|i: int|
        0 <= i < record.payload.len() && !(at - start <= i < at - start + 4) implies #[trigger]
    record.payload[i] == damaged[i] by {
        assert(file[start + i] == other[start + i]);
    }
    damage_changes_the_checksum(record.payload, damaged, at - start);
}

/// A record is found at an offset exactly where its frame and its payload stand
/// there, one behind the other.
pub proof fn a_record_is_its_frame_and_payload(file: Seq<u8>, offset: nat, record: RecordView)
    ensures
        record_at(file, offset) == Outcome::Done(record) <==> {
            let end = offset + 9 + record.payload.len();
            &&& record.payload.len() <= 67_108_864
            &&& end <= file.len()
            &&& file.subrange(offset as int, end as int) == frame_bytes(
                record.kind,
                record.payload,
            ) + record.payload
        },
{
    let mid = offset + 9;
    let end = mid + record.payload.len();
    if record_at(file, offset) == Outcome::Done(record) {
        let buf = file.subrange(offset as int, mid as int);
        let frame = parse_frame(buf, offset)->Ok_0;
        what_a_frame_says(buf, offset);
        le_rewrite(buf.subrange(0, 4));
        le_rewrite(buf.subrange(5, 9));
        kinds_and_tags_match(frame.kind, buf[4]);
        assert(buf =~= buf.subrange(0, 4) + seq![buf[4]] + buf.subrange(5, 9));
        assert(file.subrange(offset as int, end as int) =~= buf + record.payload);
    }
    if record.payload.len() <= 67_108_864 && end <= file.len() && file.subrange(
        offset as int,
        end as int,
    ) == frame_bytes(record.kind, record.payload) + record.payload {
        let both = frame_bytes(record.kind, record.payload) + record.payload;
        frame_roundtrip(record.kind, record.payload, offset);
        assert(both.subrange(0, 9) =~= frame_bytes(record.kind, record.payload));
        assert(both.subrange(9, both.len() as int) =~= record.payload);
        assert(file.subrange(offset as int, mid as int) =~= file.subrange(
            offset as int,
            end as int,
        ).subrange(0, 9));
        assert(file.subrange(mid as int, end as int) =~= file.subrange(
            offset as int,
            end as int,
        ).subrange(9, both.len() as int));
        lemma_record_written(file, offset, record.kind, record.payload);
    }
}

/// How a record that is not found is reported: as a read that failed when the
/// file ends too early, with the fault of the frame, or as a payload that does
/// not match its checksum.
pub proof fn how_a_missing_record_is_reported(file: Seq<u8>, offset: nat)
    ensures
        offset + 9 > file.len() ==> record_at(file, offset) == Outcome::<RecordView>::ReadFailed,
        offset + 9 <= file.len() ==> match parse_frame(
            file.subrange(offset as int, offset as int + 9),
            offset,
        ) {
            Err(e) => record_at(file, offset) == Outcome::<RecordView>::Refused(e),
            Ok(frame) => {
                let end = offset + 9 + frame.len;
                &&& end > file.len() ==> record_at(file, offset)
                    == Outcome::<RecordView>::ReadFailed
                &&& end <= file.len() && crc32(file.subrange(offset as int + 9, end as int))
                    != frame.crc ==> record_at(file, offset) == Outcome::<RecordView>::Refused(
                    ErrorView::RecordChecksum { offset },
                )
                &&& end <= file.len() && crc32(file.subrange(offset as int + 9, end as int))
                    == frame.crc ==> record_at(file, offset) is Done
            },
        },
{
}

/// A record's view holds its kind and its payload, and so does that of a step
/// which ends with it.
pub proof fn a_record_shows_what_it_holds(record: Record, step: RecordStep)
    ensures
        record@.kind == record.kind,
        record@.payload == record.payload@,
        match step {
            RecordStep::More(next) => step@ == RecordStepView::More(next),
            RecordStep::Done(r) => step@ == RecordStepView::Done(r@),
        },
{
}

} // verus!
