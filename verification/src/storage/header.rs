//! The file header and its two-slot commit protocol.
//!
//! A `.cndb` file opens with two fixed 64-byte header slots. A commit writes a
//! header with an incremented generation into whichever slot is *older*, so the
//! previous generation's header stays intact for the entire write. On open both
//! slots are read and the valid one with the highest generation wins.
//!
//! A 64-byte write inside one sector is atomic on real hardware, but that is a
//! hardware assumption rather than a guarantee; two slots make a torn header a
//! recoverable event instead of a corrupt database.

use crate::checksum::{crc32, damage_changes_the_checksum, damaged_within};
use crate::error::{result_view, CndbError, ErrorView};
use crate::le::{
    from_le, le_bytes, le_roundtrip, le_value, lemma_capacities, lemma_le_bytes_len,
    lemma_le_value_bound, lemma_le_value_injective, to_le,
};
use vstd::prelude::*;
use vstd::slice::slice_subrange;

verus! {

/// Magic bytes opening every cndb file: `CNDB`.
pub const MAGIC: [u8; 4] = [67, 78, 68, 66];

/// On-disk format version, `0.3.0`.
pub const FORMAT_VERSION: u32 = 0x0003_0000;

/// Size of a single header slot.
pub const HEADER_SIZE: usize = 64;

/// Number of header slots.
pub const HEADER_SLOTS: usize = 2;

/// Bytes reserved for headers; also the offset of the first log record.
pub const LOG_START: u64 = 128;

/// A decoded header slot.
///
/// Layout, little-endian:
///
/// | range   | field        |
/// |---------|--------------|
/// | `0..4`  | magic        |
/// | `4..8`  | version      |
/// | `8..16` | generation   |
/// | `16..24`| master_ptr   |
/// | `24..32`| master_len   |
/// | `32..40`| log_end      |
/// | `40..44`| crc32        |
/// | `44..64`| reserved     |
#[derive(Debug, Clone, Copy, PartialEq, Eq, Structural)]
pub struct Header {
    /// Monotonic commit counter. The highest valid one is the live database.
    pub generation: u64,
    /// Offset of the master index record, or 0 when none has been written.
    pub master_ptr: u64,
    /// Length of the master index payload, or 0 when none has been written.
    pub master_len: u64,
    /// First free byte of the log. The next append starts here.
    pub log_end: u64,
}

/// The magic bytes as a sequence.
pub open spec fn magic() -> Seq<u8> {
    seq![67u8, 78u8, 68u8, 66u8]
}

/// `n` zero bytes.
pub open spec fn zeros(n: nat) -> Seq<u8> {
    Seq::new(n, |i: int| 0u8)
}

/// A slot with its checksum field zeroed, as it is when the checksum is taken.
pub open spec fn unsummed(slot: Seq<u8>) -> Seq<u8> {
    slot.subrange(0, 40) + zeros(4) + slot.subrange(44, 64)
}

/// A slot with the checksum of everything else in its checksum field.
pub open spec fn summed(slot: Seq<u8>) -> Seq<u8> {
    slot.subrange(0, 40) + le_bytes(crc32(unsummed(slot)) as nat, 4) + slot.subrange(44, 64)
}

/// The fields of a header in their places, the checksum field still zero.
pub open spec fn header_fields(header: Header) -> Seq<u8> {
    magic() + le_bytes(FORMAT_VERSION as nat, 4) + le_bytes(header.generation as nat, 8) + le_bytes(
        header.master_ptr as nat,
        8,
    ) + le_bytes(header.master_len as nat, 8) + le_bytes(header.log_end as nat, 8) + zeros(24)
}

/// The on-disk form of a header.
pub open spec fn header_bytes(header: Header) -> Seq<u8> {
    summed(header_fields(header))
}

/// The header that the 64 bytes of slot number `slot` hold, or what is wrong
/// with them.
pub open spec fn parse_header(buf: Seq<u8>, slot: nat) -> Result<Header, ErrorView> {
    let version = le_value(buf.subrange(4, 8)) as u32;
    if buf.subrange(0, 4) != magic() {
        Err(ErrorView::BadMagic { expected: magic(), found: buf.subrange(0, 4) })
    } else if crc32(unsummed(buf)) != le_value(buf.subrange(40, 44)) {
        Err(ErrorView::HeaderChecksum { slot })
    } else if version != FORMAT_VERSION {
        Err(ErrorView::UnsupportedVersion { found: version, supported: FORMAT_VERSION })
    } else {
        Ok(
            Header {
                generation: le_value(buf.subrange(8, 16)) as u64,
                master_ptr: le_value(buf.subrange(16, 24)) as u64,
                master_len: le_value(buf.subrange(24, 32)) as u64,
                log_end: le_value(buf.subrange(32, 40)) as u64,
            },
        )
    }
}

/// A header fills its slot.
proof fn lemma_header_fields_len(header: Header)
    ensures
        header_fields(header).len() == HEADER_SIZE,
        header_bytes(header).len() == HEADER_SIZE,
{
    lemma_le_bytes_len(FORMAT_VERSION as nat, 4);
    lemma_le_bytes_len(header.generation as nat, 8);
    lemma_le_bytes_len(header.master_ptr as nat, 8);
    lemma_le_bytes_len(header.master_len as nat, 8);
    lemma_le_bytes_len(header.log_end as nat, 8);
    lemma_le_bytes_len(crc32(unsummed(header_fields(header))) as nat, 4);
}

/// A header that was written is read back as it was.
pub proof fn header_roundtrip(header: Header, slot: nat)
    ensures
        header_bytes(header).len() == HEADER_SIZE,
        parse_header(header_bytes(header), slot) == Ok::<Header, ErrorView>(header),
{
    let fields = header_fields(header);
    let buf = header_bytes(header);
    let sum = crc32(unsummed(fields)) as nat;
    lemma_header_fields_len(header);
    lemma_le_bytes_len(FORMAT_VERSION as nat, 4);
    lemma_le_bytes_len(header.generation as nat, 8);
    lemma_le_bytes_len(header.master_ptr as nat, 8);
    lemma_le_bytes_len(header.master_len as nat, 8);
    lemma_le_bytes_len(header.log_end as nat, 8);
    lemma_le_bytes_len(sum, 4);
    lemma_capacities();
    le_roundtrip(FORMAT_VERSION as nat, 4);
    le_roundtrip(header.generation as nat, 8);
    le_roundtrip(header.master_ptr as nat, 8);
    le_roundtrip(header.master_len as nat, 8);
    le_roundtrip(header.log_end as nat, 8);
    le_roundtrip(sum, 4);
    assert(unsummed(buf) =~= unsummed(fields));
    assert(buf.subrange(0, 4) =~= magic());
    assert(buf.subrange(4, 8) =~= le_bytes(FORMAT_VERSION as nat, 4));
    assert(buf.subrange(8, 16) =~= le_bytes(header.generation as nat, 8));
    assert(buf.subrange(16, 24) =~= le_bytes(header.master_ptr as nat, 8));
    assert(buf.subrange(24, 32) =~= le_bytes(header.master_len as nat, 8));
    assert(buf.subrange(32, 40) =~= le_bytes(header.log_end as nat, 8));
    assert(buf.subrange(40, 44) =~= le_bytes(sum, 4));
}

/// Where a header's fields stand: four letters, the version, the four numbers and
/// the checksum of the slot with the checksum's own bytes blank; the rest is zero.
pub proof fn header_layout(header: Header, blank: Seq<u8>)
    requires
        blank.len() == 64,
        forall|i: int|
            0 <= i < 64 ==> #[trigger] blank[i] == if 40 <= i < 44 {
                0
            } else {
                header_bytes(header)[i]
            },
    ensures
        header_bytes(header).len() == 64,
        header_bytes(header).subrange(0, 4) == seq![67u8, 78u8, 68u8, 66u8],
        le_value(header_bytes(header).subrange(4, 8)) == 0x0003_0000,
        le_value(header_bytes(header).subrange(8, 16)) == header.generation,
        le_value(header_bytes(header).subrange(16, 24)) == header.master_ptr,
        le_value(header_bytes(header).subrange(24, 32)) == header.master_len,
        le_value(header_bytes(header).subrange(32, 40)) == header.log_end,
        le_value(header_bytes(header).subrange(40, 44)) == crc32(blank),
        forall|i: int| 44 <= i < 64 ==> #[trigger] header_bytes(header)[i] == 0,
{
    let buf = header_bytes(header);
    let fields = header_fields(header);
    header_roundtrip(header, 0);
    lemma_header_fields_len(header);
    lemma_le_bytes_len(FORMAT_VERSION as nat, 4);
    lemma_le_bytes_len(header.generation as nat, 8);
    lemma_le_bytes_len(header.master_ptr as nat, 8);
    lemma_le_bytes_len(header.master_len as nat, 8);
    lemma_le_bytes_len(header.log_end as nat, 8);
    lemma_le_bytes_len(crc32(unsummed(fields)) as nat, 4);
    lemma_capacities();
    le_roundtrip(FORMAT_VERSION as nat, 4);
    le_roundtrip(header.generation as nat, 8);
    le_roundtrip(header.master_ptr as nat, 8);
    le_roundtrip(header.master_len as nat, 8);
    le_roundtrip(header.log_end as nat, 8);
    le_roundtrip(crc32(unsummed(fields)) as nat, 4);
    assert(buf.subrange(4, 8) =~= le_bytes(FORMAT_VERSION as nat, 4));
    assert(buf.subrange(8, 16) =~= le_bytes(header.generation as nat, 8));
    assert(buf.subrange(16, 24) =~= le_bytes(header.master_ptr as nat, 8));
    assert(buf.subrange(24, 32) =~= le_bytes(header.master_len as nat, 8));
    assert(buf.subrange(32, 40) =~= le_bytes(header.log_end as nat, 8));
    assert(buf.subrange(40, 44) =~= le_bytes(crc32(unsummed(fields)) as nat, 4));
    assert(unsummed(fields) =~= blank);
    assert forall|i: int| 44 <= i < 64 implies #[trigger] buf[i] == 0 by {
        assert(buf[i] == fields[i]);
    }
}

/// What any 64 bytes are taken for. A slot without the letters is no header at
/// all; with them, it must match its checksum, and then be of this version.
pub proof fn what_a_slot_holds(buf: Seq<u8>, blank: Seq<u8>, slot: nat)
    requires
        buf.len() == 64,
        blank.len() == 64,
        forall|i: int|
            0 <= i < 64 ==> #[trigger] blank[i] == if 40 <= i < 44 {
                0
            } else {
                buf[i]
            },
    ensures
        ({
            let letters = seq![67u8, 78u8, 68u8, 66u8];
            let version = le_value(buf.subrange(4, 8));
            if buf.subrange(0, 4) != letters {
                parse_header(buf, slot) == Err::<Header, ErrorView>(
                    ErrorView::BadMagic { expected: letters, found: buf.subrange(0, 4) },
                )
            } else if le_value(buf.subrange(40, 44)) != crc32(blank) {
                parse_header(buf, slot) == Err::<Header, ErrorView>(
                    ErrorView::HeaderChecksum { slot },
                )
            } else if version != 0x0003_0000 {
                parse_header(buf, slot) matches Err(e) && (e matches ErrorView::UnsupportedVersion {
                    found,
                    supported,
                } && found == version && supported == 0x0003_0000)
            } else {
                parse_header(buf, slot) matches Ok(header) && {
                    &&& header.generation == le_value(buf.subrange(8, 16))
                    &&& header.master_ptr == le_value(buf.subrange(16, 24))
                    &&& header.master_len == le_value(buf.subrange(24, 32))
                    &&& header.log_end == le_value(buf.subrange(32, 40))
                }
            }
        }),
{
    assert(unsummed(buf) =~= blank);
    lemma_capacities();
    lemma_le_value_bound(buf.subrange(4, 8));
    lemma_le_value_bound(buf.subrange(8, 16));
    lemma_le_value_bound(buf.subrange(16, 24));
    lemma_le_value_bound(buf.subrange(24, 32));
    lemma_le_value_bound(buf.subrange(32, 40));
}

/// Damage to a header within one of its sixteen words, a single byte for one,
/// never goes undetected: the slot is invalid from then on.
pub proof fn a_damaged_header_is_refused(buf: Seq<u8>, other: Seq<u8>, slot: nat, word: int)
    requires
        buf.len() == HEADER_SIZE,
        parse_header(buf, slot) is Ok,
        0 <= word < 16,
        damaged_within(buf, other, 4 * word),
    ensures
        parse_header(other, slot) is Err,
{
    let at = 4 * word;
    if word == 10 {
        assert(unsummed(buf) =~= unsummed(other));
        let a = buf.subrange(40, 44);
        let b = other.subrange(40, 44);
        if le_value(a) == le_value(b) {
            lemma_le_value_injective(a, b);
            assert forall|i: int| 0 <= i < HEADER_SIZE implies buf[i] == other[i] by {
                if 40 <= i < 44 {
                    assert(a[i - 40] == b[i - 40]);
                }
            }
            assert(buf =~= other);
        }
    } else {
        let a = unsummed(buf);
        let b = unsummed(other);
        if a == b {
            assert forall|i: int| 0 <= i < HEADER_SIZE implies buf[i] == other[i] by {
                if !(40 <= i < 44) {
                    assert(a[i] == b[i]);
                }
            }
            assert(buf =~= other);
        }
        assert forall|i: int| 0 <= i < a.len() && !(at <= i < at + 4) implies #[trigger] a[i]
            == b[i] by {
            if !(40 <= i < 44) {
                assert(buf[i] == other[i]);
            }
        }
        damage_changes_the_checksum(a, b, at);
        assert(buf.subrange(40, 44) =~= other.subrange(40, 44));
    }
}

/// Copy `bytes` into `buf` at `at`.
fn put(buf: &mut [u8; HEADER_SIZE], at: usize, bytes: &Vec<u8>)
    requires
        at + bytes@.len() <= HEADER_SIZE,
    ensures
        final(buf)@ == old(buf)@.subrange(0, at as int) + bytes@ + old(buf)@.subrange(
            at + bytes@.len(),
            HEADER_SIZE as int,
        ),
{
    let ghost before = buf@;
    let len = bytes.len();
    let mut i: usize = 0;
    while i < len
        invariant
            i <= len,
            len == bytes@.len(),
            at + len <= HEADER_SIZE,
            before.len() == HEADER_SIZE,
            buf@ == before.subrange(0, at as int) + bytes@.subrange(0, i as int) + before.subrange(
                at + i,
                HEADER_SIZE as int,
            ),
        decreases len - i,
    {
        buf[at + i] = bytes[i];
        i = i + 1;
        assert(buf@ =~= before.subrange(0, at as int) + bytes@.subrange(0, i as int)
            + before.subrange(at + i, HEADER_SIZE as int));
    }
    assert(bytes@.subrange(0, len as int) =~= bytes@);
}

impl Header {
    /// The header of a freshly created, empty database.
    pub fn initial() -> (header: Self)
        ensures
            header == initial_header(),
    {
        Header { generation: 0, master_ptr: 0, master_len: 0, log_end: LOG_START }
    }

    /// Serialize to its fixed 64-byte on-disk form, checksum included.
    ///
    /// The checksum field stays zero while the checksum is computed over the
    /// whole slot, so reserved bytes are covered too.
    pub fn encode(&self) -> (buf: [u8; HEADER_SIZE])
        ensures
            buf@ == header_bytes(*self),
    {
        proof {
            lemma_header_fields_len(*self);
            lemma_le_bytes_len(FORMAT_VERSION as nat, 4);
            lemma_le_bytes_len(self.generation as nat, 8);
            lemma_le_bytes_len(self.master_ptr as nat, 8);
            lemma_le_bytes_len(self.master_len as nat, 8);
            lemma_le_bytes_len(self.log_end as nat, 8);
        }
        let mut buf = [0u8; HEADER_SIZE];
        let magic_bytes: Vec<u8> = vec![MAGIC[0], MAGIC[1], MAGIC[2], MAGIC[3]];
        put(&mut buf, 0, &magic_bytes);
        put(&mut buf, 4, &to_le(FORMAT_VERSION as u64, 4));
        put(&mut buf, 8, &to_le(self.generation, 8));
        put(&mut buf, 16, &to_le(self.master_ptr, 8));
        put(&mut buf, 24, &to_le(self.master_len, 8));
        put(&mut buf, 32, &to_le(self.log_end, 8));
        assert(buf@ =~= header_fields(*self));
        assert(unsummed(buf@) =~= buf@);
        let sum = to_le(crc32fast::hash(buf.as_slice()) as u64, 4);
        put(&mut buf, 40, &sum);
        assert(buf@ =~= header_bytes(*self));
        buf
    }

    /// Parse a header slot, validating magic, checksum and version.
    ///
    /// `slot` only labels errors.
    pub fn decode(buf: &[u8; HEADER_SIZE], slot: usize) -> (result: Result<Self, CndbError>)
        ensures
            result_view(result) == parse_header(buf@, slot as nat),
    {
        let found = [buf[0], buf[1], buf[2], buf[3]];
        assert(found@ =~= buf@.subrange(0, 4));
        if !(found[0] == MAGIC[0] && found[1] == MAGIC[1] && found[2] == MAGIC[2] && found[3]
            == MAGIC[3]) {
            assert(MAGIC@ =~= magic());
            assert(found@ != magic());
            return Err(CndbError::BadMagic { expected: MAGIC, found });
        }
        assert(found@ =~= magic());
        let stored = from_le(slice_subrange(buf.as_slice(), 40, 44));
        let mut probe = *buf;
        let blank: Vec<u8> = vec![0, 0, 0, 0];
        put(&mut probe, 40, &blank);
        assert(probe@ =~= unsummed(buf@));
        if crc32fast::hash(probe.as_slice()) as u64 != stored {
            return Err(CndbError::HeaderChecksum { slot });
        }
        let version = from_le(slice_subrange(buf.as_slice(), 4, 8));
        proof {
            lemma_capacities();
            lemma_le_value_bound(buf@.subrange(4, 8));
        }
        if version as u32 != FORMAT_VERSION {
            return Err(
                CndbError::UnsupportedVersion {
                    found: version as u32,
                    supported: FORMAT_VERSION,
                },
            );
        }
        Ok(
            Header {
                generation: from_le(slice_subrange(buf.as_slice(), 8, 16)),
                master_ptr: from_le(slice_subrange(buf.as_slice(), 16, 24)),
                master_len: from_le(slice_subrange(buf.as_slice(), 24, 32)),
                log_end: from_le(slice_subrange(buf.as_slice(), 32, 40)),
            },
        )
    }

    /// Byte offset of a header slot.
    pub fn slot_offset(slot: usize) -> (offset: u64)
        requires
            slot < HEADER_SLOTS,
        ensures
            offset == slot * HEADER_SIZE,
    {
        (slot * HEADER_SIZE) as u64
    }
}

/// The header of a freshly created, empty database.
pub open spec fn initial_header() -> Header {
    Header { generation: 0, master_ptr: 0, master_len: 0, log_end: LOG_START }
}

/// The slot that holds the live header: the valid one with the highest
/// generation, the later one when two are equal.
pub open spec fn live_of(slots: Seq<Option<Header>>) -> Option<int> {
    match (slots[0], slots[1]) {
        (None, None) => None,
        (Some(_), None) => Some(0),
        (None, Some(_)) => Some(1),
        (Some(a), Some(b)) => if a.generation > b.generation {
            Some(0)
        } else {
            Some(1)
        },
    }
}

/// The slot that the next commit overwrites: the first invalid one, else the
/// one with the lowest generation, the earlier one when two are equal.
pub open spec fn victim_of(slots: Seq<Option<Header>>) -> int {
    match (slots[0], slots[1]) {
        (None, _) => 0,
        (_, None) => 1,
        (Some(a), Some(b)) => if a.generation <= b.generation {
            0
        } else {
            1
        },
    }
}

/// Pick the live header from the decoded slots.
///
/// Takes the valid slot with the highest generation. Returns `NoValidHeader`
/// only when every slot failed to decode, which means the file is not a cndb
/// database or both headers are damaged.
pub fn select_live(slots: &[Option<Header>; HEADER_SLOTS]) -> (result: Result<
    (Header, usize),
    CndbError,
>)
    ensures
        match result {
            Ok((header, slot)) => live_of(slots@) == Some(slot as int) && slot < HEADER_SLOTS
                && slots@[slot as int] == Some(header),
            Err(e) => live_of(slots@) is None && e@ == ErrorView::NoValidHeader,
        },
{
    match (slots[0], slots[1]) {
        (None, None) => Err(CndbError::NoValidHeader),
        (Some(a), None) => Ok((a, 0)),
        (None, Some(b)) => Ok((b, 1)),
        (Some(a), Some(b)) => if a.generation > b.generation {
            Ok((a, 0))
        } else {
            Ok((b, 1))
        },
    }
}

/// The slot a commit should overwrite: any invalid slot, else the oldest.
///
/// Never the live slot, so the live header survives the write.
pub fn victim_slot(slots: &[Option<Header>; HEADER_SLOTS]) -> (slot: usize)
    ensures
        slot == victim_of(slots@),
        slot < HEADER_SLOTS,
        live_of(slots@) != Some(slot as int),
{
    match (slots[0], slots[1]) {
        (None, _) => 0,
        (_, None) => 1,
        (Some(a), Some(b)) => if a.generation <= b.generation {
            0
        } else {
            1
        },
    }
}

/// The live slot is valid, and no valid slot has a higher generation.
pub proof fn live_is_the_newest(slots: Seq<Option<Header>>, other: int)
    requires
        slots.len() == HEADER_SLOTS,
        0 <= other < HEADER_SLOTS,
    ensures
        match live_of(slots) {
            Some(live) => 0 <= live < HEADER_SLOTS && (slots[live] matches Some(header) && (
            slots[other] matches Some(h) ==> h.generation <= header.generation)),
            None => slots[other] is None,
        },
{
}

/// The live slot, by cases: a valid one beats an invalid one, a newer one beats
/// an older one, and of two that are equally new the second is taken. The slot
/// that a commit overwrites is the other one, and the first when none is valid.
pub proof fn slots_by_generation(slots: Seq<Option<Header>>)
    requires
        slots.len() == 2,
    ensures
        live_of(slots) is None <==> slots[0] is None && slots[1] is None,
        live_of(slots) == Some(0int) <==> (slots[0] matches Some(a) && (slots[1] matches Some(b)
            ==> a.generation > b.generation)),
        live_of(slots) == Some(1int) <==> (slots[1] matches Some(b) && (slots[0] matches Some(a)
            ==> a.generation <= b.generation)),
        live_of(slots) matches Some(live) ==> victim_of(slots) == 1 - live,
        live_of(slots) is None ==> victim_of(slots) == 0,
{
}

/// A commit never overwrites the live slot.
pub proof fn victim_is_never_live(slots: Seq<Option<Header>>)
    requires
        slots.len() == HEADER_SLOTS,
    ensures
        0 <= victim_of(slots) < HEADER_SLOTS,
        live_of(slots) != Some(victim_of(slots)),
{
}

} // verus!
