//! The checksum that guards headers and records: CRC-32 as IEEE 802.3 defines
//! it.

use vstd::prelude::*;

verus! {

/// The generator polynomial, lowest bit first.
pub const POLYNOMIAL: u32 = 0xedb8_8320;

/// One step of the division: shift a bit out of the register.
pub open spec fn crc_bit(register: u32) -> u32 {
    if register & 1 == 1 {
        (register >> 1) ^ POLYNOMIAL
    } else {
        register >> 1
    }
}

/// `n` steps of the division.
pub open spec fn crc_bits(register: u32, n: nat) -> u32
    decreases n,
{
    if n == 0 {
        register
    } else {
        crc_bit(crc_bits(register, (n - 1) as nat))
    }
}

/// The register after all of `data`, from a start of all ones.
pub open spec fn crc_register(data: Seq<u8>) -> u32
    decreases data.len(),
{
    if data.len() == 0 {
        0xffff_ffff
    } else {
        crc_bits(crc_register(data.drop_last()) ^ data.last() as u32, 8)
    }
}

/// The CRC-32 checksum of `data`: the complement of the register.
pub open spec fn crc32(data: Seq<u8>) -> u32 {
    !crc_register(data)
}

/// `crc32fast::hash` computes the CRC-32 (IEEE) checksum of its argument, as
/// its documentation says: reflected, from a register of all ones, complemented
/// at the end.
pub assume_specification[ crc32fast::hash ](buf: &[u8]) -> (sum: u32)
    ensures
        sum == crc32(buf@),
;

/// Two byte strings of equal length that differ nowhere but within four
/// consecutive bytes.
pub open spec fn damaged_within(data: Seq<u8>, other: Seq<u8>, at: int) -> bool {
    &&& data.len() == other.len()
    &&& data != other
    &&& forall|i: int|
        0 <= i < data.len() && !(at <= i < at + 4) ==> #[trigger] data[i] == other[i]
}

/// One step loses nothing: the bit that was shifted out shows at the top.
proof fn lemma_bit_injective(a: u32, b: u32)
    requires
        crc_bit(a) == crc_bit(b),
    ensures
        a == b,
{
    assert((if a & 1 == 1 {
        (a >> 1) ^ 0xedb8_8320
    } else {
        a >> 1
    }) == (if b & 1 == 1 {
        (b >> 1) ^ 0xedb8_8320
    } else {
        b >> 1
    }) ==> a == b) by (bit_vector);
}

/// No two registers are driven to the same one by the same number of steps.
proof fn lemma_bits_injective(a: u32, b: u32, n: nat)
    requires
        crc_bits(a, n) == crc_bits(b, n),
    ensures
        a == b,
    decreases n,
{
    if n > 0 {
        lemma_bit_injective(crc_bits(a, (n - 1) as nat), crc_bits(b, (n - 1) as nat));
        lemma_bits_injective(a, b, (n - 1) as nat);
    }
}

/// Steps can be taken in two goes.
proof fn lemma_bits_add(register: u32, m: nat, n: nat)
    ensures
        crc_bits(crc_bits(register, m), n) == crc_bits(register, m + n),
    decreases n,
{
    if n > 0 {
        lemma_bits_add(register, m, (n - 1) as nat);
    }
}

/// Bits that are not shifted out within `n` steps only move.
proof fn lemma_bits_pass(register: u32, x: u32, n: u32)
    requires
        n <= 24,
        x < 256,
    ensures
        crc_bits(register ^ (x << n), n as nat) == crc_bits(register, n as nat) ^ x,
{
    assert(255 <= 0xffff_ffffu32 >> 24u32) by (bit_vector);
    lemma_bits_pass_wide(register, x, n, 24);
}

/// The same, for as many bits as there is room for.
proof fn lemma_bits_pass_wide(register: u32, x: u32, n: u32, room: u32)
    requires
        n <= room <= 24,
        x <= 0xffff_ffffu32 >> room,
    ensures
        crc_bits(register ^ (x << n), n as nat) == crc_bits(register, n as nat) ^ x,
    decreases n,
{
    if n == 0 {
        assert(x << 0u32 == x) by (bit_vector);
    } else {
        let m = (n - 1) as u32;
        let less = (room - 1) as u32;
        let y = x << 1;
        let passed = crc_bits(register, m as nat);
        assert(y <= 0xffff_ffffu32 >> less && y << m == x << n) by (bit_vector)
            requires
                1 <= n <= room <= 24,
                m == n - 1,
                less == room - 1,
                y == x << 1,
                x <= 0xffff_ffffu32 >> room,
        ;
        lemma_bits_pass_wide(register, y, m, less);
        assert((if (passed ^ y) & 1 == 1 {
            ((passed ^ y) >> 1) ^ 0xedb8_8320
        } else {
            (passed ^ y) >> 1
        }) == (if passed & 1 == 1 {
            (passed >> 1) ^ 0xedb8_8320
        } else {
            passed >> 1
        }) ^ x) by (bit_vector)
            requires
                y == x << 1,
                x <= 0xffff_ffffu32 >> room,
                1 <= room <= 24,
        ;
    }
}

/// Up to four bytes as one word, the first of them lowest.
spec fn word(bytes: Seq<u8>) -> u32
    decreases bytes.len(),
{
    if bytes.len() == 0 {
        0
    } else {
        word(bytes.drop_last()) ^ ((bytes.last() as u32) << ((8 * (bytes.len() - 1)) as u32))
    }
}

/// Up to four bytes enter the register as if they came at once.
proof fn lemma_register_word(data: Seq<u8>, k: int, n: int)
    requires
        0 <= k,
        0 <= n <= 4,
        k + n <= data.len(),
    ensures
        crc_register(data.take(k + n)) == crc_bits(
            crc_register(data.take(k)) ^ word(data.subrange(k, k + n)),
            (8 * n) as nat,
        ),
    decreases n,
{
    let start = crc_register(data.take(k));
    if n == 0 {
        assert(data.take(k + n) =~= data.take(k));
        assert(start ^ 0 == start) by (bit_vector);
    } else {
        let byte = data[k + n - 1] as u32;
        let shift = (8 * (n - 1)) as u32;
        let head = word(data.subrange(k, k + n - 1));
        lemma_register_word(data, k, n - 1);
        assert(data.take(k + n).drop_last() =~= data.take(k + (n - 1)));
        assert(data.subrange(k, k + n).drop_last() =~= data.subrange(k, k + (n - 1)));
        lemma_bits_pass(start ^ head, byte, shift);
        assert((start ^ head) ^ (byte << shift) == start ^ (head ^ (byte << shift)))
            by (bit_vector);
        lemma_bits_add(start ^ (head ^ (byte << shift)), (8 * (n - 1)) as nat, 8);
    }
}

/// A word is made of its bytes and no others.
proof fn lemma_word_injective(a: Seq<u8>, b: Seq<u8>)
    requires
        a.len() == b.len() <= 4,
        word(a) == word(b),
    ensures
        a == b,
{
    let n = a.len();
    let x0 = if n > 0 { a[0] } else { 0 };
    let x1 = if n > 1 { a[1] } else { 0 };
    let x2 = if n > 2 { a[2] } else { 0 };
    let x3 = if n > 3 { a[3] } else { 0 };
    let y0 = if n > 0 { b[0] } else { 0 };
    let y1 = if n > 1 { b[1] } else { 0 };
    let y2 = if n > 2 { b[2] } else { 0 };
    let y3 = if n > 3 { b[3] } else { 0 };
    lemma_word_bytes(a, x0, x1, x2, x3);
    lemma_word_bytes(b, y0, y1, y2, y3);
    assert(x0 == y0 && x1 == y1 && x2 == y2 && x3 == y3) by (bit_vector)
        requires
            (x0 as u32) ^ ((x1 as u32) << 8u32) ^ ((x2 as u32) << 16u32) ^ ((x3 as u32) << 24u32)
                == (y0 as u32) ^ ((y1 as u32) << 8u32) ^ ((y2 as u32) << 16u32) ^ ((y3 as u32)
                << 24u32),
    ;
    assert(a =~= b);
}

/// A word, written out.
proof fn lemma_word_bytes(bytes: Seq<u8>, x0: u8, x1: u8, x2: u8, x3: u8)
    requires
        bytes.len() <= 4,
        x0 == if bytes.len() > 0 { bytes[0] } else { 0 },
        x1 == if bytes.len() > 1 { bytes[1] } else { 0 },
        x2 == if bytes.len() > 2 { bytes[2] } else { 0 },
        x3 == if bytes.len() > 3 { bytes[3] } else { 0 },
    ensures
        word(bytes) == (x0 as u32) ^ ((x1 as u32) << 8u32) ^ ((x2 as u32) << 16u32) ^ ((x3 as u32)
            << 24u32),
{
    reveal_with_fuel(word, 5);
    assert(0u32 ^ ((x0 as u32) << 0u32) == x0 as u32) by (bit_vector);
    assert(forall|w: u32| #![trigger w ^ (0u32 << 8u32)] w ^ (0u32 << 8u32) == w) by (bit_vector);
    assert(forall|w: u32| #![trigger w ^ (0u32 << 16u32)] w ^ (0u32 << 16u32) == w) by (bit_vector);
    assert(forall|w: u32| #![trigger w ^ (0u32 << 24u32)] w ^ (0u32 << 24u32) == w) by (bit_vector);
    let n = bytes.len();
    if n > 0 {
        assert(bytes.take(1).drop_last() =~= Seq::<u8>::empty());
    }
    if n > 1 {
        assert(bytes.take(2).drop_last() =~= bytes.take(1));
    }
    if n > 2 {
        assert(bytes.take(3).drop_last() =~= bytes.take(2));
    }
    if n > 3 {
        assert(bytes.take(4).drop_last() =~= bytes.take(3));
    }
    assert(bytes.take(n as int) =~= bytes);
}

/// Registers that differ stay different when the same bytes follow.
proof fn lemma_register_suffix(data: Seq<u8>, other: Seq<u8>, k: int)
    requires
        data.len() == other.len(),
        0 <= k <= data.len(),
        forall|i: int| k <= i < data.len() ==> data[i] == other[i],
        crc_register(data) == crc_register(other),
    ensures
        crc_register(data.take(k)) == crc_register(other.take(k)),
    decreases data.len() - k,
{
    if k == data.len() {
        assert(data.take(k) =~= data);
        assert(other.take(k) =~= other);
    } else {
        lemma_register_suffix(data, other, k + 1);
        let a = data.take(k + 1);
        let b = other.take(k + 1);
        assert(a.drop_last() =~= data.take(k));
        assert(b.drop_last() =~= other.take(k));
        let ra = crc_register(data.take(k));
        let rb = crc_register(other.take(k));
        let byte = data[k] as u32;
        lemma_bits_injective(ra ^ byte, rb ^ byte, 8);
        assert(ra == rb) by (bit_vector)
            requires
                ra ^ byte == rb ^ byte,
        ;
    }
}

/// Damage within four consecutive bytes always changes the checksum, wherever
/// it is and however long the data.
pub proof fn damage_changes_the_checksum(data: Seq<u8>, other: Seq<u8>, at: int)
    requires
        damaged_within(data, other, at),
    ensures
        crc32(data) != crc32(other),
{
    if crc32(data) == crc32(other) {
        let ra = crc_register(data);
        let rb = crc_register(other);
        assert(ra == rb) by (bit_vector)
            requires
                !ra == !rb,
        ;
        let len = data.len() as int;
        let k = if at < 0 {
            0
        } else if at > len {
            len
        } else {
            at
        };
        let end = if at + 4 < 0 {
            0
        } else if at + 4 > len {
            len
        } else {
            at + 4
        };
        let n = end - k;
        lemma_register_suffix(data, other, end);
        lemma_register_word(data, k, n);
        lemma_register_word(other, k, n);
        assert(data.take(k) =~= other.take(k));
        let start = crc_register(data.take(k));
        let wa = word(data.subrange(k, k + n));
        let wb = word(other.subrange(k, k + n));
        lemma_bits_injective(start ^ wa, start ^ wb, (8 * n) as nat);
        assert(wa == wb) by (bit_vector)
            requires
                start ^ wa == start ^ wb,
        ;
        lemma_word_injective(data.subrange(k, k + n), other.subrange(k, k + n));
        assert forall|i: int| 0 <= i < len implies data[i] == other[i] by {
            if k <= i < end {
                assert(data.subrange(k, k + n)[i - k] == other.subrange(k, k + n)[i - k]);
            }
        }
        assert(data =~= other);
    }
}

} // verus!
