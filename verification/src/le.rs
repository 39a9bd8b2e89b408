//! Little-endian integers of a fixed width.

use vstd::arithmetic::div_mod::lemma_div_denominator;
use vstd::arithmetic::power::{lemma_pow0, lemma_pow_positive, pow};
use vstd::prelude::*;

verus! {

/// How many values `width` bytes can hold.
pub open spec fn capacity(width: nat) -> nat
    decreases width,
{
    if width == 0 {
        1
    } else {
        256 * capacity((width - 1) as nat)
    }
}

/// `n` in `width` bytes, least significant byte first. Digits that do not fit
/// are dropped.
pub open spec fn le_bytes(n: nat, width: nat) -> Seq<u8>
    decreases width,
{
    if width == 0 {
        Seq::empty()
    } else {
        seq![(n % 256) as u8] + le_bytes(n / 256, (width - 1) as nat)
    }
}

/// The number that `s` spells, least significant byte first.
pub open spec fn le_value(s: Seq<u8>) -> nat
    decreases s.len(),
{
    if s.len() == 0 {
        0
    } else {
        s[0] as nat + 256 * le_value(s.drop_first())
    }
}

/// As many bytes are written as asked for.
pub proof fn lemma_le_bytes_len(n: nat, width: nat)
    ensures
        le_bytes(n, width).len() == width,
    decreases width,
{
    if width > 0 {
        lemma_le_bytes_len(n / 256, (width - 1) as nat);
    }
}

/// What bytes spell fits their number.
pub proof fn lemma_le_value_bound(s: Seq<u8>)
    ensures
        le_value(s) < capacity(s.len()),
    decreases s.len(),
{
    if s.len() > 0 {
        lemma_le_value_bound(s.drop_first());
    }
}

/// Reading back what was written gives the number, if it fits the width.
pub proof fn le_roundtrip(n: nat, width: nat)
    requires
        n < capacity(width),
    ensures
        le_value(le_bytes(n, width)) == n,
    decreases width,
{
    if width > 0 {
        let rest = (width - 1) as nat;
        le_roundtrip(n / 256, rest);
        assert(le_bytes(n, width).drop_first() =~= le_bytes(n / 256, rest));
    }
}

/// Bytes that spell the same number in the same width are the same.
pub proof fn lemma_le_value_injective(a: Seq<u8>, b: Seq<u8>)
    requires
        a.len() == b.len(),
        le_value(a) == le_value(b),
    ensures
        a == b,
    decreases a.len(),
{
    if a.len() > 0 {
        lemma_le_value_injective(a.drop_first(), b.drop_first());
        assert(a =~= seq![a[0]] + a.drop_first());
        assert(b =~= seq![b[0]] + b.drop_first());
    } else {
        assert(a =~= b);
    }
}

/// Byte number `i` of a number is its digit number `i` in base 256.
pub proof fn bytes_are_digits(n: nat, width: nat, i: nat)
    requires
        i < width,
    ensures
        le_bytes(n, width).len() == width,
        le_bytes(n, width)[i as int] == (n as int / pow(256, i)) % 256,
    decreases i,
{
    lemma_le_bytes_len(n, width);
    lemma_le_bytes_len(n / 256, (width - 1) as nat);
    if i == 0 {
        lemma_pow0(256);
        assert(n as int / 1 == n);
    } else {
        let j = (i - 1) as nat;
        bytes_are_digits(n / 256, (width - 1) as nat, j);
        lemma_pow_positive(256, j);
        lemma_div_denominator(n as int, 256, pow(256, j));
        reveal(pow);
        assert(pow(256, i) == 256 * pow(256, j));
    }
}

/// Writing what was read gives the bytes back.
pub proof fn le_rewrite(s: Seq<u8>)
    ensures
        le_bytes(le_value(s), s.len()) == s,
    decreases s.len(),
{
    if s.len() > 0 {
        let rest = s.drop_first();
        le_rewrite(rest);
        assert(le_value(s) / 256 == le_value(rest));
        assert(s =~= seq![s[0]] + rest);
    } else {
        assert(le_bytes(0, 0) =~= s);
    }
}

/// The capacities of the two widths in use.
pub proof fn lemma_capacities()
    ensures
        capacity(4) == 0x1_0000_0000,
        capacity(8) == 0x1_0000_0000_0000_0000,
{
    reveal_with_fuel(capacity, 9);
}

/// Write the low `width` bytes of `n`.
pub fn to_le(n: u64, width: usize) -> (out: Vec<u8>)
    ensures
        out@ == le_bytes(n as nat, width as nat),
{
    let mut out: Vec<u8> = Vec::new();
    let mut rest: u64 = n;
    let mut i: usize = 0;
    while i < width
        invariant
            i <= width,
            out@ + le_bytes(rest as nat, (width - i) as nat) == le_bytes(n as nat, width as nat),
        decreases width - i,
    {
        let ghost before = out@;
        let ghost left = rest;
        out.push((rest % 256) as u8);
        rest = rest / 256;
        i = i + 1;
        assert(out@ + le_bytes(rest as nat, (width - i) as nat) =~= before + le_bytes(
            left as nat,
            (width - i + 1) as nat,
        ));
    }
    out
}

/// Read a number of at most eight bytes.
pub fn from_le(s: &[u8]) -> (n: u64)
    requires
        s@.len() <= 8,
    ensures
        n == le_value(s@),
{
    let len = s.len();
    let mut n: u64 = 0;
    let mut i: usize = len;
    while i > 0
        invariant
            i <= len,
            len == s@.len(),
            len <= 8,
            n == le_value(s@.subrange(i as int, len as int)),
        decreases i,
    {
        i = i - 1;
        let ghost tail = s@.subrange(i as int, len as int);
        proof {
            assert(tail.drop_first() =~= s@.subrange(i + 1, len as int));
            lemma_le_value_bound(tail);
            reveal_with_fuel(capacity, 9);
        }
        n = s[i] as u64 + 256 * n;
    }
    assert(s@.subrange(0, len as int) =~= s@);
    n
}

} // verus!
