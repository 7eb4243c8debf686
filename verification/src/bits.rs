//! Mathematical model of bit unpacking and packing.
//!
//! Bytes are unpacked least-significant bit first; a bit sequence is packed
//! back into bytes the same way, with the unfilled high positions of a short
//! final group read as zero.

use vstd::prelude::*;
use vstd::arithmetic::power2::{pow2, lemma_pow2_unfold, lemma_pow2_strictly_increases, lemma2_to64};

verus! {

/// The `n` low-order bits of `b`, least significant first.
pub open spec fn bits_of(b: nat, n: nat) -> Seq<bool>
    decreases n,
{
    if n == 0 {
        Seq::empty()
    } else {
        seq![b % 2 == 1] + bits_of(b / 2, (n - 1) as nat)
    }
}

/// Every bit of a byte sequence, in stream order: bit `j` of byte `i`
/// stands at position `8 * i + j`.
pub open spec fn bits_of_bytes(bytes: Seq<u8>) -> Seq<bool>
    decreases bytes.len(),
{
    if bytes.len() == 0 {
        Seq::empty()
    } else {
        bits_of(bytes[0] as nat, 8) + bits_of_bytes(bytes.drop_first())
    }
}

/// The numeric value of a bit sequence read least-significant first.
pub open spec fn value_of_bits(bits: Seq<bool>) -> nat
    decreases bits.len(),
{
    if bits.len() == 0 {
        0
    } else {
        (if bits[0] { 1nat } else { 0nat }) + 2 * value_of_bits(bits.drop_first())
    }
}

/// Packing: each group of eight bits becomes one byte; a short final group
/// still becomes a byte, its missing high bits read as zero; no group, no
/// byte.
pub open spec fn pack_bits(bits: Seq<bool>) -> Seq<u8>
    decreases bits.len(),
{
    if bits.len() == 0 {
        Seq::empty()
    } else if bits.len() >= 8 {
        seq![value_of_bits(bits.take(8)) as u8] + pack_bits(bits.skip(8))
    } else {
        seq![value_of_bits(bits) as u8]
    }
}

pub proof fn lemma_bits_of_len(b: nat, n: nat)
    ensures
        bits_of(b, n).len() == n,
    decreases n,
{
    if n > 0 {
        lemma_bits_of_len(b / 2, (n - 1) as nat);
    }
}

pub proof fn lemma_bits_of_bytes_len(bytes: Seq<u8>)
    ensures
        bits_of_bytes(bytes).len() == 8 * bytes.len(),
    decreases bytes.len(),
{
    if bytes.len() > 0 {
        lemma_bits_of_len(bytes[0] as nat, 8);
        lemma_bits_of_bytes_len(bytes.drop_first());
    }
}

/// A sequence of `n` bits never carries a value of `pow2(n)` or more.
pub proof fn lemma_value_of_bits_bound(bits: Seq<bool>)
    ensures
        value_of_bits(bits) < pow2(bits.len()),
    decreases bits.len(),
{
    if bits.len() == 0 {
        lemma2_to64();
    } else {
        lemma_value_of_bits_bound(bits.drop_first());
        lemma_pow2_unfold(bits.len());
    }
}

/// Unpacking a value to `n` bits and reading them back restores the value,
/// as long as the value fits in `n` bits.
pub proof fn lemma_value_bits_of(b: nat, n: nat)
    requires
        b < pow2(n),
    ensures
        value_of_bits(bits_of(b, n)) == b,
    decreases n,
{
    if n == 0 {
        lemma2_to64();
    } else {
        lemma_pow2_unfold(n);
        lemma_value_bits_of(b / 2, (n - 1) as nat);
        assert(bits_of(b, n).drop_first() =~= bits_of(b / 2, (n - 1) as nat));
    }
}

/// Law: unpacking a byte sequence into bits and packing the bits straight
/// back into bytes reproduces the original byte sequence exactly, for any
/// input.
pub proof fn lemma_pack_unpack(bytes: Seq<u8>)
    ensures
        pack_bits(bits_of_bytes(bytes)) == bytes,
    decreases bytes.len(),
{
    if bytes.len() == 0 {
        assert(pack_bits(bits_of_bytes(bytes)) =~= bytes);
    } else {
        let bits = bits_of_bytes(bytes);
        lemma_bits_of_len(bytes[0] as nat, 8);
        lemma_bits_of_bytes_len(bytes.drop_first());
        assert(bits.take(8) =~= bits_of(bytes[0] as nat, 8));
        assert(bits.skip(8) =~= bits_of_bytes(bytes.drop_first()));
        lemma2_to64();
        lemma_value_bits_of(bytes[0] as nat, 8);
        lemma_pack_unpack(bytes.drop_first());
        assert(pack_bits(bits) =~= bytes);
    }
}

/// Law: packing emits exactly one byte per begun group of eight bits — never
/// a byte beyond the bits actually produced, and no byte at all for an empty
/// stream.
pub proof fn lemma_pack_bits_len(bits: Seq<bool>)
    ensures
        pack_bits(bits).len() == (bits.len() + 7) / 8,
    decreases bits.len(),
{
    if bits.len() >= 8 {
        lemma_pack_bits_len(bits.skip(8));
    }
}

/// Law: when the stream ends inside a byte, only that final byte is padded,
/// and only in its unfilled high positions, which read as zero: its value
/// stays below `pow2` of the number of genuine bits it holds.
pub proof fn lemma_pack_bits_padding(bits: Seq<bool>)
    requires
        bits.len() % 8 != 0,
    ensures
        pack_bits(bits).len() > 0,
        pack_bits(bits).last() < pow2(bits.len() % 8),
    decreases bits.len(),
{
    if bits.len() < 8 {
        lemma_value_of_bits_bound(bits);
        lemma_pow2_strictly_increases(bits.len(), 8);
        lemma2_to64();
    } else {
        lemma_pack_bits_padding(bits.skip(8));
        assert(pack_bits(bits).last() == pack_bits(bits.skip(8)).last());
    }
}

} // verus!
