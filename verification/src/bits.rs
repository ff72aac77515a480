//! Lemmas about the bits of a byte sequence and the numbers they spell.

use vstd::arithmetic::div_mod::{lemma_fundamental_div_mod, lemma_mod_multiples_vanish};
use vstd::arithmetic::power2::{lemma2_to64, lemma_pow2_adds, lemma_pow2_unfold, pow2};
use vstd::prelude::*;

use crate::model::{be_bytes, be_value, bit_at, bits_value, bytes_value, two_pow_64};

verus! {

/// A bit is 0 or 1.
pub proof fn lemma_bit_at_range(bytes: Seq<u8>, i: int)
    ensures
        bit_at(bytes, i) <= 1,
{
    let byte = bytes[i / 8];
    let shift = (7 - i % 8) as u8;
    assert((byte >> shift) & 1 <= 1) by (bit_vector);
}

/// `size` bits spell a number below two to the power `size`.
pub proof fn lemma_bits_value_bound(bytes: Seq<u8>, start: int, size: nat)
    ensures
        bits_value(bytes, start, size) < pow2(size),
    decreases size,
{
    if size == 0 {
        lemma2_to64();
    } else {
        lemma_bits_value_bound(bytes, start, (size - 1) as nat);
        lemma_bit_at_range(bytes, start + size - 1);
        lemma_pow2_unfold(size);
    }
}

/// Shifting an accumulator left by one and setting its lowest bit doubles it and adds the
/// bit, modulo two to the power 64.
pub(crate) proof fn lemma_shift_in_bit(value: u64, bit: u64)
    requires
        bit <= 1,
    ensures
        ((value << 1) | bit) == (2 * value + bit) % (two_pow_64() as int),
{
    assert(((value << 1) | bit) == (2 * value + bit) % 0x1_0000_0000_0000_0000) by (bit_vector)
        requires
            bit <= 1,
    ;
}

/// Doubling and adding a bit commutes with reduction modulo two to the power 64.
pub(crate) proof fn lemma_mod_step(x: nat, bit: nat)
    ensures
        (2 * (x % two_pow_64()) + bit) % two_pow_64() == (2 * x + bit) % two_pow_64(),
{
    let m = two_pow_64() as int;
    let q = x as int / m;
    let r = x as int % m;
    assert(x == m * q + r) by {
        lemma_fundamental_div_mod(x as int, m);
    }
    assert((2 * x + bit) == (2 * q) * m + (2 * r + bit)) by (nonlinear_arith)
        requires
            x == m * q + r,
    ;
    lemma_mod_multiples_vanish(2 * q, 2 * r + bit, m);
}

/// The number spelled by `a + b` bits is the number spelled by the first `a` of them, moved
/// up by `b` binary places, plus the number spelled by the other `b`.
pub proof fn lemma_bits_value_split(bytes: Seq<u8>, start: int, a: nat, b: nat)
    ensures
        bits_value(bytes, start, a + b) == bits_value(bytes, start, a) * pow2(b) + bits_value(
            bytes,
            start + a,
            b,
        ),
    decreases b,
{
    if b == 0 {
        lemma2_to64();
    } else {
        let head = bits_value(bytes, start, a);
        let half = pow2((b - 1) as nat);
        lemma_bits_value_split(bytes, start, a, (b - 1) as nat);
        lemma_pow2_unfold(b);
        assert(bits_value(bytes, start, a + b) == 2 * bits_value(
            bytes,
            start,
            (a + b - 1) as nat,
        ) + bit_at(bytes, start + a + b - 1));
        assert(2 * (head * half) == head * (2 * half)) by (nonlinear_arith);
    }
}

/// Of more than 64 bits, the number they spell modulo two to the power 64 is the number
/// spelled by the last 64 of them.
pub proof fn lemma_bits_value_wide(bytes: Seq<u8>, start: int, size: nat)
    requires
        size >= 64,
    ensures
        bits_value(bytes, start, size) % two_pow_64() == bits_value(bytes, start + size - 64, 64),
{
    let a = (size - 64) as nat;
    let head = bits_value(bytes, start, a);
    let tail = bits_value(bytes, start + a, 64);
    lemma_bits_value_split(bytes, start, a, 64);
    lemma_bits_value_bound(bytes, start + a, 64);
    lemma2_to64();
    lemma_mod_multiples_vanish(head as int, tail as int, two_pow_64() as int);
    vstd::arithmetic::div_mod::lemma_small_mod(tail, two_pow_64());
}

/// The eight bits that start at a byte boundary spell that byte.
pub proof fn lemma_aligned_byte(bytes: Seq<u8>, k: int)
    ensures
        bits_value(bytes, 8 * k, 8) == bytes[k],
{
    let b = bytes[k];
    assert forall|j: int| 0 <= j < 8 implies #[trigger] bit_at(bytes, 8 * k + j) == ((b >> ((7
        - j) as u8)) & 1) as nat by {
        assert((8 * k + j) / 8 == k);
        assert((8 * k + j) % 8 == j);
    }
    assert(bit_at(bytes, 8 * k + 0) == ((b >> 7u8) & 1));
    assert(bit_at(bytes, 8 * k + 1) == ((b >> 6u8) & 1));
    assert(bit_at(bytes, 8 * k + 2) == ((b >> 5u8) & 1));
    assert(bit_at(bytes, 8 * k + 3) == ((b >> 4u8) & 1));
    assert(bit_at(bytes, 8 * k + 4) == ((b >> 3u8) & 1));
    assert(bit_at(bytes, 8 * k + 5) == ((b >> 2u8) & 1));
    assert(bit_at(bytes, 8 * k + 6) == ((b >> 1u8) & 1));
    assert(bit_at(bytes, 8 * k + 7) == ((b >> 0u8) & 1));
    assert(((b >> 7u8) & 1) * 128 + ((b >> 6u8) & 1) * 64 + ((b >> 5u8) & 1) * 32 + ((b >> 4u8)
        & 1) * 16 + ((b >> 3u8) & 1) * 8 + ((b >> 2u8) & 1) * 4 + ((b >> 1u8) & 1) * 2 + ((b
        >> 0u8) & 1) == b) by (bit_vector);
    reveal_with_fuel(bits_value, 9);
}

/// Bytes read from a byte boundary are the bytes of the buffer.
pub proof fn lemma_aligned_bytes(bytes: Seq<u8>, k: int, count: nat)
    requires
        0 <= k,
        k + count <= bytes.len(),
    ensures
        bytes_value(bytes, 8 * k, count) == bytes.subrange(k, k + count),
{
    let read = bytes_value(bytes, 8 * k, count);
    assert forall|j: int| 0 <= j < count implies #[trigger] read[j] == bytes[k + j] by {
        lemma_aligned_byte(bytes, k + j);
    }
    assert(read =~= bytes.subrange(k, k + count));
}

/// Whole bytes read from a byte boundary spell the big-endian number of those bytes.
pub proof fn lemma_aligned_big_endian(bytes: Seq<u8>, k: int, count: nat)
    requires
        0 <= k,
        k + count <= bytes.len(),
    ensures
        bits_value(bytes, 8 * k, 8 * count) == be_value(bytes.subrange(k, k + count)),
    decreases count,
{
    if count > 0 {
        let shorter = (count - 1) as nat;
        lemma_aligned_big_endian(bytes, k, shorter);
        lemma_bits_value_split(bytes, 8 * k, 8 * shorter, 8);
        lemma_aligned_byte(bytes, k + shorter);
        lemma2_to64();
        assert(bytes.subrange(k, k + count).drop_last() =~= bytes.subrange(k, k + shorter));
    }
}

/// Writing a number big-endian in `count` bytes gives `count` bytes, and they spell the
/// number again if it is below 256 to the power `count`.
pub proof fn lemma_be_round_trip(value: nat, count: nat)
    ensures
        be_bytes(value, count).len() == count,
        value < pow2(8 * count) ==> be_value(be_bytes(value, count)) == value,
    decreases count,
{
    if count > 0 {
        let shorter = (count - 1) as nat;
        lemma_be_round_trip(value / 256, shorter);
        assert(be_bytes(value, count).drop_last() =~= be_bytes(value / 256, shorter));
        if value < pow2(8 * count) {
            lemma_pow2_adds(8 * shorter, 8);
            lemma2_to64();
            assert(value / 256 < pow2(8 * shorter)) by (nonlinear_arith)
                requires
                    value < pow2(8 * shorter) * 256,
            ;
        }
    } else {
        lemma2_to64();
    }
}

} // verus!
