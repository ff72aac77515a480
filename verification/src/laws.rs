//! What holds of every reader: laws over the abstract state and the outcomes of the
//! operations on it.

use vstd::arithmetic::power2::{lemma2_to64, lemma2_to64_rest, pow2};
use vstd::prelude::*;
use vstd::utf8::{encode_utf8, encode_utf8_decode_utf8, encode_utf8_valid_utf8};

use crate::bits::{
    lemma_aligned_big_endian, lemma_aligned_bytes, lemma_be_round_trip, lemma_bits_value_bound,
    lemma_bits_value_split, lemma_bits_value_wide,
};
use crate::errors::BitreadError;
use crate::model::{be_bytes, two_pow_64, ReaderView};

verus! {

/// No request moves the cursor backwards or out of the buffer, and none touches the
/// buffer: whatever is asked of a well-formed state, the state left behind is well-formed,
/// holds the same bytes, and has its cursor where it was or further on.
pub proof fn lemma_after_keeps_invariant(v: ReaderView, bits: nat)
    requires
        v.wf(),
    ensures
        v.after(bits).wf(),
        v.after(bits).bytes == v.bytes,
        v.after(bits).length() == v.length(),
        v.after(bits).position >= v.position,
{
}

/// A request succeeds exactly when its bits fit, and then the cursor has moved by exactly
/// that many bits; otherwise it fails with `BufferExceeded` and the state is unchanged.
pub proof fn lemma_read_bits_outcome(v: ReaderView, size: nat)
    ensures
        v.fits(size) ==> v.read_bits(size) is Ok && v.after(size).position == v.position + size,
        !v.fits(size) ==> v.read_bits(size) == Err::<u64, BitreadError>(
            BitreadError::BufferExceeded,
        ) && v.after(size) == v,
{
}

/// Up to 64 bits are returned as the number they spell, which is below two to the power of
/// their count.
pub proof fn lemma_read_bits_exact(v: ReaderView, size: nat)
    requires
        size <= 64,
        v.fits(size),
    ensures
        v.peek(size) < pow2(size),
        pow2(size) <= two_pow_64(),
        v.read_bits(size) == Ok::<u64, BitreadError>(v.peek(size) as u64),
{
    lemma_bits_value_bound(v.bytes, v.position as int, size);
    if size < 64 {
        vstd::arithmetic::power2::lemma_pow2_strictly_increases(size, 64);
    }
    lemma2_to64();
    vstd::arithmetic::div_mod::lemma_small_mod(v.peek(size), two_pow_64());
}

/// Of more than 64 bits the last 64 are returned.
pub proof fn lemma_read_bits_wide(v: ReaderView, size: nat)
    requires
        size >= 64,
        v.fits(size),
    ensures
        v.read_bits(size) == Ok::<u64, BitreadError>(
            v.advance((size - 64) as nat).peek(64) as u64,
        ),
{
    lemma_bits_value_wide(v.bytes, v.position as int, size);
}

/// The fixed-width readers return what `read_bits` returns for their width, narrowed
/// without loss.
pub proof fn lemma_typed_reads_narrow_read_bits(v: ReaderView)
    ensures
        v.read_u8() matches Ok(x) ==> v.read_bits(8) == Ok::<u64, BitreadError>(x as u64),
        v.read_u16() matches Ok(x) ==> v.read_bits(16) == Ok::<u64, BitreadError>(x as u64),
        v.read_u32() matches Ok(x) ==> v.read_bits(32) == Ok::<u64, BitreadError>(x as u64),
        v.read_u64() == v.read_bits(64),
        v.read_u8() is Err <==> v.read_bits(8) is Err,
        v.read_u16() is Err <==> v.read_bits(16) is Err,
        v.read_u32() is Err <==> v.read_bits(32) is Err,
{
    lemma2_to64();
    if v.fits(8) {
        lemma_read_bits_exact(v, 8);
    }
    if v.fits(16) {
        lemma_read_bits_exact(v, 16);
    }
    if v.fits(32) {
        lemma_read_bits_exact(v, 32);
    }
    if v.fits(64) {
        lemma_read_bits_exact(v, 64);
    }
}

/// A failed read of bits changes nothing, so repeating it fails in the same way, however
/// often.
pub proof fn lemma_failed_read_bits_repeats(v: ReaderView, size: nat)
    requires
        v.read_bits(size) is Err,
    ensures
        v.after(size) == v,
        v.after(size).read_bits(size) == v.read_bits(size),
        v.read_bits(size) == Err::<u64, BitreadError>(BitreadError::BufferExceeded),
{
}

/// A failed skip changes nothing, so repeating it fails in the same way, however often.
pub proof fn lemma_failed_skip_repeats(v: ReaderView, bits: nat)
    requires
        v.skip_bits(bits) is Err,
    ensures
        v.after(bits) == v,
        v.after(bits).skip_bits(bits) == v.skip_bits(bits),
        v.skip_bits(bits) == Err::<(), BitreadError>(BitreadError::BufferExceeded),
{
}

/// A failed read of a fixed-width integer changes nothing, so repeating it fails in the
/// same way, however often.
pub proof fn lemma_failed_typed_read_repeats(v: ReaderView)
    ensures
        v.read_u8() is Err ==> v.after(8) == v && v.read_u8() == Err::<u8, BitreadError>(
            BitreadError::BufferExceeded,
        ),
        v.read_u16() is Err ==> v.after(16) == v && v.read_u16() == Err::<u16, BitreadError>(
            BitreadError::BufferExceeded,
        ),
        v.read_u32() is Err ==> v.after(32) == v && v.read_u32() == Err::<u32, BitreadError>(
            BitreadError::BufferExceeded,
        ),
        v.read_u64() is Err ==> v.after(64) == v && v.read_u64() == Err::<u64, BitreadError>(
            BitreadError::BufferExceeded,
        ),
{
}

/// A string read that fails for want of bytes changes nothing, so repeating it fails in
/// the same way, however often. A string read that fails on the encoding has consumed its
/// bytes, and is not covered.
pub proof fn lemma_failed_read_string_repeats(v: ReaderView, count: nat)
    requires
        v.read_string(count) == Err::<Seq<char>, BitreadError>(BitreadError::BufferExceeded),
    ensures
        v.after(8 * count) == v,
        v.after(8 * count).read_string(count) == v.read_string(count),
{
}

/// A string read fails for want of bytes exactly when its bytes do not fit; if they fit,
/// the cursor moves past all of them whether or not they decode.
pub proof fn lemma_read_string_outcome(v: ReaderView, count: nat)
    ensures
        v.read_string(count) == Err::<Seq<char>, BitreadError>(BitreadError::BufferExceeded)
            <==> !v.fits(8 * count),
        v.fits(8 * count) ==> v.after(8 * count).position == v.position + 8 * count,
{
}

/// Reads one after the other compose: two requests that fit together leave the state that
/// one request for all the bits leaves, and the bits of the two spell, side by side, the
/// number that all the bits spell.
pub proof fn lemma_reads_compose(v: ReaderView, first: nat, second: nat)
    requires
        v.fits(first + second),
    ensures
        v.fits(first),
        v.after(first).fits(second),
        v.after(first).after(second) == v.after(first + second),
        v.peek(first + second) == v.peek(first) * pow2(second) + v.after(first).peek(second),
{
    lemma_bits_value_split(v.bytes, v.position as int, first, second);
}

/// Bytes read one after the other are the bytes read at once.
pub proof fn lemma_byte_reads_compose(v: ReaderView, first: nat, second: nat)
    requires
        v.fits(8 * (first + second)),
    ensures
        v.peek_bytes(first + second) == v.peek_bytes(first) + v.after(8 * first).peek_bytes(
            second,
        ),
{
    assert(v.peek_bytes(first + second) =~= v.peek_bytes(first) + v.after(8 * first).peek_bytes(
        second,
    ));
}

/// At a byte boundary, a number written big-endian in `count` bytes is what the next
/// `8 * count` bits spell.
pub proof fn lemma_aligned_peek_round_trip(v: ReaderView, k: nat, count: nat, value: nat)
    requires
        v.position == 8 * k,
        k + count <= v.bytes.len(),
        v.bytes.subrange(k as int, (k + count) as int) == be_bytes(value, count),
        value < pow2(8 * count),
    ensures
        v.fits(8 * count),
        v.peek(8 * count) == value,
{
    lemma_aligned_big_endian(v.bytes, k as int, count);
    lemma_be_round_trip(value, count);
}

/// Round trip of `u8`: at a byte boundary, `read_u8` returns the byte that stands there.
pub proof fn lemma_read_u8_round_trip(v: ReaderView, k: nat, value: u8)
    requires
        v.position == 8 * k,
        k + 1 <= v.bytes.len(),
        v.bytes.subrange(k as int, (k + 1) as int) == be_bytes(value as nat, 1),
    ensures
        v.read_u8() == Ok::<u8, BitreadError>(value),
        v.after(8).position == 8 * (k + 1),
{
    lemma2_to64();
    lemma_aligned_peek_round_trip(v, k, 1, value as nat);
}

/// Round trip of `u16`: at a byte boundary, `read_u16` returns the number whose two
/// big-endian bytes stand there.
pub proof fn lemma_read_u16_round_trip(v: ReaderView, k: nat, value: u16)
    requires
        v.position == 8 * k,
        k + 2 <= v.bytes.len(),
        v.bytes.subrange(k as int, (k + 2) as int) == be_bytes(value as nat, 2),
    ensures
        v.read_u16() == Ok::<u16, BitreadError>(value),
        v.after(16).position == 8 * (k + 2),
{
    lemma2_to64();
    lemma_aligned_peek_round_trip(v, k, 2, value as nat);
}

/// Round trip of `u32`: at a byte boundary, `read_u32` returns the number whose four
/// big-endian bytes stand there.
pub proof fn lemma_read_u32_round_trip(v: ReaderView, k: nat, value: u32)
    requires
        v.position == 8 * k,
        k + 4 <= v.bytes.len(),
        v.bytes.subrange(k as int, (k + 4) as int) == be_bytes(value as nat, 4),
    ensures
        v.read_u32() == Ok::<u32, BitreadError>(value),
        v.after(32).position == 8 * (k + 4),
{
    lemma2_to64();
    lemma_aligned_peek_round_trip(v, k, 4, value as nat);
}

/// Round trip of `u64`: at a byte boundary, `read_u64` returns the number whose eight
/// big-endian bytes stand there.
pub proof fn lemma_read_u64_round_trip(v: ReaderView, k: nat, value: u64)
    requires
        v.position == 8 * k,
        k + 8 <= v.bytes.len(),
        v.bytes.subrange(k as int, (k + 8) as int) == be_bytes(value as nat, 8),
    ensures
        v.read_u64() == Ok::<u64, BitreadError>(value),
        v.after(64).position == 8 * (k + 8),
{
    lemma2_to64();
    lemma2_to64_rest();
    lemma_aligned_peek_round_trip(v, k, 8, value as nat);
}

/// Round trip of strings: at a byte boundary, `read_string` over the UTF-8 bytes of a
/// string returns that string and leaves the cursor behind those bytes.
pub proof fn lemma_read_string_round_trip(v: ReaderView, k: nat, text: Seq<char>)
    requires
        v.position == 8 * k,
        k + encode_utf8(text).len() <= v.bytes.len(),
        v.bytes.subrange(k as int, (k + encode_utf8(text).len()) as int) == encode_utf8(text),
    ensures
        v.read_string(encode_utf8(text).len()) == Ok::<Seq<char>, BitreadError>(text),
        v.after(8 * encode_utf8(text).len()).position == 8 * (k + encode_utf8(text).len()),
{
    let count = encode_utf8(text).len();
    lemma_aligned_bytes(v.bytes, k as int, count);
    encode_utf8_valid_utf8(text);
    encode_utf8_decode_utf8(text);
}

} // verus!
