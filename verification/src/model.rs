//! The mathematical model: the bits of a byte sequence, and the abstract state of a reader
//! with the outcome of each operation on it.

use vstd::prelude::*;
use vstd::utf8::{decode_utf8, valid_utf8};

use crate::errors::BitreadError;

verus! {

/// Two to the power 64, one more than the largest `u64`.
pub open spec fn two_pow_64() -> nat {
    0x1_0000_0000_0000_0000
}

/// Bit `i` of `bytes`, as 0 or 1. Bits are counted from the most significant bit of the
/// first byte, so bit `i` lies in byte `i / 8`, `7 - i % 8` places above its lowest bit.
pub open spec fn bit_at(bytes: Seq<u8>, i: int) -> nat
    recommends
        0 <= i < 8 * bytes.len(),
{
    ((bytes[i / 8] >> ((7 - i % 8) as u8)) & 1) as nat
}

/// The number spelled by the `size` bits from bit `start` on, the first of them being the
/// most significant.
pub open spec fn bits_value(bytes: Seq<u8>, start: int, size: nat) -> nat
    recommends
        0 <= start,
        start + size <= 8 * bytes.len(),
    decreases size,
{
    if size == 0 {
        0
    } else {
        2 * bits_value(bytes, start, (size - 1) as nat) + bit_at(bytes, start + size - 1)
    }
}

/// The `count` bytes spelled by the consecutive groups of eight bits from bit `start` on.
/// `start` need not be a multiple of eight.
pub open spec fn bytes_value(bytes: Seq<u8>, start: int, count: nat) -> Seq<u8>
    recommends
        0 <= start,
        start + 8 * count <= 8 * bytes.len(),
{
    Seq::new(count, |k: int| bits_value(bytes, start + 8 * k, 8) as u8)
}

/// The number that `bytes` spell in base 256, the first byte being the most significant.
pub open spec fn be_value(bytes: Seq<u8>) -> nat
    decreases bytes.len(),
{
    if bytes.len() == 0 {
        0
    } else {
        256 * be_value(bytes.drop_last()) + bytes.last() as nat
    }
}

/// The `count` bytes that spell `value` in base 256, the first byte being the most
/// significant. Digits above the first `count` are dropped.
pub open spec fn be_bytes(value: nat, count: nat) -> Seq<u8>
    decreases count,
{
    if count == 0 {
        Seq::empty()
    } else {
        be_bytes(value / 256, (count - 1) as nat).push((value % 256) as u8)
    }
}

/// The abstract state of a reader: the buffer it borrows and its cursor, in bits from the
/// start of the buffer.
pub struct ReaderView {
    pub bytes: Seq<u8>,
    pub position: nat,
}

impl ReaderView {
    /// The number of bits in the buffer.
    pub open spec fn length(self) -> nat {
        8 * self.bytes.len()
    }

    /// The cursor lies within the buffer or at its end.
    pub open spec fn wf(self) -> bool {
        self.position <= self.length()
    }

    /// `bits` more bits can be consumed without leaving the buffer.
    pub open spec fn fits(self, bits: nat) -> bool {
        self.position + bits <= self.length()
    }

    /// The same buffer with the cursor `bits` further on.
    pub open spec fn advance(self, bits: nat) -> ReaderView {
        ReaderView { bytes: self.bytes, position: self.position + bits }
    }

    /// The state that a request for `bits` bits leaves behind: the cursor has moved past
    /// them if they fit, and has not moved at all if they do not.
    pub open spec fn after(self, bits: nat) -> ReaderView {
        if self.fits(bits) {
            self.advance(bits)
        } else {
            self
        }
    }

    /// The number spelled by the next `size` bits.
    pub open spec fn peek(self, size: nat) -> nat
        recommends
            self.fits(size),
    {
        bits_value(self.bytes, self.position as int, size)
    }

    /// The next `count` bytes, eight bits each, from wherever the cursor stands.
    pub open spec fn peek_bytes(self, count: nat) -> Seq<u8>
        recommends
            self.fits(8 * count),
    {
        bytes_value(self.bytes, self.position as int, count)
    }

    /// What skipping `bits` bits returns.
    pub open spec fn skip_bits(self, bits: nat) -> Result<(), BitreadError> {
        if self.fits(bits) {
            Ok(())
        } else {
            Err(BitreadError::BufferExceeded)
        }
    }

    /// What reading `size` bits returns: the number they spell, reduced modulo two to the
    /// power 64. For `size <= 64` the reduction changes nothing.
    pub open spec fn read_bits(self, size: nat) -> Result<u64, BitreadError> {
        if self.fits(size) {
            Ok((self.peek(size) % two_pow_64()) as u64)
        } else {
            Err(BitreadError::BufferExceeded)
        }
    }

    /// What reading an 8-bit unsigned integer returns.
    pub open spec fn read_u8(self) -> Result<u8, BitreadError> {
        if self.fits(8) {
            Ok(self.peek(8) as u8)
        } else {
            Err(BitreadError::BufferExceeded)
        }
    }

    /// What reading a 16-bit unsigned integer returns.
    pub open spec fn read_u16(self) -> Result<u16, BitreadError> {
        if self.fits(16) {
            Ok(self.peek(16) as u16)
        } else {
            Err(BitreadError::BufferExceeded)
        }
    }

    /// What reading a 32-bit unsigned integer returns.
    pub open spec fn read_u32(self) -> Result<u32, BitreadError> {
        if self.fits(32) {
            Ok(self.peek(32) as u32)
        } else {
            Err(BitreadError::BufferExceeded)
        }
    }

    /// What reading a 64-bit unsigned integer returns.
    pub open spec fn read_u64(self) -> Result<u64, BitreadError> {
        if self.fits(64) {
            Ok(self.peek(64) as u64)
        } else {
            Err(BitreadError::BufferExceeded)
        }
    }

    /// What reading a string of `count` bytes returns, as the characters of the string.
    /// All `count` bytes must be there before any is consumed; they are decoded only after
    /// that.
    pub open spec fn read_string(self, count: nat) -> Result<Seq<char>, BitreadError> {
        if !self.fits(8 * count) {
            Err(BitreadError::BufferExceeded)
        } else if valid_utf8(self.peek_bytes(count)) {
            Ok(decode_utf8(self.peek_bytes(count)))
        } else {
            Err(BitreadError::InvalidEncoding)
        }
    }
}

} // verus!
