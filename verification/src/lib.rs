//! A cursor over a borrowed byte buffer that hands out its bits, most significant bit first.

use vstd::prelude::*;

pub mod bits;
pub mod errors;
pub mod laws;
pub mod model;
pub mod utf8;

use crate::bits::{lemma_bit_at_range, lemma_bits_value_bound, lemma_mod_step, lemma_shift_in_bit};
use crate::errors::BitreadError;
use crate::model::{bit_at, bits_value, two_pow_64, ReaderView};

verus! {

/// A sequential reader of bits over a borrowed, immutable byte buffer.
///
/// The reader keeps a cursor, counted in bits from the start of the buffer, and the number
/// of bits the buffer holds. The cursor never leaves the buffer and never moves backwards.
pub struct Bitreader<'a> {
    buffer: &'a [u8],
    position: u64,
    length: u64,
}

impl<'a> View for Bitreader<'a> {
    type V = ReaderView;

    closed spec fn view(&self) -> ReaderView {
        ReaderView { bytes: self.buffer@, position: self.position as nat }
    }
}

impl<'a> Bitreader<'a> {
    #[verifier::type_invariant]
    spec fn inv(self) -> bool {
        &&& self.length == 8 * self.buffer@.len()
        &&& self.position <= self.length
    }

    /// A reader at the first bit of `bytes`. The number of bits in `bytes` must fit in a
    /// `u64`.
    pub fn new(bytes: &'a [u8]) -> (reader: Bitreader<'a>)
        requires
            8 * bytes@.len() <= u64::MAX,
        ensures
            reader@ == (ReaderView { bytes: bytes@, position: 0 }),
            reader@.wf(),
    {
        Bitreader { buffer: bytes, position: 0, length: bytes.len() as u64 * 8 }
    }

    /// The cursor: the number of bits consumed so far. It never exceeds `length`.
    pub fn position(&self) -> (position: u64)
        ensures
            position == self@.position,
            self@.wf(),
    {
        proof {
            use_type_invariant(self);
        }
        self.position
    }

    /// The number of bits in the buffer: eight for each of its bytes.
    pub fn length(&self) -> (length: u64)
        ensures
            length == self@.length(),
            self@.wf(),
    {
        proof {
            use_type_invariant(self);
        }
        self.length
    }

    /// Reads the next `size` bits as one number, the first bit read being its most
    /// significant, and moves the cursor past them. Of more than 64 bits the last 64 are
    /// kept. Fails, leaving the cursor where it was, if fewer than `size` bits remain.
    pub fn read_bits(&mut self, size: u8) -> (res: Result<u64, BitreadError>)
        ensures
            res == old(self)@.read_bits(size as nat),
            final(self)@ == old(self)@.after(size as nat),
            final(self)@.wf(),
            size <= 64 ==> (res matches Ok(v) ==> v == old(self)@.peek(size as nat)),
    {
        proof {
            use_type_invariant(&*self);
        }
        let mut value: u64 = 0;
        let start_pos = self.position;
        if size as u64 > self.length - start_pos {
            return Err(BitreadError::BufferExceeded);
        }
        let end_pos = start_pos + size as u64;

        for i in start_pos..end_pos
            invariant
                start_pos <= end_pos <= self.length,
                self.length == 8 * self.buffer@.len(),
                value == bits_value(self.buffer@, start_pos as int, (i - start_pos) as nat)
                    % two_pow_64(),
        {
            let index = (i / 8) as usize;
            let byte = self.buffer[index];
            let shift = 7 - (i % 8);
            let bit = (byte >> shift) as u64 & 1;
            proof {
                let seen = bits_value(self.buffer@, start_pos as int, (i - start_pos) as nat);
                assert(bit == bit_at(self.buffer@, i as int)) by {
                    let s = shift as u8;
                    assert((byte >> shift) as u64 & 1 == ((byte >> s) & 1) as u64) by (bit_vector)
                        requires
                            shift < 8,
                            s == shift,
                    ;
                }
                lemma_bit_at_range(self.buffer@, i as int);
                lemma_shift_in_bit(value, bit);
                lemma_mod_step(seen, bit as nat);
            }
            value = (value << 1) | bit;
        }

        proof {
            lemma_bits_value_bound(self.buffer@, start_pos as int, size as nat);
            if size < 64 {
                vstd::arithmetic::power2::lemma_pow2_strictly_increases(size as nat, 64);
            }
            vstd::arithmetic::power2::lemma2_to64();
        }
        self.position = end_pos;
        Ok(value)
    }

    /// Reads the next `byte_size` bytes, eight bits each, and decodes them as UTF-8.
    ///
    /// All the bytes must be there before any is consumed: if fewer than `8 * byte_size`
    /// bits remain, the read fails with `BufferExceeded` and the cursor stays where it was.
    /// Bytes that are not valid UTF-8 fail with `InvalidEncoding` after the cursor has moved
    /// past them.
    pub fn read_string(&mut self, byte_size: u8) -> (res: Result<String, BitreadError>)
        ensures
            match res {
                Ok(text) => old(self)@.read_string(byte_size as nat) == Ok::<
                    Seq<char>,
                    BitreadError,
                >(text@),
                Err(error) => old(self)@.read_string(byte_size as nat) == Err::<
                    Seq<char>,
                    BitreadError,
                >(error),
            },
            final(self)@ == old(self)@.after(8 * byte_size as nat),
            final(self)@.wf(),
    {
        proof {
            use_type_invariant(&*self);
        }
        if 8 * (byte_size as u64) > self.length - self.position {
            return Err(BitreadError::BufferExceeded);
        }
        let mut bytes: Vec<u8> = Vec::new();
        for k in 0..byte_size
            invariant
                self@ == old(self)@.advance(8 * k as nat),
                old(self)@.fits(8 * byte_size as nat),
                bytes@ == old(self)@.peek_bytes(k as nat),
        {
            let byte = self.read_bits(8)?;
            proof {
                lemma_bits_value_bound(old(self)@.bytes, old(self)@.position + 8 * k, 8);
                vstd::arithmetic::power2::lemma2_to64();
            }
            bytes.push(byte as u8);
        }
        match String::from_utf8(bytes) {
            Ok(v) => Ok(v),
            Err(_) => Err(BitreadError::InvalidEncoding),
        }
    }

    /// Reads the next 8 bits as an unsigned integer.
    pub fn read_u8(&mut self) -> (res: Result<u8, BitreadError>)
        ensures
            res == old(self)@.read_u8(),
            final(self)@ == old(self)@.after(8),
            final(self)@.wf(),
    {
        let value = self.read_bits(8)?;
        proof {
            lemma_bits_value_bound(old(self)@.bytes, old(self)@.position as int, 8);
            vstd::arithmetic::power2::lemma2_to64();
        }
        Ok(value as u8)
    }

    /// Reads the next 16 bits as an unsigned integer, most significant bit first.
    pub fn read_u16(&mut self) -> (res: Result<u16, BitreadError>)
        ensures
            res == old(self)@.read_u16(),
            final(self)@ == old(self)@.after(16),
            final(self)@.wf(),
    {
        let value = self.read_bits(16)?;
        proof {
            lemma_bits_value_bound(old(self)@.bytes, old(self)@.position as int, 16);
            vstd::arithmetic::power2::lemma2_to64();
        }
        Ok(value as u16)
    }

    /// Reads the next 32 bits as an unsigned integer, most significant bit first.
    pub fn read_u32(&mut self) -> (res: Result<u32, BitreadError>)
        ensures
            res == old(self)@.read_u32(),
            final(self)@ == old(self)@.after(32),
            final(self)@.wf(),
    {
        let value = self.read_bits(32)?;
        proof {
            lemma_bits_value_bound(old(self)@.bytes, old(self)@.position as int, 32);
            vstd::arithmetic::power2::lemma2_to64();
        }
        Ok(value as u32)
    }

    /// Reads the next 64 bits as an unsigned integer, most significant bit first.
    pub fn read_u64(&mut self) -> (res: Result<u64, BitreadError>)
        ensures
            res == old(self)@.read_u64(),
            final(self)@ == old(self)@.after(64),
            final(self)@.wf(),
    {
        let value = self.read_bits(64)?;
        Ok(value)
    }

    /// Moves the cursor `num_bits` bits on without reading them. Fails, leaving the cursor
    /// where it was, if fewer than `num_bits` bits remain.
    pub fn skip_bits(&mut self, num_bits: u8) -> (res: Result<(), BitreadError>)
        ensures
            res == old(self)@.skip_bits(num_bits as nat),
            final(self)@ == old(self)@.after(num_bits as nat),
            final(self)@.wf(),
    {
        proof {
            use_type_invariant(&*self);
        }
        if num_bits as u64 > self.length - self.position {
            return Err(BitreadError::BufferExceeded);
        }
        self.position = self.position + num_bits as u64;
        Ok(())
    }
}

} // verus!
