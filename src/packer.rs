//! Big-endian cursors over caller-owned byte buffers.
use vstd::prelude::*;

use crate::error::{DecodeError, EncodeError};

verus! {

/// The two bytes of `v`, most significant first.
pub open spec fn be_u16_bytes(v: u16) -> Seq<u8> {
    seq![(v >> 8u16) as u8, v as u8]
}

/// The four bytes of `v`, most significant first.
pub open spec fn be_u32_bytes(v: u32) -> Seq<u8> {
    seq![(v >> 24u32) as u8, (v >> 16u32) as u8, (v >> 8u32) as u8, v as u8]
}

/// The four bytes of `v` in two's complement, most significant first.
pub open spec fn be_i32_bytes(v: i32) -> Seq<u8> {
    be_u32_bytes(v as u32)
}

/// The two bytes of `v` in two's complement, most significant first.
pub open spec fn be_i16_bytes(v: i16) -> Seq<u8> {
    be_u16_bytes(v as u16)
}

/// The unsigned value of two big-endian bytes.
pub open spec fn be_u16_value(b: Seq<u8>) -> u16
    recommends
        b.len() == 2,
{
    ((b[0] as u16) << 8u16) | (b[1] as u16)
}

/// The unsigned value of four big-endian bytes.
pub open spec fn be_u32_value(b: Seq<u8>) -> u32
    recommends
        b.len() == 4,
{
    ((b[0] as u32) << 24u32) | ((b[1] as u32) << 16u32) | ((b[2] as u32) << 8u32) | (b[3] as u32)
}

/// The two's complement value of two big-endian bytes.
pub open spec fn be_i16_value(b: Seq<u8>) -> i16
    recommends
        b.len() == 2,
{
    be_u16_value(b) as i16
}

/// The two's complement value of four big-endian bytes.
pub open spec fn be_i32_value(b: Seq<u8>) -> i32
    recommends
        b.len() == 4,
{
    be_u32_value(b) as i32
}

/// `s` with the bytes from `at` on replaced by `bytes`.
pub open spec fn splice(s: Seq<u8>, at: int, bytes: Seq<u8>) -> Seq<u8> {
    s.subrange(0, at) + bytes + s.subrange(at + bytes.len(), s.len() as int)
}

/// Reading back what was written gives the value again, for every width.
pub proof fn lemma_be_round_trip(a: u16, b: u32, c: i16, d: i32)
    ensures
        be_u16_value(be_u16_bytes(a)) == a,
        be_u32_value(be_u32_bytes(b)) == b,
        be_i16_value(be_i16_bytes(c)) == c,
        be_i32_value(be_i32_bytes(d)) == d,
{
    lemma_u16_round_trip(a);
    lemma_u32_round_trip(b);
    lemma_u16_round_trip(c as u16);
    lemma_u32_round_trip(d as u32);
    assert((c as u16) as i16 == c) by (bit_vector);
    assert((d as u32) as i32 == d) by (bit_vector);
}

proof fn lemma_u16_round_trip(v: u16)
    ensures
        be_u16_value(be_u16_bytes(v)) == v,
{
    let b0 = (v >> 8u16) as u8;
    let b1 = v as u8;
    assert(((b0 as u16) << 8u16) | (b1 as u16) == v) by (bit_vector)
        requires
            b0 == (v >> 8u16) as u8,
            b1 == v as u8,
    ;
}

proof fn lemma_u32_round_trip(v: u32)
    ensures
        be_u32_value(be_u32_bytes(v)) == v,
{
    let b0 = (v >> 24u32) as u8;
    let b1 = (v >> 16u32) as u8;
    let b2 = (v >> 8u32) as u8;
    let b3 = v as u8;
    assert(((b0 as u32) << 24u32) | ((b1 as u32) << 16u32) | ((b2 as u32) << 8u32) | (b3 as u32)
        == v) by (bit_vector)
        requires
            b0 == (v >> 24u32) as u8,
            b1 == (v >> 16u32) as u8,
            b2 == (v >> 8u32) as u8,
            b3 == v as u8,
    ;
}

/// A write-only cursor: packs big-endian integers into `buf` from `pos` on.
pub struct Packer<'a> {
    pub buf: &'a mut [u8],
    pub pos: usize,
}

impl<'a> Packer<'a> {
    /// The bytes a successful write of `bytes` leaves in the buffer.
    pub open spec fn written(&self, bytes: Seq<u8>) -> Seq<u8> {
        splice(self.buf@, self.pos as int, bytes)
    }

    /// Whether `n` more bytes fit after the cursor.
    pub open spec fn fits(&self, n: int) -> bool {
        self.pos + n <= self.buf@.len()
    }

    /// Starts a cursor at the beginning of `buf`.
    pub fn new(buf: &'a mut [u8]) -> (r: Self)
        ensures
            r.pos == 0,
            r.buf@ == old(buf)@,
            final(buf)@ == final(r.buf)@,
    {
        Packer { buf, pos: 0 }
    }

    /// Writes `value` in four big-endian bytes.
    pub fn pack_u32(&mut self, value: u32) -> (r: Result<(), EncodeError>)
        ensures
            final(final(self).buf)@ == final(old(self).buf)@,
            old(self).fits(4) ==> r is Ok && final(self).pos == old(self).pos + 4
                && final(self).buf@ == old(self).written(be_u32_bytes(value)),
            !old(self).fits(4) ==> r == Err::<(), EncodeError>(EncodeError::BufferTooSmall)
                && final(self).pos == old(self).pos && final(self).buf@ == old(self).buf@,
    {
        let bytes: [u8; 4] = [(value >> 24u32) as u8, (value >> 16u32) as u8, (value >> 8u32) as u8, value as u8];
        self.pack(&bytes)
    }

    /// Writes `value` in four big-endian bytes of two's complement.
    pub fn pack_i32(&mut self, value: i32) -> (r: Result<(), EncodeError>)
        ensures
            final(final(self).buf)@ == final(old(self).buf)@,
            old(self).fits(4) ==> r is Ok && final(self).pos == old(self).pos + 4
                && final(self).buf@ == old(self).written(be_i32_bytes(value)),
            !old(self).fits(4) ==> r == Err::<(), EncodeError>(EncodeError::BufferTooSmall)
                && final(self).pos == old(self).pos && final(self).buf@ == old(self).buf@,
    {
        self.pack_u32(value as u32)
    }

    /// Writes `value` in two big-endian bytes.
    pub fn pack_u16(&mut self, value: u16) -> (r: Result<(), EncodeError>)
        ensures
            final(final(self).buf)@ == final(old(self).buf)@,
            old(self).fits(2) ==> r is Ok && final(self).pos == old(self).pos + 2
                && final(self).buf@ == old(self).written(be_u16_bytes(value)),
            !old(self).fits(2) ==> r == Err::<(), EncodeError>(EncodeError::BufferTooSmall)
                && final(self).pos == old(self).pos && final(self).buf@ == old(self).buf@,
    {
        let bytes: [u8; 2] = [(value >> 8u16) as u8, value as u8];
        self.pack(&bytes)
    }

    /// Writes the single byte `value`.
    pub fn pack_u8(&mut self, value: u8) -> (r: Result<(), EncodeError>)
        ensures
            final(final(self).buf)@ == final(old(self).buf)@,
            old(self).fits(1) ==> r is Ok && final(self).pos == old(self).pos + 1
                && final(self).buf@ == old(self).written(seq![value]),
            !old(self).fits(1) ==> r == Err::<(), EncodeError>(EncodeError::BufferTooSmall)
                && final(self).pos == old(self).pos && final(self).buf@ == old(self).buf@,
    {
        let bytes: [u8; 1] = [value];
        self.pack(&bytes)
    }

    /// Copies `bytes` to the cursor and moves past them, or fails without
    /// writing anything.
    fn pack(&mut self, bytes: &[u8]) -> (r: Result<(), EncodeError>)
        ensures
            final(final(self).buf)@ == final(old(self).buf)@,
            old(self).fits(bytes@.len() as int) ==> r is Ok && final(self).pos == old(self).pos
                + bytes@.len() && final(self).buf@ == old(self).written(bytes@),
            !old(self).fits(bytes@.len() as int) ==> r == Err::<(), EncodeError>(
                EncodeError::BufferTooSmall,
            ) && final(self).pos == old(self).pos && final(self).buf@ == old(self).buf@,
    {
        let need = bytes.len();
        if self.pos > self.buf.len() || need > self.buf.len() - self.pos {
            return Err(EncodeError::BufferTooSmall);
        }
        let start = self.pos;
        let end = start + need;
        let mut i: usize = 0;
        while i < need
            invariant
                0 <= i <= need,
                need == bytes@.len(),
                start == old(self).pos,
                start + need == end,
                end <= self.buf@.len(),
                self.pos == start,
                self.buf@.len() == old(self).buf@.len(),
                self.buf@ == old(self).buf@.subrange(0, start as int) + bytes@.subrange(0, i as int)
                    + old(self).buf@.subrange(start + i, old(self).buf@.len() as int),
                final(self.buf)@ == final(old(self).buf)@,
            decreases need - i,
        {
            self.buf[start + i] = bytes[i];
            i = i + 1;
            assert(self.buf@ == old(self).buf@.subrange(0, start as int) + bytes@.subrange(0, i as int)
                + old(self).buf@.subrange(start + i, old(self).buf@.len() as int));
        }
        self.pos = end;
        assert(bytes@.subrange(0, need as int) == bytes@);
        Ok(())
    }
}

/// A read-only cursor: unpacks big-endian integers from `buf` from `pos` on.
pub struct Unpacker<'a> {
    pub buf: &'a [u8],
    pub pos: usize,
}

impl<'a> Unpacker<'a> {
    /// Whether `n` more bytes remain after the cursor.
    pub open spec fn has(&self, n: int) -> bool {
        self.pos + n <= self.buf@.len()
    }

    /// The `n` bytes after the cursor.
    pub open spec fn ahead(&self, n: int) -> Seq<u8> {
        self.buf@.subrange(self.pos as int, self.pos + n)
    }

    /// Starts a cursor at the beginning of `buf`.
    pub fn new(buf: &'a [u8]) -> (r: Self)
        ensures
            r.pos == 0,
            r.buf == buf,
    {
        Unpacker { buf, pos: 0 }
    }

    /// Reads four big-endian bytes as an unsigned integer.
    pub fn unpack_u32(&mut self) -> (r: Result<u32, DecodeError>)
        ensures
            final(self).buf == old(self).buf,
            old(self).has(4) ==> r == Ok::<u32, DecodeError>(be_u32_value(old(self).ahead(4)))
                && final(self).pos == old(self).pos + 4,
            !old(self).has(4) ==> r == Err::<u32, DecodeError>(DecodeError::IncompleteData)
                && final(self).pos == old(self).pos,
    {
        let b = self.consume(4)?;
        Ok(((b[0] as u32) << 24u32) | ((b[1] as u32) << 16u32) | ((b[2] as u32) << 8u32) | (
        b[3] as u32))
    }

    /// Reads four big-endian bytes as a two's complement integer.
    pub fn unpack_i32(&mut self) -> (r: Result<i32, DecodeError>)
        ensures
            final(self).buf == old(self).buf,
            old(self).has(4) ==> r == Ok::<i32, DecodeError>(be_i32_value(old(self).ahead(4)))
                && final(self).pos == old(self).pos + 4,
            !old(self).has(4) ==> r == Err::<i32, DecodeError>(DecodeError::IncompleteData)
                && final(self).pos == old(self).pos,
    {
        let v = self.unpack_u32()?;
        Ok(v as i32)
    }

    /// Reads two big-endian bytes as an unsigned integer.
    pub fn unpack_u16(&mut self) -> (r: Result<u16, DecodeError>)
        ensures
            final(self).buf == old(self).buf,
            old(self).has(2) ==> r == Ok::<u16, DecodeError>(be_u16_value(old(self).ahead(2)))
                && final(self).pos == old(self).pos + 2,
            !old(self).has(2) ==> r == Err::<u16, DecodeError>(DecodeError::IncompleteData)
                && final(self).pos == old(self).pos,
    {
        let b = self.consume(2)?;
        Ok(((b[0] as u16) << 8u16) | (b[1] as u16))
    }

    /// Reads two big-endian bytes as a two's complement integer.
    pub fn unpack_i16(&mut self) -> (r: Result<i16, DecodeError>)
        ensures
            final(self).buf == old(self).buf,
            old(self).has(2) ==> r == Ok::<i16, DecodeError>(be_i16_value(old(self).ahead(2)))
                && final(self).pos == old(self).pos + 2,
            !old(self).has(2) ==> r == Err::<i16, DecodeError>(DecodeError::IncompleteData)
                && final(self).pos == old(self).pos,
    {
        let v = self.unpack_u16()?;
        Ok(v as i16)
    }

    /// Reads one byte.
    pub fn unpack_u8(&mut self) -> (r: Result<u8, DecodeError>)
        ensures
            final(self).buf == old(self).buf,
            old(self).has(1) ==> r == Ok::<u8, DecodeError>(old(self).buf@[old(self).pos as int])
                && final(self).pos == old(self).pos + 1,
            !old(self).has(1) ==> r == Err::<u8, DecodeError>(DecodeError::IncompleteData)
                && final(self).pos == old(self).pos,
    {
        let b = self.consume(1)?;
        Ok(b[0])
    }

    /// Hands out the next `amount` bytes and moves past them, or fails
    /// without moving.
    fn consume(&mut self, amount: usize) -> (r: Result<&'a [u8], DecodeError>)
        ensures
            final(self).buf == old(self).buf,
            old(self).has(amount as int) ==> r is Ok && r->Ok_0@ == old(self).ahead(amount as int)
                && final(self).pos == old(self).pos + amount,
            !old(self).has(amount as int) ==> r == Err::<&'a [u8], DecodeError>(
                DecodeError::IncompleteData,
            ) && final(self).pos == old(self).pos,
    {
        if self.pos > self.buf.len() || amount > self.buf.len() - self.pos {
            return Err(DecodeError::IncompleteData);
        }
        let start = self.pos;
        self.pos = start + amount;
        Ok(vstd::slice::slice_subrange(self.buf, start, start + amount))
    }
}

} // verus!
