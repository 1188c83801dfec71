//! A read position over a byte slice, with little-endian integer reads.
//!
//! Reads behave as reads from an in-memory cursor: a read that asks for more
//! bytes than remain fails with an end-of-input error and leaves the position
//! at the end; a seek may move past the end, and the next read then fails.

use vstd::prelude::*;
use vstd::slice::{slice_subrange, slice_to_vec};
use byteorder::ByteOrder;
use crate::map::error::{ParseError, ParseErrorView, IoError, IoErrorView, eof};

verus! {

/// A value read at a position, with the position after it; or the error of the
/// read, with the position it leaves the reader at.
pub type Step<T> = Result<(T, int), (ParseErrorView, int)>;

/// The position a step leaves the reader at, whether it succeeds or fails.
pub open spec fn step_end<T>(s: Step<T>) -> int {
    match s {
        Ok((_, p)) => p,
        Err((_, p)) => p,
    }
}

/// The outcome of a step, without the position.
pub open spec fn outcome<T>(s: Step<T>) -> Result<T, ParseErrorView> {
    match s {
        Ok((v, _)) => Ok(v),
        Err((e, _)) => Err(e),
    }
}

/// A read past the end: the end-of-input error, the reader left at the end.
pub open spec fn past_end<T>(d: Seq<u8>) -> Step<T> {
    Err((eof(), d.len() as int))
}

/// Little-endian value of the first two bytes of `b`.
pub open spec fn le_u16_value(b: Seq<u8>) -> int {
    b[0] as int + b[1] as int * 0x100
}

/// Little-endian value of the first four bytes of `b`.
pub open spec fn le_u32_value(b: Seq<u8>) -> int {
    b[0] as int + b[1] as int * 0x100 + b[2] as int * 0x1_0000 + b[3] as int * 0x100_0000
}

/// Little-endian value of the first eight bytes of `b`.
pub open spec fn le_u64_value(b: Seq<u8>) -> int {
    le_u32_value(b) + le_u32_value(b.subrange(4, 8)) * 0x1_0000_0000
}

/// Whether `n` bytes can be read at `pos` from an input of `len` bytes.
pub open spec fn can_read(len: int, pos: int, n: int) -> bool {
    n == 0 || pos + n <= len
}

/// Reading `n` bytes at `pos`; a read past the end leaves the reader at the end.
pub open spec fn spec_read_bytes(d: Seq<u8>, pos: int, n: int) -> Step<Seq<u8>> {
    if n == 0 {
        Ok((Seq::empty(), pos))
    } else if pos + n <= d.len() {
        Ok((d.subrange(pos, pos + n), pos + n))
    } else {
        past_end(d)
    }
}

/// Reading one byte at `pos`.
pub open spec fn spec_read_u8(d: Seq<u8>, pos: int) -> Step<u8> {
    if 0 <= pos && pos + 1 <= d.len() {
        Ok((d[pos], pos + 1))
    } else {
        past_end(d)
    }
}

/// Reading a little-endian `u16` at `pos`.
pub open spec fn spec_read_u16(d: Seq<u8>, pos: int) -> Step<u16> {
    if 0 <= pos && pos + 2 <= d.len() {
        Ok((le_u16_value(d.subrange(pos, pos + 2)) as u16, pos + 2))
    } else {
        past_end(d)
    }
}

/// Reading a little-endian `u32` at `pos`.
pub open spec fn spec_read_u32(d: Seq<u8>, pos: int) -> Step<u32> {
    if 0 <= pos && pos + 4 <= d.len() {
        Ok((le_u32_value(d.subrange(pos, pos + 4)) as u32, pos + 4))
    } else {
        past_end(d)
    }
}

/// Reading a little-endian `u64` at `pos`.
pub open spec fn spec_read_u64(d: Seq<u8>, pos: int) -> Step<u64> {
    if 0 <= pos && pos + 8 <= d.len() {
        Ok((le_u64_value(d.subrange(pos, pos + 8)) as u64, pos + 8))
    } else {
        past_end(d)
    }
}

/// Moving the position `n` bytes forward: refused, the position unchanged, when
/// it would overflow.
pub open spec fn spec_skip(pos: int, n: int) -> Step<()> {
    if pos + n <= u64::MAX {
        Ok(((), pos + n))
    } else {
        Err((ParseErrorView::Io(IoErrorView::InvalidSeek), pos))
    }
}

/// `byteorder::LittleEndian::read_u16`: the first two bytes of `buf`, least
/// significant first. It panics on fewer than two bytes, which `requires` rules out.
#[verifier::external_body]
fn le_u16(buf: &[u8]) -> (r: u16)
    requires
        buf@.len() >= 2,
    ensures
        r as int == le_u16_value(buf@),
{
    byteorder::LittleEndian::read_u16(buf)
}

/// `byteorder::LittleEndian::read_u32`: the first four bytes of `buf`, least
/// significant first. It panics on fewer than four bytes, which `requires` rules out.
#[verifier::external_body]
fn le_u32(buf: &[u8]) -> (r: u32)
    requires
        buf@.len() >= 4,
    ensures
        r as int == le_u32_value(buf@),
{
    byteorder::LittleEndian::read_u32(buf)
}

/// `byteorder::LittleEndian::read_u64`: the first eight bytes of `buf`, least
/// significant first. It panics on fewer than eight bytes, which `requires` rules out.
#[verifier::external_body]
fn le_u64(buf: &[u8]) -> (r: u64)
    requires
        buf@.len() >= 8,
    ensures
        r as int == le_u64_value(buf@),
{
    byteorder::LittleEndian::read_u64(buf)
}

/// A read position over a byte slice.
pub struct ByteReader<'a> {
    pub data: &'a [u8],
    pub pos: u64,
}

impl<'a> ByteReader<'a> {
    pub fn new(data: &'a [u8]) -> (r: Self)
        ensures
            r.data@ == data@,
            r.pos == 0,
    {
        ByteReader { data, pos: 0 }
    }

    /// Read the next `n` bytes.
    pub fn read_exact(&mut self, n: u64) -> (r: Result<Vec<u8>, ParseError>)
        ensures
            final(self).data@ == old(self).data@,
            match spec_read_bytes(old(self).data@, old(self).pos as int, n as int) {
                Ok((v, p)) => r matches Ok(b) && b@ == v && final(self).pos == p,
                Err((e, p)) => r matches Err(err) && err@ == e && final(self).pos == p,
            },
    {
        if n == 0 {
            return Ok(Vec::new());
        }
        let len = self.data.len() as u64;
        if self.pos <= len && n <= len - self.pos {
            let start = self.pos as usize;
            let end = (self.pos + n) as usize;
            let v = slice_to_vec(slice_subrange(self.data, start, end));
            self.pos = self.pos + n;
            Ok(v)
        } else {
            self.pos = len;
            Err(ParseError::Io(IoError::UnexpectedEof))
        }
    }

    pub fn read_u8(&mut self) -> (r: Result<u8, ParseError>)
        ensures
            final(self).data@ == old(self).data@,
            match spec_read_u8(old(self).data@, old(self).pos as int) {
                Ok((v, p)) => r matches Ok(x) && x == v && final(self).pos == p,
                Err((e, p)) => r matches Err(err) && err@ == e && final(self).pos == p,
            },
    {
        let b = self.read_exact(1)?;
        Ok(b[0])
    }

    pub fn read_u16(&mut self) -> (r: Result<u16, ParseError>)
        ensures
            final(self).data@ == old(self).data@,
            match spec_read_u16(old(self).data@, old(self).pos as int) {
                Ok((v, p)) => r matches Ok(x) && x == v && final(self).pos == p,
                Err((e, p)) => r matches Err(err) && err@ == e && final(self).pos == p,
            },
    {
        let b = self.read_exact(2)?;
        Ok(le_u16(b.as_slice()))
    }

    pub fn read_u32(&mut self) -> (r: Result<u32, ParseError>)
        ensures
            final(self).data@ == old(self).data@,
            match spec_read_u32(old(self).data@, old(self).pos as int) {
                Ok((v, p)) => r matches Ok(x) && x == v && final(self).pos == p,
                Err((e, p)) => r matches Err(err) && err@ == e && final(self).pos == p,
            },
    {
        let b = self.read_exact(4)?;
        Ok(le_u32(b.as_slice()))
    }

    pub fn read_u64(&mut self) -> (r: Result<u64, ParseError>)
        ensures
            final(self).data@ == old(self).data@,
            match spec_read_u64(old(self).data@, old(self).pos as int) {
                Ok((v, p)) => r matches Ok(x) && x == v && final(self).pos == p,
                Err((e, p)) => r matches Err(err) && err@ == e && final(self).pos == p,
            },
    {
        let b = self.read_exact(8)?;
        Ok(le_u64(b.as_slice()))
    }

    /// Move the position `n` bytes forward, past the end if need be.
    pub fn skip(&mut self, n: u64) -> (r: Result<(), ParseError>)
        ensures
            final(self).data@ == old(self).data@,
            match spec_skip(old(self).pos as int, n as int) {
                Ok((_, p)) => r is Ok && final(self).pos == p,
                Err((e, p)) => r matches Err(err) && err@ == e && final(self).pos == p,
            },
    {
        if n <= u64::MAX - self.pos {
            self.pos = self.pos + n;
            Ok(())
        } else {
            Err(ParseError::Io(IoError::InvalidSeek))
        }
    }

    /// Move to the absolute position `p`, past the end if need be.
    pub fn seek_to(&mut self, p: u64)
        ensures
            final(self).data@ == old(self).data@,
            final(self).pos == p,
    {
        self.pos = p;
    }
}

} // verus!
