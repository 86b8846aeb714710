//! A seekable read cursor over bytes held in memory, with little-endian reads.
use vstd::prelude::*;

use crate::{IoErrorKind, ZipError};

verus! {

/// The 16-bit little-endian integer stored at `s[i..i + 2]`.
pub open spec fn u16_le(s: Seq<u8>, i: int) -> u16 {
    (s[i] as int + s[i + 1] as int * 0x100) as u16
}

/// The 32-bit little-endian integer stored at `s[i..i + 4]`.
pub open spec fn u32_le(s: Seq<u8>, i: int) -> u32 {
    (s[i] as int + s[i + 1] as int * 0x100 + s[i + 2] as int * 0x1_0000 + s[i + 3] as int
        * 0x100_0000) as u32
}

/// The error of a read that runs past the end of the bytes.
pub open spec fn eof() -> ZipError {
    ZipError::IOError(IoErrorKind::UnexpectedEof)
}

/// Bytes and a read position, which may lie past the end of the bytes.
pub struct ByteCursor {
    pub data: Vec<u8>,
    pub pos: u64,
}

impl ByteCursor {
    /// A cursor at the start of `data`.
    pub fn new(data: Vec<u8>) -> (r: ByteCursor)
        ensures
            r.data@ == data@,
            r.pos == 0,
    {
        ByteCursor { data, pos: 0 }
    }

    pub fn position(&self) -> (r: u64)
        ensures
            r == self.pos,
    {
        self.pos
    }

    pub fn len(&self) -> (r: usize)
        ensures
            r == self.data@.len(),
    {
        self.data.len()
    }

    /// Moves the read position to `pos`, counted from the start.
    pub fn seek(&mut self, pos: u64)
        ensures
            final(self).data@ == old(self).data@,
            final(self).pos == pos,
    {
        self.pos = pos;
    }

    /// Moves the read position back to the start.
    pub fn rewind(&mut self)
        ensures
            final(self).data@ == old(self).data@,
            final(self).pos == 0,
    {
        self.pos = 0;
    }

    /// Whether `n` bytes can be read at the current position.
    pub open spec fn has(&self, n: int) -> bool {
        self.pos + n <= self.data@.len()
    }

    /// Reads one byte.
    pub fn read_u8(&mut self) -> (r: Result<u8, ZipError>)
        ensures
            final(self).data@ == old(self).data@,
            old(self).has(1) ==> r == Ok::<u8, ZipError>(old(self).data@[old(self).pos as int])
                && final(self).pos == old(self).pos + 1,
            !old(self).has(1) ==> r == Err::<u8, ZipError>(eof()) && final(self).pos == old(
                self,
            ).pos,
    {
        if self.pos >= self.data.len() as u64 {
            return Err(ZipError::IOError(IoErrorKind::UnexpectedEof));
        }
        let b = self.data[self.pos as usize];
        self.pos = self.pos + 1;
        Ok(b)
    }

    /// Reads a 16-bit little-endian integer.
    pub fn read_u16(&mut self) -> (r: Result<u16, ZipError>)
        ensures
            final(self).data@ == old(self).data@,
            old(self).has(2) ==> r == Ok::<u16, ZipError>(
                u16_le(old(self).data@, old(self).pos as int),
            ) && final(self).pos == old(self).pos + 2,
            !old(self).has(2) ==> r == Err::<u16, ZipError>(eof()) && final(self).pos == old(
                self,
            ).pos,
    {
        let len = self.data.len() as u64;
        if self.pos > len || len - self.pos < 2 {
            return Err(ZipError::IOError(IoErrorKind::UnexpectedEof));
        }
        let i = self.pos as usize;
        let v = self.data[i] as u16 + self.data[i + 1] as u16 * 0x100;
        self.pos = self.pos + 2;
        Ok(v)
    }

    /// Reads a 32-bit little-endian integer.
    pub fn read_u32(&mut self) -> (r: Result<u32, ZipError>)
        ensures
            final(self).data@ == old(self).data@,
            old(self).has(4) ==> r == Ok::<u32, ZipError>(
                u32_le(old(self).data@, old(self).pos as int),
            ) && final(self).pos == old(self).pos + 4,
            !old(self).has(4) ==> r == Err::<u32, ZipError>(eof()) && final(self).pos == old(
                self,
            ).pos,
    {
        let len = self.data.len() as u64;
        if self.pos > len || len - self.pos < 4 {
            return Err(ZipError::IOError(IoErrorKind::UnexpectedEof));
        }
        let i = self.pos as usize;
        let v = self.data[i] as u32 + self.data[i + 1] as u32 * 0x100 + self.data[i + 2] as u32
            * 0x1_0000 + self.data[i + 3] as u32 * 0x100_0000;
        self.pos = self.pos + 4;
        Ok(v)
    }

    /// Reads exactly `n` bytes.
    pub fn read_bytes(&mut self, n: usize) -> (r: Result<Vec<u8>, ZipError>)
        ensures
            final(self).data@ == old(self).data@,
            old(self).has(n as int) ==> r is Ok && r->Ok_0@ == old(self).data@.subrange(
                old(self).pos as int,
                old(self).pos + n,
            ) && final(self).pos == old(self).pos + n,
            !old(self).has(n as int) ==> r == Err::<Vec<u8>, ZipError>(eof()) && final(self).pos
                == old(self).pos,
    {
        let len = self.data.len() as u64;
        if self.pos > len || len - self.pos < n as u64 {
            return Err(ZipError::IOError(IoErrorKind::UnexpectedEof));
        }
        let start = self.pos as usize;
        let total = self.data.len();
        let mut out: Vec<u8> = Vec::with_capacity(n);
        let mut i: usize = 0;
        while i < n
            invariant
                total == self.data@.len(),
                start + n <= total,
                i <= n,
                out@ == self.data@.subrange(start as int, start + i),
            decreases n - i,
        {
            out.push(self.data[start + i]);
            i = i + 1;
            assert(out@ =~= self.data@.subrange(start as int, start + i));
        }
        self.pos = self.pos + n as u64;
        Ok(out)
    }
}

} // verus!
