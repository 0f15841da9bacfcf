//! A read position over a byte buffer.

use crate::bytes::{decode_text, decode_u16, decode_u32, decode_u64};
use crate::bytes::{le_u16, le_u32, le_u64, prefixed_text};
use crate::pak::PakError;
use vstd::prelude::*;
use vstd::slice::{slice_subrange, slice_to_vec};

verus! {

/// A cursor over a borrowed buffer. The position may be set anywhere, also
/// past the end. A read that asks for more bytes than are left fails and
/// leaves the cursor where it was; a read of no bytes asks for nothing and
/// succeeds wherever the cursor stands.
pub struct IoHelper<'a> {
    buf: &'a Vec<u8>,
    pos: u64,
}

impl<'a> IoHelper<'a> {
    /// The bytes under the cursor.
    pub closed spec fn data(&self) -> Seq<u8> {
        self.buf@
    }

    /// The current position.
    pub closed spec fn offset(&self) -> nat {
        self.pos as nat
    }

    /// Whether `n` bytes are left at the current position.
    pub open spec fn holds(&self, n: int) -> bool {
        self.offset() + n <= self.data().len()
    }

    /// The `n` bytes at the current position; none for `n == 0`, wherever
    /// the cursor stands.
    pub open spec fn span(&self, n: int) -> Seq<u8> {
        if n == 0 {
            Seq::empty()
        } else {
            self.data().subrange(self.offset() as int, self.offset() + n)
        }
    }

    /// Whether `self` is `before` moved forward by `n` bytes.
    pub open spec fn follows(&self, before: &Self, n: int) -> bool {
        self.data() == before.data() && self.offset() == before.offset() + n
    }

    /// A cursor at the start of `buf`.
    pub fn new(buf: &'a Vec<u8>) -> (r: IoHelper<'a>)
        ensures
            r.data() == buf@,
            r.offset() == 0,
    {
        IoHelper { buf, pos: 0 }
    }

    /// Moves the cursor to the absolute position `i`, which need not lie
    /// inside the buffer.
    pub fn seek(&mut self, i: u64)
        ensures
            final(self).data() == old(self).data(),
            final(self).offset() == i,
    {
        self.pos = i;
    }

    /// The current position.
    pub fn tell(&mut self) -> (r: u64)
        ensures
            r == old(self).offset(),
            final(self).follows(old(self), 0),
    {
        self.pos
    }

    fn has(&self, n: usize) -> (b: bool)
        ensures
            b == self.holds(n as int),
            b ==> self.offset() + n <= usize::MAX,
    {
        let len: u64 = self.buf.len() as u64;
        self.pos <= len && n as u64 <= len - self.pos
    }

    /// Reads one byte.
    pub fn read_u8(&mut self) -> (r: Result<u8, PakError>)
        ensures
            match r {
                Ok(v) => old(self).holds(1) && v == old(self).data()[old(self).offset() as int]
                    && final(self).follows(old(self), 1),
                Err(e) => e == PakError::TruncatedInput && !old(self).holds(1) && final(self).follows(old(self), 0),
            },
    {
        if !self.has(1) {
            return Err(PakError::TruncatedInput);
        }
        let v: u8 = self.buf[self.pos as usize];
        self.pos = self.pos + 1;
        Ok(v)
    }

    /// Reads a little-endian 16-bit integer.
    pub fn read_u16(&mut self) -> (r: Result<u16, PakError>)
        ensures
            match r {
                Ok(v) => old(self).holds(2) && v == le_u16(old(self).data(), old(self).offset() as int)
                    && final(self).follows(old(self), 2),
                Err(e) => e == PakError::TruncatedInput && !old(self).holds(2) && final(self).follows(old(self), 0),
            },
    {
        if !self.has(2) {
            return Err(PakError::TruncatedInput);
        }
        let at: usize = self.pos as usize;
        let v: u16 = decode_u16(slice_subrange(self.buf.as_slice(), at, at + 2));
        self.pos = self.pos + 2;
        Ok(v)
    }

    /// Reads a little-endian 32-bit integer.
    pub fn read_u32(&mut self) -> (r: Result<u32, PakError>)
        ensures
            match r {
                Ok(v) => old(self).holds(4) && v == le_u32(old(self).data(), old(self).offset() as int)
                    && final(self).follows(old(self), 4),
                Err(e) => e == PakError::TruncatedInput && !old(self).holds(4) && final(self).follows(old(self), 0),
            },
    {
        if !self.has(4) {
            return Err(PakError::TruncatedInput);
        }
        let at: usize = self.pos as usize;
        let v: u32 = decode_u32(slice_subrange(self.buf.as_slice(), at, at + 4));
        self.pos = self.pos + 4;
        Ok(v)
    }

    /// Reads a little-endian 64-bit integer.
    pub fn read_u64(&mut self) -> (r: Result<u64, PakError>)
        ensures
            match r {
                Ok(v) => old(self).holds(8) && v == le_u64(old(self).data(), old(self).offset() as int)
                    && final(self).follows(old(self), 8),
                Err(e) => e == PakError::TruncatedInput && !old(self).holds(8) && final(self).follows(old(self), 0),
            },
    {
        if !self.has(8) {
            return Err(PakError::TruncatedInput);
        }
        let at: usize = self.pos as usize;
        let v: u64 = decode_u64(slice_subrange(self.buf.as_slice(), at, at + 8));
        self.pos = self.pos + 8;
        Ok(v)
    }

    /// Reads exactly `size` bytes. A read of no bytes succeeds at every
    /// position, also past the end.
    pub fn read_bytes(&mut self, size: usize) -> (r: Result<Vec<u8>, PakError>)
        ensures
            match r {
                Ok(v) => (size == 0 || old(self).holds(size as int)) && v@.len() == size && v@
                    == old(self).span(size as int) && final(self).follows(old(self), size as int),
                Err(e) => e == PakError::TruncatedInput && size > 0 && !old(self).holds(size as int)
                    && final(self).follows(old(self), 0),
            },
    {
        if size == 0 {
            return Ok(Vec::new());
        }
        if !self.has(size) {
            return Err(PakError::TruncatedInput);
        }
        let at: usize = self.pos as usize;
        let v: Vec<u8> = slice_to_vec(slice_subrange(self.buf.as_slice(), at, at + size));
        self.pos = self.pos + size as u64;
        Ok(v)
    }

    /// Reads one byte as a length, then that many bytes, and decodes them as
    /// UTF-8 text.
    pub fn read_str(&mut self) -> (r: Result<String, PakError>)
        ensures
            final(self).data() == old(self).data(),
            match prefixed_text(old(self).data(), old(self).offset() as int) {
                Ok((text, end)) => r matches Ok(s) && s@ == text && final(self).offset() == end,
                Err(e) => r == Err::<String, PakError>(e) && final(self).offset() == old(self).offset(),
            },
    {
        let start: u64 = self.pos;
        let len: u8 = self.read_u8()?;
        let raw: Vec<u8> = match self.read_bytes(len as usize) {
            Ok(raw) => raw,
            Err(e) => {
                self.pos = start;
                return Err(e);
            },
        };
        match decode_text(raw) {
            Some(s) => Ok(s),
            None => {
                self.pos = start;
                Err(PakError::InvalidEncoding)
            },
        }
    }
}

} // verus!
