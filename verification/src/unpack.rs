//! Cursor-driven reading of typed values from a byte buffer.
//!
//! Every read consumes exactly its declared width from the current position
//! and advances the cursor by that width; multi-byte integers are read
//! least-significant byte first. A read past the end of the buffer is a
//! fatal [`PlrError::TruncatedInput`]; invalid text is a fatal
//! [`PlrError::InvalidText`]. No read ever panics.
use vstd::prelude::*;

use crate::error::PlrError;
use crate::le::{bool_of_u8, i32_of_u32, i64_of_u64, i8_of_u8, le16_of, le32_of, le64_of};
use crate::text::{check_utf8, utf8_valid};

verus! {

/// A positionable reader over an owned byte buffer.
pub struct PlrUnpacker {
    pub data: Vec<u8>,
    pub pos: usize,
}

impl PlrUnpacker {
    /// A reader standing at the start of `data`.
    pub fn new(data: Vec<u8>) -> (r: Self)
        ensures
            r.data == data,
            r.pos == 0,
    {
        PlrUnpacker { data, pos: 0 }
    }

    /// How many bytes remain from the cursor to the end of the buffer.
    pub fn remaining(&self) -> (r: usize)
        ensures
            self.pos <= self.data.len() ==> r == self.data.len() - self.pos,
            self.pos > self.data.len() ==> r == 0,
    {
        if self.pos <= self.data.len() {
            self.data.len() - self.pos
        } else {
            0
        }
    }

    /// One byte, unsigned.
    pub fn r_u8(&mut self) -> (r: Result<u8, PlrError>)
        ensures
            final(self).data == old(self).data,
            r is Ok <==> old(self).pos + 1 <= old(self).data.len(),
            r matches Ok(v) ==> v == old(self).data@[old(self).pos as int] && final(self).pos
                == old(self).pos + 1,
            r is Err ==> r == Err::<u8, PlrError>(PlrError::TruncatedInput) && final(self).pos
                == old(self).pos,
    {
        if self.pos < self.data.len() {
            let v = self.data[self.pos];
            self.pos = self.pos + 1;
            Ok(v)
        } else {
            Err(PlrError::TruncatedInput)
        }
    }

    /// One byte, signed (two's complement).
    pub fn r_i8(&mut self) -> (r: Result<i8, PlrError>)
        ensures
            final(self).data == old(self).data,
            r is Ok <==> old(self).pos + 1 <= old(self).data.len(),
            r matches Ok(v) ==> v == i8_of_u8(old(self).data@[old(self).pos as int]) && final(self).pos == old(self).pos + 1,
            r is Err ==> r == Err::<i8, PlrError>(PlrError::TruncatedInput) && final(self).pos
                == old(self).pos,
    {
        match self.r_u8() {
            Ok(b) => {
                if b <= 0x7F {
                    Ok(b as i8)
                } else {
                    Ok(((b as i16) - 0x100i16) as i8)
                }
            },
            Err(e) => Err(e),
        }
    }

    /// Two bytes as an unsigned 16-bit value, least-significant first.
    pub fn r_u16(&mut self) -> (r: Result<u16, PlrError>)
        ensures
            final(self).data == old(self).data,
            r is Ok <==> old(self).pos + 2 <= old(self).data.len(),
            r matches Ok(v) ==> v == le16_of(old(self).data@, old(self).pos as int) && final(self).pos == old(self).pos + 2,
            r is Err ==> r == Err::<u16, PlrError>(PlrError::TruncatedInput) && final(self).pos
                == old(self).pos,
    {
        if self.data.len() >= 2 && self.pos <= self.data.len() - 2 {
            let b0 = self.data[self.pos];
            let b1 = self.data[self.pos + 1];
            self.pos = self.pos + 2;
            Ok((b0 as u16) + (b1 as u16) * 0x100)
        } else {
            Err(PlrError::TruncatedInput)
        }
    }

    /// Four bytes as an unsigned 32-bit value, least-significant first.
    pub fn r_u32(&mut self) -> (r: Result<u32, PlrError>)
        ensures
            final(self).data == old(self).data,
            r is Ok <==> old(self).pos + 4 <= old(self).data.len(),
            r matches Ok(v) ==> v == le32_of(old(self).data@, old(self).pos as int) && final(self).pos == old(self).pos + 4,
            r is Err ==> r == Err::<u32, PlrError>(PlrError::TruncatedInput) && final(self).pos
                == old(self).pos,
    {
        if self.data.len() >= 4 && self.pos <= self.data.len() - 4 {
            let b0 = self.data[self.pos];
            let b1 = self.data[self.pos + 1];
            let b2 = self.data[self.pos + 2];
            let b3 = self.data[self.pos + 3];
            self.pos = self.pos + 4;
            Ok(
                (b0 as u32) + (b1 as u32) * 0x100 + (b2 as u32) * 0x10000 + (b3 as u32)
                    * 0x1000000,
            )
        } else {
            Err(PlrError::TruncatedInput)
        }
    }

    /// Four bytes as a signed 32-bit value, least-significant first.
    pub fn r_i32(&mut self) -> (r: Result<i32, PlrError>)
        ensures
            final(self).data == old(self).data,
            r is Ok <==> old(self).pos + 4 <= old(self).data.len(),
            r matches Ok(v) ==> v == i32_of_u32(le32_of(old(self).data@, old(self).pos as int))
                && final(self).pos == old(self).pos + 4,
            r is Err ==> r == Err::<i32, PlrError>(PlrError::TruncatedInput) && final(self).pos
                == old(self).pos,
    {
        match self.r_u32() {
            Ok(u) => {
                if u <= 0x7FFF_FFFF {
                    Ok(u as i32)
                } else {
                    Ok(((u as i64) - 0x1_0000_0000i64) as i32)
                }
            },
            Err(e) => Err(e),
        }
    }

    /// Eight bytes as a signed 64-bit value, least-significant first.
    pub fn r_i64(&mut self) -> (r: Result<i64, PlrError>)
        ensures
            final(self).data == old(self).data,
            r is Ok <==> old(self).pos + 8 <= old(self).data.len(),
            r matches Ok(v) ==> v == i64_of_u64(le64_of(old(self).data@, old(self).pos as int))
                && final(self).pos == old(self).pos + 8,
            r is Err ==> r == Err::<i64, PlrError>(PlrError::TruncatedInput) && final(self).pos
                == old(self).pos,
    {
        if self.data.len() >= 8 && self.pos <= self.data.len() - 8 {
            let b0 = self.data[self.pos];
            let b1 = self.data[self.pos + 1];
            let b2 = self.data[self.pos + 2];
            let b3 = self.data[self.pos + 3];
            let b4 = self.data[self.pos + 4];
            let b5 = self.data[self.pos + 5];
            let b6 = self.data[self.pos + 6];
            let b7 = self.data[self.pos + 7];
            self.pos = self.pos + 8;
            let lo = (b0 as u32) + (b1 as u32) * 0x100 + (b2 as u32) * 0x10000 + (b3 as u32)
                * 0x1000000;
            let hi = (b4 as u32) + (b5 as u32) * 0x100 + (b6 as u32) * 0x10000 + (b7 as u32)
                * 0x1000000;
            let u = (lo as u64) + (hi as u64) * 0x1_0000_0000;
            if u <= 0x7FFF_FFFF_FFFF_FFFF {
                Ok(u as i64)
            } else {
                Ok(((u as i128) - 0x1_0000_0000_0000_0000i128) as i64)
            }
        } else {
            Err(PlrError::TruncatedInput)
        }
    }

    /// One byte as a boolean: zero is false, any nonzero value is true.
    pub fn r_bool(&mut self) -> (r: Result<bool, PlrError>)
        ensures
            final(self).data == old(self).data,
            r is Ok <==> old(self).pos + 1 <= old(self).data.len(),
            r matches Ok(v) ==> v == bool_of_u8(old(self).data@[old(self).pos as int]) && final(self).pos == old(self).pos + 1,
            r is Err ==> r == Err::<bool, PlrError>(PlrError::TruncatedInput) && final(self).pos
                == old(self).pos,
    {
        match self.r_u8() {
            Ok(b) => Ok(b != 0),
            Err(e) => Err(e),
        }
    }

    /// A run of exactly `n` raw bytes.
    pub fn r_bytes(&mut self, n: usize) -> (r: Result<Vec<u8>, PlrError>)
        ensures
            final(self).data == old(self).data,
            r is Ok <==> old(self).pos + n <= old(self).data.len(),
            r matches Ok(v) ==> v@ == old(self).data@.subrange(
                old(self).pos as int,
                old(self).pos + n,
            ) && final(self).pos == old(self).pos + n,
            r is Err ==> r == Err::<Vec<u8>, PlrError>(PlrError::TruncatedInput) && final(self).pos == old(self).pos,
    {
        if n <= self.data.len() && self.pos <= self.data.len() - n {
            let mut v: Vec<u8> = Vec::new();
            let mut i: usize = 0;
            while i < n
                invariant
                    i <= n,
                    self.pos + n <= self.data.len(),
                    v@ == self.data@.subrange(self.pos as int, self.pos + i),
                decreases n - i,
            {
                v.push(self.data[self.pos + i]);
                i = i + 1;
                proof {
                    assert(v@ =~= self.data@.subrange(self.pos as int, self.pos + i));
                }
            }
            self.pos = self.pos + n;
            Ok(v)
        } else {
            Err(PlrError::TruncatedInput)
        }
    }

    /// A run of exactly `l` bytes that must be validly encoded text.
    pub fn r_string(&mut self, l: usize) -> (r: Result<Vec<u8>, PlrError>)
        ensures
            final(self).data == old(self).data,
            r is Ok <==> old(self).pos + l <= old(self).data.len() && utf8_valid(
                old(self).data@.subrange(old(self).pos as int, old(self).pos + l),
            ),
            r matches Ok(v) ==> v@ == old(self).data@.subrange(
                old(self).pos as int,
                old(self).pos + l,
            ) && final(self).pos == old(self).pos + l,
            old(self).pos + l > old(self).data.len() ==> r == Err::<Vec<u8>, PlrError>(
                PlrError::TruncatedInput,
            ),
            r is Err && old(self).pos + l <= old(self).data.len() ==> r == Err::<Vec<u8>, PlrError>(
                PlrError::InvalidText,
            ),
    {
        match self.r_bytes(l) {
            Ok(v) => {
                if check_utf8(v.as_slice()) {
                    Ok(v)
                } else {
                    Err(PlrError::InvalidText)
                }
            },
            Err(e) => Err(e),
        }
    }

    /// Advance the cursor `n` bytes without interpreting them.
    pub fn skip(&mut self, n: usize) -> (r: Result<(), PlrError>)
        ensures
            final(self).data == old(self).data,
            r is Ok <==> old(self).pos + n <= old(self).data.len(),
            r is Ok ==> final(self).pos == old(self).pos + n,
            r is Err ==> r == Err::<(), PlrError>(PlrError::TruncatedInput) && final(self).pos
                == old(self).pos,
    {
        if n <= self.data.len() && self.pos <= self.data.len() - n {
            self.pos = self.pos + n;
            Ok(())
        } else {
            Err(PlrError::TruncatedInput)
        }
    }
}

} // verus!
