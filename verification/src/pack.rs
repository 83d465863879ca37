//! Cursor-driven writing of typed values into a byte buffer.
//!
//! Every write appends exactly its declared width, multi-byte integers
//! least-significant byte first. The writer only appends, so the buffer
//! after a write is the buffer before it followed by the bytes of the
//! written value; the record encoder checks the total length against the
//! length recorded at decode time.
use vstd::prelude::*;

use crate::le::{le16_bytes, le32_bytes, le64_bytes, u32_of_i32, u64_of_i64, u8_of_bool, u8_of_i8};

verus! {

/// An append-only writer over an owned byte buffer.
pub struct PlrPacker {
    pub data: Vec<u8>,
}

impl PlrPacker {
    /// A writer with an empty buffer.
    pub fn new() -> (r: Self)
        ensures
            r.data@ == Seq::<u8>::empty(),
    {
        PlrPacker { data: Vec::new() }
    }

    /// One byte, unsigned. Returns the number of bytes written.
    pub fn w_u8(&mut self, v: u8) -> (r: usize)
        ensures
            final(self).data@ == old(self).data@ + seq![v],
            r == 1,
    {
        self.data.push(v);
        proof {
            assert(self.data@ =~= old(self).data@ + seq![v]);
        }
        1
    }

    /// One byte, signed (two's complement). Returns the number of bytes
    /// written.
    pub fn w_i8(&mut self, v: i8) -> (r: usize)
        ensures
            final(self).data@ == old(self).data@ + seq![u8_of_i8(v)],
            r == 1,
    {
        let b: u8 = if v >= 0 {
            v as u8
        } else {
            ((v as i16) + 0x100i16) as u8
        };
        self.w_u8(b)
    }

    /// Two little-endian bytes. Returns the number of bytes written.
    pub fn w_u16(&mut self, v: u16) -> (r: usize)
        ensures
            final(self).data@ == old(self).data@ + le16_bytes(v),
            r == 2,
    {
        self.data.push((v % 0x100) as u8);
        self.data.push((v / 0x100) as u8);
        proof {
            assert(self.data@ =~= old(self).data@ + le16_bytes(v));
        }
        2
    }

    /// Four little-endian bytes, unsigned. Returns the number of bytes
    /// written.
    pub fn w_u32(&mut self, v: u32) -> (r: usize)
        ensures
            final(self).data@ == old(self).data@ + le32_bytes(v),
            r == 4,
    {
        self.data.push((v % 0x100) as u8);
        self.data.push(((v / 0x100) % 0x100) as u8);
        self.data.push(((v / 0x10000) % 0x100) as u8);
        self.data.push((v / 0x1000000) as u8);
        proof {
            assert(self.data@ =~= old(self).data@ + le32_bytes(v));
        }
        4
    }

    /// Four little-endian bytes, signed. Returns the number of bytes
    /// written.
    pub fn w_i32(&mut self, v: i32) -> (r: usize)
        ensures
            final(self).data@ == old(self).data@ + le32_bytes(u32_of_i32(v)),
            r == 4,
    {
        let u: u32 = if v >= 0 {
            v as u32
        } else {
            ((v as i64) + 0x1_0000_0000i64) as u32
        };
        self.w_u32(u)
    }

    /// Eight little-endian bytes, signed. Returns the number of bytes
    /// written.
    pub fn w_i64(&mut self, v: i64) -> (r: usize)
        ensures
            final(self).data@ == old(self).data@ + le64_bytes(u64_of_i64(v)),
            r == 8,
    {
        let u: u64 = if v >= 0 {
            v as u64
        } else {
            ((v as i128) + 0x1_0000_0000_0000_0000i128) as u64
        };
        let lo: u32 = (u % 0x1_0000_0000) as u32;
        let hi: u32 = (u / 0x1_0000_0000) as u32;
        let _ = self.w_u32(lo);
        let _ = self.w_u32(hi);
        proof {
            assert(self.data@ =~= old(self).data@ + le64_bytes(u64_of_i64(v)));
        }
        8
    }

    /// One byte for a boolean: 1 for true, 0 for false. Returns the number
    /// of bytes written.
    pub fn w_bool(&mut self, v: bool) -> (r: usize)
        ensures
            final(self).data@ == old(self).data@ + seq![u8_of_bool(v)],
            r == 1,
    {
        self.w_u8(if v { 1 } else { 0 })
    }

    /// A raw byte run, verbatim. Returns the number of bytes written.
    pub fn w_bytes(&mut self, v: &Vec<u8>) -> (r: usize)
        ensures
            final(self).data@ == old(self).data@ + v@,
            r == v@.len(),
    {
        let mut i: usize = 0;
        while i < v.len()
            invariant
                i <= v.len(),
                self.data@ == old(self).data@ + v@.subrange(0, i as int),
            decreases v.len() - i,
        {
            self.data.push(v[i]);
            i = i + 1;
            proof {
                assert(self.data@ =~= old(self).data@ + v@.subrange(0, i as int));
            }
        }
        proof {
            assert(v@.subrange(0, v@.len() as int) =~= v@);
        }
        v.len()
    }

    /// The bytes of a text field, verbatim and without a length prefix.
    /// Returns 0, as the length was accounted for by the prefix byte.
    pub fn w_string(&mut self, v: &Vec<u8>) -> (r: usize)
        ensures
            final(self).data@ == old(self).data@ + v@,
            r == 0,
    {
        let _ = self.w_bytes(v);
        0
    }
}

} // verus!
