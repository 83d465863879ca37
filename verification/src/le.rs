//! Little-endian views of fixed-width integers.
//!
//! The wire format stores every multi-byte integer least-significant byte
//! first. These spec functions give the mathematical reading and writing of
//! such fields, and the lemmas show that the two directions invert each
//! other.
use vstd::prelude::*;

verus! {

use vstd::arithmetic::div_mod::lemma_fundamental_div_mod_converse;

/// The unsigned value of the two bytes at `i`, least-significant first.
pub open spec fn le16_of(d: Seq<u8>, i: int) -> u16 {
    (d[i] + d[i + 1] * 0x100) as u16
}

/// The unsigned value of the four bytes at `i`, least-significant first.
pub open spec fn le32_of(d: Seq<u8>, i: int) -> u32 {
    (d[i] + d[i + 1] * 0x100 + d[i + 2] * 0x10000 + d[i + 3] * 0x1000000) as u32
}

/// The unsigned value of the eight bytes at `i`, least-significant first:
/// the low 32-bit half followed by the high one.
pub open spec fn le64_of(d: Seq<u8>, i: int) -> u64 {
    (le32_of(d, i) + le32_of(d, i + 4) * 0x1_0000_0000) as u64
}

/// The two little-endian bytes of `v`.
pub open spec fn le16_bytes(v: u16) -> Seq<u8> {
    seq![(v % 0x100) as u8, (v / 0x100) as u8]
}

/// The four little-endian bytes of `v`.
pub open spec fn le32_bytes(v: u32) -> Seq<u8> {
    seq![
        (v % 0x100) as u8,
        ((v / 0x100) % 0x100) as u8,
        ((v / 0x10000) % 0x100) as u8,
        (v / 0x1000000) as u8,
    ]
}

/// The eight little-endian bytes of `v`: the low 32-bit half followed by
/// the high one.
pub open spec fn le64_bytes(v: u64) -> Seq<u8> {
    le32_bytes((v % 0x1_0000_0000) as u32) + le32_bytes((v / 0x1_0000_0000) as u32)
}

/// The signed reading of a 32-bit two's-complement pattern.
pub open spec fn i32_of_u32(u: u32) -> i32 {
    if u <= 0x7FFF_FFFF {
        u as i32
    } else {
        (u - 0x1_0000_0000) as i32
    }
}

/// The 32-bit two's-complement pattern of a signed value.
pub open spec fn u32_of_i32(x: i32) -> u32 {
    if x >= 0 {
        x as u32
    } else {
        (x + 0x1_0000_0000) as u32
    }
}

/// The signed reading of a 64-bit two's-complement pattern.
pub open spec fn i64_of_u64(u: u64) -> i64 {
    if u <= 0x7FFF_FFFF_FFFF_FFFF {
        u as i64
    } else {
        (u - 0x1_0000_0000_0000_0000) as i64
    }
}

/// The 64-bit two's-complement pattern of a signed value.
pub open spec fn u64_of_i64(x: i64) -> u64 {
    if x >= 0 {
        x as u64
    } else {
        (x + 0x1_0000_0000_0000_0000) as u64
    }
}

/// The signed reading of a single two's-complement byte.
pub open spec fn i8_of_u8(b: u8) -> i8 {
    if b <= 0x7F {
        b as i8
    } else {
        (b - 0x100) as i8
    }
}

/// The byte pattern of a signed byte.
pub open spec fn u8_of_i8(x: i8) -> u8 {
    if x >= 0 {
        x as u8
    } else {
        (x + 0x100) as u8
    }
}

/// The byte written for a boolean flag.
pub open spec fn u8_of_bool(b: bool) -> u8 {
    if b {
        1
    } else {
        0
    }
}

/// The boolean read from a flag byte: any nonzero byte counts as true.
pub open spec fn bool_of_u8(b: u8) -> bool {
    b != 0
}

/// Writing a 16-bit value and reading it back yields the value.
pub proof fn lemma_le16_recompose(v: u16)
    ensures
        le16_of(le16_bytes(v), 0) == v,
{
    lemma_fundamental_div_mod_converse(v as int, 0x100, v as int / 0x100, v as int % 0x100);
}

/// Writing a 32-bit value and reading it back yields the value.
pub proof fn lemma_le32_recompose(v: u32)
    ensures
        le32_of(le32_bytes(v), 0) == v,
{
    let x = v as int;
    lemma_fundamental_div_mod_converse(x, 0x100, x / 0x100, x % 0x100);
    lemma_fundamental_div_mod_converse(x / 0x100, 0x100, x / 0x10000, (x / 0x100) % 0x100);
    lemma_fundamental_div_mod_converse(
        x / 0x10000,
        0x100,
        x / 0x1000000,
        (x / 0x10000) % 0x100,
    );
}

/// Writing a 64-bit value and reading it back yields the value.
pub proof fn lemma_le64_recompose(v: u64)
    ensures
        le64_of(le64_bytes(v), 0) == v,
{
    let lo = (v % 0x1_0000_0000) as u32;
    let hi = (v / 0x1_0000_0000) as u32;
    lemma_le32_recompose(lo);
    lemma_le32_recompose(hi);
    let bs = le64_bytes(v);
    assert(bs.subrange(0, 4) =~= le32_bytes(lo));
    assert(bs.subrange(4, 8) =~= le32_bytes(hi));
    assert(le32_of(bs, 0) == le32_of(le32_bytes(lo), 0));
    assert(le32_of(bs, 4) == le32_of(le32_bytes(hi), 0));
    lemma_fundamental_div_mod_converse(
        v as int,
        0x1_0000_0000,
        v as int / 0x1_0000_0000,
        v as int % 0x1_0000_0000,
    );
}

/// Reading two bytes and writing the value back yields the same bytes.
pub proof fn lemma_le16_bytes_of(d: Seq<u8>, i: int)
    requires
        0 <= i,
        i + 2 <= d.len(),
    ensures
        le16_bytes(le16_of(d, i)) == d.subrange(i, i + 2),
{
    let v = le16_of(d, i) as int;
    lemma_fundamental_div_mod_converse(v, 0x100, d[i + 1] as int, d[i] as int);
    assert(le16_bytes(le16_of(d, i)) =~= d.subrange(i, i + 2));
}

/// Reading four bytes and writing the value back yields the same bytes.
pub proof fn lemma_le32_bytes_of(d: Seq<u8>, i: int)
    requires
        0 <= i,
        i + 4 <= d.len(),
    ensures
        le32_bytes(le32_of(d, i)) == d.subrange(i, i + 4),
{
    let v = le32_of(d, i) as int;
    let q1 = d[i + 1] + d[i + 2] * 0x100 + d[i + 3] * 0x10000;
    let q2 = d[i + 2] + d[i + 3] * 0x100;
    lemma_fundamental_div_mod_converse(v, 0x100, q1, d[i] as int);
    lemma_fundamental_div_mod_converse(q1, 0x100, q2, d[i + 1] as int);
    lemma_fundamental_div_mod_converse(q2, 0x100, d[i + 3] as int, d[i + 2] as int);
    assert(le32_bytes(le32_of(d, i)) =~= d.subrange(i, i + 4));
}

/// Reading eight bytes and writing the value back yields the same bytes.
pub proof fn lemma_le64_bytes_of(d: Seq<u8>, i: int)
    requires
        0 <= i,
        i + 8 <= d.len(),
    ensures
        le64_bytes(le64_of(d, i)) == d.subrange(i, i + 8),
{
    let v = le64_of(d, i);
    lemma_fundamental_div_mod_converse(
        v as int,
        0x1_0000_0000,
        le32_of(d, i + 4) as int,
        le32_of(d, i) as int,
    );
    lemma_le32_bytes_of(d, i);
    lemma_le32_bytes_of(d, i + 4);
    assert(le64_bytes(v) =~= d.subrange(i, i + 8));
}

} // verus!
