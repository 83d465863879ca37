//! The properties the codec and the cipher layer are held to, proved from
//! the spec functions the public contracts are stated over.
use vstd::prelude::*;

use crate::cipher_layer::{pad_count, pad_seq, spec_self_pad};
use crate::codec::{
    company_bytes, dec_equip, dec_equips, dec_item, dec_items, decode_len_ok, enc_equip,
    enc_equips, enc_header, enc_item, enc_items, enc_scalars, name_bytes, name_len_of,
    spec_decode, spec_decode_ok, spec_encode, spec_encoded_len, zero_seq, MAX_ITEM_ID,
};
use crate::le::{
    bool_of_u8, i32_of_u32, i64_of_u64, i8_of_u8, le16_bytes, le16_of, le32_bytes, le32_of,
    le64_bytes, le64_of, lemma_le16_bytes_of, lemma_le32_bytes_of, lemma_le64_bytes_of,
    lemma_le16_recompose, lemma_le32_recompose, lemma_le64_recompose, u32_of_i32, u64_of_i64,
    u8_of_bool, u8_of_i8,
};
use crate::record::{Equipment, Item, PlrV};

verus! {

/// Two adjacent subranges concatenate to the enclosing one.
pub proof fn lemma_subrange_concat(d: Seq<u8>, a: int, b: int, c: int)
    requires
        0 <= a <= b <= c <= d.len(),
    ensures
        d.subrange(a, b) + d.subrange(b, c) == d.subrange(a, c),
{
    assert(d.subrange(a, b) + d.subrange(b, c) =~= d.subrange(a, c));
}

/// A subrange that stays inside the left part of a concatenation.
pub proof fn lemma_subrange_of_concat_left(x: Seq<u8>, y: Seq<u8>, a: int, b: int)
    requires
        0 <= a <= b <= x.len(),
    ensures
        (x + y).subrange(a, b) == x.subrange(a, b),
{
    assert((x + y).subrange(a, b) =~= x.subrange(a, b));
}

/// A subrange that stays inside the right part of a concatenation.
pub proof fn lemma_subrange_of_concat_right(x: Seq<u8>, y: Seq<u8>, a: int, b: int)
    requires
        x.len() <= a <= b <= x.len() + y.len(),
    ensures
        (x + y).subrange(a, b) == y.subrange(a - x.len(), b - x.len()),
{
    assert((x + y).subrange(a, b) =~= y.subrange(a - x.len(), b - x.len()));
}

/// Reading a 32-bit field from bytes known to be the encoding of `v`
/// yields `v`.
pub proof fn lemma_le32_of_bytes_at(d: Seq<u8>, off: int, v: u32)
    requires
        0 <= off,
        off + 4 <= d.len(),
        d.subrange(off, off + 4) == le32_bytes(v),
    ensures
        le32_of(d, off) == v,
{
    lemma_le32_recompose(v);
    assert(d[off] == le32_bytes(v)[0]);
    assert(d[off + 1] == le32_bytes(v)[1]);
    assert(d[off + 2] == le32_bytes(v)[2]);
    assert(d[off + 3] == le32_bytes(v)[3]);
}

/// Reading a 16-bit field from bytes known to be the encoding of `v`
/// yields `v`.
pub proof fn lemma_le16_of_bytes_at(d: Seq<u8>, off: int, v: u16)
    requires
        0 <= off,
        off + 2 <= d.len(),
        d.subrange(off, off + 2) == le16_bytes(v),
    ensures
        le16_of(d, off) == v,
{
    lemma_le16_recompose(v);
    assert(d[off] == le16_bytes(v)[0]);
    assert(d[off + 1] == le16_bytes(v)[1]);
}

/// Reading a 64-bit field from bytes known to be the encoding of `v`
/// yields `v`.
pub proof fn lemma_le64_of_bytes_at(d: Seq<u8>, off: int, v: u64)
    requires
        0 <= off,
        off + 8 <= d.len(),
        d.subrange(off, off + 8) == le64_bytes(v),
    ensures
        le64_of(d, off) == v,
{
    lemma_le64_recompose(v);
    let bs = le64_bytes(v);
    assert(bs.len() == 8);
    assert forall|k: int| 0 <= k < 8 implies #[trigger] d[off + k] == bs[k] by {
        assert(d.subrange(off, off + 8)[k] == bs[k]);
    }
    assert(le32_of(d, off) == le32_of(bs, 0));
    assert(le32_of(d, off + 4) == le32_of(bs, 4));
}

/// The number of padding bytes the self-padding encryption appends: always
/// between 1 and 16, never 0, each byte holding the count itself; the
/// padded length is the next multiple of the block size, a full extra
/// block when the input is already aligned.
pub proof fn lemma_self_padding(n: int)
    requires
        n >= 0,
    ensures
        1 <= pad_count(n) <= 16,
        (n + pad_count(n)) % 16 == 0,
        n % 16 == 0 ==> pad_count(n) == 16,
        n % 16 != 0 ==> n + pad_count(n) == n + 16 - (n % 16),
        spec_self_pad(Seq::new(n as nat, |i: int| 0u8)).len() == n + pad_count(n),
        forall|j: int|
            0 <= j < pad_count(n) ==> pad_seq(n)[j] == pad_count(n) as u8,
{
    vstd::arithmetic::div_mod::lemma_mod_bound(n, 16);
    vstd::arithmetic::div_mod::lemma_fundamental_div_mod(n, 16);
    vstd::arithmetic::div_mod::lemma_fundamental_div_mod_converse(
        n + pad_count(n),
        16,
        n / 16 + 1,
        0,
    );
}

/// A display name declared with length `L` decodes to exactly `L` bytes of
/// text, and the origin tag to exactly 7.
pub proof fn lemma_text_field_lengths(d: Seq<u8>)
    requires
        decode_len_ok(d),
    ensures
        spec_decode(d).name.len() == spec_decode(d).name_length as int,
        spec_decode(d).company.len() == 7,
{
}

/// A slot whose leading identifier is 0 or above the schema's maximum
/// decodes to the unused item, and the six bytes after the identifier are
/// skipped, never read: a buffer with any other content there decodes to
/// the same slot.
pub proof fn lemma_sentinel_skip(d1: Seq<u8>, d2: Seq<u8>, off: int)
    requires
        0 <= off,
        off + 10 <= d1.len(),
        off + 10 <= d2.len(),
        d2.subrange(off, off + 4) == d1.subrange(off, off + 4),
        i32_of_u32(le32_of(d1, off)) == 0 || i32_of_u32(le32_of(d1, off)) > MAX_ITEM_ID,
    ensures
        dec_item(d1, off) == (Item { id: 0, stack: 0, prefix: 0, favourites: false }),
        dec_item(d2, off) == dec_item(d1, off),
{
    let s1 = d1.subrange(off, off + 4);
    let s2 = d2.subrange(off, off + 4);
    assert(d1[off] == s1[0] && d2[off] == s2[0]);
    assert(d1[off + 1] == s1[1] && d2[off + 1] == s2[1]);
    assert(d1[off + 2] == s1[2] && d2[off + 2] == s2[2]);
    assert(d1[off + 3] == s1[3] && d2[off + 3] == s2[3]);
    assert(le32_of(d2, off) == le32_of(d1, off));
}

/// Whether the slot stored at `off` re-encodes to its original bytes: a
/// skipped slot must consist of zero bytes only (its skipped bytes are
/// re-emitted as zeros), and a stored slot's flag byte must already be the
/// canonical 0 or 1 (any other nonzero byte reads as true and is written
/// back as 1).
pub open spec fn slot_clean(d: Seq<u8>, off: int) -> bool {
    let id = i32_of_u32(le32_of(d, off));
    if id == 0 || id > MAX_ITEM_ID {
        d.subrange(off, off + 10) == zero_seq(10)
    } else {
        d[off + 9] == 0 || d[off + 9] == 1
    }
}

/// Whether a buffer re-encodes byte for byte after decoding: every
/// inventory slot is clean and the two stored flag bytes are canonical.
pub open spec fn round_trip_clean(d: Seq<u8>) -> bool {
    let b = 25 + name_len_of(d);
    &&& (d[b + 34] == 0 || d[b + 34] == 1)
    &&& (d[b + 35] == 0 || d[b + 35] == 1)
    &&& forall|j: int| 0 <= j < 32 ==> #[trigger] slot_clean(d, b + 228 + 10 * j)
    &&& forall|j: int| 0 <= j < 26 ==> #[trigger] slot_clean(d, b + 548 + 10 * j)
}

proof fn lemma_enc_dec_equip(d: Seq<u8>, o: int)
    requires
        0 <= o,
        o + 5 <= d.len(),
    ensures
        enc_equip(dec_equip(d, o)) == d.subrange(o, o + 5),
{
    lemma_le32_bytes_of(d, o);
    assert(enc_equip(dec_equip(d, o)) =~= d.subrange(o, o + 5));
}

proof fn lemma_enc_dec_equips(d: Seq<u8>, off: int, s: Seq<Equipment>, k: int)
    requires
        0 <= off,
        0 <= k <= s.len(),
        off + 5 * s.len() <= d.len(),
        forall|j: int| 0 <= j < s.len() ==> s[j] == dec_equip(d, off + 5 * j),
    ensures
        enc_equips(s, k) == d.subrange(off, off + 5 * k),
    decreases k,
{
    if k == 0 {
        assert(enc_equips(s, 0) =~= d.subrange(off, off));
    } else {
        lemma_enc_dec_equips(d, off, s, k - 1);
        lemma_enc_dec_equip(d, off + 5 * (k - 1));
        lemma_subrange_concat(d, off, off + 5 * (k - 1), off + 5 * k);
    }
}

proof fn lemma_enc_dec_item(d: Seq<u8>, o: int)
    requires
        0 <= o,
        o + 10 <= d.len(),
        slot_clean(d, o),
    ensures
        enc_item(dec_item(d, o)) == d.subrange(o, o + 10),
{
    let id = i32_of_u32(le32_of(d, o));
    if id == 0 || id > MAX_ITEM_ID {
        assert(enc_item(dec_item(d, o)) =~= zero_seq(10));
    } else {
        lemma_le32_bytes_of(d, o);
        lemma_le32_bytes_of(d, o + 4);
        assert(enc_item(dec_item(d, o)) =~= d.subrange(o, o + 10));
    }
}

proof fn lemma_enc_dec_items(d: Seq<u8>, off: int, s: Seq<Item>, k: int)
    requires
        0 <= off,
        0 <= k <= s.len(),
        off + 10 * s.len() <= d.len(),
        forall|j: int| 0 <= j < s.len() ==> s[j] == dec_item(d, off + 10 * j),
        forall|j: int| 0 <= j < s.len() ==> #[trigger] slot_clean(d, off + 10 * j),
    ensures
        enc_items(s, k) == d.subrange(off, off + 10 * k),
    decreases k,
{
    if k == 0 {
        assert(enc_items(s, 0) =~= d.subrange(off, off));
    } else {
        lemma_enc_dec_items(d, off, s, k - 1);
        lemma_enc_dec_item(d, off + 10 * (k - 1));
        lemma_subrange_concat(d, off, off + 10 * (k - 1), off + 10 * k);
    }
}

proof fn lemma_enc_dec_header(d: Seq<u8>)
    requires
        decode_len_ok(d),
    ensures
        enc_header(spec_decode(d)) == d.subrange(0, 25),
{
    lemma_le32_bytes_of(d, 0);
    assert(seq![d[11]] =~= d.subrange(11, 12));
    assert(seq![d[24]] =~= d.subrange(24, 25));
    lemma_subrange_concat(d, 0, 4, 11);
    lemma_subrange_concat(d, 0, 11, 12);
    lemma_subrange_concat(d, 0, 12, 24);
    lemma_subrange_concat(d, 0, 24, 25);
}

#[verifier::spinoff_prover]
#[verifier::rlimit(100)]
proof fn lemma_enc_dec_scalars_head(d: Seq<u8>, b: int)
    requires
        decode_len_ok(d),
        b == 25 + name_len_of(d),
        d[b + 34] == 0 || d[b + 34] == 1,
        d[b + 35] == 0 || d[b + 35] == 1,
    ensures
        seq![u8_of_i8(spec_decode(d).difficulty)] + le64_bytes(
            u64_of_i64(spec_decode(d).play_time),
        ) + le32_bytes(u32_of_i32(spec_decode(d).appearance.hair_style))
            + seq![spec_decode(d).appearance.hair_dye] + le16_bytes(
            spec_decode(d).appearance.hide_visual,
        ) + seq![spec_decode(d).appearance.hide_misc] + seq![spec_decode(d).appearance.gender]
            + le32_bytes(u32_of_i32(spec_decode(d).stat_life)) + le32_bytes(
            u32_of_i32(spec_decode(d).stat_life_max),
        ) + le32_bytes(u32_of_i32(spec_decode(d).stat_mana)) + le32_bytes(
            u32_of_i32(spec_decode(d).stat_mana_max),
        ) + seq![u8_of_bool(spec_decode(d).extra_accessory)] + seq![
            u8_of_bool(spec_decode(d).done_dundefii_event),
        ] + le32_bytes(u32_of_i32(spec_decode(d).tax_money)) == d.subrange(b, b + 40),
{
    let p = spec_decode(d);
    assert(seq![u8_of_i8(p.difficulty)] =~= d.subrange(b, b + 1));
    lemma_le64_bytes_of(d, b + 1);
    lemma_le32_bytes_of(d, b + 9);
    assert(seq![p.appearance.hair_dye] =~= d.subrange(b + 13, b + 14));
    lemma_le16_bytes_of(d, b + 14);
    assert(seq![p.appearance.hide_misc] =~= d.subrange(b + 16, b + 17));
    assert(seq![p.appearance.gender] =~= d.subrange(b + 17, b + 18));
    lemma_le32_bytes_of(d, b + 18);
    lemma_le32_bytes_of(d, b + 22);
    lemma_le32_bytes_of(d, b + 26);
    lemma_le32_bytes_of(d, b + 30);
    assert(seq![u8_of_bool(p.extra_accessory)] =~= d.subrange(b + 34, b + 35));
    assert(seq![u8_of_bool(p.done_dundefii_event)] =~= d.subrange(b + 35, b + 36));
    lemma_le32_bytes_of(d, b + 36);
    lemma_subrange_concat(d, b, b + 1, b + 9);
    lemma_subrange_concat(d, b, b + 9, b + 13);
    lemma_subrange_concat(d, b, b + 13, b + 14);
    lemma_subrange_concat(d, b, b + 14, b + 16);
    lemma_subrange_concat(d, b, b + 16, b + 17);
    lemma_subrange_concat(d, b, b + 17, b + 18);
    lemma_subrange_concat(d, b, b + 18, b + 22);
    lemma_subrange_concat(d, b, b + 22, b + 26);
    lemma_subrange_concat(d, b, b + 26, b + 30);
    lemma_subrange_concat(d, b, b + 30, b + 34);
    lemma_subrange_concat(d, b, b + 34, b + 35);
    lemma_subrange_concat(d, b, b + 35, b + 36);
    lemma_subrange_concat(d, b, b + 36, b + 40);
}

#[verifier::spinoff_prover]
#[verifier::rlimit(100)]
proof fn lemma_enc_dec_scalars(d: Seq<u8>, b: int)
    requires
        decode_len_ok(d),
        b == 25 + name_len_of(d),
        d[b + 34] == 0 || d[b + 34] == 1,
        d[b + 35] == 0 || d[b + 35] == 1,
    ensures
        enc_scalars(spec_decode(d)) == d.subrange(b, b + 68),
{
    lemma_enc_dec_scalars_head(d, b);
    lemma_le32_bytes_of(d, b + 40);
    lemma_le32_bytes_of(d, b + 44);
    lemma_le32_bytes_of(d, b + 48);
    lemma_le32_bytes_of(d, b + 52);
    lemma_le32_bytes_of(d, b + 56);
    lemma_le32_bytes_of(d, b + 60);
    lemma_le32_bytes_of(d, b + 64);
    lemma_subrange_concat(d, b, b + 40, b + 44);
    lemma_subrange_concat(d, b, b + 44, b + 48);
    lemma_subrange_concat(d, b, b + 48, b + 52);
    lemma_subrange_concat(d, b, b + 52, b + 56);
    lemma_subrange_concat(d, b, b + 56, b + 60);
    lemma_subrange_concat(d, b, b + 60, b + 64);
    lemma_subrange_concat(d, b, b + 64, b + 68);
}

/// One half of the round-trip law: a buffer that decodes, whose skipped
/// inventory slots hold only zero bytes and whose flag bytes are already
/// canonical, is reproduced byte for byte by re-encoding the decoded
/// record.
#[verifier::spinoff_prover]
#[verifier::rlimit(100)]
pub proof fn lemma_encode_of_decode(d: Seq<u8>)
    requires
        decode_len_ok(d),
        round_trip_clean(d),
    ensures
        spec_encoded_len(spec_decode(d)) == d.len(),
        spec_encode(spec_decode(d)) == d,
{
    let p = spec_decode(d);
    let b = 25 + name_len_of(d);
    lemma_enc_dec_header(d);
    lemma_enc_dec_scalars(d, b);
    lemma_enc_dec_equips(d, b + 78, p.armor, 3);
    lemma_enc_dec_equips(d, b + 93, p.accessories, 6);
    lemma_enc_dec_equips(d, b + 143, p.accessories_vanity, 6);
    lemma_enc_dec_equips(d, b + 178, p.dyes, 8);
    assert forall|j: int| 0 <= j < 32 implies #[trigger] slot_clean(d, b + 228 + 10 * j) by {}
    assert forall|j: int| 0 <= j < 26 implies #[trigger] slot_clean(d, b + 548 + 10 * j) by {}
    lemma_enc_dec_items(d, b + 228, p.inventory1, 32);
    lemma_enc_dec_items(d, b + 548, p.inventory2, 26);
    lemma_subrange_concat(d, b + 68, b + 78, b + 93);
    lemma_subrange_concat(d, b + 68, b + 93, b + 123);
    lemma_subrange_concat(d, b + 68, b + 123, b + 143);
    lemma_subrange_concat(d, b + 68, b + 143, b + 173);
    lemma_subrange_concat(d, b + 68, b + 173, b + 178);
    lemma_subrange_concat(d, b + 68, b + 178, b + 218);
    lemma_subrange_concat(d, b + 68, b + 218, b + 228);
    assert(crate::codec::enc_equip_region(p) == d.subrange(b + 68, b + 228));
    lemma_subrange_concat(d, b + 228, b + 548, b + 808);
    lemma_subrange_concat(d, b + 228, b + 808, d.len() as int);
    assert(crate::codec::enc_tail(p) == d.subrange(b + 228, d.len() as int));
    lemma_subrange_concat(d, 0, 25, b);
    lemma_subrange_concat(d, 0, b, b + 68);
    lemma_subrange_concat(d, 0, b + 68, b + 228);
    lemma_subrange_concat(d, 0, b + 228, d.len() as int);
    assert(d.subrange(0, d.len() as int) =~= d);
    assert(spec_encode(p) == d);
    crate::codec::lemma_spec_encode_len(p);
}

/// Whether an inventory slot survives the decode-time sentinel rule: its
/// identifier is a stored one, or the slot is exactly the unused item (a
/// stored identifier of 0 or one above the maximum would decode back to
/// the unused item, losing the other fields).
pub open spec fn item_wf(it: Item) -> bool {
    (it.id != 0 && it.id <= MAX_ITEM_ID) || it == (Item {
        id: 0,
        stack: 0,
        prefix: 0,
        favourites: false,
    })
}

/// Whether a record's fields fit the schema's declared widths, so that its
/// encoding decodes back to it: every fixed-length field has its declared
/// length, the name matches its length prefix, every inventory slot
/// survives the sentinel rule, and the recorded length is exactly what the
/// fields need.
pub open spec fn record_wf(p: PlrV) -> bool {
    &&& p.company.len() == 7
    &&& p.unknown1.len() == 12
    &&& p.name.len() == p.name_length as int
    &&& p.unknown2.len() == 10
    &&& p.armor.len() == 3
    &&& p.accessories.len() == 6
    &&& p.unknown3.len() == 20
    &&& p.accessories_vanity.len() == 6
    &&& p.unknown4.len() == 5
    &&& p.dyes.len() == 8
    &&& p.unknown5.len() == 10
    &&& p.inventory1.len() == 32
    &&& p.inventory2.len() == 26
    &&& forall|j: int| 0 <= j < 32 ==> item_wf(#[trigger] p.inventory1[j])
    &&& forall|j: int| 0 <= j < 26 ==> item_wf(#[trigger] p.inventory2[j])
    &&& p.raw_length_bytes == spec_encoded_len(p)
}

/// A subrange of a subrange, read off the enclosing sequence.
proof fn lemma_subrange_within(d: Seq<u8>, a: int, e: Seq<u8>, x: int, y: int)
    requires
        0 <= a,
        a + e.len() <= d.len(),
        d.subrange(a, a + e.len()) == e,
        0 <= x <= y <= e.len(),
    ensures
        d.subrange(a + x, a + y) == e.subrange(x, y),
{
    assert(d.subrange(a + x, a + y) =~= e.subrange(x, y));
}

proof fn lemma_dec_enc_equip(d: Seq<u8>, o: int, eq: Equipment)
    requires
        0 <= o,
        o + 5 <= d.len(),
        d.subrange(o, o + 5) == enc_equip(eq),
    ensures
        dec_equip(d, o) == eq,
{
    lemma_subrange_within(d, o, enc_equip(eq), 0, 4);
    assert(enc_equip(eq).subrange(0, 4) =~= le32_bytes(u32_of_i32(eq.id)));
    lemma_le32_of_bytes_at(d, o, u32_of_i32(eq.id));
    assert(d[o + 4] == enc_equip(eq)[4]);
}

proof fn lemma_enc_equips_index(s: Seq<Equipment>, n: int, j: int)
    requires
        0 <= j < n <= s.len(),
    ensures
        enc_equips(s, n).subrange(5 * j, 5 * j + 5) == enc_equip(s[j]),
    decreases n,
{
    crate::codec::lemma_enc_equips_len(s, n - 1);
    if j == n - 1 {
        lemma_subrange_of_concat_right(enc_equips(s, n - 1), enc_equip(s[j]), 5 * j, 5 * j + 5);
        assert(enc_equip(s[j]).subrange(0, 5) =~= enc_equip(s[j]));
    } else {
        lemma_enc_equips_index(s, n - 1, j);
        lemma_subrange_of_concat_left(enc_equips(s, n - 1), enc_equip(s[n - 1]), 5 * j, 5 * j + 5);
    }
}

proof fn lemma_dec_enc_equips(d: Seq<u8>, off: int, s: Seq<Equipment>)
    requires
        0 <= off,
        off + 5 * s.len() <= d.len(),
        d.subrange(off, off + 5 * s.len()) == enc_equips(s, s.len() as int),
    ensures
        dec_equips(d, off, s.len() as int) == s,
{
    let n = s.len() as int;
    crate::codec::lemma_enc_equips_len(s, n);
    assert forall|j: int| 0 <= j < n implies dec_equip(d, off + 5 * j) == s[j] by {
        lemma_enc_equips_index(s, n, j);
        lemma_subrange_within(d, off, enc_equips(s, n), 5 * j, 5 * j + 5);
        lemma_dec_enc_equip(d, off + 5 * j, s[j]);
    }
    assert(dec_equips(d, off, n) =~= s);
}

proof fn lemma_dec_enc_item(d: Seq<u8>, o: int, it: Item)
    requires
        0 <= o,
        o + 10 <= d.len(),
        d.subrange(o, o + 10) == enc_item(it),
        item_wf(it),
    ensures
        dec_item(d, o) == it,
{
    lemma_subrange_within(d, o, enc_item(it), 0, 4);
    assert(enc_item(it).subrange(0, 4) =~= le32_bytes(u32_of_i32(it.id)));
    lemma_le32_of_bytes_at(d, o, u32_of_i32(it.id));
    if it.id != 0 && it.id <= MAX_ITEM_ID {
        lemma_subrange_within(d, o, enc_item(it), 4, 8);
        assert(enc_item(it).subrange(4, 8) =~= le32_bytes(u32_of_i32(it.stack)));
        lemma_le32_of_bytes_at(d, o + 4, u32_of_i32(it.stack));
        assert(d[o + 8] == enc_item(it)[8]);
        assert(d[o + 9] == enc_item(it)[9]);
    }
}

proof fn lemma_enc_items_index(s: Seq<Item>, n: int, j: int)
    requires
        0 <= j < n <= s.len(),
    ensures
        enc_items(s, n).subrange(10 * j, 10 * j + 10) == enc_item(s[j]),
    decreases n,
{
    crate::codec::lemma_enc_items_len(s, n - 1);
    if j == n - 1 {
        lemma_subrange_of_concat_right(enc_items(s, n - 1), enc_item(s[j]), 10 * j, 10 * j + 10);
        assert(enc_item(s[j]).subrange(0, 10) =~= enc_item(s[j]));
    } else {
        lemma_enc_items_index(s, n - 1, j);
        lemma_subrange_of_concat_left(enc_items(s, n - 1), enc_item(s[n - 1]), 10 * j, 10 * j + 10);
    }
}

proof fn lemma_dec_enc_items(d: Seq<u8>, off: int, s: Seq<Item>)
    requires
        0 <= off,
        off + 10 * s.len() <= d.len(),
        d.subrange(off, off + 10 * s.len()) == enc_items(s, s.len() as int),
        forall|j: int| 0 <= j < s.len() ==> item_wf(#[trigger] s[j]),
    ensures
        dec_items(d, off, s.len() as int) == s,
{
    let n = s.len() as int;
    crate::codec::lemma_enc_items_len(s, n);
    assert forall|j: int| 0 <= j < n implies dec_item(d, off + 10 * j) == s[j] by {
        lemma_enc_items_index(s, n, j);
        lemma_subrange_within(d, off, enc_items(s, n), 10 * j, 10 * j + 10);
        lemma_dec_enc_item(d, off + 10 * j, s[j]);
    }
    assert(dec_items(d, off, n) =~= s);
}

#[verifier::spinoff_prover]
#[verifier::rlimit(100)]
proof fn lemma_dec_enc_scalars_colours(d: Seq<u8>, b: int, p: PlrV)
    requires
        0 <= b,
        b + 68 <= d.len(),
        d.subrange(b, b + 68) == enc_scalars(p),
    ensures
        i32_of_u32(le32_of(d, b + 40)) == p.appearance.hair_colour,
        i32_of_u32(le32_of(d, b + 44)) == p.appearance.skin_colour,
        i32_of_u32(le32_of(d, b + 48)) == p.appearance.eye_colour,
        i32_of_u32(le32_of(d, b + 52)) == p.appearance.shirt_colour,
        i32_of_u32(le32_of(d, b + 56)) == p.appearance.undershirt_colour,
        i32_of_u32(le32_of(d, b + 60)) == p.appearance.pants_colour,
        i32_of_u32(le32_of(d, b + 64)) == p.appearance.shoes_colour,
{
    let sc = enc_scalars(p);
    lemma_subrange_within(d, b, sc, 40, 44);
    assert(sc.subrange(40, 44) =~= le32_bytes(u32_of_i32(p.appearance.hair_colour)));
    lemma_le32_of_bytes_at(d, b + 40, u32_of_i32(p.appearance.hair_colour));
    lemma_subrange_within(d, b, sc, 44, 48);
    assert(sc.subrange(44, 48) =~= le32_bytes(u32_of_i32(p.appearance.skin_colour)));
    lemma_le32_of_bytes_at(d, b + 44, u32_of_i32(p.appearance.skin_colour));
    lemma_subrange_within(d, b, sc, 48, 52);
    assert(sc.subrange(48, 52) =~= le32_bytes(u32_of_i32(p.appearance.eye_colour)));
    lemma_le32_of_bytes_at(d, b + 48, u32_of_i32(p.appearance.eye_colour));
    lemma_subrange_within(d, b, sc, 52, 56);
    assert(sc.subrange(52, 56) =~= le32_bytes(u32_of_i32(p.appearance.shirt_colour)));
    lemma_le32_of_bytes_at(d, b + 52, u32_of_i32(p.appearance.shirt_colour));
    lemma_subrange_within(d, b, sc, 56, 60);
    assert(sc.subrange(56, 60) =~= le32_bytes(u32_of_i32(p.appearance.undershirt_colour)));
    lemma_le32_of_bytes_at(d, b + 56, u32_of_i32(p.appearance.undershirt_colour));
    lemma_subrange_within(d, b, sc, 60, 64);
    assert(sc.subrange(60, 64) =~= le32_bytes(u32_of_i32(p.appearance.pants_colour)));
    lemma_le32_of_bytes_at(d, b + 60, u32_of_i32(p.appearance.pants_colour));
    lemma_subrange_within(d, b, sc, 64, 68);
    assert(sc.subrange(64, 68) =~= le32_bytes(u32_of_i32(p.appearance.shoes_colour)));
    lemma_le32_of_bytes_at(d, b + 64, u32_of_i32(p.appearance.shoes_colour));
}

#[verifier::spinoff_prover]
#[verifier::rlimit(100)]
proof fn lemma_dec_enc_scalars(d: Seq<u8>, b: int, p: PlrV)
    requires
        0 <= b,
        b + 68 <= d.len(),
        d.subrange(b, b + 68) == enc_scalars(p),
    ensures
        i8_of_u8(d[b]) == p.difficulty,
        i64_of_u64(le64_of(d, b + 1)) == p.play_time,
        crate::codec::dec_appearance(d, b) == p.appearance,
        i32_of_u32(le32_of(d, b + 18)) == p.stat_life,
        i32_of_u32(le32_of(d, b + 22)) == p.stat_life_max,
        i32_of_u32(le32_of(d, b + 26)) == p.stat_mana,
        i32_of_u32(le32_of(d, b + 30)) == p.stat_mana_max,
        bool_of_u8(d[b + 34]) == p.extra_accessory,
        bool_of_u8(d[b + 35]) == p.done_dundefii_event,
        i32_of_u32(le32_of(d, b + 36)) == p.tax_money,
{
    let sc = enc_scalars(p);
    lemma_subrange_within(d, b, sc, 0, 1);
    assert(sc.subrange(0, 1) =~= seq![u8_of_i8(p.difficulty)]);
    assert(d[b] == d.subrange(b, b + 1)[0]);
    lemma_subrange_within(d, b, sc, 1, 9);
    assert(sc.subrange(1, 9) =~= le64_bytes(u64_of_i64(p.play_time)));
    lemma_le64_of_bytes_at(d, b + 1, u64_of_i64(p.play_time));
    lemma_subrange_within(d, b, sc, 9, 13);
    assert(sc.subrange(9, 13) =~= le32_bytes(u32_of_i32(p.appearance.hair_style)));
    lemma_le32_of_bytes_at(d, b + 9, u32_of_i32(p.appearance.hair_style));
    lemma_subrange_within(d, b, sc, 13, 14);
    assert(sc.subrange(13, 14) =~= seq![p.appearance.hair_dye]);
    assert(d[b + 13] == d.subrange(b + 13, b + 14)[0]);
    lemma_subrange_within(d, b, sc, 14, 16);
    assert(sc.subrange(14, 16) =~= le16_bytes(p.appearance.hide_visual));
    lemma_le16_of_bytes_at(d, b + 14, p.appearance.hide_visual);
    lemma_subrange_within(d, b, sc, 16, 17);
    assert(sc.subrange(16, 17) =~= seq![p.appearance.hide_misc]);
    assert(d[b + 16] == d.subrange(b + 16, b + 17)[0]);
    lemma_subrange_within(d, b, sc, 17, 18);
    assert(sc.subrange(17, 18) =~= seq![p.appearance.gender]);
    assert(d[b + 17] == d.subrange(b + 17, b + 18)[0]);
    lemma_subrange_within(d, b, sc, 18, 22);
    assert(sc.subrange(18, 22) =~= le32_bytes(u32_of_i32(p.stat_life)));
    lemma_le32_of_bytes_at(d, b + 18, u32_of_i32(p.stat_life));
    lemma_subrange_within(d, b, sc, 22, 26);
    assert(sc.subrange(22, 26) =~= le32_bytes(u32_of_i32(p.stat_life_max)));
    lemma_le32_of_bytes_at(d, b + 22, u32_of_i32(p.stat_life_max));
    lemma_subrange_within(d, b, sc, 26, 30);
    assert(sc.subrange(26, 30) =~= le32_bytes(u32_of_i32(p.stat_mana)));
    lemma_le32_of_bytes_at(d, b + 26, u32_of_i32(p.stat_mana));
    lemma_subrange_within(d, b, sc, 30, 34);
    assert(sc.subrange(30, 34) =~= le32_bytes(u32_of_i32(p.stat_mana_max)));
    lemma_le32_of_bytes_at(d, b + 30, u32_of_i32(p.stat_mana_max));
    lemma_subrange_within(d, b, sc, 34, 35);
    assert(sc.subrange(34, 35) =~= seq![u8_of_bool(p.extra_accessory)]);
    assert(d[b + 34] == d.subrange(b + 34, b + 35)[0]);
    lemma_subrange_within(d, b, sc, 35, 36);
    assert(sc.subrange(35, 36) =~= seq![u8_of_bool(p.done_dundefii_event)]);
    assert(d[b + 35] == d.subrange(b + 35, b + 36)[0]);
    lemma_subrange_within(d, b, sc, 36, 40);
    assert(sc.subrange(36, 40) =~= le32_bytes(u32_of_i32(p.tax_money)));
    lemma_le32_of_bytes_at(d, b + 36, u32_of_i32(p.tax_money));
    lemma_dec_enc_scalars_colours(d, b, p);
}

proof fn lemma_encode_layout(p: PlrV)
    requires
        record_wf(p),
    ensures
        spec_encode(p).len() == 833 + p.name_length + p.unknown6.len(),
        spec_encode(p).len() == spec_encoded_len(p),
        name_len_of(spec_encode(p)) == p.name_length,
        spec_encode(p).subrange(0, 25) == enc_header(p),
        spec_encode(p).subrange(25, 25 + p.name_length as int) == p.name,
        spec_encode(p).subrange(25 + p.name_length as int, 93 + p.name_length as int)
            == enc_scalars(p),
        spec_encode(p).subrange(93 + p.name_length as int, 253 + p.name_length as int)
            == crate::codec::enc_equip_region(p),
        spec_encode(p).subrange(253 + p.name_length as int, spec_encode(p).len() as int)
            == crate::codec::enc_tail(p),
{
    let e = spec_encode(p);
    let h = enc_header(p);
    let sc = enc_scalars(p);
    let er = crate::codec::enc_equip_region(p);
    let tl = crate::codec::enc_tail(p);
    let l = p.name_length as int;
    let b = 25 + l;
    crate::codec::lemma_spec_encode_len(p);
    crate::codec::lemma_enc_equips_len(p.armor, 3);
    crate::codec::lemma_enc_equips_len(p.accessories, 6);
    crate::codec::lemma_enc_equips_len(p.accessories_vanity, 6);
    crate::codec::lemma_enc_equips_len(p.dyes, 8);
    crate::codec::lemma_enc_items_len(p.inventory1, 32);
    crate::codec::lemma_enc_items_len(p.inventory2, 26);
    assert(h.len() == 25);
    assert(sc.len() == 68);
    assert(er.len() == 160);
    assert(tl.len() == 580 + p.unknown6.len());
    assert(e.len() == 833 + l + p.unknown6.len());
    assert(e.subrange(0, 25) =~= h);
    assert(e.subrange(25, b) =~= p.name);
    assert(e.subrange(b, b + 68) =~= sc);
    assert(e.subrange(b + 68, b + 228) =~= er);
    assert(e.subrange(b + 228, e.len() as int) =~= tl);
    assert(e[24] == h[24]);
    assert(h[24] == p.name_length);
}

proof fn lemma_header_fields(p: PlrV)
    requires
        record_wf(p),
    ensures
        le32_of(spec_encode(p), 0) == p.version,
        company_bytes(spec_encode(p)) == p.company,
        spec_encode(p)[11] == p.file_type,
        spec_encode(p).subrange(12, 24) == p.unknown1,
        spec_encode(p)[24] == p.name_length,
        name_bytes(spec_encode(p)) == p.name,
{
    let e = spec_encode(p);
    let h = enc_header(p);
    lemma_encode_layout(p);
    lemma_subrange_within(e, 0, h, 0, 4);
    assert(h.subrange(0, 4) =~= le32_bytes(p.version));
    lemma_le32_of_bytes_at(e, 0, p.version);
    lemma_subrange_within(e, 0, h, 4, 11);
    assert(h.subrange(4, 11) =~= p.company);
    assert(company_bytes(e) == p.company);
    assert(e[11] == h[11]);
    lemma_subrange_within(e, 0, h, 12, 24);
    assert(h.subrange(12, 24) =~= p.unknown1);
    assert(e[24] == h[24]);
    assert(name_bytes(e) == e.subrange(25, 25 + p.name_length as int));
}

proof fn lemma_region_fields(p: PlrV)
    requires
        record_wf(p),
    ensures
        spec_encode(p).subrange(93 + p.name_length as int, 103 + p.name_length as int)
            == p.unknown2,
        dec_equips(spec_encode(p), 103 + p.name_length as int, 3) == p.armor,
        dec_equips(spec_encode(p), 118 + p.name_length as int, 6) == p.accessories,
        spec_encode(p).subrange(148 + p.name_length as int, 168 + p.name_length as int)
            == p.unknown3,
        dec_equips(spec_encode(p), 168 + p.name_length as int, 6) == p.accessories_vanity,
        spec_encode(p).subrange(198 + p.name_length as int, 203 + p.name_length as int)
            == p.unknown4,
        dec_equips(spec_encode(p), 203 + p.name_length as int, 8) == p.dyes,
        spec_encode(p).subrange(243 + p.name_length as int, 253 + p.name_length as int)
            == p.unknown5,
{
    let e = spec_encode(p);
    let er = crate::codec::enc_equip_region(p);
    let b = 25 + p.name_length as int;
    lemma_encode_layout(p);
    crate::codec::lemma_enc_equips_len(p.armor, 3);
    crate::codec::lemma_enc_equips_len(p.accessories, 6);
    crate::codec::lemma_enc_equips_len(p.accessories_vanity, 6);
    crate::codec::lemma_enc_equips_len(p.dyes, 8);
    lemma_subrange_within(e, b + 68, er, 0, 10);
    assert(er.subrange(0, 10) =~= p.unknown2);
    lemma_subrange_within(e, b + 68, er, 10, 25);
    assert(er.subrange(10, 25) =~= enc_equips(p.armor, 3));
    lemma_dec_enc_equips(e, b + 78, p.armor);
    lemma_subrange_within(e, b + 68, er, 25, 55);
    assert(er.subrange(25, 55) =~= enc_equips(p.accessories, 6));
    lemma_dec_enc_equips(e, b + 93, p.accessories);
    lemma_subrange_within(e, b + 68, er, 55, 75);
    assert(er.subrange(55, 75) =~= p.unknown3);
    lemma_subrange_within(e, b + 68, er, 75, 105);
    assert(er.subrange(75, 105) =~= enc_equips(p.accessories_vanity, 6));
    lemma_dec_enc_equips(e, b + 143, p.accessories_vanity);
    lemma_subrange_within(e, b + 68, er, 105, 110);
    assert(er.subrange(105, 110) =~= p.unknown4);
    lemma_subrange_within(e, b + 68, er, 110, 150);
    assert(er.subrange(110, 150) =~= enc_equips(p.dyes, 8));
    lemma_dec_enc_equips(e, b + 178, p.dyes);
    lemma_subrange_within(e, b + 68, er, 150, 160);
    assert(er.subrange(150, 160) =~= p.unknown5);
}

proof fn lemma_tail_fields(p: PlrV)
    requires
        record_wf(p),
    ensures
        dec_items(spec_encode(p), 253 + p.name_length as int, 32) == p.inventory1,
        dec_items(spec_encode(p), 573 + p.name_length as int, 26) == p.inventory2,
        spec_encode(p).subrange(833 + p.name_length as int, spec_encode(p).len() as int)
            == p.unknown6,
{
    let e = spec_encode(p);
    let tl = crate::codec::enc_tail(p);
    let b = 25 + p.name_length as int;
    lemma_encode_layout(p);
    crate::codec::lemma_enc_items_len(p.inventory1, 32);
    crate::codec::lemma_enc_items_len(p.inventory2, 26);
    lemma_subrange_within(e, b + 228, tl, 0, 320);
    assert(tl.subrange(0, 320) =~= enc_items(p.inventory1, 32));
    lemma_dec_enc_items(e, b + 228, p.inventory1);
    lemma_subrange_within(e, b + 228, tl, 320, 580);
    assert(tl.subrange(320, 580) =~= enc_items(p.inventory2, 26));
    lemma_dec_enc_items(e, b + 548, p.inventory2);
    lemma_subrange_within(e, b + 228, tl, 580, tl.len() as int);
    assert(tl.subrange(580, tl.len() as int) =~= p.unknown6);
}

/// The other half of the round-trip law: a record whose fields fit the
/// schema's declared widths encodes to a buffer that decodes back to the
/// record itself, and that buffer accepts exactly when the record's two
/// text fields are validly encoded.
#[verifier::spinoff_prover]
#[verifier::rlimit(100)]
pub proof fn lemma_decode_of_encode(p: PlrV)
    requires
        record_wf(p),
    ensures
        spec_encode(p).len() == p.raw_length_bytes,
        decode_len_ok(spec_encode(p)),
        company_bytes(spec_encode(p)) == p.company,
        name_bytes(spec_encode(p)) == p.name,
        spec_decode(spec_encode(p)) == p,
{
    let e = spec_encode(p);
    let b = 25 + p.name_length as int;
    lemma_encode_layout(p);
    lemma_header_fields(p);
    lemma_dec_enc_scalars(e, b, p);
    lemma_region_fields(p);
    lemma_tail_fields(p);
    assert(spec_decode(e) =~= p);
}

/// Whether the interval `[a, c)` lies inside one of the six declared
/// opaque regions of a buffer.
pub open spec fn within_opaque_run(d: Seq<u8>, a: int, c: int) -> bool {
    let b = 25 + name_len_of(d);
    ||| (12 <= a && c <= 24)
    ||| (b + 68 <= a && c <= b + 78)
    ||| (b + 123 <= a && c <= b + 143)
    ||| (b + 173 <= a && c <= b + 178)
    ||| (b + 218 <= a && c <= b + 228)
    ||| (b + 808 <= a && c <= d.len())
}

proof fn lemma_dec_equips_congr(d1: Seq<u8>, d2: Seq<u8>, off: int, n: int)
    requires
        0 <= off,
        n >= 0,
        off + 5 * n <= d1.len(),
        d1.len() == d2.len(),
        forall|i: int| off <= i < off + 5 * n ==> #[trigger] d1[i] == d2[i],
    ensures
        dec_equips(d1, off, n) == dec_equips(d2, off, n),
{
    assert forall|j: int| 0 <= j < n implies #[trigger] dec_equip(d1, off + 5 * j) == dec_equip(
        d2,
        off + 5 * j,
    ) by {
        assert(d1[off + 5 * j] == d2[off + 5 * j]);
        assert(d1[off + 5 * j + 1] == d2[off + 5 * j + 1]);
        assert(d1[off + 5 * j + 2] == d2[off + 5 * j + 2]);
        assert(d1[off + 5 * j + 3] == d2[off + 5 * j + 3]);
        assert(d1[off + 5 * j + 4] == d2[off + 5 * j + 4]);
        assert(le32_of(d1, off + 5 * j) == le32_of(d2, off + 5 * j));
    }
    assert(dec_equips(d1, off, n) =~= dec_equips(d2, off, n));
}

proof fn lemma_dec_items_congr(d1: Seq<u8>, d2: Seq<u8>, off: int, n: int)
    requires
        0 <= off,
        n >= 0,
        off + 10 * n <= d1.len(),
        d1.len() == d2.len(),
        forall|i: int| off <= i < off + 10 * n ==> #[trigger] d1[i] == d2[i],
    ensures
        dec_items(d1, off, n) == dec_items(d2, off, n),
{
    assert forall|j: int| 0 <= j < n implies #[trigger] dec_item(d1, off + 10 * j) == dec_item(
        d2,
        off + 10 * j,
    ) by {
        assert(d1[off + 10 * j] == d2[off + 10 * j]);
        assert(d1[off + 10 * j + 1] == d2[off + 10 * j + 1]);
        assert(d1[off + 10 * j + 2] == d2[off + 10 * j + 2]);
        assert(d1[off + 10 * j + 3] == d2[off + 10 * j + 3]);
        assert(d1[off + 10 * j + 4] == d2[off + 10 * j + 4]);
        assert(d1[off + 10 * j + 5] == d2[off + 10 * j + 5]);
        assert(d1[off + 10 * j + 6] == d2[off + 10 * j + 6]);
        assert(d1[off + 10 * j + 7] == d2[off + 10 * j + 7]);
        assert(d1[off + 10 * j + 8] == d2[off + 10 * j + 8]);
        assert(d1[off + 10 * j + 9] == d2[off + 10 * j + 9]);
        assert(le32_of(d1, off + 10 * j) == le32_of(d2, off + 10 * j));
        assert(le32_of(d1, off + 10 * j + 4) == le32_of(d2, off + 10 * j + 4));
    }
    assert(dec_items(d1, off, n) =~= dec_items(d2, off, n));
}

/// Unknown-region preservation: two buffers of the same length that agree
/// everywhere outside an interval contained in one declared opaque region
/// decode to records that agree on every known field and on every other
/// opaque field; only the opaque field holding that region can differ.
#[verifier::spinoff_prover]
#[verifier::rlimit(100)]
pub proof fn lemma_opaque_region_preservation(d1: Seq<u8>, d2: Seq<u8>, a: int, c: int)
    requires
        decode_len_ok(d1),
        d2.len() == d1.len(),
        a <= c,
        within_opaque_run(d1, a, c),
        forall|i: int| 0 <= i < d1.len() && !(a <= i < c) ==> #[trigger] d1[i] == d2[i],
    ensures
        decode_len_ok(d2),
        spec_decode_ok(d2) == spec_decode_ok(d1),
        spec_decode(d2).version == spec_decode(d1).version,
        spec_decode(d2).company == spec_decode(d1).company,
        spec_decode(d2).file_type == spec_decode(d1).file_type,
        spec_decode(d2).name_length == spec_decode(d1).name_length,
        spec_decode(d2).name == spec_decode(d1).name,
        spec_decode(d2).difficulty == spec_decode(d1).difficulty,
        spec_decode(d2).play_time == spec_decode(d1).play_time,
        spec_decode(d2).appearance == spec_decode(d1).appearance,
        spec_decode(d2).stat_life == spec_decode(d1).stat_life,
        spec_decode(d2).stat_life_max == spec_decode(d1).stat_life_max,
        spec_decode(d2).stat_mana == spec_decode(d1).stat_mana,
        spec_decode(d2).stat_mana_max == spec_decode(d1).stat_mana_max,
        spec_decode(d2).extra_accessory == spec_decode(d1).extra_accessory,
        spec_decode(d2).done_dundefii_event == spec_decode(d1).done_dundefii_event,
        spec_decode(d2).tax_money == spec_decode(d1).tax_money,
        spec_decode(d2).armor == spec_decode(d1).armor,
        spec_decode(d2).accessories == spec_decode(d1).accessories,
        spec_decode(d2).accessories_vanity == spec_decode(d1).accessories_vanity,
        spec_decode(d2).dyes == spec_decode(d1).dyes,
        spec_decode(d2).inventory1 == spec_decode(d1).inventory1,
        spec_decode(d2).inventory2 == spec_decode(d1).inventory2,
        spec_decode(d2).raw_length_bytes == spec_decode(d1).raw_length_bytes,
        !(12 <= a && c <= 24) ==> spec_decode(d2).unknown1 == spec_decode(d1).unknown1,
        !(93 + name_len_of(d1) <= a && c <= 103 + name_len_of(d1)) ==> spec_decode(d2).unknown2
            == spec_decode(d1).unknown2,
        !(148 + name_len_of(d1) <= a && c <= 168 + name_len_of(d1)) ==> spec_decode(d2).unknown3
            == spec_decode(d1).unknown3,
        !(198 + name_len_of(d1) <= a && c <= 203 + name_len_of(d1)) ==> spec_decode(d2).unknown4
            == spec_decode(d1).unknown4,
        !(243 + name_len_of(d1) <= a && c <= 253 + name_len_of(d1)) ==> spec_decode(d2).unknown5
            == spec_decode(d1).unknown5,
        !(833 + name_len_of(d1) <= a && c <= d1.len()) ==> spec_decode(d2).unknown6
            == spec_decode(d1).unknown6,
{
    let b = 25 + name_len_of(d1);
    assert forall|i: int| (0 <= i < 12 || 24 <= i < 25) implies #[trigger] d1[i] == d2[i] by {}
    assert(d2[24] == d1[24]);
    assert(name_len_of(d2) == name_len_of(d1));
    assert forall|i: int| 25 <= i < b implies #[trigger] d1[i] == d2[i] by {}
    assert forall|i: int| b <= i < b + 68 implies #[trigger] d1[i] == d2[i] by {}
    assert forall|i: int| b + 78 <= i < b + 123 implies #[trigger] d1[i] == d2[i] by {}
    assert forall|i: int| b + 143 <= i < b + 173 implies #[trigger] d1[i] == d2[i] by {}
    assert forall|i: int| b + 178 <= i < b + 218 implies #[trigger] d1[i] == d2[i] by {}
    assert forall|i: int| b + 228 <= i < b + 808 implies #[trigger] d1[i] == d2[i] by {}
    assert(company_bytes(d2) =~= company_bytes(d1));
    assert(name_bytes(d2) =~= name_bytes(d1));
    assert(le32_of(d2, 0) == le32_of(d1, 0));
    assert(le64_of(d2, b + 1) == le64_of(d1, b + 1));
    assert(crate::codec::dec_appearance(d2, b) == crate::codec::dec_appearance(d1, b));
    assert(le32_of(d2, b + 18) == le32_of(d1, b + 18));
    assert(le32_of(d2, b + 22) == le32_of(d1, b + 22));
    assert(le32_of(d2, b + 26) == le32_of(d1, b + 26));
    assert(le32_of(d2, b + 30) == le32_of(d1, b + 30));
    assert(le32_of(d2, b + 36) == le32_of(d1, b + 36));
    lemma_dec_equips_congr(d1, d2, b + 78, 3);
    lemma_dec_equips_congr(d1, d2, b + 93, 6);
    lemma_dec_equips_congr(d1, d2, b + 143, 6);
    lemma_dec_equips_congr(d1, d2, b + 178, 8);
    lemma_dec_items_congr(d1, d2, b + 228, 32);
    lemma_dec_items_congr(d1, d2, b + 548, 26);
    if !(12 <= a && c <= 24) {
        assert forall|i: int| 12 <= i < 24 implies #[trigger] d1[i] == d2[i] by {}
        assert(d2.subrange(12, 24) =~= d1.subrange(12, 24));
    }
    if !(b + 68 <= a && c <= b + 78) {
        assert forall|i: int| b + 68 <= i < b + 78 implies #[trigger] d1[i] == d2[i] by {}
        assert(d2.subrange(b + 68, b + 78) =~= d1.subrange(b + 68, b + 78));
    }
    if !(b + 123 <= a && c <= b + 143) {
        assert forall|i: int| b + 123 <= i < b + 143 implies #[trigger] d1[i] == d2[i] by {}
        assert(d2.subrange(b + 123, b + 143) =~= d1.subrange(b + 123, b + 143));
    }
    if !(b + 173 <= a && c <= b + 178) {
        assert forall|i: int| b + 173 <= i < b + 178 implies #[trigger] d1[i] == d2[i] by {}
        assert(d2.subrange(b + 173, b + 178) =~= d1.subrange(b + 173, b + 178));
    }
    if !(b + 218 <= a && c <= b + 228) {
        assert forall|i: int| b + 218 <= i < b + 228 implies #[trigger] d1[i] == d2[i] by {}
        assert(d2.subrange(b + 218, b + 228) =~= d1.subrange(b + 218, b + 228));
    }
    if !(b + 808 <= a && c <= d1.len()) {
        assert forall|i: int| b + 808 <= i < d1.len() implies #[trigger] d1[i] == d2[i] by {}
        assert(d2.subrange(b + 808, d2.len() as int) =~= d1.subrange(b + 808, d1.len() as int));
    }
}

} // verus!
