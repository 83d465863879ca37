//! The record codec: the two-way mapping between a byte buffer and a
//! [`Plr`].
//!
//! The layout is a single hard-coded schema. Decoding reads fields in
//! declared order behind one cursor; every opaque run is read at its exact
//! declared length, the two inventory regions apply the sentinel-skip rule
//! per slot, and whatever bytes remain after all declared fields become the
//! final opaque run. Encoding writes the identical order and widths, always
//! emitting the full fixed width of every inventory slot, into a buffer
//! whose length was recorded at decode time.
//!
//! The spec functions below give the mathematical reading of a buffer
//! (`spec_decode`) and the mathematical bytes of a record (`spec_encode`);
//! the executable functions are proved to realise them exactly.
use vstd::prelude::*;

use crate::error::PlrError;
use crate::le::{
    bool_of_u8, i32_of_u32, i64_of_u64, i8_of_u8, le16_bytes, le16_of, le32_bytes, le32_of,
    le64_bytes, le64_of, u32_of_i32, u64_of_i64, u8_of_bool, u8_of_i8,
};
use crate::pack::PlrPacker;
use crate::record::{Appearance, Equipment, Item, Plr, PlrV};
use crate::text::utf8_valid;
use crate::unpack::PlrUnpacker;

verus! {

/// The largest item identifier the schema knows; a slot whose leading
/// identifier exceeds it is treated as unused.
pub const MAX_ITEM_ID: i32 = 5455;

/// Bytes of the header up to and including the name-length prefix.
pub const HEADER_LEN: usize = 25;

/// Bytes of all declared fields after the display name: the scalar block,
/// the opaque runs of declared length, the equipment arrays and the two
/// inventory regions.
pub const FIXED_AFTER_NAME: usize = 808;

/// The declared length of the display name: the byte just before it.
pub open spec fn name_len_of(d: Seq<u8>) -> int {
    d[24] as int
}

/// The seven bytes of the origin tag.
pub open spec fn company_bytes(d: Seq<u8>) -> Seq<u8> {
    d.subrange(4, 11)
}

/// The bytes of the display name.
pub open spec fn name_bytes(d: Seq<u8>) -> Seq<u8> {
    d.subrange(25, 25 + name_len_of(d))
}

/// Whether the buffer is long enough for every declared field.
pub open spec fn decode_len_ok(d: Seq<u8>) -> bool {
    &&& d.len() >= HEADER_LEN
    &&& d.len() >= HEADER_LEN + name_len_of(d) + FIXED_AFTER_NAME
}

/// Whether the buffer decodes at all: long enough, and both text fields
/// validly encoded.
pub open spec fn spec_decode_ok(d: Seq<u8>) -> bool {
    &&& decode_len_ok(d)
    &&& utf8_valid(company_bytes(d))
    &&& utf8_valid(name_bytes(d))
}

/// The error a failing decode reports, following the order in which the
/// fields are read.
pub open spec fn spec_decode_err(d: Seq<u8>) -> PlrError {
    if d.len() < 11 {
        PlrError::TruncatedInput
    } else if !utf8_valid(company_bytes(d)) {
        PlrError::InvalidText
    } else if d.len() < 25 {
        PlrError::TruncatedInput
    } else if d.len() < 25 + name_len_of(d) {
        PlrError::TruncatedInput
    } else if !utf8_valid(name_bytes(d)) {
        PlrError::InvalidText
    } else {
        PlrError::TruncatedInput
    }
}

/// The equipment pair stored at `off`.
pub open spec fn dec_equip(d: Seq<u8>, off: int) -> Equipment {
    Equipment { id: i32_of_u32(le32_of(d, off)), prefix: d[off + 4] }
}

/// The first `n` equipment pairs of the array starting at `off`, five
/// bytes each.
pub open spec fn dec_equips(d: Seq<u8>, off: int, n: int) -> Seq<Equipment> {
    Seq::new(if n < 0 { 0 } else { n as nat }, |j: int| dec_equip(d, off + 5 * j))
}

/// The inventory slot stored at `off`: if the leading identifier is 0 or
/// above [`MAX_ITEM_ID`], the six remaining bytes of the slot are skipped
/// without being read and the slot is the unused item.
pub open spec fn dec_item(d: Seq<u8>, off: int) -> Item {
    let id = i32_of_u32(le32_of(d, off));
    if id == 0 || id > MAX_ITEM_ID {
        Item { id: 0, stack: 0, prefix: 0, favourites: false }
    } else {
        Item {
            id,
            stack: i32_of_u32(le32_of(d, off + 4)),
            prefix: d[off + 8],
            favourites: bool_of_u8(d[off + 9]),
        }
    }
}

/// The first `n` inventory slots of the region starting at `off`, ten
/// bytes each.
pub open spec fn dec_items(d: Seq<u8>, off: int, n: int) -> Seq<Item> {
    Seq::new(if n < 0 { 0 } else { n as nat }, |j: int| dec_item(d, off + 10 * j))
}

/// The appearance read from a buffer whose name ends at `b`: the style half
/// sits right after the play-time counter, the colour half after the
/// currency value.
pub open spec fn dec_appearance(d: Seq<u8>, b: int) -> Appearance {
    Appearance {
        hair_style: i32_of_u32(le32_of(d, b + 9)),
        hair_dye: d[b + 13],
        hide_visual: le16_of(d, b + 14),
        hide_misc: d[b + 16],
        gender: d[b + 17],
        hair_colour: i32_of_u32(le32_of(d, b + 40)),
        skin_colour: i32_of_u32(le32_of(d, b + 44)),
        eye_colour: i32_of_u32(le32_of(d, b + 48)),
        shirt_colour: i32_of_u32(le32_of(d, b + 52)),
        undershirt_colour: i32_of_u32(le32_of(d, b + 56)),
        pants_colour: i32_of_u32(le32_of(d, b + 60)),
        shoes_colour: i32_of_u32(le32_of(d, b + 64)),
    }
}

/// The record a valid buffer decodes to, field by field at its declared
/// offset. `b` is the position right after the display name.
pub open spec fn spec_decode(d: Seq<u8>) -> PlrV {
    let b = 25 + name_len_of(d);
    PlrV {
        version: le32_of(d, 0),
        company: company_bytes(d),
        file_type: d[11],
        unknown1: d.subrange(12, 24),
        name_length: d[24],
        name: name_bytes(d),
        difficulty: i8_of_u8(d[b]),
        play_time: i64_of_u64(le64_of(d, b + 1)),
        appearance: dec_appearance(d, b),
        stat_life: i32_of_u32(le32_of(d, b + 18)),
        stat_life_max: i32_of_u32(le32_of(d, b + 22)),
        stat_mana: i32_of_u32(le32_of(d, b + 26)),
        stat_mana_max: i32_of_u32(le32_of(d, b + 30)),
        extra_accessory: bool_of_u8(d[b + 34]),
        done_dundefii_event: bool_of_u8(d[b + 35]),
        tax_money: i32_of_u32(le32_of(d, b + 36)),
        unknown2: d.subrange(b + 68, b + 78),
        armor: dec_equips(d, b + 78, 3),
        accessories: dec_equips(d, b + 93, 6),
        unknown3: d.subrange(b + 123, b + 143),
        accessories_vanity: dec_equips(d, b + 143, 6),
        unknown4: d.subrange(b + 173, b + 178),
        dyes: dec_equips(d, b + 178, 8),
        unknown5: d.subrange(b + 218, b + 228),
        inventory1: dec_items(d, b + 228, 32),
        inventory2: dec_items(d, b + 548, 26),
        unknown6: d.subrange(b + 808, d.len() as int),
        raw_length_bytes: d.len() as int,
    }
}

/// The five bytes an equipment pair encodes to.
pub open spec fn enc_equip(e: Equipment) -> Seq<u8> {
    le32_bytes(u32_of_i32(e.id)) + seq![e.prefix]
}

/// The bytes of the first `n` pairs of an equipment array.
pub open spec fn enc_equips(s: Seq<Equipment>, n: int) -> Seq<u8>
    decreases n,
{
    if n <= 0 {
        Seq::empty()
    } else {
        enc_equips(s, n - 1) + enc_equip(s[n - 1])
    }
}

/// The ten bytes an inventory slot encodes to. Encoding always emits all
/// four sub-fields, whether or not the slot is logically empty.
pub open spec fn enc_item(it: Item) -> Seq<u8> {
    le32_bytes(u32_of_i32(it.id)) + le32_bytes(u32_of_i32(it.stack)) + seq![it.prefix]
        + seq![u8_of_bool(it.favourites)]
}

/// The bytes of the first `n` slots of an inventory region.
pub open spec fn enc_items(s: Seq<Item>, n: int) -> Seq<u8>
    decreases n,
{
    if n <= 0 {
        Seq::empty()
    } else {
        enc_items(s, n - 1) + enc_item(s[n - 1])
    }
}

/// The header bytes: version, origin tag, file kind, first opaque run and
/// the name-length prefix.
pub open spec fn enc_header(p: PlrV) -> Seq<u8> {
    le32_bytes(p.version) + p.company + seq![p.file_type] + p.unknown1 + seq![p.name_length]
}

/// The fixed scalar block between the display name and the second opaque
/// run: difficulty, play time, the style half of the appearance, vitals,
/// flags, currency and the colour half of the appearance.
pub open spec fn enc_scalars(p: PlrV) -> Seq<u8> {
    seq![u8_of_i8(p.difficulty)] + le64_bytes(u64_of_i64(p.play_time)) + le32_bytes(
        u32_of_i32(p.appearance.hair_style),
    ) + seq![p.appearance.hair_dye] + le16_bytes(p.appearance.hide_visual)
        + seq![p.appearance.hide_misc] + seq![p.appearance.gender] + le32_bytes(
        u32_of_i32(p.stat_life),
    ) + le32_bytes(u32_of_i32(p.stat_life_max)) + le32_bytes(u32_of_i32(p.stat_mana)) + le32_bytes(
        u32_of_i32(p.stat_mana_max),
    ) + seq![u8_of_bool(p.extra_accessory)] + seq![u8_of_bool(p.done_dundefii_event)] + le32_bytes(
        u32_of_i32(p.tax_money),
    ) + le32_bytes(u32_of_i32(p.appearance.hair_colour)) + le32_bytes(
        u32_of_i32(p.appearance.skin_colour),
    ) + le32_bytes(u32_of_i32(p.appearance.eye_colour)) + le32_bytes(
        u32_of_i32(p.appearance.shirt_colour),
    ) + le32_bytes(u32_of_i32(p.appearance.undershirt_colour)) + le32_bytes(
        u32_of_i32(p.appearance.pants_colour),
    ) + le32_bytes(u32_of_i32(p.appearance.shoes_colour))
}

/// The equipment region: opaque runs interleaved with the four equipment
/// arrays.
pub open spec fn enc_equip_region(p: PlrV) -> Seq<u8> {
    p.unknown2 + enc_equips(p.armor, p.armor.len() as int) + enc_equips(
        p.accessories,
        p.accessories.len() as int,
    ) + p.unknown3 + enc_equips(p.accessories_vanity, p.accessories_vanity.len() as int)
        + p.unknown4 + enc_equips(p.dyes, p.dyes.len() as int) + p.unknown5
}

/// The inventory regions and the final opaque run.
pub open spec fn enc_tail(p: PlrV) -> Seq<u8> {
    enc_items(p.inventory1, p.inventory1.len() as int) + enc_items(
        p.inventory2,
        p.inventory2.len() as int,
    ) + p.unknown6
}

/// The bytes a record encodes to, in declared order.
pub open spec fn spec_encode(p: PlrV) -> Seq<u8> {
    enc_header(p) + p.name + enc_scalars(p) + enc_equip_region(p) + enc_tail(p)
}

/// The number of bytes a record encodes to.
pub open spec fn spec_encoded_len(p: PlrV) -> int {
    4int + p.company.len() + 1 + p.unknown1.len() + 1 + p.name.len() + 68 + p.unknown2.len() + 5
        * p.armor.len() + 5 * p.accessories.len() + p.unknown3.len() + 5
        * p.accessories_vanity.len() + p.unknown4.len() + 5 * p.dyes.len() + p.unknown5.len() + 10
        * p.inventory1.len() + 10 * p.inventory2.len() + p.unknown6.len()
}

/// `n` zero bytes: what encoding leaves after its last write when the
/// recorded length exceeds the bytes actually written.
pub open spec fn zero_seq(n: int) -> Seq<u8> {
    Seq::new(if n < 0 { 0 } else { n as nat }, |i: int| 0u8)
}

/// An equipment array of `n` pairs encodes to five bytes a pair.
pub proof fn lemma_enc_equips_len(s: Seq<Equipment>, n: int)
    requires
        n >= 0,
    ensures
        enc_equips(s, n).len() == 5 * n,
    decreases n,
{
    if n > 0 {
        lemma_enc_equips_len(s, n - 1);
    }
}

/// An inventory region of `n` slots encodes to ten bytes a slot.
pub proof fn lemma_enc_items_len(s: Seq<Item>, n: int)
    requires
        n >= 0,
    ensures
        enc_items(s, n).len() == 10 * n,
    decreases n,
{
    if n > 0 {
        lemma_enc_items_len(s, n - 1);
    }
}

/// The encoded bytes have exactly the declared length.
pub proof fn lemma_spec_encode_len(p: PlrV)
    ensures
        spec_encode(p).len() == spec_encoded_len(p),
{
    lemma_enc_equips_len(p.armor, p.armor.len() as int);
    lemma_enc_equips_len(p.accessories, p.accessories.len() as int);
    lemma_enc_equips_len(p.accessories_vanity, p.accessories_vanity.len() as int);
    lemma_enc_equips_len(p.dyes, p.dyes.len() as int);
    lemma_enc_items_len(p.inventory1, p.inventory1.len() as int);
    lemma_enc_items_len(p.inventory2, p.inventory2.len() as int);
}

fn read_equipment(u: &mut PlrUnpacker) -> (r: Result<Equipment, PlrError>)
    ensures
        final(u).data == old(u).data,
        r is Ok <==> old(u).pos + 5 <= old(u).data.len(),
        r matches Ok(e) ==> e == dec_equip(old(u).data@, old(u).pos as int) && final(u).pos == old(u).pos + 5,
        r is Err ==> r == Err::<Equipment, PlrError>(PlrError::TruncatedInput),
{
    let id = match u.r_i32() {
        Ok(v) => v,
        Err(e) => return Err(e),
    };
    let prefix = match u.r_u8() {
        Ok(v) => v,
        Err(e) => return Err(e),
    };
    Ok(Equipment { id, prefix })
}

fn read_equips(u: &mut PlrUnpacker, n: usize) -> (r: Result<Vec<Equipment>, PlrError>)
    requires
        1 <= n <= 8,
    ensures
        final(u).data == old(u).data,
        r is Ok <==> old(u).pos + 5 * n <= old(u).data.len(),
        r matches Ok(v) ==> v@ == dec_equips(old(u).data@, old(u).pos as int, n as int) && final(u).pos == old(u).pos + 5 * n,
        r is Err ==> r == Err::<Vec<Equipment>, PlrError>(PlrError::TruncatedInput),
{
    let mut v: Vec<Equipment> = Vec::new();
    let mut i: usize = 0;
    while i < n
        invariant
            i <= n,
            n <= 8,
            u.data == old(u).data,
            u.pos == old(u).pos + 5 * i,
            i > 0 ==> old(u).pos + 5 * i <= old(u).data.len(),
            v@ == dec_equips(old(u).data@, old(u).pos as int, i as int),
        decreases n - i,
    {
        let e = match read_equipment(u) {
            Ok(e) => e,
            Err(er) => return Err(er),
        };
        v.push(e);
        i = i + 1;
        proof {
            assert(v@ =~= dec_equips(old(u).data@, old(u).pos as int, i as int));
        }
    }
    Ok(v)
}

fn read_item(u: &mut PlrUnpacker) -> (r: Result<Item, PlrError>)
    ensures
        final(u).data == old(u).data,
        r is Ok <==> old(u).pos + 10 <= old(u).data.len(),
        r matches Ok(it) ==> it == dec_item(old(u).data@, old(u).pos as int) && final(u).pos == old(u).pos + 10,
        r is Err ==> r == Err::<Item, PlrError>(PlrError::TruncatedInput),
{
    let id = match u.r_i32() {
        Ok(v) => v,
        Err(e) => return Err(e),
    };
    if id == 0 || id > MAX_ITEM_ID {
        match u.skip(6) {
            Ok(_) => (),
            Err(e) => return Err(e),
        };
        Ok(Item::default())
    } else {
        let stack = match u.r_i32() {
            Ok(v) => v,
            Err(e) => return Err(e),
        };
        let prefix = match u.r_u8() {
            Ok(v) => v,
            Err(e) => return Err(e),
        };
        let favourites = match u.r_bool() {
            Ok(v) => v,
            Err(e) => return Err(e),
        };
        Ok(Item { id, stack, prefix, favourites })
    }
}

fn read_items(u: &mut PlrUnpacker, n: usize) -> (r: Result<Vec<Item>, PlrError>)
    requires
        1 <= n <= 32,
    ensures
        final(u).data == old(u).data,
        r is Ok <==> old(u).pos + 10 * n <= old(u).data.len(),
        r matches Ok(v) ==> v@ == dec_items(old(u).data@, old(u).pos as int, n as int) && final(u).pos == old(u).pos + 10 * n,
        r is Err ==> r == Err::<Vec<Item>, PlrError>(PlrError::TruncatedInput),
{
    let mut v: Vec<Item> = Vec::new();
    let mut i: usize = 0;
    while i < n
        invariant
            i <= n,
            n <= 32,
            u.data == old(u).data,
            u.pos == old(u).pos + 10 * i,
            i > 0 ==> old(u).pos + 10 * i <= old(u).data.len(),
            v@ == dec_items(old(u).data@, old(u).pos as int, i as int),
        decreases n - i,
    {
        let it = match read_item(u) {
            Ok(it) => it,
            Err(er) => return Err(er),
        };
        v.push(it);
        i = i + 1;
        proof {
            assert(v@ =~= dec_items(old(u).data@, old(u).pos as int, i as int));
        }
    }
    Ok(v)
}

fn read_scalars(u: &mut PlrUnpacker) -> (r: Result<
    (i8, i64, Appearance, i32, i32, i32, i32, bool, bool, i32),
    PlrError,
>)
    ensures
        final(u).data == old(u).data,
        r is Ok <==> old(u).pos + 68 <= old(u).data.len(),
        r matches Ok(t) ==> t.0 == i8_of_u8(old(u).data@[old(u).pos as int]),
        r matches Ok(t) ==> t.1 == i64_of_u64(le64_of(old(u).data@, old(u).pos + 1)),
        r matches Ok(t) ==> t.2 == dec_appearance(old(u).data@, old(u).pos as int),
        r matches Ok(t) ==> t.3 == i32_of_u32(le32_of(old(u).data@, old(u).pos + 18)),
        r matches Ok(t) ==> t.4 == i32_of_u32(le32_of(old(u).data@, old(u).pos + 22)),
        r matches Ok(t) ==> t.5 == i32_of_u32(le32_of(old(u).data@, old(u).pos + 26)),
        r matches Ok(t) ==> t.6 == i32_of_u32(le32_of(old(u).data@, old(u).pos + 30)),
        r matches Ok(t) ==> t.7 == bool_of_u8(old(u).data@[old(u).pos + 34]),
        r matches Ok(t) ==> t.8 == bool_of_u8(old(u).data@[old(u).pos + 35]),
        r matches Ok(t) ==> t.9 == i32_of_u32(le32_of(old(u).data@, old(u).pos + 36)),
        r is Ok ==> final(u).pos == old(u).pos + 68,
        r is Err ==> r == Err::<(i8, i64, Appearance, i32, i32, i32, i32, bool, bool, i32),
            PlrError,
        >(PlrError::TruncatedInput),
{
    let difficulty = match u.r_i8() {
        Ok(v) => v,
        Err(e) => return Err(e),
    };
    let play_time = match u.r_i64() {
        Ok(v) => v,
        Err(e) => return Err(e),
    };
    let hair_style = match u.r_i32() {
        Ok(v) => v,
        Err(e) => return Err(e),
    };
    let hair_dye = match u.r_u8() {
        Ok(v) => v,
        Err(e) => return Err(e),
    };
    let hide_visual = match u.r_u16() {
        Ok(v) => v,
        Err(e) => return Err(e),
    };
    let hide_misc = match u.r_u8() {
        Ok(v) => v,
        Err(e) => return Err(e),
    };
    let gender = match u.r_u8() {
        Ok(v) => v,
        Err(e) => return Err(e),
    };
    let stat_life = match u.r_i32() {
        Ok(v) => v,
        Err(e) => return Err(e),
    };
    let stat_life_max = match u.r_i32() {
        Ok(v) => v,
        Err(e) => return Err(e),
    };
    let stat_mana = match u.r_i32() {
        Ok(v) => v,
        Err(e) => return Err(e),
    };
    let stat_mana_max = match u.r_i32() {
        Ok(v) => v,
        Err(e) => return Err(e),
    };
    let extra_accessory = match u.r_bool() {
        Ok(v) => v,
        Err(e) => return Err(e),
    };
    let done_dundefii_event = match u.r_bool() {
        Ok(v) => v,
        Err(e) => return Err(e),
    };
    let tax_money = match u.r_i32() {
        Ok(v) => v,
        Err(e) => return Err(e),
    };
    let hair_colour = match u.r_i32() {
        Ok(v) => v,
        Err(e) => return Err(e),
    };
    let skin_colour = match u.r_i32() {
        Ok(v) => v,
        Err(e) => return Err(e),
    };
    let eye_colour = match u.r_i32() {
        Ok(v) => v,
        Err(e) => return Err(e),
    };
    let shirt_colour = match u.r_i32() {
        Ok(v) => v,
        Err(e) => return Err(e),
    };
    let undershirt_colour = match u.r_i32() {
        Ok(v) => v,
        Err(e) => return Err(e),
    };
    let pants_colour = match u.r_i32() {
        Ok(v) => v,
        Err(e) => return Err(e),
    };
    let shoes_colour = match u.r_i32() {
        Ok(v) => v,
        Err(e) => return Err(e),
    };
    let appearance = Appearance {
        hair_style,
        hair_dye,
        hide_visual,
        hide_misc,
        gender,
        hair_colour,
        skin_colour,
        eye_colour,
        shirt_colour,
        undershirt_colour,
        pants_colour,
        shoes_colour,
    };
    Ok(
        (
            difficulty,
            play_time,
            appearance,
            stat_life,
            stat_life_max,
            stat_mana,
            stat_mana_max,
            extra_accessory,
            done_dundefii_event,
            tax_money,
        ),
    )
}

fn read_equip_region(u: &mut PlrUnpacker) -> (r: Result<
    (Vec<u8>, Vec<Equipment>, Vec<Equipment>, Vec<u8>, Vec<Equipment>, Vec<u8>, Vec<Equipment>, Vec<
        u8,
    >),
    PlrError,
>)
    ensures
        final(u).data == old(u).data,
        r is Ok <==> old(u).pos + 160 <= old(u).data.len(),
        r matches Ok(t) ==> t.0@ == old(u).data@.subrange(old(u).pos as int, old(u).pos + 10),
        r matches Ok(t) ==> t.1@ == dec_equips(old(u).data@, old(u).pos + 10, 3),
        r matches Ok(t) ==> t.2@ == dec_equips(old(u).data@, old(u).pos + 25, 6),
        r matches Ok(t) ==> t.3@ == old(u).data@.subrange(old(u).pos + 55, old(u).pos + 75),
        r matches Ok(t) ==> t.4@ == dec_equips(old(u).data@, old(u).pos + 75, 6),
        r matches Ok(t) ==> t.5@ == old(u).data@.subrange(old(u).pos + 105, old(u).pos + 110),
        r matches Ok(t) ==> t.6@ == dec_equips(old(u).data@, old(u).pos + 110, 8),
        r matches Ok(t) ==> t.7@ == old(u).data@.subrange(old(u).pos + 150, old(u).pos + 160),
        r is Ok ==> final(u).pos == old(u).pos + 160,
        r is Err ==> r == Err::<
            (Vec<u8>, Vec<Equipment>, Vec<Equipment>, Vec<u8>, Vec<Equipment>, Vec<u8>, Vec<
                Equipment,
            >, Vec<u8>),
            PlrError,
        >(PlrError::TruncatedInput),
{
    let unknown2 = match u.r_bytes(10) {
        Ok(v) => v,
        Err(e) => return Err(e),
    };
    let armor = match read_equips(u, 3) {
        Ok(v) => v,
        Err(e) => return Err(e),
    };
    let accessories = match read_equips(u, 6) {
        Ok(v) => v,
        Err(e) => return Err(e),
    };
    let unknown3 = match u.r_bytes(20) {
        Ok(v) => v,
        Err(e) => return Err(e),
    };
    let accessories_vanity = match read_equips(u, 6) {
        Ok(v) => v,
        Err(e) => return Err(e),
    };
    let unknown4 = match u.r_bytes(5) {
        Ok(v) => v,
        Err(e) => return Err(e),
    };
    let dyes = match read_equips(u, 8) {
        Ok(v) => v,
        Err(e) => return Err(e),
    };
    let unknown5 = match u.r_bytes(10) {
        Ok(v) => v,
        Err(e) => return Err(e),
    };
    Ok((unknown2, armor, accessories, unknown3, accessories_vanity, unknown4, dyes, unknown5))
}

fn read_inventories(u: &mut PlrUnpacker) -> (r: Result<(Vec<Item>, Vec<Item>), PlrError>)
    ensures
        final(u).data == old(u).data,
        r is Ok <==> old(u).pos + 580 <= old(u).data.len(),
        r matches Ok(t) ==> t.0@ == dec_items(old(u).data@, old(u).pos as int, 32),
        r matches Ok(t) ==> t.1@ == dec_items(old(u).data@, old(u).pos + 320, 26),
        r is Ok ==> final(u).pos == old(u).pos + 580,
        r is Err ==> r == Err::<(Vec<Item>, Vec<Item>), PlrError>(PlrError::TruncatedInput),
{
    let inventory1 = match read_items(u, 32) {
        Ok(v) => v,
        Err(e) => return Err(e),
    };
    let inventory2 = match read_items(u, 26) {
        Ok(v) => v,
        Err(e) => return Err(e),
    };
    Ok((inventory1, inventory2))
}

/// Decode a plaintext buffer into a record.
///
/// Fields are read strictly in declared order behind a single cursor; the
/// bytes remaining after all declared fields become the final opaque run,
/// and the total input length is recorded on the record for use during
/// encoding. The version field is stored, not validated. A read past the
/// end of the buffer fails with [`PlrError::TruncatedInput`], an invalidly
/// encoded text field with [`PlrError::InvalidText`]; any failure is fatal
/// and nothing partial is returned.
#[verifier::spinoff_prover]
#[verifier::rlimit(100)]
pub fn deserialize_raw_to_struct_plr(data: Vec<u8>) -> (r: Result<Plr, PlrError>)
    ensures
        r is Ok <==> spec_decode_ok(data@),
        r matches Ok(p) ==> p@ == spec_decode(data@),
        r is Err ==> r == Err::<Plr, PlrError>(spec_decode_err(data@)),
{
    let ghost d = data@;
    let mut u = PlrUnpacker::new(data);
    let version = match u.r_u32() {
        Ok(v) => v,
        Err(e) => return Err(e),
    };
    let company = match u.r_string(7) {
        Ok(v) => v,
        Err(e) => return Err(e),
    };
    let file_type = match u.r_u8() {
        Ok(v) => v,
        Err(e) => return Err(e),
    };
    let unknown1 = match u.r_bytes(12) {
        Ok(v) => v,
        Err(e) => return Err(e),
    };
    let name_length = match u.r_u8() {
        Ok(v) => v,
        Err(e) => return Err(e),
    };
    let name = match u.r_string(name_length as usize) {
        Ok(v) => v,
        Err(e) => return Err(e),
    };
    let (
        difficulty,
        play_time,
        appearance,
        stat_life,
        stat_life_max,
        stat_mana,
        stat_mana_max,
        extra_accessory,
        done_dundefii_event,
        tax_money,
    ) = match read_scalars(&mut u) {
        Ok(t) => t,
        Err(e) => return Err(e),
    };
    let (unknown2, armor, accessories, unknown3, accessories_vanity, unknown4, dyes, unknown5) =
        match read_equip_region(&mut u) {
        Ok(t) => t,
        Err(e) => return Err(e),
    };
    let (inventory1, inventory2) = match read_inventories(&mut u) {
        Ok(t) => t,
        Err(e) => return Err(e),
    };
    let rest = u.remaining();
    let unknown6 = match u.r_bytes(rest) {
        Ok(v) => v,
        Err(e) => return Err(e),
    };
    let raw_length_bytes = u.data.len();
    let plr = Plr {
        version,
        company,
        file_type,
        UNKNOWN1: unknown1,
        name_length,
        name,
        difficulty,
        play_time,
        appearance,
        stat_life,
        stat_life_max,
        stat_mana,
        stat_mana_max,
        extra_accessory,
        done_dundefii_event,
        tax_money,
        UNKNOWN2: unknown2,
        armor,
        accessories,
        UNKNOWN3: unknown3,
        accessories_vanity,
        UNKNOWN4: unknown4,
        dyes,
        UNKNOWN5: unknown5,
        inventory1,
        inventory2,
        UNKNOWN6: unknown6,
        raw_length_bytes,
    };
    proof {
        assert(plr@ == spec_decode(d));
    }
    Ok(plr)
}

fn write_equipment(p: &mut PlrPacker, e: &Equipment)
    ensures
        final(p).data@ == old(p).data@ + enc_equip(*e),
{
    let _ = p.w_i32(e.id);
    let _ = p.w_u8(e.prefix);
    proof {
        assert(p.data@ =~= old(p).data@ + enc_equip(*e));
    }
}

fn write_equips(p: &mut PlrPacker, v: &Vec<Equipment>)
    ensures
        final(p).data@ == old(p).data@ + enc_equips(v@, v@.len() as int),
{
    let mut i: usize = 0;
    while i < v.len()
        invariant
            i <= v.len(),
            p.data@ == old(p).data@ + enc_equips(v@, i as int),
        decreases v.len() - i,
    {
        write_equipment(p, &v[i]);
        i = i + 1;
        proof {
            assert(p.data@ =~= old(p).data@ + enc_equips(v@, i as int));
        }
    }
}

fn write_item(p: &mut PlrPacker, it: &Item)
    ensures
        final(p).data@ == old(p).data@ + enc_item(*it),
{
    let _ = p.w_i32(it.id);
    let _ = p.w_i32(it.stack);
    let _ = p.w_u8(it.prefix);
    let _ = p.w_bool(it.favourites);
    proof {
        assert(p.data@ =~= old(p).data@ + enc_item(*it));
    }
}

fn write_items(p: &mut PlrPacker, v: &Vec<Item>)
    ensures
        final(p).data@ == old(p).data@ + enc_items(v@, v@.len() as int),
{
    let mut i: usize = 0;
    while i < v.len()
        invariant
            i <= v.len(),
            p.data@ == old(p).data@ + enc_items(v@, i as int),
        decreases v.len() - i,
    {
        write_item(p, &v[i]);
        i = i + 1;
        proof {
            assert(p.data@ =~= old(p).data@ + enc_items(v@, i as int));
        }
    }
}

/// Encode a record into a buffer of the length recorded at decode time.
///
/// Fields are written in the identical order and widths used by decode,
/// including the full fixed width of every inventory slot whether or not it
/// is logically empty, and the final opaque run verbatim at the end. The
/// bytes of the display name are written as stored, without re-validating
/// them against the length prefix. If the fields together need more bytes
/// than the recorded length, encoding fails with
/// [`PlrError::TruncatedInput`]; if they need fewer, the rest of the buffer
/// stays zero.
#[verifier::spinoff_prover]
#[verifier::rlimit(100)]
pub fn serialize_struct_to_raw_plr(plr: &Plr) -> (r: Result<Vec<u8>, PlrError>)
    ensures
        r is Ok <==> spec_encoded_len(plr@) <= plr.raw_length_bytes,
        r matches Ok(d) ==> d@ == spec_encode(plr@) + zero_seq(
            plr.raw_length_bytes - spec_encoded_len(plr@),
        ),
        r is Err ==> r == Err::<Vec<u8>, PlrError>(PlrError::TruncatedInput),
{
    let mut p = PlrPacker::new();
    let _ = p.w_u32(plr.version);
    let _ = p.w_string(&plr.company);
    let _ = p.w_u8(plr.file_type);
    let _ = p.w_bytes(&plr.UNKNOWN1);
    let _ = p.w_u8(plr.name_length);
    proof {
        assert(p.data@ =~= enc_header(plr@));
    }
    let _ = p.w_string(&plr.name);
    let _ = p.w_i8(plr.difficulty);
    let _ = p.w_i64(plr.play_time);
    let _ = p.w_i32(plr.appearance.hair_style);
    let _ = p.w_u8(plr.appearance.hair_dye);
    let _ = p.w_u16(plr.appearance.hide_visual);
    let _ = p.w_u8(plr.appearance.hide_misc);
    let _ = p.w_u8(plr.appearance.gender);
    let _ = p.w_i32(plr.stat_life);
    let _ = p.w_i32(plr.stat_life_max);
    let _ = p.w_i32(plr.stat_mana);
    let _ = p.w_i32(plr.stat_mana_max);
    let _ = p.w_bool(plr.extra_accessory);
    let _ = p.w_bool(plr.done_dundefii_event);
    let _ = p.w_i32(plr.tax_money);
    let _ = p.w_i32(plr.appearance.hair_colour);
    let _ = p.w_i32(plr.appearance.skin_colour);
    let _ = p.w_i32(plr.appearance.eye_colour);
    let _ = p.w_i32(plr.appearance.shirt_colour);
    let _ = p.w_i32(plr.appearance.undershirt_colour);
    let _ = p.w_i32(plr.appearance.pants_colour);
    let _ = p.w_i32(plr.appearance.shoes_colour);
    proof {
        assert(p.data@ =~= enc_header(plr@) + plr@.name + enc_scalars(plr@));
    }
    let _ = p.w_bytes(&plr.UNKNOWN2);
    write_equips(&mut p, &plr.armor);
    write_equips(&mut p, &plr.accessories);
    let _ = p.w_bytes(&plr.UNKNOWN3);
    write_equips(&mut p, &plr.accessories_vanity);
    let _ = p.w_bytes(&plr.UNKNOWN4);
    write_equips(&mut p, &plr.dyes);
    let _ = p.w_bytes(&plr.UNKNOWN5);
    proof {
        assert(p.data@ =~= enc_header(plr@) + plr@.name + enc_scalars(plr@) + enc_equip_region(
            plr@,
        ));
    }
    write_items(&mut p, &plr.inventory1);
    write_items(&mut p, &plr.inventory2);
    let _ = p.w_bytes(&plr.UNKNOWN6);
    proof {
        assert(p.data@ =~= spec_encode(plr@));
        lemma_spec_encode_len(plr@);
    }
    if p.data.len() > plr.raw_length_bytes {
        return Err(PlrError::TruncatedInput);
    }
    let mut out = p.data;
    proof {
        assert(out@ =~= spec_encode(plr@) + zero_seq(0));
    }
    while out.len() < plr.raw_length_bytes
        invariant
            spec_encoded_len(plr@) <= out@.len() <= plr.raw_length_bytes,
            out@ == spec_encode(plr@) + zero_seq(out@.len() - spec_encoded_len(plr@)),
        decreases plr.raw_length_bytes - out.len(),
    {
        out.push(0u8);
        proof {
            assert(out@ =~= spec_encode(plr@) + zero_seq(out@.len() - spec_encoded_len(plr@)));
        }
    }
    Ok(out)
}

} // verus!
