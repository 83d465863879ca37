//! The decoded character save and its sub-records.
//!
//! Fields are either known (typed and named) or opaque: an ordered byte run
//! whose meaning is not modeled, preserved verbatim so that re-encoding can
//! reproduce the original stream byte for byte.
use vstd::prelude::*;

verus! {

/// Numeric style and colour identifiers of the character.
///
/// A value owned entirely by the record; the colour half of it sits after
/// the vitals in the byte stream, not next to the style half.
#[derive(Clone, Copy, Debug, PartialEq, Eq, Structural)]
pub struct Appearance {
    pub hair_style: i32,
    pub hair_dye: u8,
    pub hide_visual: u16,
    pub hide_misc: u8,
    pub gender: u8,
    pub hair_colour: i32,
    pub skin_colour: i32,
    pub eye_colour: i32,
    pub shirt_colour: i32,
    pub undershirt_colour: i32,
    pub pants_colour: i32,
    pub shoes_colour: i32,
}

/// An equipment slot: an item identifier and a modifier ("prefix")
/// identifier. Identifier 0 means an empty slot, but the slot is always
/// stored at its full width.
#[derive(Clone, Copy, Debug, PartialEq, Eq, Structural)]
pub struct Equipment {
    pub id: i32,
    pub prefix: u8,
}

/// An inventory slot: identifier, stack count, modifier and favourite flag.
///
/// An identifier of 0, or one above the schema's maximum known item
/// identifier, marks the slot as unused; the encoder still reserves the
/// slot's full byte width.
#[derive(Clone, Copy, Debug, PartialEq, Eq, Structural)]
pub struct Item {
    pub id: i32,
    pub stack: i32,
    pub prefix: u8,
    pub favourites: bool,
}

/// The mathematical view of a [`Plr`]: the same fields over `Seq` instead
/// of `Vec`.
#[verifier::ext_equal]
pub ghost struct PlrV {
    pub version: u32,
    pub company: Seq<u8>,
    pub file_type: u8,
    pub unknown1: Seq<u8>,
    pub name_length: u8,
    pub name: Seq<u8>,
    pub difficulty: i8,
    pub play_time: i64,
    pub appearance: Appearance,
    pub stat_life: i32,
    pub stat_life_max: i32,
    pub stat_mana: i32,
    pub stat_mana_max: i32,
    pub extra_accessory: bool,
    pub done_dundefii_event: bool,
    pub tax_money: i32,
    pub unknown2: Seq<u8>,
    pub armor: Seq<Equipment>,
    pub accessories: Seq<Equipment>,
    pub unknown3: Seq<u8>,
    pub accessories_vanity: Seq<Equipment>,
    pub unknown4: Seq<u8>,
    pub dyes: Seq<Equipment>,
    pub unknown5: Seq<u8>,
    pub inventory1: Seq<Item>,
    pub inventory2: Seq<Item>,
    pub unknown6: Seq<u8>,
    pub raw_length_bytes: int,
}

/// The decoded character save.
///
/// Text fields hold the raw bytes of the stream (validated as text when
/// decoded); `UNKNOWN` fields are opaque byte runs kept verbatim.
/// `raw_length_bytes` records the total length of the buffer the record was
/// decoded from, so that encoding can allocate the identical length.
#[allow(non_snake_case)]
#[derive(Debug)]
pub struct Plr {
    pub version: u32,
    pub company: Vec<u8>,
    pub file_type: u8,
    pub UNKNOWN1: Vec<u8>,
    pub name_length: u8,
    pub name: Vec<u8>,
    pub difficulty: i8,
    pub play_time: i64,
    pub appearance: Appearance,
    pub stat_life: i32,
    pub stat_life_max: i32,
    pub stat_mana: i32,
    pub stat_mana_max: i32,
    pub extra_accessory: bool,
    pub done_dundefii_event: bool,
    pub tax_money: i32,
    pub UNKNOWN2: Vec<u8>,
    pub armor: Vec<Equipment>,
    pub accessories: Vec<Equipment>,
    pub UNKNOWN3: Vec<u8>,
    pub accessories_vanity: Vec<Equipment>,
    pub UNKNOWN4: Vec<u8>,
    pub dyes: Vec<Equipment>,
    pub UNKNOWN5: Vec<u8>,
    pub inventory1: Vec<Item>,
    pub inventory2: Vec<Item>,
    pub UNKNOWN6: Vec<u8>,
    pub raw_length_bytes: usize,
}

impl View for Plr {
    type V = PlrV;

    open spec fn view(&self) -> PlrV {
        PlrV {
            version: self.version,
            company: self.company@,
            file_type: self.file_type,
            unknown1: self.UNKNOWN1@,
            name_length: self.name_length,
            name: self.name@,
            difficulty: self.difficulty,
            play_time: self.play_time,
            appearance: self.appearance,
            stat_life: self.stat_life,
            stat_life_max: self.stat_life_max,
            stat_mana: self.stat_mana,
            stat_mana_max: self.stat_mana_max,
            extra_accessory: self.extra_accessory,
            done_dundefii_event: self.done_dundefii_event,
            tax_money: self.tax_money,
            unknown2: self.UNKNOWN2@,
            armor: self.armor@,
            accessories: self.accessories@,
            unknown3: self.UNKNOWN3@,
            accessories_vanity: self.accessories_vanity@,
            unknown4: self.UNKNOWN4@,
            dyes: self.dyes@,
            unknown5: self.UNKNOWN5@,
            inventory1: self.inventory1@,
            inventory2: self.inventory2@,
            unknown6: self.UNKNOWN6@,
            raw_length_bytes: self.raw_length_bytes as int,
        }
    }
}

impl Default for Appearance {
    /// All styles and colours zero.
    fn default() -> (r: Self)
        ensures
            r == (Appearance {
                hair_style: 0,
                hair_dye: 0,
                hide_visual: 0,
                hide_misc: 0,
                gender: 0,
                hair_colour: 0,
                skin_colour: 0,
                eye_colour: 0,
                shirt_colour: 0,
                undershirt_colour: 0,
                pants_colour: 0,
                shoes_colour: 0,
            }),
    {
        Appearance {
            hair_style: 0,
            hair_dye: 0,
            hide_visual: 0,
            hide_misc: 0,
            gender: 0,
            hair_colour: 0,
            skin_colour: 0,
            eye_colour: 0,
            shirt_colour: 0,
            undershirt_colour: 0,
            pants_colour: 0,
            shoes_colour: 0,
        }
    }
}

impl Default for Equipment {
    /// The empty slot.
    fn default() -> (r: Self)
        ensures
            r == (Equipment { id: 0, prefix: 0 }),
    {
        Equipment { id: 0, prefix: 0 }
    }
}

impl Default for Item {
    /// The unused slot.
    fn default() -> (r: Self)
        ensures
            r == (Item { id: 0, stack: 0, prefix: 0, favourites: false }),
    {
        Item { id: 0, stack: 0, prefix: 0, favourites: false }
    }
}

} // verus!
