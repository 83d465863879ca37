use plr_edit::{
    decrypt_plr_aes128cbc, deserialize_raw_to_struct_plr, encrypt_plr_aes128cbc,
    encrypt_plr_aes128cbc_aligned, serialize_struct_to_raw_plr, PlrError, PlrPacker, PlrUnpacker,
};

fn push_u16(v: &mut Vec<u8>, x: u16) {
    v.extend_from_slice(&x.to_le_bytes());
}

fn push_u32(v: &mut Vec<u8>, x: u32) {
    v.extend_from_slice(&x.to_le_bytes());
}

fn push_i32(v: &mut Vec<u8>, x: i32) {
    v.extend_from_slice(&x.to_le_bytes());
}

fn push_i64(v: &mut Vec<u8>, x: i64) {
    v.extend_from_slice(&x.to_le_bytes());
}

/// A synthetic plaintext buffer in the schema's field order, with a
/// 4-character display name, one occupied inventory slot, and `tail` bytes
/// of trailing opaque data.
fn sample_buffer(tail: &[u8]) -> Vec<u8> {
    let mut v = Vec::new();
    push_u32(&mut v, 230); // version
    v.extend_from_slice(b"COMPANY"); // origin tag, 7 bytes
    v.push(2); // file kind tag
    v.extend_from_slice(&[10, 11, 12, 13, 14, 15, 16, 17, 18, 19, 20, 21]); // opaque run 1
    v.push(4); // name length
    v.extend_from_slice(b"Liam"); // name
    v.push(0xFF); // difficulty -1
    push_i64(&mut v, 123_456_789); // play time
    push_i32(&mut v, 7); // hair style
    v.push(3); // hair dye
    push_u16(&mut v, 0x0102); // visibility bitmask
    v.push(4); // hide misc
    v.push(1); // gender
    push_i32(&mut v, 100); // life
    push_i32(&mut v, 400); // life max
    push_i32(&mut v, 20); // mana
    push_i32(&mut v, 200); // mana max
    v.push(1); // extra accessory: true
    v.push(0); // event flag: false
    push_i32(&mut v, -5); // currency
    for c in 0..7i32 {
        push_i32(&mut v, 0x0010_0000 + c); // seven colours
    }
    v.extend_from_slice(&[2; 10]); // opaque run 2
    for (id, prefix) in [(1234, 5u8), (0, 0), (77, 1)] {
        push_i32(&mut v, id);
        v.push(prefix);
    }
    for j in 0..6i32 {
        push_i32(&mut v, 10 * j);
        v.push(j as u8);
    }
    v.extend_from_slice(&[3; 20]); // opaque run 3
    for j in 0..6i32 {
        push_i32(&mut v, 20 * j);
        v.push(2 * j as u8);
    }
    v.extend_from_slice(&[4; 5]); // opaque run 4
    for j in 0..8i32 {
        push_i32(&mut v, 30 * j);
        v.push(3 * j as u8);
    }
    v.extend_from_slice(&[5; 10]); // opaque run 5
    // first inventory region: one occupied slot, the rest unused
    push_i32(&mut v, 100);
    push_i32(&mut v, 5);
    v.push(2);
    v.push(1);
    for _ in 1..32 {
        v.extend_from_slice(&[0; 10]);
    }
    // second inventory region: all unused
    for _ in 0..26 {
        v.extend_from_slice(&[0; 10]);
    }
    v.extend_from_slice(tail);
    assert_eq!(v.len(), 837 + tail.len());
    v
}

#[test]
fn decode_reads_fields_at_their_offsets() {
    let data = sample_buffer(&[9; 7]);
    let plr = deserialize_raw_to_struct_plr(data.clone()).unwrap();
    assert_eq!(plr.version, 230);
    assert_eq!(plr.company, b"COMPANY".to_vec());
    assert_eq!(plr.file_type, 2);
    assert_eq!(plr.UNKNOWN1, vec![10, 11, 12, 13, 14, 15, 16, 17, 18, 19, 20, 21]);
    assert_eq!(plr.name_length, 4);
    assert_eq!(plr.name, b"Liam".to_vec());
    assert_eq!(plr.difficulty, -1);
    assert_eq!(plr.play_time, 123_456_789);
    assert_eq!(plr.appearance.hair_style, 7);
    assert_eq!(plr.appearance.hair_dye, 3);
    assert_eq!(plr.appearance.hide_visual, 0x0102);
    assert_eq!(plr.appearance.hide_misc, 4);
    assert_eq!(plr.appearance.gender, 1);
    assert_eq!(plr.stat_life, 100);
    assert_eq!(plr.stat_life_max, 400);
    assert_eq!(plr.stat_mana, 20);
    assert_eq!(plr.stat_mana_max, 200);
    assert!(plr.extra_accessory);
    assert!(!plr.done_dundefii_event);
    assert_eq!(plr.tax_money, -5);
    assert_eq!(plr.appearance.hair_colour, 0x0010_0000);
    assert_eq!(plr.appearance.shoes_colour, 0x0010_0006);
    assert_eq!(plr.UNKNOWN2, vec![2; 10]);
    assert_eq!(plr.armor.len(), 3);
    assert_eq!(plr.armor[0].id, 1234);
    assert_eq!(plr.armor[0].prefix, 5);
    assert_eq!(plr.armor[1].id, 0);
    assert_eq!(plr.accessories.len(), 6);
    assert_eq!(plr.accessories[5].id, 50);
    assert_eq!(plr.UNKNOWN3, vec![3; 20]);
    assert_eq!(plr.accessories_vanity.len(), 6);
    assert_eq!(plr.UNKNOWN4, vec![4; 5]);
    assert_eq!(plr.dyes.len(), 8);
    assert_eq!(plr.dyes[7].id, 210);
    assert_eq!(plr.UNKNOWN5, vec![5; 10]);
    assert_eq!(plr.inventory1.len(), 32);
    assert_eq!(plr.inventory1[0].id, 100);
    assert_eq!(plr.inventory1[0].stack, 5);
    assert_eq!(plr.inventory1[0].prefix, 2);
    assert!(plr.inventory1[0].favourites);
    assert_eq!(plr.inventory1[1].id, 0);
    assert_eq!(plr.inventory2.len(), 26);
    assert_eq!(plr.UNKNOWN6, vec![9; 7]);
    assert_eq!(plr.raw_length_bytes, data.len());
}

#[test]
fn round_trip_reproduces_the_buffer() {
    let data = sample_buffer(&[1, 2, 3, 4, 5]);
    let plr = deserialize_raw_to_struct_plr(data.clone()).unwrap();
    let encoded = serialize_struct_to_raw_plr(&plr).unwrap();
    assert_eq!(encoded, data);
}

#[test]
fn round_trip_reproduces_the_record() {
    let data = sample_buffer(&[8; 11]);
    let plr = deserialize_raw_to_struct_plr(data).unwrap();
    let encoded = serialize_struct_to_raw_plr(&plr).unwrap();
    let again = deserialize_raw_to_struct_plr(encoded).unwrap();
    assert_eq!(again.version, plr.version);
    assert_eq!(again.name, plr.name);
    assert_eq!(again.play_time, plr.play_time);
    assert_eq!(again.tax_money, plr.tax_money);
    assert_eq!(again.armor, plr.armor);
    assert_eq!(again.inventory1, plr.inventory1);
    assert_eq!(again.inventory2, plr.inventory2);
    assert_eq!(again.UNKNOWN6, plr.UNKNOWN6);
    assert_eq!(again.raw_length_bytes, plr.raw_length_bytes);
}

#[test]
fn sentinel_zero_id_skips_six_bytes_unread() {
    let mut data = sample_buffer(&[0; 4]);
    // second slot of the first inventory region: identifier 0, then six
    // bytes of garbage that the decoder must skip without reading
    let slot = 25 + 4 + 228 + 10;
    data[slot..slot + 10].copy_from_slice(&[0, 0, 0, 0, 7, 7, 7, 7, 7, 7]);
    let plr = deserialize_raw_to_struct_plr(data.clone()).unwrap();
    assert_eq!(plr.inventory1[1].id, 0);
    assert_eq!(plr.inventory1[1].stack, 0);
    assert_eq!(plr.inventory1[1].prefix, 0);
    assert!(!plr.inventory1[1].favourites);
    // the slot after the garbage one is still read correctly
    assert_eq!(plr.inventory1[2].id, 0);
    assert_eq!(plr.UNKNOWN6, vec![0; 4]);
}

#[test]
fn sentinel_oversized_id_skips_six_bytes_unread() {
    let mut data = sample_buffer(&[0; 4]);
    let slot = 25 + 4 + 228 + 10;
    data[slot..slot + 4].copy_from_slice(&6000i32.to_le_bytes());
    data[slot + 4..slot + 10].copy_from_slice(&[1, 2, 3, 4, 5, 6]);
    let plr = deserialize_raw_to_struct_plr(data).unwrap();
    assert_eq!(plr.inventory1[1].id, 0);
    assert_eq!(plr.inventory1[1].stack, 0);
}

#[test]
fn boundary_item_id_is_stored_not_skipped() {
    let mut data = sample_buffer(&[0; 4]);
    let slot = 25 + 4 + 228 + 10;
    data[slot..slot + 4].copy_from_slice(&5455i32.to_le_bytes());
    data[slot + 4..slot + 8].copy_from_slice(&3i32.to_le_bytes());
    data[slot + 8] = 1;
    data[slot + 9] = 0;
    let plr = deserialize_raw_to_struct_plr(data).unwrap();
    assert_eq!(plr.inventory1[1].id, 5455);
    assert_eq!(plr.inventory1[1].stack, 3);
    assert_eq!(plr.inventory1[1].prefix, 1);
}

#[test]
fn skipped_garbage_re_encodes_as_zeros() {
    let mut data = sample_buffer(&[0; 4]);
    let slot = 25 + 4 + 228 + 10;
    data[slot + 4..slot + 10].copy_from_slice(&[7, 7, 7, 7, 7, 7]);
    let plr = deserialize_raw_to_struct_plr(data.clone()).unwrap();
    let encoded = serialize_struct_to_raw_plr(&plr).unwrap();
    assert_eq!(encoded.len(), data.len());
    assert_eq!(&encoded[slot..slot + 10], &[0; 10]);
    assert_ne!(encoded, data);
    assert_eq!(&encoded[..slot + 4], &data[..slot + 4]);
    assert_eq!(&encoded[slot + 10..], &data[slot + 10..]);
}

#[test]
fn opaque_region_changes_touch_only_that_field() {
    let data1 = sample_buffer(&[9; 7]);
    let mut data2 = data1.clone();
    // third opaque run sits at 152..172 for a 4-byte name
    data2[155] = 0xAB;
    data2[160] = 0xCD;
    let p1 = deserialize_raw_to_struct_plr(data1).unwrap();
    let p2 = deserialize_raw_to_struct_plr(data2).unwrap();
    assert_ne!(p2.UNKNOWN3, p1.UNKNOWN3);
    assert_eq!(p2.UNKNOWN3[3], 0xAB);
    assert_eq!(p2.version, p1.version);
    assert_eq!(p2.name, p1.name);
    assert_eq!(p2.play_time, p1.play_time);
    assert_eq!(p2.appearance, p1.appearance);
    assert_eq!(p2.armor, p1.armor);
    assert_eq!(p2.accessories, p1.accessories);
    assert_eq!(p2.accessories_vanity, p1.accessories_vanity);
    assert_eq!(p2.dyes, p1.dyes);
    assert_eq!(p2.inventory1, p1.inventory1);
    assert_eq!(p2.inventory2, p1.inventory2);
    assert_eq!(p2.UNKNOWN1, p1.UNKNOWN1);
    assert_eq!(p2.UNKNOWN2, p1.UNKNOWN2);
    assert_eq!(p2.UNKNOWN4, p1.UNKNOWN4);
    assert_eq!(p2.UNKNOWN5, p1.UNKNOWN5);
    assert_eq!(p2.UNKNOWN6, p1.UNKNOWN6);
}

#[test]
fn name_resized_without_prefix_update_desyncs_the_stream() {
    let data = sample_buffer(&[9; 7]);
    let mut plr = deserialize_raw_to_struct_plr(data).unwrap();
    // shrink the name without touching the length prefix: encoding writes
    // exactly the stored bytes, so the stream shifts by two bytes and the
    // reader swallows the two fields after the name as name text
    plr.name = b"Li".to_vec();
    plr.difficulty = 0x41;
    plr.play_time = 0x42;
    let encoded = serialize_struct_to_raw_plr(&plr).unwrap();
    let reread = deserialize_raw_to_struct_plr(encoded).unwrap();
    assert_eq!(reread.name_length, 4);
    assert_eq!(reread.name, b"LiAB".to_vec());
    assert_ne!(reread.play_time, plr.play_time);
}

#[test]
fn name_grown_past_the_recorded_length_fails_to_encode() {
    let data = sample_buffer(&[9; 7]);
    let mut plr = deserialize_raw_to_struct_plr(data).unwrap();
    plr.name = b"Liam And Others".to_vec();
    assert_eq!(serialize_struct_to_raw_plr(&plr), Err(PlrError::TruncatedInput));
}

#[test]
fn truncated_buffer_is_rejected() {
    let data = sample_buffer(&[]);
    assert_eq!(
        deserialize_raw_to_struct_plr(data[..data.len() - 1].to_vec()).unwrap_err(),
        PlrError::TruncatedInput
    );
    assert_eq!(deserialize_raw_to_struct_plr(vec![1, 2, 3]).unwrap_err(), PlrError::TruncatedInput);
    assert_eq!(deserialize_raw_to_struct_plr(Vec::new()).unwrap_err(), PlrError::TruncatedInput);
}

#[test]
fn invalid_text_is_rejected() {
    let mut data = sample_buffer(&[]);
    data[5] = 0xFF; // inside the origin tag
    assert_eq!(deserialize_raw_to_struct_plr(data).unwrap_err(), PlrError::InvalidText);
    let mut data = sample_buffer(&[]);
    data[26] = 0xC0; // inside the name: a lone continuation lead byte
    data[27] = 0x20;
    assert_eq!(deserialize_raw_to_struct_plr(data).unwrap_err(), PlrError::InvalidText);
}

#[test]
fn unpacker_reads_little_endian_values() {
    let mut u = PlrUnpacker::new(vec![0x01, 0x02, 0xFF, 0xFF, 0xFF, 0xFF, 0x2A, 0x00, 0x05]);
    assert_eq!(u.r_u16().unwrap(), 0x0201);
    assert_eq!(u.r_i32().unwrap(), -1);
    assert_eq!(u.r_u8().unwrap(), 0x2A);
    assert_eq!(u.r_bool().unwrap(), false);
    assert_eq!(u.r_bool().unwrap(), true);
    assert_eq!(u.r_u8(), Err(PlrError::TruncatedInput));
}

#[test]
fn unpacker_reads_signed_and_wide_values() {
    let mut bytes = Vec::new();
    push_i64(&mut bytes, -987_654_321_012i64);
    bytes.push(0x80);
    push_u32(&mut bytes, 0xDEAD_BEEF);
    let mut u = PlrUnpacker::new(bytes);
    assert_eq!(u.r_i64().unwrap(), -987_654_321_012i64);
    assert_eq!(u.r_i8().unwrap(), -128);
    assert_eq!(u.r_u32().unwrap(), 0xDEAD_BEEF);
}

#[test]
fn unpacker_reads_strings_and_raw_runs() {
    let mut u = PlrUnpacker::new(b"abc\xFF\xFE".to_vec());
    assert_eq!(u.r_string(3).unwrap(), b"abc".to_vec());
    assert_eq!(u.r_bytes(2).unwrap(), vec![0xFF, 0xFE]);
    let mut u = PlrUnpacker::new(b"\xFF\xFEab".to_vec());
    assert_eq!(u.r_string(2), Err(PlrError::InvalidText));
    let mut u = PlrUnpacker::new(b"ab".to_vec());
    assert_eq!(u.r_string(3), Err(PlrError::TruncatedInput));
}

#[test]
fn packer_writes_little_endian_values() {
    let mut p = PlrPacker::new();
    assert_eq!(p.w_u16(0x0201), 2);
    assert_eq!(p.w_i32(-1), 4);
    assert_eq!(p.w_u32(0xDEAD_BEEF), 4);
    assert_eq!(p.w_i64(-2), 8);
    assert_eq!(p.w_i8(-128), 1);
    assert_eq!(p.w_u8(7), 1);
    assert_eq!(p.w_bool(true), 1);
    assert_eq!(p.w_bool(false), 1);
    assert_eq!(p.w_bytes(&vec![1, 2]), 2);
    assert_eq!(p.w_string(&b"hi".to_vec()), 0);
    let mut expect = Vec::new();
    push_u16(&mut expect, 0x0201);
    push_i32(&mut expect, -1);
    push_u32(&mut expect, 0xDEAD_BEEF);
    push_i64(&mut expect, -2);
    expect.push(0x80);
    expect.push(7);
    expect.push(1);
    expect.push(0);
    expect.extend_from_slice(&[1, 2]);
    expect.extend_from_slice(b"hi");
    assert_eq!(p.data, expect);
}

#[test]
fn encode_zero_fills_when_fields_shrink() {
    let data = sample_buffer(&[9; 7]);
    let mut plr = deserialize_raw_to_struct_plr(data.clone()).unwrap();
    plr.UNKNOWN6 = vec![9; 3];
    let encoded = serialize_struct_to_raw_plr(&plr).unwrap();
    assert_eq!(encoded.len(), data.len());
    assert_eq!(&encoded[encoded.len() - 4..], &[0, 0, 0, 0]);
}

#[test]
fn longest_name_and_all_zero_body_round_trip() {
    let mut data = Vec::new();
    push_u32(&mut data, 1);
    data.extend_from_slice(b"COMPANY");
    data.push(0);
    data.extend_from_slice(&[0; 12]);
    data.push(255); // the longest declarable name
    data.extend_from_slice(&[b'a'; 255]);
    data.extend_from_slice(&[0; 808]); // every later field zero
    assert_eq!(data.len(), 833 + 255);
    let plr = deserialize_raw_to_struct_plr(data.clone()).unwrap();
    assert_eq!(plr.name_length, 255);
    assert_eq!(plr.name, vec![b'a'; 255]);
    assert!(plr.inventory1.iter().all(|i| i.id == 0 && i.stack == 0));
    assert!(plr.UNKNOWN6.is_empty());
    assert_eq!(serialize_struct_to_raw_plr(&plr).unwrap(), data);
}

#[test]
fn cipher_layer_rejects_bad_keys_and_alignment() {
    let key15 = vec![1u8; 15];
    let key16 = vec![1u8; 16];
    assert_eq!(decrypt_plr_aes128cbc(vec![0; 16], &key15), Err(PlrError::KeyLengthMismatch));
    assert_eq!(encrypt_plr_aes128cbc(vec![0; 16], &key15), Err(PlrError::KeyLengthMismatch));
    assert_eq!(
        encrypt_plr_aes128cbc_aligned(vec![0; 16], &key15),
        Err(PlrError::KeyLengthMismatch)
    );
    assert_eq!(decrypt_plr_aes128cbc(vec![0; 15], &key16), Err(PlrError::BlockAlignmentError));
    assert_eq!(
        encrypt_plr_aes128cbc_aligned(vec![0; 15], &key16),
        Err(PlrError::BlockAlignmentError)
    );
}
