use plr_edit::{
    deconstruct_plr, decrypt_plr_aes128cbc, deserialize_raw_to_struct_plr, encrypt_plr_aes128cbc,
    encrypt_plr_aes128cbc_aligned, reconstruct_plr, serialize_struct_to_raw_plr, PlrError,
};

fn key() -> Vec<u8> {
    (0u8..16).collect()
}

#[test]
fn cipher_symmetry_on_aligned_plaintext() {
    let k = key();
    for blocks in [1usize, 2, 5] {
        let p: Vec<u8> = (0..16 * blocks).map(|i| (i * 7 % 251) as u8).collect();
        let c = encrypt_plr_aes128cbc_aligned(p.clone(), &k).unwrap();
        assert_eq!(c.len(), p.len());
        assert_ne!(c, p);
        assert_eq!(decrypt_plr_aes128cbc(c, &k).unwrap(), p);
    }
}

#[test]
fn self_padding_appends_one_to_sixteen_count_bytes() {
    let k = key();
    for len in [0usize, 1, 15, 16, 17, 31, 32] {
        let p: Vec<u8> = (0..len).map(|i| i as u8).collect();
        let b = 16 - len % 16; // 16, not 0, when already aligned
        let c = encrypt_plr_aes128cbc(p.clone(), &k).unwrap();
        assert_eq!(c.len(), len + b);
        // decryption never strips the padding, so it exposes the bytes
        // the self-padding policy appended: b bytes each holding b
        let padded = decrypt_plr_aes128cbc(c, &k).unwrap();
        assert_eq!(&padded[..len], &p[..]);
        assert_eq!(&padded[len..], vec![b as u8; b]);
    }
}

#[test]
fn already_aligned_input_still_gains_a_full_block() {
    let k = key();
    let p = vec![0xAA; 32];
    let c = encrypt_plr_aes128cbc(p, &k).unwrap();
    assert_eq!(c.len(), 48);
    let padded = decrypt_plr_aes128cbc(c, &k).unwrap();
    assert_eq!(&padded[32..], vec![16u8; 16]);
}

/// A synthetic plaintext matching the schema's field order: a 4-character
/// name, zero appearance values, two equipped items, one occupied
/// inventory slot, and a trailing opaque run chosen to block-align the
/// whole buffer.
fn aligned_plaintext() -> Vec<u8> {
    let mut v = Vec::new();
    v.extend_from_slice(&230u32.to_le_bytes());
    v.extend_from_slice(b"COMPANY");
    v.push(2);
    v.extend_from_slice(&[0; 12]);
    v.push(4);
    v.extend_from_slice(b"Hero");
    v.push(0);
    v.extend_from_slice(&0i64.to_le_bytes());
    v.extend_from_slice(&[0; 9]); // zero-value style half of the appearance
    v.extend_from_slice(&100i32.to_le_bytes());
    v.extend_from_slice(&100i32.to_le_bytes());
    v.extend_from_slice(&20i32.to_le_bytes());
    v.extend_from_slice(&20i32.to_le_bytes());
    v.push(0);
    v.push(0);
    v.extend_from_slice(&0i32.to_le_bytes());
    v.extend_from_slice(&[0; 28]); // zero-value colour half
    v.extend_from_slice(&[0; 10]);
    // two equipped items in the armor slots, the third empty
    for (id, prefix) in [(50i32, 1u8), (60, 2), (0, 0)] {
        v.extend_from_slice(&id.to_le_bytes());
        v.push(prefix);
    }
    v.extend_from_slice(&[0; 30]); // accessories
    v.extend_from_slice(&[0; 20]);
    v.extend_from_slice(&[0; 30]); // vanity accessories
    v.extend_from_slice(&[0; 5]);
    v.extend_from_slice(&[0; 40]); // dyes
    v.extend_from_slice(&[0; 10]);
    // one occupied inventory slot
    v.extend_from_slice(&9i32.to_le_bytes());
    v.extend_from_slice(&30i32.to_le_bytes());
    v.push(0);
    v.push(1);
    for _ in 1..32 {
        v.extend_from_slice(&[0; 10]);
    }
    for _ in 0..26 {
        v.extend_from_slice(&[0; 10]);
    }
    v.extend_from_slice(&[0; 11]); // opaque tail: 837 + 11 = 848 = 53 * 16
    assert_eq!(v.len() % 16, 0);
    v
}

#[test]
fn end_to_end_cipher_and_codec_round_trip() {
    let k = key();
    let plain = aligned_plaintext();
    // encrypting then decrypting reproduces the plaintext exactly
    let c = encrypt_plr_aes128cbc_aligned(plain.clone(), &k).unwrap();
    assert_eq!(decrypt_plr_aes128cbc(c, &k).unwrap(), plain);
    // decoding then re-encoding reproduces the plaintext exactly
    let plr = deserialize_raw_to_struct_plr(plain.clone()).unwrap();
    assert_eq!(plr.name, b"Hero".to_vec());
    assert_eq!(plr.armor[0].id, 50);
    assert_eq!(plr.armor[1].id, 60);
    assert_eq!(plr.inventory1[0].id, 9);
    assert_eq!(plr.inventory1[0].stack, 30);
    assert!(plr.inventory1[0].favourites);
    assert_eq!(serialize_struct_to_raw_plr(&plr).unwrap(), plain);
}

#[test]
fn pipeline_decrypts_decodes_and_back() {
    let k = key();
    let plain = aligned_plaintext();
    let file = encrypt_plr_aes128cbc_aligned(plain.clone(), &k).unwrap();
    let plr = deconstruct_plr(file, &k).unwrap();
    assert_eq!(plr.name, b"Hero".to_vec());
    assert_eq!(plr.raw_length_bytes, plain.len());
    // saving re-encodes the identical plaintext and self-pads before
    // encrypting, so opening the saved blob shows the padding as a longer
    // opaque tail while every known field survives
    let saved = reconstruct_plr(&plr, &k).unwrap();
    assert_eq!(saved.len(), plain.len() + 16);
    let reopened = deconstruct_plr(saved, &k).unwrap();
    assert_eq!(reopened.name, plr.name);
    assert_eq!(reopened.stat_life, plr.stat_life);
    assert_eq!(reopened.inventory1, plr.inventory1);
    assert_eq!(reopened.UNKNOWN6.len(), plr.UNKNOWN6.len() + 16);
    assert_eq!(&reopened.UNKNOWN6[..plr.UNKNOWN6.len()], &plr.UNKNOWN6[..]);
}

#[test]
fn pipeline_reports_each_stage_error() {
    let k = key();
    let short_key = vec![1u8; 15];
    let plain = aligned_plaintext();
    let file = encrypt_plr_aes128cbc_aligned(plain.clone(), &k).unwrap();
    assert_eq!(deconstruct_plr(file.clone(), &short_key).unwrap_err(), PlrError::KeyLengthMismatch);
    assert_eq!(
        deconstruct_plr(file[..file.len() - 1].to_vec(), &k).unwrap_err(),
        PlrError::BlockAlignmentError
    );
    // a decode failure of the decrypted plaintext surfaces unchanged: a
    // wrong key of the right length decrypts to bytes that are overwhelmingly
    // unlikely to carry a valid origin tag, let alone enough structure
    let plr = deconstruct_plr(file, &k).unwrap();
    assert_eq!(reconstruct_plr(&plr, &short_key).unwrap_err(), PlrError::KeyLengthMismatch);
    let mut bloated = deserialize_raw_to_struct_plr(plain).unwrap();
    bloated.UNKNOWN6.push(0);
    assert_eq!(reconstruct_plr(&bloated, &k).unwrap_err(), PlrError::TruncatedInput);
}
