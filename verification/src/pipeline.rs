//! The conversion pipeline: ciphertext to record and record to ciphertext.
//!
//! Each direction sequences the cipher transform and the record codec and
//! is all-or-nothing: any failure of either stage aborts the whole
//! operation with that stage's error.
use vstd::prelude::*;

use crate::cipher_layer::{
    aes128_cbc_decrypt_of, aes128_cbc_encrypt_of, decrypt_plr_aes128cbc, encrypt_plr_aes128cbc,
    spec_self_pad,
};
use crate::codec::{
    deserialize_raw_to_struct_plr, serialize_struct_to_raw_plr, spec_decode, spec_decode_err,
    spec_decode_ok, spec_encode, spec_encoded_len, zero_seq,
};
use crate::error::PlrError;
use crate::record::Plr;

verus! {

/// Decrypt a ciphertext blob and decode the plaintext into a record.
///
/// Fails with [`PlrError::KeyLengthMismatch`] if the key is not 16 bytes,
/// with [`PlrError::BlockAlignmentError`] if the ciphertext is not
/// block-aligned, and otherwise with whatever error the decode of the
/// plaintext reports.
pub fn deconstruct_plr(plr_file: Vec<u8>, key: &Vec<u8>) -> (r: Result<Plr, PlrError>)
    ensures
        r is Ok <==> key@.len() == 16 && plr_file@.len() % 16 == 0 && spec_decode_ok(
            aes128_cbc_decrypt_of(plr_file@, key@),
        ),
        key@.len() != 16 ==> r == Err::<Plr, PlrError>(PlrError::KeyLengthMismatch),
        key@.len() == 16 && plr_file@.len() % 16 != 0 ==> r == Err::<Plr, PlrError>(
            PlrError::BlockAlignmentError,
        ),
        r matches Ok(p) ==> p@ == spec_decode(aes128_cbc_decrypt_of(plr_file@, key@)),
        key@.len() == 16 && plr_file@.len() % 16 == 0 && !spec_decode_ok(
            aes128_cbc_decrypt_of(plr_file@, key@),
        ) ==> r == Err::<Plr, PlrError>(spec_decode_err(aes128_cbc_decrypt_of(plr_file@, key@))),
{
    let raw = match decrypt_plr_aes128cbc(plr_file, key) {
        Ok(v) => v,
        Err(e) => return Err(e),
    };
    deserialize_raw_to_struct_plr(raw)
}

/// Encode a record back to plaintext bytes and encrypt them with the
/// self-padding policy.
///
/// Fails with [`PlrError::TruncatedInput`] if the record's fields need more
/// bytes than its recorded length, and with
/// [`PlrError::KeyLengthMismatch`] if the key is not 16 bytes.
pub fn reconstruct_plr(plr: &Plr, key: &Vec<u8>) -> (r: Result<Vec<u8>, PlrError>)
    ensures
        r is Ok <==> spec_encoded_len(plr@) <= plr.raw_length_bytes && key@.len() == 16,
        spec_encoded_len(plr@) > plr.raw_length_bytes ==> r == Err::<Vec<u8>, PlrError>(
            PlrError::TruncatedInput,
        ),
        spec_encoded_len(plr@) <= plr.raw_length_bytes && key@.len() != 16 ==> r == Err::<
            Vec<u8>,
            PlrError,
        >(PlrError::KeyLengthMismatch),
        r matches Ok(ct) ==> ct@ == aes128_cbc_encrypt_of(
            spec_self_pad(
                spec_encode(plr@) + zero_seq(plr.raw_length_bytes - spec_encoded_len(plr@)),
            ),
            key@,
        ),
        r matches Ok(ct) ==> ct@.len() == plr.raw_length_bytes + crate::cipher_layer::pad_count(
            plr.raw_length_bytes as int,
        ),
{
    let raw = match serialize_struct_to_raw_plr(plr) {
        Ok(v) => v,
        Err(e) => return Err(e),
    };
    proof {
        crate::codec::lemma_spec_encode_len(plr@);
        assert(raw@.len() == plr.raw_length_bytes);
    }
    encrypt_plr_aes128cbc(raw, key)
}

} // verus!
