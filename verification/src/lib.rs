//! Codec for an encrypted, versioned binary character-save format.
//!
//! The library decodes a byte buffer into a structured record (and back),
//! preserving every byte whose meaning is unknown, and wraps the binary
//! payload in an AES-128-CBC confidentiality layer with a self-padding rule.
mod cipher_layer;
mod codec;
mod error;
mod laws;
mod le;
mod pack;
mod pipeline;
mod record;
mod text;
mod unpack;

pub use cipher_layer::{
    aes128_cbc_decrypt_of, aes128_cbc_encrypt_of, decrypt_plr_aes128cbc, encrypt_plr_aes128cbc,
    encrypt_plr_aes128cbc_aligned, pad_count, spec_self_pad,
};
pub use codec::{
    deserialize_raw_to_struct_plr, serialize_struct_to_raw_plr, spec_decode, spec_decode_err,
    spec_decode_ok, spec_encode, spec_encoded_len, zero_seq, MAX_ITEM_ID,
};
pub use error::PlrError;
pub use laws::{
    item_wf, lemma_decode_of_encode, lemma_encode_of_decode, lemma_opaque_region_preservation,
    lemma_self_padding, lemma_sentinel_skip, lemma_text_field_lengths, record_wf,
    round_trip_clean, slot_clean, within_opaque_run,
};
pub use pack::PlrPacker;
pub use pipeline::{deconstruct_plr, reconstruct_plr};
pub use record::{Appearance, Equipment, Item, Plr, PlrV};
pub use text::utf8_valid;
pub use unpack::PlrUnpacker;
