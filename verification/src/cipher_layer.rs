//! The confidentiality layer: AES-128-CBC with the key doubling as the
//! initialization vector (a deliberate, non-standard simplification of this
//! format) and no implicit padding scheme — the cipher primitive never
//! appends or strips a byte on its own.
//!
//! Two encryption policies exist. One demands block-aligned plaintext and
//! fails otherwise; the other pads the plaintext itself before encrypting,
//! appending `b = 16 - (len % 16)` bytes each holding the value `b`, so a
//! length that is already aligned still gains a full extra block.
//! Decryption never strips the padding back off: the format stores unknown
//! trailing bytes that may themselves be such synthetic padding.
use vstd::prelude::*;

use cipher::BlockDecryptMut;
use cipher::BlockEncryptMut;
use cipher::KeyIvInit;

use crate::error::PlrError;

verus! {

/// The ciphertext that AES-128-CBC produces from block-aligned plaintext
/// `p` under a 16-byte key that also serves as the initialization vector.
pub uninterp spec fn aes128_cbc_encrypt_of(p: Seq<u8>, key: Seq<u8>) -> Seq<u8>;

/// The plaintext that AES-128-CBC produces from block-aligned ciphertext
/// `c` under a 16-byte key that also serves as the initialization vector.
pub uninterp spec fn aes128_cbc_decrypt_of(c: Seq<u8>, key: Seq<u8>) -> Seq<u8>;

/// Relies on `cbc::Encryptor::<aes::Aes128>` via
/// `cipher::BlockEncryptMut::encrypt_padded_vec_mut` with
/// `block_padding::NoPadding`: on block-aligned input every block is
/// encrypted and nothing is appended, so the output length equals the
/// input length, and the result is a function of the input and key bytes
/// alone.
#[verifier::external_body]
fn aes_encrypt_raw(data: &Vec<u8>, key: &Vec<u8>) -> (r: Vec<u8>)
    requires
        key@.len() == 16,
        data@.len() % 16 == 0,
    ensures
        r@ == aes128_cbc_encrypt_of(data@, key@),
        r@.len() == data@.len(),
{
    let enc = cbc::Encryptor::<aes::Aes128>::new(key.as_slice().into(), key.as_slice().into());
    enc.encrypt_padded_vec_mut::<block_padding::NoPadding>(data.as_slice())
}

/// Relies on `cbc::Decryptor::<aes::Aes128>` via
/// `cipher::BlockDecryptMut::decrypt_padded_mut` with
/// `block_padding::NoPadding`: on block-aligned input every block is
/// decrypted in place and nothing is stripped, so the output length equals
/// the input length; and the CBC decryptor inverts the CBC encryptor under
/// the same key and initialization vector, so if the input is the
/// encryption of some equal-length plaintext, that plaintext comes back.
#[verifier::external_body]
fn aes_decrypt_raw(data: &Vec<u8>, key: &Vec<u8>) -> (r: Vec<u8>)
    requires
        key@.len() == 16,
        data@.len() % 16 == 0,
    ensures
        r@ == aes128_cbc_decrypt_of(data@, key@),
        r@.len() == data@.len(),
        forall|q: Seq<u8>|
            q.len() == data@.len() && data@ == #[trigger] aes128_cbc_encrypt_of(q, key@) ==> r@
                == q,
{
    let mut buf = data.clone();
    let dec = cbc::Decryptor::<aes::Aes128>::new(key.as_slice().into(), key.as_slice().into());
    let n = dec
        .decrypt_padded_mut::<block_padding::NoPadding>(buf.as_mut_slice())
        .expect("input is block-aligned")
        .len();
    buf.truncate(n);
    buf
}

/// The number of padding bytes the self-padding policy appends to a
/// plaintext of `n` bytes: between 1 and 16, never 0.
pub open spec fn pad_count(n: int) -> int {
    16 - (n % 16)
}

/// The padding run itself: `pad_count(n)` bytes each holding that count.
pub open spec fn pad_seq(n: int) -> Seq<u8> {
    Seq::new(pad_count(n) as nat, |i: int| pad_count(n) as u8)
}

/// A plaintext followed by its self-padding run.
pub open spec fn spec_self_pad(p: Seq<u8>) -> Seq<u8> {
    p + pad_seq(p.len() as int)
}

/// Decrypt an opaque blob into plaintext bytes.
///
/// The input length must be a multiple of the cipher's 16-byte block size
/// and the key must be exactly 16 bytes. The output is exactly the
/// decrypted bytes, same length as the input — no padding is stripped.
/// Decryption inverts encryption: if the input is the encryption of an
/// equal-length plaintext under the same key, that plaintext is returned.
pub fn decrypt_plr_aes128cbc(data: Vec<u8>, key: &Vec<u8>) -> (r: Result<Vec<u8>, PlrError>)
    ensures
        r is Ok <==> key@.len() == 16 && data@.len() % 16 == 0,
        key@.len() != 16 ==> r == Err::<Vec<u8>, PlrError>(PlrError::KeyLengthMismatch),
        key@.len() == 16 && data@.len() % 16 != 0 ==> r == Err::<Vec<u8>, PlrError>(
            PlrError::BlockAlignmentError,
        ),
        r matches Ok(pt) ==> pt@ == aes128_cbc_decrypt_of(data@, key@) && pt@.len() == data@.len(),
        r matches Ok(pt) ==> forall|q: Seq<u8>|
            q.len() == data@.len() && data@ == #[trigger] aes128_cbc_encrypt_of(q, key@) ==> pt@
                == q,
{
    if key.len() != 16 {
        return Err(PlrError::KeyLengthMismatch);
    }
    if data.len() % 16 != 0 {
        return Err(PlrError::BlockAlignmentError);
    }
    Ok(aes_decrypt_raw(&data, key))
}

/// Encrypt block-aligned plaintext bytes into an opaque blob, the policy
/// that demands the caller already produced aligned plaintext.
///
/// The key must be exactly 16 bytes; a plaintext length that is not a
/// multiple of 16 is rejected. The output has exactly the input's length.
pub fn encrypt_plr_aes128cbc_aligned(data: Vec<u8>, key: &Vec<u8>) -> (r: Result<
    Vec<u8>,
    PlrError,
>)
    ensures
        r is Ok <==> key@.len() == 16 && data@.len() % 16 == 0,
        key@.len() != 16 ==> r == Err::<Vec<u8>, PlrError>(PlrError::KeyLengthMismatch),
        key@.len() == 16 && data@.len() % 16 != 0 ==> r == Err::<Vec<u8>, PlrError>(
            PlrError::BlockAlignmentError,
        ),
        r matches Ok(ct) ==> ct@ == aes128_cbc_encrypt_of(data@, key@) && ct@.len()
            == data@.len(),
{
    if key.len() != 16 {
        return Err(PlrError::KeyLengthMismatch);
    }
    if data.len() % 16 != 0 {
        return Err(PlrError::BlockAlignmentError);
    }
    Ok(aes_encrypt_raw(&data, key))
}

/// Encrypt plaintext bytes into an opaque blob, padding them first: the
/// self-padding policy.
///
/// Appends `b = 16 - (len % 16)` bytes each holding the value `b` — between
/// 1 and 16 bytes, so an already-aligned plaintext still gains a full extra
/// block — then encrypts the padded bytes. The key must be exactly 16
/// bytes. Note the asymmetry with [`decrypt_plr_aes128cbc`], which never
/// strips the padding back off.
pub fn encrypt_plr_aes128cbc(data: Vec<u8>, key: &Vec<u8>) -> (r: Result<Vec<u8>, PlrError>)
    ensures
        r is Ok <==> key@.len() == 16,
        key@.len() != 16 ==> r == Err::<Vec<u8>, PlrError>(PlrError::KeyLengthMismatch),
        r matches Ok(ct) ==> ct@ == aes128_cbc_encrypt_of(spec_self_pad(data@), key@),
        r matches Ok(ct) ==> ct@.len() == data@.len() + pad_count(data@.len() as int),
{
    if key.len() != 16 {
        return Err(PlrError::KeyLengthMismatch);
    }
    let ghost orig = data@;
    let b: usize = 16 - (data.len() % 16);
    let mut padded = data;
    let mut i: usize = 0;
    while i < b
        invariant
            i <= b,
            b == 16 - (orig.len() % 16),
            padded@ == orig + Seq::new(i as nat, |j: int| b as u8),
        decreases b - i,
    {
        padded.push(b as u8);
        i = i + 1;
        proof {
            assert(padded@ =~= orig + Seq::new(i as nat, |j: int| b as u8));
        }
    }
    proof {
        assert(padded@ =~= spec_self_pad(orig));
        vstd::arithmetic::div_mod::lemma_fundamental_div_mod_converse(
            orig.len() + pad_count(orig.len() as int),
            16,
            orig.len() as int / 16 + 1,
            0,
        );
        vstd::arithmetic::div_mod::lemma_fundamental_div_mod(orig.len() as int, 16);
    }
    Ok(aes_encrypt_raw(&padded, key))
}

} // verus!
