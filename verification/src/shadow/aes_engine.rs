use vstd::prelude::*;

use aes_gcm::aead::{Aead, KeyInit, OsRng};
use aes_gcm::{Aes256Gcm, Nonce};
use rand_core::RngCore;

use crate::codec::utf8_bytes;

verus! {

/// Nonce length in bytes (96 bits).
pub const NONCE_LEN: usize = 12;

/// Authentication tag length in bytes (128 bits).
pub const TAG_LEN: usize = 16;

/// Key length in bytes (256 bits).
pub const KEY_LEN: usize = 32;

/// The largest plaintext, in bytes, that AES-GCM accepts.
pub open spec fn max_plaintext_len() -> int {
    68719476736
}

/// `aes_gcm::Error`, the opaque AEAD error.
#[verifier::external_type_specification]
#[verifier::external_body]
pub struct ExAeadError(aes_gcm::Error);

/// Errors of encryption and decryption.
#[derive(Debug, Clone, Copy, PartialEq, Eq)]
pub enum CryptoError {
    InvalidKeyLen { got: usize },
    InvalidBlob { len: usize },
    AuthFailed,
    Utf8,
}

/// The description of an encryption or decryption error.
pub open spec fn crypto_error_text(e: CryptoError) -> Seq<char> {
    match e {
        CryptoError::InvalidKeyLen { got } => "invalid key length: expected 32, got "@
            + crate::codec::decimal(got as nat),
        CryptoError::InvalidBlob { len } => "invalid blob: len="@ + crate::codec::decimal(
            len as nat,
        ) + " (need >= 12 + 16)"@,
        CryptoError::AuthFailed => "authentication failed (tampered / tag mismatch)"@,
        CryptoError::Utf8 => "utf8 decode error"@,
    }
}

impl CryptoError {
    /// The human-readable description.
    pub fn message(&self) -> (r: String)
        ensures
            r@ == crypto_error_text(*self),
    {
        match self {
            CryptoError::InvalidKeyLen { got } => {
                let mut s = String::from_str("invalid key length: expected 32, got ");
                let d = crate::codec::decimal_string(*got as u64);
                s.append(d.as_str());
                s
            },
            CryptoError::InvalidBlob { len } => {
                let mut s = String::from_str("invalid blob: len=");
                let d = crate::codec::decimal_string(*len as u64);
                s.append(d.as_str());
                s.append(" (need >= 12 + 16)");
                s
            },
            CryptoError::AuthFailed => String::from_str(
                "authentication failed (tampered / tag mismatch)",
            ),
            CryptoError::Utf8 => String::from_str("utf8 decode error"),
        }
    }
}

/// The ciphertext-with-tag that AES-256-GCM produces for `plaintext` under `key` and `nonce`.
pub uninterp spec fn aes256gcm_sealed(key: Seq<u8>, nonce: Seq<u8>, plaintext: Seq<u8>) -> Seq<u8>;

/// The plaintext that AES-256-GCM recovers from `ciphertext` (ciphertext followed by the
/// tag) under `key` and `nonce`, or `None` when authentication fails.
pub uninterp spec fn aes256gcm_opened(key: Seq<u8>, nonce: Seq<u8>, ciphertext: Seq<u8>) -> Option<
    Seq<u8>,
>;

/// A fresh nonce from `OsRng::fill_bytes`. Nothing is stated about its value.
#[verifier::external_body]
fn random_nonce() -> (r: [u8; 12]) {
    let mut nonce = [0u8; 12];
    OsRng.fill_bytes(&mut nonce);
    nonce
}

/// `Aes256Gcm::new_from_slice` and `Aead::encrypt` from `aes-gcm`. With a 32-byte key the
/// cipher is always built; encryption fails exactly on plaintexts longer than 2^36 bytes.
/// The contract names the ciphertext, states that it is 16 bytes (the tag) longer than the
/// plaintext, and that decryption with the same key and nonce gives the plaintext back.
#[verifier::external_body]
fn aes256gcm_seal(key: &[u8], nonce: &[u8; 12], plaintext: &[u8]) -> (r: Result<
    Vec<u8>,
    aes_gcm::Error,
>)
    requires
        key@.len() == 32,
    ensures
        r is Ok <==> plaintext@.len() <= max_plaintext_len(),
        r matches Ok(c) ==> {
            &&& c@ == aes256gcm_sealed(key@, nonce@, plaintext@)
            &&& c@.len() == plaintext@.len() + 16
            &&& aes256gcm_opened(key@, nonce@, c@) == Some(plaintext@)
        },
{
    match Aes256Gcm::new_from_slice(key) {
        Ok(cipher) => cipher.encrypt(Nonce::from_slice(nonce), plaintext),
        Err(_) => Err(aes_gcm::Error),
    }
}

/// `Aes256Gcm::new_from_slice` and `Aead::decrypt` from `aes-gcm`: the contract states
/// that decryption succeeds exactly when the named opening does, with its plaintext.
#[verifier::external_body]
fn aes256gcm_open(key: &[u8], nonce: &[u8], ciphertext: &[u8]) -> (r: Result<
    Vec<u8>,
    aes_gcm::Error,
>)
    requires
        key@.len() == 32,
        nonce@.len() == 12,
    ensures
        r is Ok <==> aes256gcm_opened(key@, nonce@, ciphertext@) is Some,
        r matches Ok(p) ==> aes256gcm_opened(key@, nonce@, ciphertext@) == Some(p@),
{
    match Aes256Gcm::new_from_slice(key) {
        Ok(cipher) => cipher.decrypt(Nonce::from_slice(nonce), ciphertext),
        Err(_) => Err(aes_gcm::Error),
    }
}

/// What decrypting `blob` with `key` gives: the key length is checked first, then the blob
/// length (at least nonce plus tag), then authentication, then UTF-8 validity.
pub open spec fn decrypt_result(blob: Seq<u8>, key: Seq<u8>) -> Result<Seq<char>, CryptoError> {
    if key.len() != 32 {
        Err(CryptoError::InvalidKeyLen { got: key.len() as usize })
    } else if blob.len() < 28 {
        Err(CryptoError::InvalidBlob { len: blob.len() as usize })
    } else {
        match aes256gcm_opened(key, blob.take(12), blob.skip(12)) {
            None => Err(CryptoError::AuthFailed),
            Some(p) => if vstd::utf8::valid_utf8(p) {
                Ok(vstd::utf8::decode_utf8(p))
            } else {
                Err(CryptoError::Utf8)
            },
        }
    }
}

/// Whether `blob` is an encryption of `plaintext` under `key`: a nonce followed by the
/// sealed plaintext.
pub open spec fn is_encryption_of(blob: Seq<u8>, plaintext: Seq<char>, key: Seq<u8>) -> bool {
    &&& blob.len() == 12 + utf8_bytes(plaintext).len() + 16
    &&& blob.skip(12) == aes256gcm_sealed(key, blob.take(12), utf8_bytes(plaintext))
    &&& aes256gcm_opened(key, blob.take(12), blob.skip(12)) == Some(utf8_bytes(plaintext))
}

/// Decryption undoes encryption: a blob that encrypts `plaintext` under a 32-byte `key`
/// decrypts to `plaintext` with that key.
pub proof fn lemma_decrypt_encryption(blob: Seq<u8>, plaintext: Seq<char>, key: Seq<u8>)
    requires
        key.len() == 32,
        is_encryption_of(blob, plaintext, key),
    ensures
        decrypt_result(blob, key) == Ok::<_, CryptoError>(plaintext),
{
    vstd::utf8::encode_utf8_valid_utf8(plaintext);
    vstd::utf8::encode_utf8_decode_utf8(plaintext);
}

/// Encrypts `plaintext` under a fresh random nonce. The blob is `nonce | ciphertext | tag`,
/// and decrypting it with the same key gives the plaintext back.
pub fn encrypt(plaintext: &str, key_32: &[u8]) -> (r: Result<Vec<u8>, CryptoError>)
    ensures
        key_32@.len() != 32 ==> r == Err::<Vec<u8>, _>(
            CryptoError::InvalidKeyLen { got: key_32@.len() as usize },
        ),
        key_32@.len() == 32 && utf8_bytes(plaintext@).len() > max_plaintext_len() ==> r == Err::<
            Vec<u8>,
            _,
        >(CryptoError::AuthFailed),
        key_32@.len() == 32 && utf8_bytes(plaintext@).len() <= max_plaintext_len() ==> r is Ok,
        r matches Ok(blob) ==> is_encryption_of(blob@, plaintext@, key_32@),
        r matches Ok(blob) ==> decrypt_result(blob@, key_32@) == Ok::<_, CryptoError>(plaintext@),
{
    if key_32.len() != KEY_LEN {
        return Err(CryptoError::InvalidKeyLen { got: key_32.len() });
    }
    let nonce_bytes = random_nonce();
    let bytes = plaintext.as_bytes();
    let ciphertext_with_tag = match aes256gcm_seal(key_32, &nonce_bytes, bytes) {
        Ok(c) => c,
        Err(_) => return Err(CryptoError::AuthFailed),
    };
    let mut blob: Vec<u8> = Vec::with_capacity(ciphertext_with_tag.len().saturating_add(NONCE_LEN));
    blob.extend_from_slice(nonce_bytes.as_slice());
    blob.extend_from_slice(ciphertext_with_tag.as_slice());
    proof {
        assert(blob@.take(12) =~= nonce_bytes@);
        assert(blob@.skip(12) =~= ciphertext_with_tag@);
        vstd::utf8::encode_utf8_valid_utf8(plaintext@);
        vstd::utf8::encode_utf8_decode_utf8(plaintext@);
    }
    Ok(blob)
}

/// Decrypts a `nonce | ciphertext | tag` blob into text.
pub fn decrypt(blob: &[u8], key_32: &[u8]) -> (r: Result<String, CryptoError>)
    ensures
        r matches Ok(s) ==> decrypt_result(blob@, key_32@) == Ok::<_, CryptoError>(s@),
        r matches Err(e) ==> decrypt_result(blob@, key_32@) == Err::<Seq<char>, _>(e),
{
    if key_32.len() != KEY_LEN {
        return Err(CryptoError::InvalidKeyLen { got: key_32.len() });
    }
    if blob.len() < NONCE_LEN + TAG_LEN {
        return Err(CryptoError::InvalidBlob { len: blob.len() });
    }
    let (nonce_part, ct_part) = blob.split_at(NONCE_LEN);
    proof {
        assert(nonce_part@ =~= blob@.take(12));
        assert(ct_part@ =~= blob@.skip(12));
    }
    let plaintext_bytes = match aes256gcm_open(key_32, nonce_part, ct_part) {
        Ok(p) => p,
        Err(_) => return Err(CryptoError::AuthFailed),
    };
    match crate::codec::string_from_utf8(plaintext_bytes) {
        Ok(s) => Ok(s),
        Err(_) => Err(CryptoError::Utf8),
    }
}

/// The blob with the lowest bit of its first ciphertext byte (just after the nonce)
/// flipped; blobs with no byte after the nonce are left as they are.
pub open spec fn flipped(blob: Seq<u8>) -> Seq<u8> {
    if blob.len() > 12 {
        blob.update(12, blob[12] ^ 1u8)
    } else {
        blob
    }
}

/// Simulates tampering with a stored blob: flips one bit of the ciphertext, not of the nonce.
pub fn flip_one_bit(mut blob: Vec<u8>) -> (r: Vec<u8>)
    ensures
        r@ == flipped(blob@),
{
    if blob.len() > NONCE_LEN {
        let b = blob[NONCE_LEN];
        blob.set(NONCE_LEN, b ^ 1u8);
    }
    blob
}

/// Flipping is its own undo, and it never touches the nonce.
pub proof fn lemma_flip_involution(blob: Seq<u8>)
    ensures
        flipped(flipped(blob)) == blob,
        flipped(blob).len() == blob.len(),
        flipped(blob).take(12) == blob.take(12),
{
    if blob.len() > 12 {
        let b = blob[12];
        assert((b ^ 1u8) ^ 1u8 == b) by (bit_vector);
        assert(flipped(flipped(blob)) =~= blob);
        assert(flipped(blob).take(12) =~= blob.take(12));
    }
}

} // verus!
