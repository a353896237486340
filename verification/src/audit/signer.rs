use vstd::prelude::*;

use ed25519_dalek::{Signature, Signer, SigningKey, VerifyingKey};

use crate::codec::{self, base64_standard_encoded, hex_decoded, hex_decodes, utf8_bytes};

verus! {

/// `ed25519::Error` (signature error) from `ed25519-dalek`.
#[verifier::external_type_specification]
#[verifier::external_body]
pub struct ExSignatureError(ed25519_dalek::SignatureError);

/// Why a seed or a signature could not be used.
#[derive(Debug, Clone, Copy, PartialEq, Eq)]
pub enum SignerError {
    InvalidSeed,
    BadSignature,
}

impl SignerError {
    /// The human-readable description.
    pub fn message(&self) -> (r: String)
        ensures
            *self == SignerError::InvalidSeed ==> r@
                == "invalid private seed: expected 32 bytes as hex (64 chars)"@,
            *self == SignerError::BadSignature ==> r@ == "signature decode/parse error"@,
    {
        match self {
            SignerError::InvalidSeed => String::from_str(
                "invalid private seed: expected 32 bytes as hex (64 chars)",
            ),
            SignerError::BadSignature => String::from_str("signature decode/parse error"),
        }
    }
}

/// The Ed25519 public key of the signing key with secret `seed`.
pub uninterp spec fn ed25519_public_key(seed: Seq<u8>) -> Seq<u8>;

/// The Ed25519 signature of `message` by the signing key with secret `seed`.
pub uninterp spec fn ed25519_signature(seed: Seq<u8>, message: Seq<u8>) -> Seq<u8>;

/// Whether `signature` strictly verifies `message` under the public key bytes `public`.
pub uninterp spec fn ed25519_verifies_strict(public: Seq<u8>, message: Seq<u8>, signature: Seq<
    u8,
>) -> bool;

/// `SigningKey::from_bytes(seed).verifying_key().to_bytes()`: the contract names the
/// public key of the seed.
#[verifier::external_body]
fn ed25519_public_of(seed: &[u8; 32]) -> (r: [u8; 32])
    ensures
        r@ == ed25519_public_key(seed@),
{
    SigningKey::from_bytes(seed).verifying_key().to_bytes()
}

/// `SigningKey::from_bytes(seed).sign(message).to_bytes()`: the contract names the
/// signature and states that it strictly verifies under the seed's public key, which is
/// Ed25519's correctness. `verify_strict` also rejects a small-order public key or nonce
/// point; a seed or message whose secret scalar reduces to zero modulo the group order
/// would give one, and no such input is known.
#[verifier::external_body]
fn ed25519_sign(seed: &[u8; 32], message: &[u8]) -> (r: [u8; 64])
    ensures
        r@ == ed25519_signature(seed@, message@),
        ed25519_verifies_strict(ed25519_public_key(seed@), message@, r@),
{
    SigningKey::from_bytes(seed).sign(message).to_bytes()
}

/// `Signature::from_slice` from `ed25519`: it succeeds exactly on 64 bytes, which it keeps.
#[verifier::external_body]
fn signature_bytes(bytes: &[u8]) -> (r: Result<[u8; 64], ed25519_dalek::SignatureError>)
    ensures
        r is Ok <==> bytes@.len() == 64,
        r matches Ok(s) ==> s@ == bytes@,
{
    Signature::from_slice(bytes).map(|s| s.to_bytes())
}

/// `VerifyingKey::from_bytes(public)` and `verify_strict(message, signature)` from
/// `ed25519-dalek`; a public key that does not decode verifies nothing. The contract names
/// the outcome.
#[verifier::external_body]
fn ed25519_verify_strict(public: &[u8; 32], message: &[u8], signature: &[u8; 64]) -> (r: bool)
    ensures
        r == ed25519_verifies_strict(public@, message@, signature@),
{
    match VerifyingKey::from_bytes(public) {
        Ok(key) => key.verify_strict(message, &Signature::from_bytes(signature)).is_ok(),
        Err(_) => false,
    }
}

/// What checking a Base64 signature text against a hexadecimal hash text gives: an error
/// (`None`) when the hash is not hexadecimal, the text not Base64 or the signature not 64
/// bytes, else whether it strictly verifies the hash bytes under `public`.
pub open spec fn signature_check(public: Seq<u8>, hash_hex: Seq<char>, signature_b64: Seq<char>) -> Option<
    bool,
> {
    if !hex_decodes(utf8_bytes(hash_hex)) {
        None
    } else {
        match codec::base64_standard_decoded(utf8_bytes(signature_b64)) {
            None => None,
            Some(sig) => if sig.len() != 64 {
                None
            } else {
                Some(ed25519_verifies_strict(public, hex_decoded(utf8_bytes(hash_hex)), sig))
            },
        }
    }
}

/// The Base64 signature text that the seed produces for a hexadecimal hash text.
pub open spec fn signature_text(seed: Seq<u8>, hash_hex: Seq<char>) -> Seq<char> {
    base64_standard_encoded(ed25519_signature(seed, hex_decoded(utf8_bytes(hash_hex))))
}

/// An Ed25519 signer of chain hashes: the 32-byte secret seed and its public key.
pub struct SignerWrap {
    seed: [u8; 32],
    public: [u8; 32],
}

impl SignerWrap {
    /// The secret seed.
    pub closed spec fn seed(self) -> Seq<u8> {
        self.seed@
    }

    /// The public key bytes.
    pub closed spec fn public(self) -> Seq<u8> {
        self.public@
    }

    /// The public key belongs to the seed.
    pub closed spec fn wf(self) -> bool {
        self.public@ == ed25519_public_key(self.seed@)
    }

    /// Builds a signer from a hexadecimal seed of exactly 32 bytes.
    pub fn from_hex_seed(seed_hex: &str) -> (r: Result<Self, SignerError>)
        ensures
            r is Ok <==> hex_decodes(utf8_bytes(seed_hex@)) && hex_decoded(
                utf8_bytes(seed_hex@),
            ).len() == 32,
            r is Err ==> r == Err::<Self, _>(SignerError::InvalidSeed),
            r matches Ok(s) ==> s.wf() && s.seed() == hex_decoded(utf8_bytes(seed_hex@)),
    {
        let seed = match codec::hex_decode(seed_hex) {
            Ok(v) => v,
            Err(_) => { return Err(SignerError::InvalidSeed); },
        };
        if seed.len() != 32 {
            return Err(SignerError::InvalidSeed);
        }
        let mut arr = [0u8; 32];
        let mut i: usize = 0;
        while i < 32
            invariant
                i <= 32,
                seed@.len() == 32,
                forall|j: int| 0 <= j < i ==> arr@[j] == seed@[j],
            decreases 32 - i,
        {
            arr[i] = seed[i];
            i = i + 1;
        }
        proof {
            assert(arr@ =~= seed@);
        }
        let public = ed25519_public_of(&arr);
        Ok(SignerWrap { seed: arr, public })
    }

    /// Signs the bytes that a hexadecimal hash text stands for; the signature is given in
    /// Base64 and checks against the same hash.
    pub fn sign_current_hash_b64(&self, current_hash_hex: &str) -> (r: String)
        requires
            hex_decodes(utf8_bytes(current_hash_hex@)),
        ensures
            r@ == signature_text(self.seed(), current_hash_hex@),
            self.wf() ==> signature_check(self.public(), current_hash_hex@, r@) == Some(true),
    {
        let msg = match codec::hex_decode(current_hash_hex) {
            Ok(v) => v,
            Err(_) => Vec::new(),
        };
        let sig = ed25519_sign(&self.seed, msg.as_slice());
        codec::base64_encode(sig.as_slice())
    }

    /// Checks a Base64 signature against a hexadecimal hash text: a text that does not
    /// decode is an error, otherwise the answer is whether the signature strictly verifies.
    pub fn verify_current_hash_b64(&self, current_hash_hex: &str, signature_b64: &str) -> (r: Result<
        bool,
        SignerError,
    >)
        ensures
            r matches Ok(b) ==> signature_check(self.public(), current_hash_hex@, signature_b64@)
                == Some(b),
            r is Err ==> signature_check(self.public(), current_hash_hex@, signature_b64@) is None
                && r == Err::<bool, _>(SignerError::BadSignature),
    {
        let msg = match codec::hex_decode(current_hash_hex) {
            Ok(v) => v,
            Err(_) => { return Err(SignerError::BadSignature); },
        };
        let sig_bytes = match codec::base64_decode(signature_b64) {
            Ok(v) => v,
            Err(_) => { return Err(SignerError::BadSignature); },
        };
        let sig = match signature_bytes(sig_bytes.as_slice()) {
            Ok(s) => s,
            Err(_) => { return Err(SignerError::BadSignature); },
        };
        Ok(ed25519_verify_strict(&self.public, msg.as_slice(), &sig))
    }
}

} // verus!
