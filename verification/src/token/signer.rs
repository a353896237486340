use vstd::prelude::*;

use jsonwebtoken::EncodingKey;

verus! {

/// `jsonwebtoken::EncodingKey`, a signing key.
#[verifier::external_type_specification]
#[verifier::external_body]
pub struct ExEncodingKey(EncodingKey);

/// `jsonwebtoken::errors::Error`.
#[verifier::external_type_specification]
#[verifier::external_body]
pub struct ExJwtError(jsonwebtoken::errors::Error);

/// The claims of a token: expiry (Unix seconds), issuer and subject.
#[derive(Debug, Clone)]
pub struct Claims {
    pub exp: usize,
    pub iss: String,
    pub sub: String,
}

/// The earliest and latest Unix timestamps of dates the time library represents
/// (years -9999 through 9999).
pub open spec fn min_unix() -> int {
    -377705116800
}

/// See `min_unix`.
pub open spec fn max_unix() -> int {
    253402300799
}

/// Whether `EncodingKey::from_ed_pem` accepts `pem`: PEM text holding a PKCS#8 Ed25519
/// private key.
pub uninterp spec fn ed_private_pem_accepted(pem: Seq<u8>) -> bool;

/// `EncodingKey::from_ed_pem` from `jsonwebtoken`: parses an Ed25519 private key in PEM.
/// The contract names when parsing succeeds (the PEM and PKCS#8 grammar is not written
/// out); nothing is stated about the key it builds.
#[verifier::external_body]
fn encoding_key_from_ed_pem(pem: &[u8]) -> (r: Result<EncodingKey, jsonwebtoken::errors::Error>)
    ensures
        r is Ok <==> ed_private_pem_accepted(pem@),
{
    EncodingKey::from_ed_pem(pem)
}

/// Issues tokens for one issuer, signed with an Ed25519 key that carries a key id.
pub struct Signer {
    issuer: String,
    encoding_key: EncodingKey,
    kid: String,
    ttl_minutes: i64,
}

impl Signer {
    /// The issuer named in every token.
    pub closed spec fn issuer_view(self) -> Seq<char> {
        self.issuer@
    }

    /// The key id put in every token header.
    pub closed spec fn kid_view(self) -> Seq<char> {
        self.kid@
    }

    /// How long a token lives, in minutes.
    pub closed spec fn ttl(self) -> i64 {
        self.ttl_minutes
    }

    /// The signing key.
    pub closed spec fn key(self) -> EncodingKey {
        self.encoding_key
    }

    /// Builds a signer from the PEM text of an Ed25519 private key.
    pub fn from_private_pem(pem: &[u8], kid: &str, issuer: &str, ttl_minutes: i64) -> (r: Result<
        Self,
        jsonwebtoken::errors::Error,
    >)
        ensures
            r is Ok <==> ed_private_pem_accepted(pem@),
            r matches Ok(s) ==> s.issuer_view() == issuer@ && s.kid_view() == kid@ && s.ttl()
                == ttl_minutes,
    {
        let encoding_key = encoding_key_from_ed_pem(pem)?;
        Ok(Signer {
            issuer: issuer.to_string(),
            encoding_key,
            kid: kid.to_string(),
            ttl_minutes,
        })
    }

    /// The signing key.
    pub fn encoding_key(&self) -> (r: &EncodingKey)
        ensures
            *r == self.key(),
    {
        &self.encoding_key
    }

    /// How long a token lives, in minutes.
    pub fn ttl_minutes(&self) -> (r: i64)
        ensures
            r == self.ttl(),
    {
        self.ttl_minutes
    }

    /// The key id for the token header.
    pub fn kid(&self) -> (r: String)
        ensures
            r@ == self.kid_view(),
    {
        self.kid.clone()
    }

    /// The expiry for a token issued at `now_unix`: `ttl_minutes` later, as Unix seconds.
    pub open spec fn expiry(self, now_unix: i64) -> int {
        now_unix + self.ttl() * 60
    }

    /// The claims of a token for `user_id` issued at `now_unix` (Unix seconds): it expires
    /// `ttl_minutes` later, is issued by this signer and has the user as subject. The
    /// expiry must be a representable date.
    pub fn claims_at(&self, user_id: &str, now_unix: i64) -> (r: Claims)
        requires
            min_unix() <= self.expiry(now_unix) <= max_unix(),
            -153722867280912930 <= self.ttl() <= 153722867280912930,
        ensures
            r.exp == self.expiry(now_unix) as usize,
            r.iss@ == self.issuer_view(),
            r.sub@ == user_id@,
    {
        let exp: i64 = now_unix + self.ttl_minutes * 60;
        Claims { exp: exp as usize, iss: self.issuer.clone(), sub: user_id.to_string() }
    }
}

} // verus!
