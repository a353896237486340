use vstd::prelude::*;

use sha2::{Digest, Sha256};

use crate::codec::{self, hex_encoded, utf8_bytes};

verus! {

/// The SHA-256 digest of `data`.
pub uninterp spec fn sha256_digest(data: Seq<u8>) -> Seq<u8>;

/// `Sha256::digest` from `sha2`: the contract names the digest and states its length
/// (32 bytes).
#[verifier::external_body]
fn sha256(data: &[u8]) -> (r: [u8; 32])
    ensures
        r@ == sha256_digest(data@),
{
    Sha256::digest(data).into()
}

/// The hashed text of an event: its type, a newline, its timestamp, a newline and its
/// canonical JSON payload.
pub open spec fn audit_text(event_type: Seq<char>, timestamp: Seq<char>, payload_json: Seq<char>) -> Seq<
    char,
> {
    event_type + seq!['\n'] + timestamp + seq!['\n'] + payload_json
}

/// The bytes that are hashed for an event: the UTF-8 encoding of its audit text.
pub fn audit_data_bytes(event_type: &str, payload_json: &str, timestamp_rfc3339: &str) -> (r: Vec<
    u8,
>)
    ensures
        r@ == utf8_bytes(audit_text(event_type@, timestamp_rfc3339@, payload_json@)),
{
    let mut s = String::from_str(event_type);
    s.append("\n");
    s.append(timestamp_rfc3339);
    s.append("\n");
    s.append(payload_json);
    proof {
        reveal_strlit("\n");
        assert(s@ =~= audit_text(event_type@, timestamp_rfc3339@, payload_json@));
    }
    let bytes = s.as_str().as_bytes();
    let mut out: Vec<u8> = Vec::new();
    out.extend_from_slice(bytes);
    proof {
        assert(out@ =~= bytes@);
    }
    out
}

/// The hash of an entry: the lowercase hexadecimal SHA-256 of its data followed by the
/// bytes of the previous hash text.
pub open spec fn chained_hash(data: Seq<u8>, prev_hash: Seq<char>) -> Seq<char> {
    hex_encoded(sha256_digest(data + utf8_bytes(prev_hash)))
}

/// `current_hash = hex(SHA256(data || prev_hash))`.
pub fn compute_current_hash_hex(data_bytes: &[u8], prev_hash_hex: &str) -> (r: String)
    ensures
        r@ == chained_hash(data_bytes@, prev_hash_hex@),
{
    let mut message: Vec<u8> = Vec::new();
    message.extend_from_slice(data_bytes);
    message.extend_from_slice(prev_hash_hex.as_bytes());
    proof {
        assert(message@ =~= data_bytes@ + utf8_bytes(prev_hash_hex@));
    }
    let digest = sha256(message.as_slice());
    codec::hex_encode(digest.as_slice())
}

/// The previous hash of the first entry: sixty-four zeros.
pub open spec fn genesis_hash() -> Seq<char> {
    Seq::new(64, |i: int| '0')
}

/// The previous hash that the first entry of a chain carries.
pub fn genesis_prev_hash() -> (r: String)
    ensures
        r@ == genesis_hash(),
{
    let mut s = String::new();
    let mut i: usize = 0;
    proof {
        reveal_strlit("0");
    }
    while i < 64
        invariant
            i <= 64,
            s@ == Seq::new(i as nat, |k: int| '0'),
        decreases 64 - i,
    {
        s.append("0");
        proof {
            reveal_strlit("0");
            assert(s@ =~= Seq::new((i + 1) as nat, |k: int| '0'));
        }
        i = i + 1;
    }
    s
}

/// The sub-second part of a timestamp, in nanoseconds, cut to whole microseconds: the
/// precision that PostgreSQL keeps, so that what is hashed is what is stored.
pub fn micros_precision(nanos: u32) -> (r: u32)
    ensures
        r == nanos / 1000 * 1000,
        r <= nanos,
        nanos - r < 1000,
{
    nanos / 1000 * 1000
}

} // verus!
