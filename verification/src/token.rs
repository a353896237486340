//! EdDSA token issuance and checking: the claims a token carries, the signer that issues
//! them with a short lifetime, the header rules a token must meet (a key id, EdDSA only)
//! and the public-key cache consulted by key id.

pub mod signer;
pub mod validation;
