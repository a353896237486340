//! A chain-of-custody audit log: each entry's hash covers its event type, timestamp and
//! canonical JSON payload together with the previous entry's hash, and is signed with
//! Ed25519; verifying the log checks every signature and every link.

pub mod chain;
pub mod json;
pub mod signer;
pub mod verify;
