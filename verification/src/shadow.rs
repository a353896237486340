//! Field-level encryption of sensitive user data: AES-256-GCM blobs laid out as
//! `nonce (12 bytes) | ciphertext | tag (16 bytes)`, a 32-byte key loaded from one of
//! several sources, and rows whose sensitive fields are stored encrypted.

pub mod aes_engine;
pub mod cli;
pub mod user_repo;
