//! Password storage with Argon2id: hashing parameters and their policy (memory at least
//! 64 MiB, at least 3 iterations, at least one lane), hashing with a fresh salt,
//! verification, tuning the memory cost until a hash takes at least 100 ms, and the
//! decisions of the registration and login service.

pub mod hasher;
pub mod server;
