//! Security building blocks with machine-checked contracts: policy audits over key
//! stores and access logs, a typestate authenticator, password-hashing parameters,
//! authenticated field encryption, token issuance helpers, a hash-chained signed
//! audit log and service health decisions.

pub mod codec;
pub mod policy;
pub mod typestate;
pub mod shadow;
pub mod identity;
pub mod audit;
pub mod token;
pub mod provision;
