//! Recipient-locked file encryption: every file is sealed for exactly one
//! device, identified by its X25519 public key.

pub mod envelope;
pub mod error;
pub mod format;
pub mod keys;
pub mod nonce;
pub mod primitives;
pub mod text;
pub mod names;
