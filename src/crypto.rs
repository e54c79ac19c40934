//! Cryptographic building blocks: the AEAD primitive, key derivation and the
//! segmented STREAM construction.

pub mod symmetric;
pub mod encryptor;
pub mod writer;
pub mod kdf;
