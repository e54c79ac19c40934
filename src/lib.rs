//! `sear`: signed and encrypted archives.
//!
//! An archive is a plaintext magic and header, a STREAM-encrypted body holding
//! every entry's payload followed by the archive metadata, and a plaintext
//! footer terminated by its own length.

pub mod error;
pub mod crypto;
pub mod wire;
pub mod protos;
pub mod entry;
pub mod metadata;
pub mod index_codec;
pub mod uuid;
pub mod builder;
pub mod keyring;

pub use self::{builder::Builder, entry::Entry, error::Error, keyring::KeyRing};
