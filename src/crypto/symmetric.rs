//! Symmetric AEAD ciphers with 96-bit nonces and 128-bit tags.
use vstd::prelude::*;
use aes_gcm::aead::{AeadInOut, KeyInit};
use crate::error::{Error, ErrorKind};

verus! {

/// Total size of a nonce.
pub const NONCE_SIZE: usize = 12;

/// Size of the authentication tag added to every message.
pub const TAG_SIZE: usize = 16;

/// Size of a symmetric key.
pub const KEY_SIZE: usize = 32;

/// Largest plaintext or associated data, in bytes, that the ciphers here are
/// relied upon to seal without error.
pub const SEAL_LIMIT: usize = 1048576;

/// The AES-256-GCM sealing of `plaintext` under `key`, `nonce` and `aad`.
pub uninterp spec fn aes256gcm_seal_of(key: Seq<u8>, nonce: Seq<u8>, aad: Seq<u8>, plaintext: Seq<u8>) -> Seq<u8>;

/// The ChaCha20-Poly1305 sealing of `plaintext` under `key`, `nonce` and `aad`.
pub uninterp spec fn chacha20poly1305_seal_of(key: Seq<u8>, nonce: Seq<u8>, aad: Seq<u8>, plaintext: Seq<u8>) -> Seq<u8>;

/// Relies on `aes_gcm::Aes256Gcm` (`KeyInit::new`, `AeadInOut::encrypt_in_place`):
/// the tag is appended after the ciphertext, and sealing fails only for a
/// plaintext over `P_MAX` (2^36 - 32) or associated data over `A_MAX` bytes.
#[verifier::external_body]
fn aes256gcm_seal(key: &[u8; 32], nonce: &[u8; 12], aad: &[u8], buffer: &mut Vec<u8>) -> (ok: bool)
    ensures
        ok ==> final(buffer)@ == aes256gcm_seal_of(key@, nonce@, aad@, old(buffer)@),
        ok ==> final(buffer)@.len() == old(buffer)@.len() + 16,
        old(buffer)@.len() <= SEAL_LIMIT && aad@.len() <= SEAL_LIMIT ==> ok,
{
    let cipher = aes_gcm::Aes256Gcm::new(&(*key).into());
    cipher.encrypt_in_place(&(*nonce).into(), aad, buffer).is_ok()
}

/// Relies on `chacha20poly1305::ChaCha20Poly1305` (`KeyInit::new`,
/// `AeadInOut::encrypt_in_place`): the tag is appended after the ciphertext,
/// and sealing fails only for a plaintext of 2^32 - 1 blocks or more.
#[verifier::external_body]
fn chacha20poly1305_seal(key: &[u8; 32], nonce: &[u8; 12], aad: &[u8], buffer: &mut Vec<u8>) -> (ok: bool)
    ensures
        ok ==> final(buffer)@ == chacha20poly1305_seal_of(key@, nonce@, aad@, old(buffer)@),
        ok ==> final(buffer)@.len() == old(buffer)@.len() + 16,
        old(buffer)@.len() <= SEAL_LIMIT && aad@.len() <= SEAL_LIMIT ==> ok,
{
    let cipher = chacha20poly1305::ChaCha20Poly1305::new(&(*key).into());
    cipher.encrypt_in_place(&(*nonce).into(), aad, buffer).is_ok()
}

/// Relies on `zeroize::Zeroize` for byte arrays: every byte is overwritten
/// with zero, in writes the compiler keeps.
#[verifier::external_body]
pub(crate) fn wipe(bytes: &mut [u8; 32])
    ensures
        final(bytes)@ == Seq::new(32, |i: int| 0u8),
    opens_invariants none
    no_unwind
{
    zeroize::Zeroize::zeroize(bytes);
}

/// Symmetric encryption keys, wiped when dropped.
pub enum Key {
    /// AES-256-GCM.
    Aes256Gcm([u8; 32]),
    /// ChaCha20-Poly1305.
    ChaCha20Poly1305([u8; 32]),
}

/// The 32 secret bytes of a key.
pub open spec fn key_bytes(key: Key) -> Seq<u8> {
    match key {
        Key::Aes256Gcm(k) => k@,
        Key::ChaCha20Poly1305(k) => k@,
    }
}

/// The ciphertext (with its trailing tag) of `plaintext` under `key`.
pub open spec fn sealed(key: Key, nonce: Seq<u8>, aad: Seq<u8>, plaintext: Seq<u8>) -> Seq<u8> {
    match key {
        Key::Aes256Gcm(k) => aes256gcm_seal_of(k@, nonce, aad, plaintext),
        Key::ChaCha20Poly1305(k) => chacha20poly1305_seal_of(k@, nonce, aad, plaintext),
    }
}

impl Drop for Key {
    fn drop(&mut self)
        opens_invariants none
        no_unwind
    {
        match self {
            Key::Aes256Gcm(k) => wipe(k),
            Key::ChaCha20Poly1305(k) => wipe(k),
        }
    }
}

impl Key {
    /// Encrypt the plaintext in `buffer` in place, appending the tag.
    pub fn encrypt_in_place(&self, nonce: &[u8; 12], associated_data: &[u8], buffer: &mut Vec<u8>) -> (r: Result<(), Error>)
        ensures
            r is Ok ==> final(buffer)@ == sealed(*self, nonce@, associated_data@, old(buffer)@),
            r is Ok ==> final(buffer)@.len() == old(buffer)@.len() + TAG_SIZE,
            r is Err ==> r->Err_0.kind == ErrorKind::Crypto,
            old(buffer)@.len() <= SEAL_LIMIT && associated_data@.len() <= SEAL_LIMIT ==> r is Ok,
    {
        let ok = match self {
            Key::Aes256Gcm(k) => aes256gcm_seal(k, nonce, associated_data, buffer),
            Key::ChaCha20Poly1305(k) => chacha20poly1305_seal(k, nonce, associated_data, buffer),
        };
        if ok {
            Ok(())
        } else {
            Err(Error::new(ErrorKind::Crypto))
        }
    }
}

} // verus!
