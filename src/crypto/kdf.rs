//! Key derivation: per-archive AEAD keys derived with HKDF-SHA-256 from a
//! master key given in CryptoURI form.
use vstd::prelude::*;
use cryptouri::secret_key::{Algorithm, ExposeSecret};
use crate::crypto::symmetric::{self, key_bytes, wipe};
use crate::error::{Error, ErrorKind};

verus! {

/// Text with its trailing whitespace removed.
pub uninterp spec fn trim_end_of(s: Seq<char>) -> Seq<char>;

/// Relies on `str::trim_end`: the string with its trailing whitespace removed,
/// which is a prefix of it and depends on the string alone.
#[verifier::external_body]
fn trim_end(s: &str) -> (r: &str)
    ensures
        r@ == trim_end_of(s@),
        r@.len() <= s@.len(),
        r@ == s@.subrange(0, r@.len() as int),
{
    s.trim_end()
}

/// Algorithms a CryptoURI secret key can name.
#[derive(Clone, Copy, Debug, PartialEq, Eq, Structural)]
pub enum KeyAlgorithm {
    /// AES-128-GCM.
    Aes128Gcm,
    /// AES-256-GCM.
    Aes256Gcm,
    /// ChaCha20-Poly1305.
    ChaCha20Poly1305,
    /// Ed25519.
    Ed25519,
    /// HKDF-SHA-256.
    HkdfSha256,
}

/// The HKDF-SHA-256 secret key that CryptoURI text names: its input key
/// material and the algorithm of the keys it derives, if it declares one;
/// `None` for text that is no such key.
pub uninterp spec fn hkdf_uri(text: Seq<char>) -> Option<(Seq<u8>, Option<KeyAlgorithm>)>;

/// Relies on `cryptouri::CryptoUri::parse_uri` to parse the text, and on its
/// accessors `CryptoUri::secret_key`, `SecretKey::hkdfsha256_key`,
/// `HkdfSha256Key::expose_secret` and `HkdfSha256Key::derived_alg` to read the
/// HKDF-SHA-256 key out of it; all depend on the text alone.
#[verifier::external_body]
fn parse_hkdf_uri(text: &str) -> (r: Option<([u8; 32], Option<KeyAlgorithm>)>)
    ensures
        match r {
            Some((ikm, alg)) => hkdf_uri(text@) == Some((ikm@, alg)),
            None => hkdf_uri(text@) is None,
        },
{
    let uri = cryptouri::CryptoUri::parse_uri(text).ok()?;
    let key = uri.secret_key()?.hkdfsha256_key()?;
    let alg = match key.derived_alg() {
        Some(Algorithm::Aes128Gcm) => Some(KeyAlgorithm::Aes128Gcm),
        Some(Algorithm::Aes256Gcm) => Some(KeyAlgorithm::Aes256Gcm),
        Some(Algorithm::ChaCha20Poly1305) => Some(KeyAlgorithm::ChaCha20Poly1305),
        Some(Algorithm::Ed25519) => Some(KeyAlgorithm::Ed25519),
        Some(Algorithm::HkdfSha256) => Some(KeyAlgorithm::HkdfSha256),
        None => None,
    };
    Some((*key.expose_secret(), alg))
}

/// The 32 bytes HKDF-SHA-256 expands from `ikm`, `salt` and `info`.
pub uninterp spec fn hkdf_sha256_of(ikm: Seq<u8>, salt: Seq<u8>, info: Seq<u8>) -> Seq<u8>;

/// Relies on `hkdf::Hkdf::<sha2::Sha256>` (`new`, then `expand` into 32 bytes,
/// which cannot exceed the 255-block output limit): the output depends on the
/// key material, salt and info alone.
#[verifier::external_body]
fn hkdf_sha256_expand(ikm: &[u8; 32], salt: &[u8], info: &[u8]) -> (r: [u8; 32])
    ensures
        r@ == hkdf_sha256_of(ikm@, salt@, info@),
{
    let mut okm = [0u8; 32];
    hkdf::Hkdf::<sha2::Sha256>::new(Some(salt), ikm)
        .expand(info, &mut okm)
        .expect("32 bytes is within the HKDF-SHA-256 output limit");
    okm
}

/// AEAD ciphers that archive keys can be derived for.
#[derive(Clone, Copy, Debug, PartialEq, Eq, Structural)]
pub enum DerivedAlgorithm {
    /// AES-256-GCM.
    Aes256Gcm,
    /// ChaCha20-Poly1305.
    ChaCha20Poly1305,
}

/// The cipher a master key derives keys for, when it is one this format uses.
pub open spec fn supported(alg: Option<KeyAlgorithm>) -> Option<DerivedAlgorithm> {
    match alg {
        Some(KeyAlgorithm::Aes256Gcm) => Some(DerivedAlgorithm::Aes256Gcm),
        Some(KeyAlgorithm::ChaCha20Poly1305) => Some(DerivedAlgorithm::ChaCha20Poly1305),
        _ => None,
    }
}

/// Key text is a supported master key: an HKDF-SHA-256 key, once trailing
/// whitespace is removed, deriving AES-256-GCM or ChaCha20-Poly1305 keys.
pub open spec fn parses_as_master_key(text: Seq<char>) -> bool {
    hkdf_uri(trim_end_of(text)) matches Some((_, a)) && supported(a) is Some
}

/// The master key that supported key text gives.
pub open spec fn master_key_of(text: Seq<char>, key: Key) -> bool {
    hkdf_uri(trim_end_of(text)) matches Some((m, a)) && key.ikm() == m && supported(a) == Some(key.derived_alg())
}

/// Accept the derived algorithm a master key declares: AES-256-GCM or
/// ChaCha20-Poly1305, else a `Parse` error.
pub fn check_derived_alg(alg: Option<KeyAlgorithm>) -> (r: Result<DerivedAlgorithm, Error>)
    ensures
        match supported(alg) {
            Some(d) => r == Ok::<DerivedAlgorithm, Error>(d),
            None => r is Err && r->Err_0.kind == ErrorKind::Parse,
        },
{
    match alg {
        Some(KeyAlgorithm::Aes256Gcm) => Ok(DerivedAlgorithm::Aes256Gcm),
        Some(KeyAlgorithm::ChaCha20Poly1305) => Ok(DerivedAlgorithm::ChaCha20Poly1305),
        _ => Err(Error::new(ErrorKind::Parse)),
    }
}

/// HKDF-SHA-256 master key; its key material is wiped when it is dropped.
pub struct Key {
    ikm: [u8; 32],
    alg: DerivedAlgorithm,
}

impl Drop for Key {
    fn drop(&mut self)
        opens_invariants none
        no_unwind
    {
        wipe(&mut self.ikm);
    }
}

impl Key {
    /// The input key material.
    pub closed spec fn ikm(&self) -> Seq<u8> {
        self.ikm@
    }

    /// The cipher this key derives keys for.
    pub closed spec fn derived_alg(&self) -> DerivedAlgorithm {
        self.alg
    }

    /// The cipher this key derives keys for.
    pub fn algorithm(&self) -> (r: DerivedAlgorithm)
        ensures
            r == self.derived_alg(),
    {
        self.alg
    }

    /// Parse an HKDF-SHA-256 master key from a CryptoURI (trailing whitespace
    /// is ignored). Anything but a `crypto:sec:key:hkdfsha256` key deriving
    /// AES-256-GCM or ChaCha20-Poly1305 keys is a `Parse` error.
    pub fn parse_uri(key_str: &str) -> (r: Result<Key, Error>)
        ensures
            r is Ok <==> parses_as_master_key(key_str@),
            r matches Ok(k) ==> master_key_of(key_str@, k),
            r is Err ==> r->Err_0.kind == ErrorKind::Parse,
    {
        let (ikm, declared) = match parse_hkdf_uri(trim_end(key_str)) {
            Some(parsed) => parsed,
            None => return Err(Error::new(ErrorKind::Parse)),
        };
        let alg = check_derived_alg(declared)?;
        Ok(Key { ikm, alg })
    }

    /// Derive the symmetric key for one archive: HKDF-SHA-256 with the given
    /// salt, this key's material and `info`, for this key's cipher.
    pub fn derive_symmetric_key(&self, salt: &[u8], info: &[u8]) -> (r: symmetric::Key)
        ensures
            key_bytes(r) == hkdf_sha256_of(self.ikm(), salt@, info@),
            (r is Aes256Gcm) <==> (self.derived_alg() == DerivedAlgorithm::Aes256Gcm),
            (r is ChaCha20Poly1305) <==> (self.derived_alg() == DerivedAlgorithm::ChaCha20Poly1305),
    {
        let okm = hkdf_sha256_expand(&self.ikm, salt, info);
        match self.alg {
            DerivedAlgorithm::Aes256Gcm => symmetric::Key::Aes256Gcm(okm),
            DerivedAlgorithm::ChaCha20Poly1305 => symmetric::Key::ChaCha20Poly1305(okm),
        }
    }
}

} // verus!
