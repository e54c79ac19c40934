//! Key ring holding the master keys archives are encrypted under.
use vstd::prelude::*;
use crate::crypto::kdf;
use crate::error::{Error, ErrorKind};

verus! {

/// Key ring.
pub struct KeyRing {
    symmetric_keys: Vec<kdf::Key>,
}

impl KeyRing {
    /// Number of symmetric keys held.
    pub closed spec fn len(&self) -> nat {
        self.symmetric_keys@.len()
    }

    /// The symmetric key at position `i`, in the order they were added.
    pub closed spec fn key_at(&self, i: int) -> kdf::Key {
        self.symmetric_keys@[i]
    }

    /// Create an empty key ring.
    pub fn new() -> (r: KeyRing)
        ensures
            r.len() == 0,
    {
        KeyRing { symmetric_keys: Vec::new() }
    }

    /// Add a symmetric key to the key ring.
    pub fn add_symmetric_key(&mut self, key: kdf::Key)
        ensures
            final(self).len() == old(self).len() + 1,
            final(self).key_at(old(self).len() as int) == key,
            forall|i: int| 0 <= i < old(self).len() ==> final(self).key_at(i) == old(self).key_at(i),
    {
        self.symmetric_keys.push(key);
    }

    /// Parse the text of a key file (a CryptoURI, trailing newline allowed) and
    /// add the key. Anything but a supported HKDF-SHA-256 key is a `Parse`
    /// error, and the key ring is left as it was.
    pub fn load_symmetric_key(&mut self, key_uri: &str) -> (r: Result<(), Error>)
        ensures
            r is Ok <==> kdf::parses_as_master_key(key_uri@),
            r is Ok ==> final(self).len() == old(self).len() + 1
                && kdf::master_key_of(key_uri@, final(self).key_at(old(self).len() as int))
                && forall|i: int| 0 <= i < old(self).len() ==> final(self).key_at(i) == old(self).key_at(i),
            r is Err ==> r->Err_0.kind == ErrorKind::Parse && *final(self) == *old(self),
    {
        let key = kdf::Key::parse_uri(key_uri)?;
        self.add_symmetric_key(key);
        Ok(())
    }

    /// Number of symmetric keys held.
    pub fn symmetric_key_count(&self) -> (r: usize)
        ensures
            r == self.len(),
    {
        self.symmetric_keys.len()
    }

    /// The active encryption key: the only one, if exactly one is held. Which
    /// of several keys would be active is not settled, so several are not
    /// accepted.
    pub fn symmetric_key(&self) -> (r: Option<&kdf::Key>)
        requires
            self.len() <= 1,
        ensures
            self.len() == 0 ==> r is None,
            self.len() == 1 ==> r == Some(&self.key_at(0)),
    {
        if self.symmetric_keys.len() == 0 {
            None
        } else {
            Some(&self.symmetric_keys[0])
        }
    }
}

} // verus!
