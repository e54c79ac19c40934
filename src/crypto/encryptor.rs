//! STREAM encryptor: segmented AEAD with a 32-bit chunk counter.
//!
//! A nonce is the 8-byte prefix followed by the little-endian counter. The
//! last-block flag is the low bit of the prefix's last byte, so the prefix
//! carries only 63 bits of its own; every archive derives a fresh key, so the
//! prefix itself is all zeros.
use vstd::prelude::*;
use crate::crypto::symmetric::{self, Key, NONCE_SIZE, SEAL_LIMIT, TAG_SIZE};
use crate::error::{Error, ErrorKind};

verus! {

/// Size of a nonce prefix (nonce size less a 32-bit counter).
pub const NONCE_PREFIX_SIZE: usize = 8;

/// Index of the byte whose low bit holds the last-block flag.
pub const LAST_BLOCK_FLAG_BYTE: usize = 7;

/// Little-endian bytes of a 32-bit counter.
pub open spec fn u32_le(c: u32) -> Seq<u8> {
    seq![(c % 256) as u8, (c / 256 % 256) as u8, (c / 65536 % 256) as u8, (c / 16777216) as u8]
}

/// The nonce of the chunk at position `counter`, flagged when it is the last.
pub open spec fn stream_nonce_of(prefix: Seq<u8>, counter: u32, last_block: bool) -> Seq<u8> {
    let p = if last_block {
        prefix.update(7, prefix[7] | 1u8)
    } else {
        prefix
    };
    p + u32_le(counter)
}

/// A STREAM encryptor (the stream encryption object of Hoang, Reyhanitabar,
/// Rogaway and Vizar), with 96-bit nonces.
pub struct Encryptor {
    key: Key,
    nonce_prefix: [u8; 8],
}

impl Encryptor {
    /// The key chunks are sealed with.
    pub closed spec fn key(&self) -> Key {
        self.key
    }

    /// The nonce prefix, with its flag bit clear.
    pub closed spec fn prefix(&self) -> Seq<u8> {
        self.nonce_prefix@
    }

    /// The flag bit of the prefix is clear.
    pub open spec fn wf(&self) -> bool {
        &&& self.prefix().len() == NONCE_PREFIX_SIZE
        &&& self.prefix()[7] & 1u8 == 0
    }

    /// The sealed chunk at position `counter`.
    pub open spec fn chunk_of(&self, counter: u32, last_block: bool, aad: Seq<u8>, plaintext: Seq<u8>) -> Seq<u8> {
        symmetric::sealed(self.key(), stream_nonce_of(self.prefix(), counter, last_block), aad, plaintext)
    }

    /// Create a STREAM encryptor, clearing the flag bit of the given prefix.
    pub fn new(key: Key, nonce_prefix: [u8; 8]) -> (r: Encryptor)
        ensures
            r.wf(),
            r.key() == key,
            r.prefix() == nonce_prefix@.update(7, nonce_prefix@[7] & 0xfeu8),
    {
        let p = nonce_prefix;
        let b = p[7];
        let last = b & 0xfe;
        assert(last & 1u8 == 0) by (bit_vector)
            requires last == b & 0xfeu8;
        let prefix = [p[0], p[1], p[2], p[3], p[4], p[5], p[6], last];
        let r = Encryptor { key, nonce_prefix: prefix };
        assert(r.prefix() =~= nonce_prefix@.update(7, nonce_prefix@[7] & 0xfeu8));
        r
    }

    /// Encrypt the chunk at the given position of the stream in place.
    pub fn encrypt_in_place(&self, counter: u32, last_block: bool, associated_data: &[u8], buffer: &mut Vec<u8>) -> (r: Result<(), Error>)
        requires
            self.wf(),
        ensures
            r is Ok ==> final(buffer)@ == self.chunk_of(counter, last_block, associated_data@, old(buffer)@),
            r is Ok ==> final(buffer)@.len() == old(buffer)@.len() + TAG_SIZE,
            r is Err ==> r->Err_0.kind == ErrorKind::Crypto,
            old(buffer)@.len() <= SEAL_LIMIT && associated_data@.len() <= SEAL_LIMIT ==> r is Ok,
    {
        let nonce = self.stream_nonce(counter, last_block);
        self.key.encrypt_in_place(&nonce, associated_data, buffer)
    }

    /// Compute the nonce from the prefix, the chunk counter and the last-block flag.
    pub fn stream_nonce(&self, counter: u32, last_block: bool) -> (r: [u8; 12])
        requires
            self.wf(),
        ensures
            r@ == stream_nonce_of(self.prefix(), counter, last_block),
            r@.len() == NONCE_SIZE,
    {
        let p = &self.nonce_prefix;
        let flag = if last_block { p[7] | 1 } else { p[7] };
        let r = [
            p[0], p[1], p[2], p[3], p[4], p[5], p[6], flag,
            (counter % 256) as u8,
            (counter / 256 % 256) as u8,
            (counter / 65536 % 256) as u8,
            (counter / 16777216) as u8,
        ];
        assert(r@ =~= stream_nonce_of(self.prefix(), counter, last_block));
        r
    }
}

/// Two chunks get the same nonce only at the same position with the same
/// flag: a chunk's nonce binds where it stands and whether it ends the stream.
pub proof fn lemma_stream_nonce_injective(prefix: Seq<u8>, c1: u32, l1: bool, c2: u32, l2: bool)
    requires
        prefix.len() == NONCE_PREFIX_SIZE,
        prefix[7] & 1u8 == 0,
        stream_nonce_of(prefix, c1, l1) == stream_nonce_of(prefix, c2, l2),
    ensures
        c1 == c2,
        l1 == l2,
{
    let n1 = stream_nonce_of(prefix, c1, l1);
    let n2 = stream_nonce_of(prefix, c2, l2);
    assert(n1[8] == n2[8] && n1[9] == n2[9] && n1[10] == n2[10] && n1[11] == n2[11]);
    assert(n1[7] == n2[7]);
    let b = prefix[7];
    assert(b | 1u8 != b) by (bit_vector)
        requires b & 1u8 == 0;
}

} // verus!
