//! Random UUIDs: each archive's identifier, and the salt of its key derivation.
use vstd::prelude::*;
use crate::error::{Error, ErrorKind};

verus! {

/// The hyphenated lowercase text of the version 4 UUID built from `random`.
pub uninterp spec fn uuid_v4_text(random: Seq<u8>) -> Seq<char>;

/// Relies on `getrandom::fill`: 16 bytes from the operating system's secure
/// random number generator, or `None` when it fails.
#[verifier::external_body]
fn os_random_16() -> (r: Option<[u8; 16]>) {
    let mut bytes = [0u8; 16];
    match getrandom::fill(&mut bytes) {
        Ok(()) => Some(bytes),
        Err(_) => None,
    }
}

/// A character of a UUID's hyphenated lowercase form.
pub open spec fn uuid_char(c: char) -> bool {
    ('0' <= c <= '9') || ('a' <= c <= 'f') || c == '-'
}

/// The hyphenated lowercase form of a version 4, RFC 4122 variant UUID:
/// 36 characters in groups of 8, 4, 4, 4 and 12 hex digits.
pub open spec fn v4_hyphenated(t: Seq<char>) -> bool {
    &&& t.len() == 36
    &&& forall|i: int| 0 <= i < 36 ==> uuid_char(#[trigger] t[i])
    &&& t[8] == '-' && t[13] == '-' && t[18] == '-' && t[23] == '-'
    &&& t[14] == '4'
    &&& t[19] == '8' || t[19] == '9' || t[19] == 'a' || t[19] == 'b'
}

/// Relies on `uuid::Builder::from_random_bytes` (which sets the RFC 4122
/// variant and version 4 bits) and the UUID's `Display` form, hyphenated
/// lowercase hex.
#[verifier::external_body]
fn uuid_v4_string(random: [u8; 16]) -> (r: String)
    ensures
        r@ == uuid_v4_text(random@),
        v4_hyphenated(r@),
{
    uuid::Builder::from_random_bytes(random).into_uuid().to_string()
}

/// A random version 4 UUID, as text; a `Crypto` error when the operating
/// system cannot supply randomness.
pub fn new_v4() -> (r: Result<String, Error>)
    ensures
        r is Ok ==> exists|b: Seq<u8>| b.len() == 16 && r->Ok_0@ == #[trigger] uuid_v4_text(b),
        r is Ok ==> v4_hyphenated(r->Ok_0@),
        r is Err ==> r->Err_0.kind == ErrorKind::Crypto,
{
    match os_random_16() {
        Some(bytes) => {
            let s = uuid_v4_string(bytes);
            assert(bytes@.len() == 16 && s@ == uuid_v4_text(bytes@));
            Ok(s)
        },
        None => Err(Error::new(ErrorKind::Crypto)),
    }
}

} // verus!
