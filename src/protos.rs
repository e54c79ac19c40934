//! The archive's framing messages and their binary encoding.
//!
//! Text fields are carried as their UTF-8 bytes.
use vstd::prelude::*;
use crate::error::{Error, ErrorKind};
use crate::wire::{
    bytes_field, bytes_field_at, decode_bytes_field, decode_uint_field, encode_bytes_field,
    encode_uint_field, holds_at, lemma_bytes_field, lemma_holds_regroup, lemma_holds_split,
    lemma_uint_field, uint_field, uint_field_at,
};

verus! {

/// The bytes of message `T`, decoded from `s[pos..end]`, when they are exactly one message.
pub open spec fn finished<T>(r: Option<(T, int)>, end: int) -> Option<T> {
    match r {
        Some((v, p)) => if p == end {
            Some(v)
        } else {
            None
        },
        None => None,
    }
}

/// A 12-byte TAI64N timestamp: 8 bytes of TAI seconds, 4 of nanoseconds.
#[derive(Clone, Debug, PartialEq, Eq)]
pub struct Tai64n {
    /// The timestamp's 12 bytes.
    pub value: Vec<u8>,
}

/// Encoding of a TAI64N timestamp holding `value`.
pub open spec fn tai64n_enc(value: Seq<u8>) -> Seq<u8> {
    bytes_field(1, value)
}

/// Decoding of a TAI64N timestamp from `s[pos..end]`.
pub open spec fn tai64n_at(s: Seq<u8>, pos: int, end: int) -> Option<Seq<u8>> {
    finished(bytes_field_at(s, pos, end, 1), end)
}

/// A timestamp decodes to the value it encodes, wherever it lies.
pub proof fn lemma_tai64n_at(s: Seq<u8>, pos: int, end: int, value: Seq<u8>)
    requires
        holds_at(s, pos, end, tai64n_enc(value), Seq::empty()),
    ensures
        tai64n_at(s, pos, end) == Some(value),
{
    lemma_bytes_field(s, pos, end, 1, value, Seq::empty());
}

/// Decoding an encoded timestamp gives the value back.
pub proof fn lemma_tai64n_round_trip(value: Seq<u8>)
    ensures
        tai64n_at(tai64n_enc(value), 0, tai64n_enc(value).len() as int) == Some(value),
{
    let s = tai64n_enc(value);
    assert(s.subrange(0, s.len() as int) =~= s);
    assert(s.subrange(s.len() as int, s.len() as int) =~= Seq::<u8>::empty());
    lemma_tai64n_at(s, 0, s.len() as int, value);
}

impl View for Tai64n {
    type V = Seq<u8>;

    open spec fn view(&self) -> Seq<u8> {
        self.value@
    }
}

/// Relies on `tai64::Tai64N::now` and `Tai64N::to_bytes`: the current time as
/// 12 TAI64N bytes.
#[verifier::external_body]
fn tai64n_now_bytes() -> (r: [u8; 12]) {
    tai64::Tai64N::now().to_bytes()
}

impl Tai64n {
    /// The current time.
    pub fn now() -> (r: Tai64n)
        ensures
            r@.len() == 12,
    {
        let b = tai64n_now_bytes();
        let mut value: Vec<u8> = Vec::new();
        let mut i: usize = 0;
        while i < 12
            invariant
                i <= 12,
                b@.len() == 12,
                value@ == b@.subrange(0, i as int),
            decreases 12 - i,
        {
            value.push(b[i]);
            i = i + 1;
            assert(value@ =~= b@.subrange(0, i as int));
        }
        Tai64n { value }
    }

    /// Encode this timestamp.
    pub fn to_vec(&self) -> (r: Vec<u8>)
        ensures
            r@ == tai64n_enc(self@),
    {
        let mut out: Vec<u8> = Vec::new();
        encode_bytes_field(1, self.value.as_slice(), &mut out);
        assert(out@ =~= tai64n_enc(self@));
        out
    }

    /// Decode a timestamp from `s[pos..end]`.
    pub fn decode_range(s: &[u8], pos: usize, end: usize) -> (r: Result<Tai64n, Error>)
        requires
            pos <= end <= s@.len(),
        ensures
            match tai64n_at(s@, pos as int, end as int) {
                None => r is Err && r->Err_0.kind == ErrorKind::Parse,
                Some(v) => r is Ok && r->Ok_0@ == v,
            },
    {
        match decode_bytes_field(s, pos, end, 1) {
            Some((value, p)) => if p == end {
                Ok(Tai64n { value })
            } else {
                Err(Error::new(ErrorKind::Parse))
            },
            None => Err(Error::new(ErrorKind::Parse)),
        }
    }

    /// Decode a timestamp.
    pub fn decode(bytes: &[u8]) -> (r: Result<Tai64n, Error>)
        ensures
            match tai64n_at(bytes@, 0, bytes@.len() as int) {
                None => r is Err && r->Err_0.kind == ErrorKind::Parse,
                Some(v) => r is Ok && r->Ok_0@ == v,
            },
    {
        Tai64n::decode_range(bytes, 0, bytes.len())
    }
}

/// Plaintext archive header.
#[derive(Clone, Debug, PartialEq, Eq)]
pub struct Header {
    /// Archive UUID, padded with newlines.
    pub uuid: Vec<u8>,
    /// Plaintext bytes in a full chunk.
    pub chunk_size: u64,
    /// Fingerprint of the encryption key; may be empty.
    pub encryption_key_fingerprint: Vec<u8>,
    /// Fingerprint of the signing key; may be empty.
    pub signing_key_fingerprint: Vec<u8>,
}

impl View for Header {
    type V = (Seq<u8>, u64, Seq<u8>, Seq<u8>);

    open spec fn view(&self) -> (Seq<u8>, u64, Seq<u8>, Seq<u8>) {
        (self.uuid@, self.chunk_size, self.encryption_key_fingerprint@, self.signing_key_fingerprint@)
    }
}

/// Encoding of a header.
pub open spec fn header_enc(h: (Seq<u8>, u64, Seq<u8>, Seq<u8>)) -> Seq<u8> {
    bytes_field(1, h.0) + uint_field(2, h.1 as nat) + bytes_field(3, h.2) + bytes_field(4, h.3)
}

/// Decoding of a header from `s[pos..end]`.
pub open spec fn header_at(s: Seq<u8>, pos: int, end: int) -> Option<(Seq<u8>, u64, Seq<u8>, Seq<u8>)> {
    match bytes_field_at(s, pos, end, 1) {
        None => None,
        Some((uuid, p1)) => match uint_field_at(s, p1, end, 2) {
            None => None,
            Some((cs, p2)) => if cs > u64::MAX {
                None
            } else {
                match bytes_field_at(s, p2, end, 3) {
                    None => None,
                    Some((ef, p3)) => finished(
                        match bytes_field_at(s, p3, end, 4) {
                            None => None,
                            Some((sf, p4)) => Some(((uuid, cs as u64, ef, sf), p4)),
                        },
                        end,
                    ),
                }
            },
        },
    }
}

/// A header decodes to the header it encodes, wherever it lies.
pub proof fn lemma_header_at(s: Seq<u8>, pos: int, end: int, h: (Seq<u8>, u64, Seq<u8>, Seq<u8>))
    requires
        holds_at(s, pos, end, header_enc(h), Seq::empty()),
    ensures
        header_at(s, pos, end) == Some(h),
{
    let e1 = bytes_field(1, h.0);
    let e2 = uint_field(2, h.1 as nat);
    let e3 = bytes_field(3, h.2);
    let e4 = bytes_field(4, h.3);
    let empty = Seq::<u8>::empty();
    assert(header_enc(h) =~= e1 + (e2 + (e3 + (e4 + empty))));
    lemma_holds_regroup(s, pos, end, e1, e2 + (e3 + (e4 + empty)));
    lemma_bytes_field(s, pos, end, 1, h.0, e2 + (e3 + (e4 + empty)));
    lemma_holds_split(s, pos, end, e1, e2, e3 + (e4 + empty));
    lemma_uint_field(s, pos + e1.len(), end, 2, h.1 as nat, e3 + (e4 + empty));
    lemma_holds_split(s, pos + e1.len(), end, e2, e3, e4 + empty);
    lemma_bytes_field(s, pos + e1.len() + e2.len(), end, 3, h.2, e4 + empty);
    lemma_holds_split(s, pos + e1.len() + e2.len(), end, e3, e4, empty);
    lemma_bytes_field(s, pos + e1.len() + e2.len() + e3.len(), end, 4, h.3, empty);
}

/// Decoding an encoded header gives the header back.
pub proof fn lemma_header_round_trip(h: (Seq<u8>, u64, Seq<u8>, Seq<u8>))
    ensures
        header_at(header_enc(h), 0, header_enc(h).len() as int) == Some(h),
{
    let s = header_enc(h);
    assert(s.subrange(0, s.len() as int) =~= s);
    assert(s.subrange(s.len() as int, s.len() as int) =~= Seq::<u8>::empty());
    lemma_header_at(s, 0, s.len() as int, h);
}

impl Header {
    /// Encode this header.
    pub fn to_vec(&self) -> (r: Vec<u8>)
        ensures
            r@ == header_enc(self@),
    {
        let mut out: Vec<u8> = Vec::new();
        encode_bytes_field(1, self.uuid.as_slice(), &mut out);
        encode_uint_field(2, self.chunk_size, &mut out);
        encode_bytes_field(3, self.encryption_key_fingerprint.as_slice(), &mut out);
        encode_bytes_field(4, self.signing_key_fingerprint.as_slice(), &mut out);
        assert(out@ =~= header_enc(self@));
        out
    }

    /// Decode a header from `s[pos..end]`.
    pub fn decode_range(s: &[u8], pos: usize, end: usize) -> (r: Result<Header, Error>)
        requires
            pos <= end <= s@.len(),
        ensures
            match header_at(s@, pos as int, end as int) {
                None => r is Err && r->Err_0.kind == ErrorKind::Parse,
                Some(h) => r is Ok && r->Ok_0@ == h,
            },
    {
        let (uuid, p1) = match decode_bytes_field(s, pos, end, 1) {
            Some(x) => x,
            None => return Err(Error::new(ErrorKind::Parse)),
        };
        let (chunk_size, p2) = match decode_uint_field(s, p1, end, 2) {
            Some(x) => x,
            None => return Err(Error::new(ErrorKind::Parse)),
        };
        let (encryption_key_fingerprint, p3) = match decode_bytes_field(s, p2, end, 3) {
            Some(x) => x,
            None => return Err(Error::new(ErrorKind::Parse)),
        };
        let (signing_key_fingerprint, p4) = match decode_bytes_field(s, p3, end, 4) {
            Some(x) => x,
            None => return Err(Error::new(ErrorKind::Parse)),
        };
        if p4 != end {
            return Err(Error::new(ErrorKind::Parse));
        }
        Ok(Header { uuid, chunk_size, encryption_key_fingerprint, signing_key_fingerprint })
    }

    /// Decode a header.
    pub fn decode(bytes: &[u8]) -> (r: Result<Header, Error>)
        ensures
            match header_at(bytes@, 0, bytes@.len() as int) {
                None => r is Err && r->Err_0.kind == ErrorKind::Parse,
                Some(h) => r is Ok && r->Ok_0@ == h,
            },
    {
        Header::decode_range(bytes, 0, bytes.len())
    }
}

/// Plaintext archive footer.
#[derive(Clone, Debug, PartialEq, Eq)]
pub struct Footer {
    /// Length of the encoded metadata that ends the encrypted body.
    pub metadata_length: u64,
    /// Signature; reserved, empty for now.
    pub signature: Vec<u8>,
}

impl View for Footer {
    type V = (u64, Seq<u8>);

    open spec fn view(&self) -> (u64, Seq<u8>) {
        (self.metadata_length, self.signature@)
    }
}

/// Encoding of a footer.
pub open spec fn footer_enc(f: (u64, Seq<u8>)) -> Seq<u8> {
    uint_field(1, f.0 as nat) + bytes_field(2, f.1)
}

/// Decoding of a footer from `s[pos..end]`.
pub open spec fn footer_at(s: Seq<u8>, pos: int, end: int) -> Option<(u64, Seq<u8>)> {
    match uint_field_at(s, pos, end, 1) {
        None => None,
        Some((len, p1)) => if len > u64::MAX {
            None
        } else {
            finished(
                match bytes_field_at(s, p1, end, 2) {
                    None => None,
                    Some((sig, p2)) => Some(((len as u64, sig), p2)),
                },
                end,
            )
        },
    }
}

/// A footer decodes to the footer it encodes, wherever it lies.
pub proof fn lemma_footer_at(s: Seq<u8>, pos: int, end: int, f: (u64, Seq<u8>))
    requires
        holds_at(s, pos, end, footer_enc(f), Seq::empty()),
    ensures
        footer_at(s, pos, end) == Some(f),
{
    let e1 = uint_field(1, f.0 as nat);
    let e2 = bytes_field(2, f.1);
    let empty = Seq::<u8>::empty();
    assert(footer_enc(f) =~= e1 + (e2 + empty));
    lemma_holds_regroup(s, pos, end, e1, e2 + empty);
    lemma_uint_field(s, pos, end, 1, f.0 as nat, e2 + empty);
    lemma_holds_split(s, pos, end, e1, e2, empty);
    lemma_bytes_field(s, pos + e1.len(), end, 2, f.1, empty);
}

/// Decoding an encoded footer gives the footer back.
pub proof fn lemma_footer_round_trip(f: (u64, Seq<u8>))
    ensures
        footer_at(footer_enc(f), 0, footer_enc(f).len() as int) == Some(f),
{
    let s = footer_enc(f);
    assert(s.subrange(0, s.len() as int) =~= s);
    assert(s.subrange(s.len() as int, s.len() as int) =~= Seq::<u8>::empty());
    lemma_footer_at(s, 0, s.len() as int, f);
}

impl Footer {
    /// Encode this footer.
    pub fn to_vec(&self) -> (r: Vec<u8>)
        ensures
            r@ == footer_enc(self@),
    {
        let mut out: Vec<u8> = Vec::new();
        encode_uint_field(1, self.metadata_length, &mut out);
        encode_bytes_field(2, self.signature.as_slice(), &mut out);
        assert(out@ =~= footer_enc(self@));
        out
    }

    /// Decode a footer from `s[pos..end]`.
    pub fn decode_range(s: &[u8], pos: usize, end: usize) -> (r: Result<Footer, Error>)
        requires
            pos <= end <= s@.len(),
        ensures
            match footer_at(s@, pos as int, end as int) {
                None => r is Err && r->Err_0.kind == ErrorKind::Parse,
                Some(f) => r is Ok && r->Ok_0@ == f,
            },
    {
        let (metadata_length, p1) = match decode_uint_field(s, pos, end, 1) {
            Some(x) => x,
            None => return Err(Error::new(ErrorKind::Parse)),
        };
        let (signature, p2) = match decode_bytes_field(s, p1, end, 2) {
            Some(x) => x,
            None => return Err(Error::new(ErrorKind::Parse)),
        };
        if p2 != end {
            return Err(Error::new(ErrorKind::Parse));
        }
        Ok(Footer { metadata_length, signature })
    }

    /// Decode a footer.
    pub fn decode(bytes: &[u8]) -> (r: Result<Footer, Error>)
        ensures
            match footer_at(bytes@, 0, bytes@.len() as int) {
                None => r is Err && r->Err_0.kind == ErrorKind::Parse,
                Some(f) => r is Ok && r->Ok_0@ == f,
            },
    {
        Footer::decode_range(bytes, 0, bytes.len())
    }
}

} // verus!
