//! The archive index and metadata, encoded at the end of the encrypted body.
use vstd::prelude::*;
use crate::entry::{Entry, entry_enc, repeated, timestamp_field, utf8};
use crate::protos::Tai64n;
use crate::wire::{bytes_field, encode_bytes_field, encode_len_field, len_field};

verus! {

/// Entries of an archive, in the order their payloads appear in the stream.
#[derive(Clone, Debug, PartialEq, Eq)]
pub struct Index {
    /// The entries.
    pub entries: Vec<Entry>,
}

/// Archive metadata.
#[derive(Clone, Debug, PartialEq, Eq)]
pub struct Metadata {
    /// Index of the archive's entries.
    pub index: Option<Index>,
    /// When the archive was created.
    pub created_at: Option<Tai64n>,
    /// Name of the user who created the archive; may be empty.
    pub username: String,
    /// Host the archive was created on; may be empty.
    pub host: String,
}

/// Encoding of an index holding `entries`.
pub open spec fn index_enc(entries: Seq<Entry>) -> Seq<u8> {
    repeated(1, entries.map_values(|e: Entry| entry_enc(e)))
}

/// Encoding of metadata.
pub open spec fn metadata_enc(m: Metadata) -> Seq<u8> {
    let index = match m.index {
        Some(i) => len_field(1, index_enc(i.entries@)),
        None => seq![],
    };
    index + timestamp_field(2, m.created_at) + bytes_field(3, utf8(m.username)) + bytes_field(4, utf8(m.host))
}

impl Index {
    /// Build an index from entries, keeping their order.
    pub fn new(entries: Vec<Entry>) -> (r: Index)
        ensures
            r.entries@ == entries@,
    {
        Index { entries }
    }

    /// Encode this index.
    pub fn to_vec(&self) -> (r: Vec<u8>)
        ensures
            r@ == index_enc(self.entries@),
    {
        let mut out: Vec<u8> = Vec::new();
        let mut i: usize = 0;
        while i < self.entries.len()
            invariant
                i <= self.entries@.len(),
                out@ == index_enc(self.entries@.subrange(0, i as int)),
            decreases self.entries@.len() - i,
        {
            let e = self.entries[i].to_vec();
            encode_len_field(1, e.as_slice(), &mut out);
            proof {
                let m = self.entries@.subrange(0, i + 1).map_values(|e: Entry| entry_enc(e));
                assert(m.drop_last() =~= self.entries@.subrange(0, i as int).map_values(|e: Entry| entry_enc(e)));
            }
            i = i + 1;
        }
        assert(self.entries@.subrange(0, i as int) =~= self.entries@);
        out
    }
}

impl Metadata {
    /// Encode this metadata.
    pub fn to_vec(&self) -> (r: Vec<u8>)
        ensures
            r@ == metadata_enc(*self),
    {
        let mut out: Vec<u8> = Vec::new();
        match &self.index {
            Some(i) => {
                let b = i.to_vec();
                encode_len_field(1, b.as_slice(), &mut out);
            },
            None => {},
        }
        match &self.created_at {
            Some(t) => {
                let b = t.to_vec();
                encode_len_field(2, b.as_slice(), &mut out);
            },
            None => {},
        }
        encode_bytes_field(3, self.username.as_str().as_bytes(), &mut out);
        encode_bytes_field(4, self.host.as_str().as_bytes(), &mut out);
        assert(out@ =~= metadata_enc(*self));
        out
    }
}

} // verus!
