//! Archive builder: magic and header, entry payloads and metadata through the
//! STREAM writer, then the plaintext footer and its length.
//!
//! Every chunk is authenticated with the magic as associated data. The
//! builder hands out the archive's bytes in order, through `take_output` and
//! at `finish`; where they go is up to the caller.
use vstd::prelude::*;
use vstd::utf8::encode_utf8;
use crate::crypto::encryptor::Encryptor;
use crate::crypto::kdf;
use crate::crypto::kdf::hkdf_sha256_of;
use crate::crypto::symmetric::key_bytes;
use crate::crypto::writer::{
    ChunkSize, Writer, accepts, full_chunk_sizes, last_chunk, non_last_count, stream_of,
};
use crate::crypto::symmetric::TAG_SIZE;
use crate::entry::Entry;
use crate::error::{Error, ErrorKind};
use crate::metadata::{Index, Metadata, index_enc};
use crate::protos::{
    Footer, Header, Tai64n, footer_at, footer_enc, header_at, header_enc, lemma_footer_at,
    lemma_header_at, tai64n_enc,
};
use crate::uuid::{new_v4, uuid_v4_text, v4_hyphenated};
use crate::wire::{append_bytes, len_field, lemma_varint_len, lemma_varint_len_u64, pow128};

verus! {

/// Largest header or footer: its length is written in two bytes.
pub const MAX_SECTION_LEN: usize = 65535;

/// The format's magic and version, `sear:0`, at the start of every archive.
pub open spec fn magic() -> Seq<u8> {
    seq![115u8, 101u8, 97u8, 114u8, 58u8, 48u8]
}

/// The magic bytes.
pub fn magic_bytes() -> (r: Vec<u8>)
    ensures
        r@ == magic(),
{
    let r = vec![115u8, 101u8, 97u8, 114u8, 58u8, 48u8];
    assert(r@ =~= magic());
    r
}

/// Associated data of every chunk: the magic.
pub fn compute_aad() -> (r: Vec<u8>)
    ensures
        r@ == magic(),
{
    magic_bytes()
}

/// Little-endian bytes of a 16-bit length.
pub open spec fn le16(n: nat) -> Seq<u8> {
    seq![(n % 256) as u8, (n / 256 % 256) as u8]
}

/// Append `n` as two little-endian bytes.
fn push_le16(out: &mut Vec<u8>, n: usize)
    requires
        n <= MAX_SECTION_LEN,
    ensures
        final(out)@ == old(out)@ + le16(n as nat),
{
    out.push((n % 256) as u8);
    out.push((n / 256 % 256) as u8);
    assert(out@ =~= old(out)@ + le16(n as nat));
}

/// An identifier with a newline before and after, for reading archives by eye.
pub open spec fn padded(identifier: Seq<char>) -> Seq<u8> {
    seq![10u8] + encode_utf8(identifier) + seq![10u8]
}

/// Add a leading and a trailing newline to an identifier.
pub fn pad_with_newlines(identifier: &str) -> (r: Vec<u8>)
    ensures
        r@ == padded(identifier@),
{
    let mut r: Vec<u8> = Vec::new();
    r.push(10u8);
    append_bytes(&mut r, identifier.as_bytes());
    r.push(10u8);
    assert(r@ =~= padded(identifier@));
    r
}

/// The header of an archive with this UUID and chunk size; no fingerprints.
pub open spec fn header_of(uuid: Seq<char>, chunk_size: ChunkSize) -> (Seq<u8>, u64, Seq<u8>, Seq<u8>) {
    (padded(uuid), chunk_size.spec_size() as u64, seq![], seq![])
}

/// Magic, header length and header.
pub open spec fn preamble_of(header: Seq<u8>) -> Seq<u8> {
    magic() + le16(header.len()) + header
}

/// The encoded metadata that ends the encrypted body: the index of
/// `entries`, the creation time, and neither user nor host.
pub open spec fn metadata_bytes(entries: Seq<Entry>, created_at: Seq<u8>) -> Seq<u8> {
    len_field(1, index_enc(entries)) + len_field(2, tai64n_enc(created_at))
}

/// The metadata's length depends on the creation time only through its length.
pub proof fn lemma_metadata_bytes_len(entries: Seq<Entry>, c1: Seq<u8>, c2: Seq<u8>)
    requires
        c1.len() == c2.len(),
    ensures
        metadata_bytes(entries, c1).len() == metadata_bytes(entries, c2).len(),
{
}

/// Footer recording the metadata length, then the footer's own length.
pub open spec fn footer_section(metadata_len: nat) -> Seq<u8> {
    let f = footer_enc((metadata_len as u64, seq![]));
    f + le16(f.len())
}

/// Every chunk of the body but the last is `cs + 16` bytes long, and the last
/// is 17 to `cs + 16`.
pub open spec fn chunk_sizes(enc: Encryptor, plaintext: Seq<u8>, cs: nat) -> bool {
    let n = non_last_count(plaintext.len(), cs);
    &&& full_chunk_sizes(enc, magic(), plaintext, cs, n)
    &&& last_chunk(enc, magic(), plaintext, cs).len() == plaintext.len() - n * cs + TAG_SIZE
    &&& 1 + TAG_SIZE <= last_chunk(enc, magic(), plaintext, cs).len() <= cs + TAG_SIZE
}

/// Total of the entries' lengths.
pub open spec fn total_length(entries: Seq<Entry>) -> nat
    decreases entries.len(),
{
    if entries.len() == 0 {
        0
    } else {
        total_length(entries.drop_last()) + entries.last().length as nat
    }
}

/// The length an entry is recorded with when `counted` bytes were streamed
/// for it: the counted length where it gave none.
pub open spec fn filled_length(given: u64, counted: u64) -> u64 {
    if given == 0 {
        counted
    } else {
        given
    }
}

/// Filling in an entry's length a second time changes nothing.
pub proof fn lemma_fill_length_idempotent(given: u64, counted: u64)
    ensures
        filled_length(filled_length(given, counted), counted) == filled_length(given, counted),
{
}

/// Encode the metadata closing an archive with these entries.
fn encode_metadata(entries: Vec<Entry>, created_at: Tai64n) -> (r: Vec<u8>)
    ensures
        r@ == metadata_bytes(entries@, created_at@),
{
    let ghost e = entries@;
    let metadata = Metadata {
        index: Some(Index::new(entries)),
        created_at: Some(created_at),
        username: String::new(),
        host: String::new(),
    };
    assert(metadata.username@ =~= Seq::<char>::empty());
    assert(metadata.host@ =~= Seq::<char>::empty());
    assert(encode_utf8(Seq::<char>::empty()) =~= Seq::<u8>::empty());
    let r = metadata.to_vec();
    assert(r@ =~= metadata_bytes(e, created_at@));
    r
}

/// A footer with an empty signature takes at most 11 bytes, well within
/// what its two length bytes can give.
pub proof fn lemma_footer_fits(metadata_len: nat)
    requires
        metadata_len <= u64::MAX,
    ensures
        footer_enc((metadata_len as u64, seq![])).len() <= 11,
{
    lemma_varint_len_u64(metadata_len);
}

/// The UTF-8 encoding of text takes at most four bytes per character.
proof fn lemma_utf8_len(c: Seq<char>)
    ensures
        encode_utf8(c).len() <= 4 * c.len(),
    decreases c.len(),
{
    if c.len() > 0 {
        lemma_utf8_len(c.drop_first());
    }
}

/// The header of an archive whose UUID text has 36 characters fits in the
/// 65535 bytes its two length bytes can give.
pub proof fn lemma_header_fits(uuid: Seq<char>, chunk_size: ChunkSize)
    requires
        uuid.len() == 36,
    ensures
        header_enc(header_of(uuid, chunk_size)).len() <= MAX_SECTION_LEN,
{
    lemma_utf8_len(uuid);
    let p = padded(uuid);
    assert(p.len() <= 146);
    reveal_with_fuel(pow128, 4);
    lemma_varint_len(p.len(), 2);
    lemma_varint_len(chunk_size.spec_size(), 3);
}

/// The footer recording `metadata_len`, then its length.
fn encode_footer_section(metadata_len: usize) -> (r: Vec<u8>)
    ensures
        r@ == footer_section(metadata_len as nat),
{
    let footer = Footer { metadata_length: metadata_len as u64, signature: Vec::new() };
    assert(footer@ =~= (metadata_len as u64, Seq::<u8>::empty()));
    let mut out = footer.to_vec();
    proof {
        lemma_footer_fits(metadata_len as nat);
    }
    let n = out.len();
    push_le16(&mut out, n);
    out
}

/// Two little-endian bytes give back the length they were written from.
pub proof fn lemma_le16(n: nat)
    requires
        n <= MAX_SECTION_LEN,
    ensures
        le16(n)[0] as nat + 256 * (le16(n)[1] as nat) == n,
{
    vstd::arithmetic::div_mod::lemma_fundamental_div_mod(n as int, 256);
    vstd::arithmetic::div_mod::lemma_small_mod((n / 256) as nat, 256);
}

/// Every archive starts with the magic, then two little-endian bytes giving
/// the header's length, then a header that decodes to the one written.
pub proof fn lemma_archive_preamble(h: (Seq<u8>, u64, Seq<u8>, Seq<u8>), rest: Seq<u8>)
    requires
        header_enc(h).len() <= MAX_SECTION_LEN,
    ensures
        ({
            let s = preamble_of(header_enc(h)) + rest;
            let hl = header_enc(h).len() as int;
            &&& s.subrange(0, 6) == magic()
            &&& s[6] as nat + 256 * (s[7] as nat) == hl
            &&& header_at(s, 8, 8 + hl) == Some(h)
        }),
{
    let hb = header_enc(h);
    let s = preamble_of(hb) + rest;
    let hl = hb.len() as int;
    assert(s.subrange(0, 6) =~= magic());
    lemma_le16(hb.len());
    assert(s[6] == le16(hb.len())[0] && s[7] == le16(hb.len())[1]);
    assert(s.subrange(8, 8 + hl) =~= hb);
    assert(s.subrange(8 + hl, 8 + hl) =~= Seq::<u8>::empty());
    lemma_header_at(s, 8, 8 + hl, h);
}

/// The last two bytes of an archive give the footer's length `F`, and the `F`
/// bytes before them decode to the footer: the metadata length, and an empty
/// signature.
pub proof fn lemma_footer_trailer(prefix: Seq<u8>, metadata_len: nat)
    requires
        metadata_len <= u64::MAX,
        footer_enc((metadata_len as u64, seq![])).len() <= MAX_SECTION_LEN,
    ensures
        ({
            let s = prefix + footer_section(metadata_len);
            let n = s.len() as int;
            let f = s[n - 2] as nat + 256 * (s[n - 1] as nat);
            &&& f == footer_enc((metadata_len as u64, seq![])).len()
            &&& footer_at(s, n - 2 - f, n - 2) == Some((metadata_len as u64, Seq::<u8>::empty()))
        }),
{
    let fb = footer_enc((metadata_len as u64, seq![]));
    let s = prefix + footer_section(metadata_len);
    let n = s.len() as int;
    let fl = fb.len() as int;
    lemma_le16(fb.len());
    assert(s[n - 2] == le16(fb.len())[0] && s[n - 1] == le16(fb.len())[1]);
    assert(s.subrange(n - 2 - fl, n - 2) =~= fb);
    assert(s.subrange(n - 2, n - 2) =~= Seq::<u8>::empty());
    lemma_footer_at(s, n - 2 - fl, n - 2, (metadata_len as u64, seq![]));
}

/// Archives started under different UUIDs differ in their first bytes,
/// whatever follows: the UUID is written in the header.
pub proof fn lemma_distinct_uuids_distinct_archives(
    u1: Seq<char>,
    u2: Seq<char>,
    chunk_size: ChunkSize,
    rest1: Seq<u8>,
    rest2: Seq<u8>,
)
    requires
        u1 != u2,
        header_enc(header_of(u1, chunk_size)).len() <= MAX_SECTION_LEN,
        header_enc(header_of(u2, chunk_size)).len() <= MAX_SECTION_LEN,
    ensures
        preamble_of(header_enc(header_of(u1, chunk_size))) + rest1
            != preamble_of(header_enc(header_of(u2, chunk_size))) + rest2,
{
    let h1 = header_of(u1, chunk_size);
    let h2 = header_of(u2, chunk_size);
    let s1 = preamble_of(header_enc(h1)) + rest1;
    let s2 = preamble_of(header_enc(h2)) + rest2;
    lemma_archive_preamble(h1, rest1);
    lemma_archive_preamble(h2, rest2);
    if s1 == s2 {
        assert(h1 == h2);
        let p1 = padded(u1);
        assert(encode_utf8(u1) =~= p1.subrange(1, p1.len() - 1));
        assert(encode_utf8(u2) =~= padded(u2).subrange(1, padded(u2).len() - 1));
        vstd::utf8::encode_utf8_decode_utf8(u1);
        vstd::utf8::encode_utf8_decode_utf8(u2);
    }
}

/// The header length an archive's bytes 6 and 7 give.
pub open spec fn header_len_of(s: Seq<u8>) -> int {
    s[6] as int + 256 * s[7] as int
}

/// The footer length an archive's last two bytes give.
pub open spec fn footer_len_of(s: Seq<u8>) -> int {
    s[s.len() - 2] as int + 256 * s[s.len() - 1] as int
}

/// Read an archive's header: check the magic, then decode the header whose
/// length bytes 6 and 7 give. Anything else is a `Parse` error.
pub fn read_header(archive: &[u8]) -> (r: Result<Header, Error>)
    ensures
        r is Ok <==> (archive@.len() >= 8 && archive@.subrange(0, 6) == magic()
            && 8 + header_len_of(archive@) <= archive@.len()
            && header_at(archive@, 8, 8 + header_len_of(archive@)) is Some),
        r is Ok ==> r->Ok_0@ == header_at(archive@, 8, 8 + header_len_of(archive@))->Some_0,
        r is Err ==> r->Err_0.kind == ErrorKind::Parse,
{
    if archive.len() < 8 {
        return Err(Error::new(ErrorKind::Parse));
    }
    let m = magic_bytes();
    let mut i: usize = 0;
    while i < 6
        invariant
            archive@.len() >= 8,
            m@ == magic(),
            i <= 6,
            forall|j: int| 0 <= j < i ==> archive@[j] == magic()[j],
        decreases 6 - i,
    {
        if archive[i] != m[i] {
            assert(archive@.subrange(0, 6)[i as int] != magic()[i as int]);
            return Err(Error::new(ErrorKind::Parse));
        }
        i = i + 1;
    }
    assert(archive@.subrange(0, 6) =~= magic());
    let hl = archive[6] as usize + 256 * archive[7] as usize;
    if hl > archive.len() - 8 {
        return Err(Error::new(ErrorKind::Parse));
    }
    Header::decode_range(archive, 8, 8 + hl)
}

/// Read an archive's footer: its last two bytes give the footer's length, and
/// that many bytes before them decode to it. Anything else is a `Parse` error.
pub fn read_footer(archive: &[u8]) -> (r: Result<Footer, Error>)
    ensures
        r is Ok <==> (archive@.len() >= 2 && footer_len_of(archive@) <= archive@.len() - 2
            && footer_at(archive@, archive@.len() - 2 - footer_len_of(archive@), archive@.len() - 2) is Some),
        r is Ok ==> r->Ok_0@ == footer_at(
            archive@,
            archive@.len() - 2 - footer_len_of(archive@),
            archive@.len() - 2,
        )->Some_0,
        r is Err ==> r->Err_0.kind == ErrorKind::Parse,
{
    let n = archive.len();
    if n < 2 {
        return Err(Error::new(ErrorKind::Parse));
    }
    let fl = archive[n - 2] as usize + 256 * archive[n - 1] as usize;
    if fl > n - 2 {
        return Err(Error::new(ErrorKind::Parse));
    }
    Footer::decode_range(archive, n - 2 - fl, n - 2)
}

/// Archive builder.
pub struct Builder {
    entries: Vec<Entry>,
    writer: Writer,
    out: Vec<u8>,
    open_length: u64,
    preamble: Ghost<Seq<u8>>,
    taken: Ghost<Seq<u8>>,
}

impl Builder {
    /// Entries added so far, in order.
    pub closed spec fn entries(&self) -> Seq<Entry> {
        self.entries@
    }

    /// Plaintext of the encrypted body so far: every payload, in order.
    pub closed spec fn plaintext(&self) -> Seq<u8> {
        self.writer.plaintext()
    }

    /// Bytes streamed for the entry being added.
    pub closed spec fn open_length(&self) -> nat {
        self.open_length as nat
    }

    /// Magic, header length and header.
    pub closed spec fn preamble(&self) -> Seq<u8> {
        self.preamble@
    }

    /// Bytes already handed out.
    pub closed spec fn taken(&self) -> Seq<u8> {
        self.taken@
    }

    /// The STREAM encryptor of the body.
    pub closed spec fn encryptor(&self) -> Encryptor {
        self.writer.encryptor()
    }

    /// Chunk size of the body.
    pub closed spec fn chunk_size(&self) -> ChunkSize {
        self.writer.chunk_size()
    }

    /// The writer seals with the magic as associated data, every byte produced
    /// is the preamble then the writer's ciphertext, and the body's plaintext is
    /// the closed entries' payloads followed by the open entry's bytes.
    pub closed spec fn wf(&self) -> bool {
        &&& self.writer.wf()
        &&& self.writer.aad() == magic()
        &&& self.taken@ + self.out@ == self.preamble@ + self.writer.taken()
        &&& self.writer.plaintext().len() == total_length(self.entries@) + self.open_length
    }

    /// Start an archive with the given UUID text: write the magic and the
    /// header, and derive the body's key from `key` with the UUID as salt.
    /// Fails with `Overflow` when the header does not fit in 65535 bytes.
    pub fn new_with_uuid(key: &kdf::Key, uuid: &str, chunk_size: ChunkSize) -> (r: Result<Builder, Error>)
        ensures
            r is Ok <==> header_enc(header_of(uuid@, chunk_size)).len() <= MAX_SECTION_LEN,
            r is Err ==> r->Err_0.kind == ErrorKind::Overflow,
            r is Ok ==> {
                let b = r->Ok_0;
                &&& b.wf()
                &&& b.preamble() == preamble_of(header_enc(header_of(uuid@, chunk_size)))
                &&& b.taken() == Seq::<u8>::empty()
                &&& b.entries() == Seq::<Entry>::empty()
                &&& b.plaintext() == Seq::<u8>::empty()
                &&& b.open_length() == 0
                &&& b.chunk_size() == chunk_size
                &&& b.encryptor().prefix() == seq![0u8, 0, 0, 0, 0, 0, 0, 0]
                &&& (b.encryptor().key() is Aes256Gcm <==> key.derived_alg() == kdf::DerivedAlgorithm::Aes256Gcm)
                &&& key_bytes(b.encryptor().key()) == hkdf_sha256_of(key.ikm(), encode_utf8(uuid@), magic())
            },
    {
        let header = Header {
            uuid: pad_with_newlines(uuid),
            chunk_size: chunk_size.size() as u64,
            encryption_key_fingerprint: Vec::new(),
            signing_key_fingerprint: Vec::new(),
        };
        assert(header@ == header_of(uuid@, chunk_size));
        let header_bytes = header.to_vec();
        if header_bytes.len() > MAX_SECTION_LEN {
            return Err(Error::new(ErrorKind::Overflow));
        }
        let mut out = magic_bytes();
        push_le16(&mut out, header_bytes.len());
        append_bytes(&mut out, header_bytes.as_slice());
        let info = magic_bytes();
        let subkey = key.derive_symmetric_key(uuid.as_bytes(), info.as_slice());
        let writer = Writer::new(subkey, compute_aad(), chunk_size);
        let b = Builder {
            entries: Vec::new(),
            writer,
            out,
            open_length: 0,
            preamble: Ghost(out@),
            taken: Ghost(Seq::empty()),
        };
        assert(b.taken@ + b.out@ =~= b.preamble@ + b.writer.taken());
        Ok(b)
    }

    /// Start an archive with a fresh random version 4 UUID, whose text is the
    /// salt of the body's key. Fails with `Crypto` only when no randomness is
    /// available.
    pub fn new(key: &kdf::Key, chunk_size: ChunkSize) -> (r: Result<Builder, Error>)
        ensures
            r is Err ==> r->Err_0.kind == ErrorKind::Crypto,
            r is Ok ==> {
                let b = r->Ok_0;
                &&& b.wf()
                &&& exists|random: Seq<u8>| {
                    let u = #[trigger] uuid_v4_text(random);
                    &&& random.len() == 16
                    &&& v4_hyphenated(u)
                    &&& header_enc(header_of(u, chunk_size)).len() <= MAX_SECTION_LEN
                    &&& b.preamble() == preamble_of(header_enc(header_of(u, chunk_size)))
                    &&& key_bytes(b.encryptor().key()) == hkdf_sha256_of(key.ikm(), encode_utf8(u), magic())
                }
                &&& (b.encryptor().key() is Aes256Gcm <==> key.derived_alg() == kdf::DerivedAlgorithm::Aes256Gcm)
                &&& b.encryptor().prefix() == seq![0u8, 0, 0, 0, 0, 0, 0, 0]
                &&& b.taken() == Seq::<u8>::empty()
                &&& b.entries() == Seq::<Entry>::empty()
                &&& b.plaintext() == Seq::<u8>::empty()
                &&& b.open_length() == 0
                &&& b.chunk_size() == chunk_size
            },
    {
        let uuid = new_v4()?;
        let ghost random = choose|random: Seq<u8>| random.len() == 16 && uuid@ == #[trigger] uuid_v4_text(random);
        proof {
            lemma_header_fits(uuid@, chunk_size);
        }
        let r = Builder::new_with_uuid(key, uuid.as_str(), chunk_size);
        assert(r is Ok);
        r
    }

    /// Stream bytes of the entry being added. Fails with `Overflow`, taking
    /// nothing, when the entry's length would not fit in 64 bits, and with
    /// `Crypto` when the body would need a chunk counter of 2^32.
    pub fn write_entry_data(&mut self, data: &[u8]) -> (r: Result<(), Error>)
        requires
            old(self).wf(),
        ensures
            final(self).wf(),
            r is Ok <==> old(self).open_length() + data@.len() <= u64::MAX
                && accepts(old(self).plaintext().len() + data@.len(), old(self).chunk_size().spec_size()),
            r is Ok ==> final(self).plaintext() == old(self).plaintext() + data@
                && final(self).open_length() == old(self).open_length() + data@.len()
                && final(self).entries() == old(self).entries()
                && final(self).taken() == old(self).taken()
                && final(self).preamble() == old(self).preamble()
                && final(self).encryptor() == old(self).encryptor()
                && final(self).chunk_size() == old(self).chunk_size(),
            r is Err ==> *final(self) == *old(self),
            r is Err && old(self).open_length() + data@.len() > u64::MAX ==> r->Err_0.kind == ErrorKind::Overflow,
            r is Err && old(self).open_length() + data@.len() <= u64::MAX ==> r->Err_0.kind == ErrorKind::Crypto,
    {
        if data.len() as u64 > u64::MAX - self.open_length {
            return Err(Error::new(ErrorKind::Overflow));
        }
        match self.writer.write_all(data) {
            Ok(_) => {},
            Err(e) => return Err(e),
        }
        self.open_length = self.open_length + data.len() as u64;
        Ok(())
    }

    /// Add an entry for the bytes streamed since the last one. An entry of
    /// length 0 takes the streamed length; any other length must equal it, or
    /// the entry is refused with `Argument`.
    pub fn close_entry(&mut self, entry: Entry) -> (r: Result<(), Error>)
        requires
            old(self).wf(),
        ensures
            final(self).wf(),
            r is Ok <==> (entry.length == 0 || entry.length == old(self).open_length()),
            r is Ok ==> final(self).entries() == old(self).entries().push(
                    Entry { length: filled_length(entry.length, old(self).open_length() as u64), ..entry },
                )
                && final(self).open_length() == 0
                && final(self).plaintext() == old(self).plaintext()
                && final(self).taken() == old(self).taken()
                && final(self).preamble() == old(self).preamble()
                && final(self).encryptor() == old(self).encryptor()
                && final(self).chunk_size() == old(self).chunk_size(),
            r is Err ==> r->Err_0.kind == ErrorKind::Argument && *final(self) == *old(self),
    {
        let mut entry = entry;
        if entry.length != self.open_length {
            if entry.length == 0 {
                entry.length = self.open_length;
            } else {
                return Err(Error::new(ErrorKind::Argument));
            }
        }
        let ghost before = self.entries@;
        self.entries.push(entry);
        assert(self.entries@.drop_last() =~= before);
        self.open_length = 0;
        Ok(())
    }

    /// Append an entry with the rest of its payload: `write_entry_data`, then
    /// `close_entry`.
    pub fn append(&mut self, entry: Entry, data: &[u8]) -> (r: Result<(), Error>)
        requires
            old(self).wf(),
        ensures
            final(self).wf(),
            ({
                let counted = old(self).open_length() + data@.len();
                &&& r is Ok <==> counted <= u64::MAX
                    && accepts(old(self).plaintext().len() + data@.len(), old(self).chunk_size().spec_size())
                    && (entry.length == 0 || entry.length == counted)
                &&& r is Ok ==> final(self).entries() == old(self).entries().push(
                        Entry { length: filled_length(entry.length, counted as u64), ..entry },
                    )
                    && final(self).plaintext() == old(self).plaintext() + data@
                    && final(self).open_length() == 0
                    && final(self).taken() == old(self).taken()
                    && final(self).preamble() == old(self).preamble()
                    && final(self).encryptor() == old(self).encryptor()
                    && final(self).chunk_size() == old(self).chunk_size()
                &&& r is Err ==> final(self).entries() == old(self).entries()
                &&& r is Err && counted > u64::MAX ==> r->Err_0.kind == ErrorKind::Overflow
                &&& r is Err && counted <= u64::MAX
                    && !accepts(old(self).plaintext().len() + data@.len(), old(self).chunk_size().spec_size())
                    ==> r->Err_0.kind == ErrorKind::Crypto
                &&& r is Err && counted <= u64::MAX
                    && accepts(old(self).plaintext().len() + data@.len(), old(self).chunk_size().spec_size())
                    ==> r->Err_0.kind == ErrorKind::Argument
                        && final(self).plaintext() == old(self).plaintext() + data@
                        && final(self).open_length() == counted
            }),
    {
        self.write_entry_data(data)?;
        self.close_entry(entry)
    }

    /// Hand out the archive bytes produced so far.
    pub fn take_output(&mut self) -> (r: Vec<u8>)
        requires
            old(self).wf(),
        ensures
            final(self).wf(),
            final(self).taken() == old(self).taken() + r@,
            final(self).entries() == old(self).entries(),
            final(self).plaintext() == old(self).plaintext(),
            final(self).open_length() == old(self).open_length(),
            final(self).preamble() == old(self).preamble(),
            final(self).encryptor() == old(self).encryptor(),
            final(self).chunk_size() == old(self).chunk_size(),
    {
        let ghost t0 = self.taken@;
        let ghost o0 = self.out@;
        let ghost wt0 = self.writer.taken();
        let mut w = self.writer.take_output();
        let ghost wv = w@;
        self.out.append(&mut w);
        let r = self.out.split_off(0);
        self.taken = Ghost(self.taken@ + r@);
        assert(r@ == o0 + wv);
        assert(self.writer.taken() == wt0 + wv);
        assert(self.taken@ + self.out@ =~= (t0 + o0) + wv);
        assert(self.taken@ + self.out@ =~= self.preamble@ + self.writer.taken());
        r
    }

    /// Finish the archive with the given creation time: the index and
    /// metadata close the encrypted body, then come the footer and its
    /// length. Returns the bytes not yet handed out.
    ///
    /// Fails with `Argument` while bytes were streamed for an entry that was
    /// not closed, with `Crypto` when the metadata would need a chunk counter
    /// of 2^32, and with `Overflow` when the footer does not fit in 65535
    /// bytes.
    #[verifier::rlimit(30)]
    pub fn finish_at(self, created_at: Tai64n) -> (r: Result<Vec<u8>, Error>)
        requires
            self.wf(),
        ensures
            ({
                let m = metadata_bytes(self.entries(), created_at@);
                let cs = self.chunk_size().spec_size();
                &&& r is Ok <==> (self.open_length() == 0 && accepts(self.plaintext().len() + m.len(), cs))
                &&& r is Ok ==> self.taken() + r->Ok_0@ == self.preamble()
                    + stream_of(self.encryptor(), magic(), self.plaintext() + m, cs)
                    + footer_section(m.len())
                &&& r is Ok ==> self.plaintext().len() == total_length(self.entries())
                &&& r is Ok ==> chunk_sizes(self.encryptor(), self.plaintext() + m, cs)
                &&& r is Err && self.open_length() != 0 ==> r->Err_0.kind == ErrorKind::Argument
                &&& r is Err && self.open_length() == 0 && !accepts(self.plaintext().len() + m.len(), cs)
                    ==> r->Err_0.kind == ErrorKind::Crypto
            }),
    {
        let mut this = self;
        if this.open_length != 0 {
            return Err(Error::new(ErrorKind::Argument));
        }
        let ghost plaintext0 = this.writer.plaintext();
        let ghost wtaken = this.writer.taken();
        let metadata_vec = encode_metadata(this.entries, created_at);
        match this.writer.write_all(metadata_vec.as_slice()) {
            Ok(_) => {},
            Err(e) => return Err(e),
        }
        let mut body = match this.writer.finish() {
            Ok(b) => b,
            Err(e) => return Err(e),
        };
        let mut footer = encode_footer_section(metadata_vec.len());
        let mut out = this.out;
        let ghost o0 = out@;
        let ghost bv = body@;
        out.append(&mut body);
        out.append(&mut footer);
        proof {
            assert(wtaken + bv == stream_of(this.writer.encryptor(), magic(), plaintext0 + metadata_vec@, this.writer.chunk_size().spec_size()));
            assert(this.taken@ + o0 == this.preamble@ + wtaken);
            assert(this.taken@ + out@ =~= (this.taken@ + o0) + bv + footer_section(metadata_vec@.len()));
        }
        Ok(out)
    }

    /// Finish the archive, stamped with the current time; see `finish_at`.
    pub fn finish(self) -> (r: Result<Vec<u8>, Error>)
        requires
            self.wf(),
        ensures
            r is Ok ==> self.open_length() == 0,
            r is Ok ==> self.plaintext().len() == total_length(self.entries()),
            r is Ok ==> exists|created_at: Seq<u8>| created_at.len() == 12
                && self.taken() + r->Ok_0@ == self.preamble()
                    + stream_of(self.encryptor(), magic(), self.plaintext() + #[trigger] metadata_bytes(self.entries(), created_at), self.chunk_size().spec_size())
                    + footer_section(metadata_bytes(self.entries(), created_at).len())
                && chunk_sizes(self.encryptor(), self.plaintext() + metadata_bytes(self.entries(), created_at), self.chunk_size().spec_size()),
            forall|c: Seq<u8>| c.len() == 12 ==> (r is Ok <==> (self.open_length() == 0
                && accepts(#[trigger] (self.plaintext() + metadata_bytes(self.entries(), c)).len(), self.chunk_size().spec_size()))),
            r is Err && self.open_length() != 0 ==> r->Err_0.kind == ErrorKind::Argument,
            r is Err && self.open_length() == 0 ==> r->Err_0.kind == ErrorKind::Crypto,
    {
        let now = Tai64n::now();
        let ghost t = now@;
        let ghost entries = self.entries();
        let ghost pt = self.plaintext();
        let r = self.finish_at(now);
        proof {
            assert forall|c: Seq<u8>| c.len() == 12 implies #[trigger] (pt + metadata_bytes(entries, c)).len()
                == (pt + metadata_bytes(entries, t)).len() by {
                lemma_metadata_bytes_len(entries, c, t);
            }
        }
        r
    }
}

} // verus!
