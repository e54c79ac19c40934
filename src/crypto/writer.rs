//! Chunked STREAM writer: buffers plaintext into fixed-size chunks and seals
//! each one as it is followed by more data.
//!
//! A full buffer is sealed only when another byte arrives, never eagerly, so
//! the chunk that `finish` seals with the last-block flag is never empty. The
//! ciphertext is collected in memory; callers move it to their sink with
//! `take_output` and `finish`.
use vstd::prelude::*;
use vstd::arithmetic::div_mod::{lemma_div_is_ordered, lemma_div_multiples_vanish, lemma_fundamental_div_mod_converse};
use crate::crypto::encryptor::Encryptor;
use crate::crypto::symmetric::{Key, SEAL_LIMIT, TAG_SIZE};
use crate::error::{Error, ErrorKind};

verus! {

/// Valid chunk sizes.
#[derive(Clone, Copy, Debug, PartialEq, Eq, Structural)]
pub enum ChunkSize {
    /// 1 kibibyte (1024 bytes).
    Kib1,
    /// 128 kibibytes (131,072 bytes).
    Kib128,
}

impl ChunkSize {
    /// Number of plaintext bytes in a full chunk.
    pub open spec fn spec_size(&self) -> nat {
        match self {
            ChunkSize::Kib1 => 1024,
            ChunkSize::Kib128 => 131072,
        }
    }

    /// Number of plaintext bytes in a full chunk.
    pub fn size(&self) -> (r: usize)
        ensures
            r == self.spec_size(),
    {
        match self {
            ChunkSize::Kib1 => 1024,
            ChunkSize::Kib128 => 131072,
        }
    }
}

impl Default for ChunkSize {
    fn default() -> (r: ChunkSize)
        ensures
            r == ChunkSize::Kib128,
    {
        ChunkSize::Kib128
    }
}

/// The first `n` full chunks of `plaintext`, sealed as non-last chunks.
pub open spec fn full_chunks(enc: Encryptor, aad: Seq<u8>, plaintext: Seq<u8>, cs: nat, n: nat) -> Seq<u8>
    decreases n,
{
    if n == 0 {
        seq![]
    } else {
        let i = (n - 1) as nat;
        full_chunks(enc, aad, plaintext, cs, i)
            + enc.chunk_of(i as u32, false, aad, plaintext.subrange((i * cs) as int, (n * cs) as int))
    }
}

/// Number of chunks before the last one, for a nonempty plaintext.
pub open spec fn non_last_count(len: nat, cs: nat) -> nat {
    ((len - 1) / (cs as int)) as nat
}

/// Length of the STREAM ciphertext of `len` plaintext bytes: `cs + 16` bytes
/// per chunk before the last, and the remaining bytes plus 16 for the last.
pub open spec fn stream_len(len: nat, cs: nat) -> nat {
    if len == 0 {
        0
    } else {
        let n = non_last_count(len, cs);
        (n * (cs + TAG_SIZE) + (len - n * cs) + TAG_SIZE) as nat
    }
}

/// The last chunk of a nonempty stream carries between 1 and `cs` plaintext
/// bytes, so its ciphertext is between 17 and `cs + 16` bytes long, and every
/// chunk before it carries exactly `cs`.
pub proof fn lemma_last_chunk_size(len: nat, cs: nat)
    requires
        len > 0,
        cs > 0,
    ensures
        1 <= len - non_last_count(len, cs) * cs <= cs,
{
    let n = non_last_count(len, cs);
    let x = (len - 1) as int;
    let q = x / (cs as int);
    let r = x % (cs as int);
    vstd::arithmetic::div_mod::lemma_fundamental_div_mod(x, cs as int);
    assert(0 <= r < cs);
    assert(n == q);
    assert(len - n * cs == r + 1) by (nonlinear_arith)
        requires x == cs * q + r, n == q, x == len - 1;
}

/// A stream of `total` plaintext bytes needs no chunk counter beyond 2^32 - 1.
pub open spec fn accepts(total: nat, cs: nat) -> bool {
    total == 0 || non_last_count(total, cs) <= u32::MAX
}

/// The STREAM ciphertext of `plaintext`: nothing for an empty plaintext, else
/// every full chunk but the last sealed in order, then the remaining 1 to `cs`
/// bytes sealed with the last-block flag.
pub open spec fn stream_of(enc: Encryptor, aad: Seq<u8>, plaintext: Seq<u8>, cs: nat) -> Seq<u8> {
    if plaintext.len() == 0 {
        seq![]
    } else {
        full_chunks(enc, aad, plaintext, cs, non_last_count(plaintext.len(), cs))
            + last_chunk(enc, aad, plaintext, cs)
    }
}

/// The last chunk of a nonempty plaintext: what follows the full chunks
/// before it, sealed with the last-block flag.
pub open spec fn last_chunk(enc: Encryptor, aad: Seq<u8>, plaintext: Seq<u8>, cs: nat) -> Seq<u8> {
    let n = non_last_count(plaintext.len(), cs);
    enc.chunk_of(n as u32, true, aad, plaintext.subrange((n * cs) as int, plaintext.len() as int))
}

/// Number of chunks sealed once `len` bytes were written: a full buffer is
/// sealed only when another byte follows it.
pub open spec fn sealed_count(len: nat, cs: nat) -> nat {
    if len == 0 {
        0
    } else {
        non_last_count(len, cs)
    }
}

/// Each of the first `n` chunks, sealed as non-last, is `cs + 16` bytes long.
pub open spec fn full_chunk_sizes(enc: Encryptor, aad: Seq<u8>, plaintext: Seq<u8>, cs: nat, n: nat) -> bool {
    forall|i: int| 0 <= i < n ==> (#[trigger] enc.chunk_of(i as u32, false, aad, plaintext.subrange(i * cs, (i + 1) * cs))).len()
        == cs + TAG_SIZE
}

/// Sealed full chunks depend on the plaintext only through the bytes they cover.
pub proof fn lemma_full_chunks_prefix(enc: Encryptor, aad: Seq<u8>, p1: Seq<u8>, p2: Seq<u8>, cs: nat, n: nat)
    requires
        n * cs <= p1.len(),
        n * cs <= p2.len(),
        p1.subrange(0, (n * cs) as int) == p2.subrange(0, (n * cs) as int),
    ensures
        full_chunks(enc, aad, p1, cs, n) == full_chunks(enc, aad, p2, cs, n),
    decreases n,
{
    if n > 0 {
        let i = (n - 1) as nat;
        assert(i * cs <= n * cs) by (nonlinear_arith)
            requires i == n - 1;
        assert(p1.subrange(0, (i * cs) as int) =~= p1.subrange(0, (n * cs) as int).subrange(0, (i * cs) as int));
        assert(p2.subrange(0, (i * cs) as int) =~= p2.subrange(0, (n * cs) as int).subrange(0, (i * cs) as int));
        lemma_full_chunks_prefix(enc, aad, p1, p2, cs, i);
        assert(p1.subrange((i * cs) as int, (n * cs) as int) =~= p1.subrange(0, (n * cs) as int).subrange((i * cs) as int, (n * cs) as int));
        assert(p2.subrange((i * cs) as int, (n * cs) as int) =~= p2.subrange(0, (n * cs) as int).subrange((i * cs) as int, (n * cs) as int));
    }
}

/// With `b` of `1..=cs` bytes after `counter` full chunks, exactly `counter`
/// chunks come before the last one.
proof fn lemma_count(len: nat, counter: nat, b: nat, cs: nat)
    requires
        cs > 0,
        1 <= b <= cs,
        len == counter * cs + b,
    ensures
        non_last_count(len, cs) == counter,
{
    lemma_fundamental_div_mod_converse(len - 1, cs as int, counter as int, b - 1);
}

/// Segmented AEAD STREAM writer.
pub struct Writer {
    aad: Vec<u8>,
    buffer: Vec<u8>,
    chunk_counter: u32,
    chunk_size: ChunkSize,
    encryptor: Encryptor,
    output: Vec<u8>,
    plaintext: Ghost<Seq<u8>>,
    taken: Ghost<Seq<u8>>,
}

impl Writer {
    /// The STREAM encryptor that seals the chunks.
    pub closed spec fn encryptor(&self) -> Encryptor {
        self.encryptor
    }

    /// The associated data of every chunk.
    pub closed spec fn aad(&self) -> Seq<u8> {
        self.aad@
    }

    /// The configured chunk size.
    pub closed spec fn chunk_size(&self) -> ChunkSize {
        self.chunk_size
    }

    /// Every plaintext byte accepted so far.
    pub closed spec fn plaintext(&self) -> Seq<u8> {
        self.plaintext@
    }

    /// Ciphertext already handed out by `take_output`.
    pub closed spec fn taken(&self) -> Seq<u8> {
        self.taken@
    }

    /// Ciphertext produced and not yet handed out.
    pub closed spec fn pending(&self) -> Seq<u8> {
        self.output@
    }

    /// Number of chunks sealed so far.
    pub closed spec fn counter(&self) -> nat {
        self.chunk_counter as nat
    }

    /// Ciphertext produced so far, handed out or not.
    pub open spec fn produced(&self) -> Seq<u8> {
        self.taken() + self.pending()
    }

    /// The ciphertext produced so far is the chunks sealed so far, in order,
    /// each `cs + 16` bytes: every full chunk that another byte followed.
    pub open spec fn sealed_lazily(&self) -> bool {
        let cs = self.chunk_size().spec_size();
        let n = sealed_count(self.plaintext().len(), cs);
        &&& self.produced() == full_chunks(self.encryptor(), self.aad(), self.plaintext(), cs, n)
        &&& full_chunk_sizes(self.encryptor(), self.aad(), self.plaintext(), cs, n)
    }

    /// A well-formed writer has sealed exactly the chunks `sealed_lazily` names.
    proof fn lemma_sealed_lazily(&self)
        requires
            self.wf(),
        ensures
            self.sealed_lazily(),
            self.counter() == sealed_count(self.plaintext().len(), self.chunk_size().spec_size()),
    {
        let cs = self.chunk_size.spec_size();
        let len = self.plaintext@.len();
        if len > 0 {
            lemma_count(len, self.chunk_counter as nat, self.buffer@.len() as nat, cs);
        }
    }

    /// The buffer holds the plaintext after the sealed chunks, and is nonempty
    /// once a chunk was sealed; the ciphertext produced is those chunks.
    pub closed spec fn wf(&self) -> bool {
        &&& self.wf_sealed()
        &&& self.chunk_counter > 0 ==> self.buffer@.len() > 0
    }

    /// Everything `wf` asks but that the buffer is nonempty after a chunk.
    closed spec fn wf_sealed(&self) -> bool {
        let cs = self.chunk_size.spec_size();
        let c = self.chunk_counter as nat;
        &&& self.encryptor.wf()
        &&& self.aad@.len() <= SEAL_LIMIT
        &&& self.buffer@.len() <= cs
        &&& self.plaintext@.len() == c * cs + self.buffer@.len()
        &&& c * cs <= self.plaintext@.len()
        &&& self.buffer@ == self.plaintext@.subrange((c * cs) as int, self.plaintext@.len() as int)
        &&& self.taken@ + self.output@ == full_chunks(self.encryptor, self.aad@, self.plaintext@, cs, c)
        &&& self.taken@.len() + self.output@.len() == c * (cs + TAG_SIZE)
        &&& full_chunk_sizes(self.encryptor, self.aad@, self.plaintext@, cs, c)
    }

    /// Create a STREAM writer with an all-zero nonce prefix.
    pub fn new(key: Key, aad: Vec<u8>, chunk_size: ChunkSize) -> (r: Writer)
        requires
            aad@.len() <= SEAL_LIMIT,
        ensures
            r.wf(),
            r.encryptor().key() == key,
            r.encryptor().prefix() == seq![0u8, 0, 0, 0, 0, 0, 0, 0],
            r.aad() == aad@,
            r.chunk_size() == chunk_size,
            r.plaintext() == Seq::<u8>::empty(),
            r.taken() == Seq::<u8>::empty(),
            r.pending() == Seq::<u8>::empty(),
            r.sealed_lazily(),
    {
        let encryptor = Encryptor::new(key, [0u8; 8]);
        assert(encryptor.prefix() =~= seq![0u8, 0, 0, 0, 0, 0, 0, 0]) by {
            assert(0u8 & 0xfeu8 == 0) by (bit_vector);
        }
        let w = Writer {
            aad,
            buffer: Vec::with_capacity(chunk_size.size() + TAG_SIZE),
            chunk_counter: 0,
            chunk_size,
            encryptor,
            output: Vec::new(),
            plaintext: Ghost(Seq::empty()),
            taken: Ghost(Seq::empty()),
        };
        assert(w.buffer@ =~= w.plaintext@.subrange(0, 0));
        assert(w.taken@ + w.output@ =~= Seq::<u8>::empty());
        proof {
            w.lemma_sealed_lazily();
        }
        w
    }

    /// Seal the full buffer as the next non-last chunk.
    #[verifier::rlimit(40)]
    fn encrypt_chunk(&mut self)
        requires
            old(self).wf(),
            old(self).buffer@.len() == old(self).chunk_size.spec_size(),
            old(self).chunk_counter < u32::MAX,
        ensures
            final(self).wf_sealed(),
            final(self).chunk_counter == old(self).chunk_counter + 1,
            final(self).buffer@.len() == 0,
            final(self).plaintext == old(self).plaintext,
            final(self).taken == old(self).taken,
            final(self).aad == old(self).aad,
            final(self).encryptor == old(self).encryptor,
            final(self).chunk_size == old(self).chunk_size,
    {
        let ghost cs = self.chunk_size.spec_size();
        let ghost c = self.chunk_counter as nat;
        let ghost pt = self.buffer@;
        let r = self.encryptor.encrypt_in_place(self.chunk_counter, false, self.aad.as_slice(), &mut self.buffer);
        assert(r is Ok);
        self.output.append(&mut self.buffer);
        self.chunk_counter = self.chunk_counter + 1;
        proof {
            assert((c + 1) * cs == c * cs + cs) by (nonlinear_arith);
            assert((c + 1) * (cs + TAG_SIZE) == c * (cs + TAG_SIZE) + cs + TAG_SIZE) by (nonlinear_arith);
            assert(self.buffer@ =~= self.plaintext@.subrange(((c + 1) * cs) as int, self.plaintext@.len() as int));
            assert(pt =~= self.plaintext@.subrange((c * cs) as int, ((c + 1) * cs) as int));
            let chunk = self.encryptor.chunk_of(c as u32, false, self.aad@, pt);
            assert(full_chunks(self.encryptor, self.aad@, self.plaintext@, cs, c + 1)
                == full_chunks(self.encryptor, self.aad@, self.plaintext@, cs, c) + chunk);
            assert(self.taken@ + self.output@ =~= full_chunks(self.encryptor, self.aad@, self.plaintext@, cs, c + 1));
            assert(chunk.len() == cs + TAG_SIZE);
            assert forall|i: int| 0 <= i < c + 1 implies (#[trigger] self.encryptor.chunk_of(
                i as u32,
                false,
                self.aad@,
                self.plaintext@.subrange(i * cs, (i + 1) * cs),
            )).len() == cs + TAG_SIZE by {
                if i == c {
                    assert(self.plaintext@.subrange(i * cs, (i + 1) * cs) == pt);
                }
            }
        }
    }

    /// Buffer one byte, first sealing the buffer if it is full.
    fn push_byte(&mut self, byte: u8) -> (r: Result<(), Error>)
        requires
            old(self).wf(),
        ensures
            final(self).wf(),
            final(self).taken == old(self).taken,
            final(self).aad == old(self).aad,
            final(self).encryptor == old(self).encryptor,
            final(self).chunk_size == old(self).chunk_size,
            r is Ok ==> final(self).plaintext@ == old(self).plaintext@.push(byte),
            r is Err <==> (old(self).buffer@.len() == old(self).chunk_size.spec_size()
                && old(self).chunk_counter == u32::MAX),
            r is Err ==> r->Err_0.kind == ErrorKind::Crypto && *final(self) == *old(self),
    {
        if self.buffer.len() == self.chunk_size.size() {
            if self.chunk_counter == u32::MAX {
                return Err(Error::new(ErrorKind::Crypto));
            }
            self.encrypt_chunk();
        }
        let ghost cs = self.chunk_size.spec_size();
        let ghost c = self.chunk_counter as nat;
        let ghost before = self.plaintext@;
        self.buffer.push(byte);
        self.plaintext = Ghost(self.plaintext@.push(byte));
        proof {
            assert(self.buffer@ =~= self.plaintext@.subrange((c * cs) as int, self.plaintext@.len() as int));
            assert(before.subrange(0, (c * cs) as int) =~= self.plaintext@.subrange(0, (c * cs) as int));
            lemma_full_chunks_prefix(self.encryptor, self.aad@, before, self.plaintext@, cs, c);
            assert forall|i: int| 0 <= i < c implies (#[trigger] self.encryptor.chunk_of(
                i as u32,
                false,
                self.aad@,
                self.plaintext@.subrange(i * cs, (i + 1) * cs),
            )).len() == cs + TAG_SIZE by {
                assert((i + 1) * cs <= c * cs) by (nonlinear_arith)
                    requires 0 <= i < c;
                assert(0 <= i * cs) by (nonlinear_arith)
                    requires 0 <= i;
                assert(before.subrange(i * cs, (i + 1) * cs) =~= self.plaintext@.subrange(i * cs, (i + 1) * cs));
                assert(self.encryptor.chunk_of(i as u32, false, self.aad@, before.subrange(i * cs, (i + 1) * cs)).len()
                    == cs + TAG_SIZE);
            }
        }
        Ok(())
    }

    /// Number of plaintext bytes accepted so far.
    pub fn plaintext_len(&self) -> (r: u64)
        requires
            self.wf(),
        ensures
            r == self.plaintext().len(),
    {
        let cs = self.chunk_size.size();
        assert(self.chunk_counter as int * cs <= u32::MAX as int * 131072) by (nonlinear_arith)
            requires cs <= 131072, self.chunk_counter <= u32::MAX;
        (self.chunk_counter as u64) * (cs as u64) + self.buffer.len() as u64
    }

    /// STREAM-encrypt `data`, sealing each chunk as it is followed by more.
    ///
    /// Fails with `Crypto`, accepting nothing, when the data would need a
    /// chunk counter of 2^32.
    pub fn write_all(&mut self, data: &[u8]) -> (r: Result<usize, Error>)
        requires
            old(self).wf(),
        ensures
            final(self).wf(),
            final(self).sealed_lazily(),
            r is Ok <==> accepts(old(self).plaintext().len() + data@.len(), old(self).chunk_size().spec_size()),
            r is Ok ==> r->Ok_0 == data@.len()
                && final(self).plaintext() == old(self).plaintext() + data@
                && final(self).taken() == old(self).taken()
                && final(self).aad() == old(self).aad()
                && final(self).encryptor() == old(self).encryptor()
                && final(self).chunk_size() == old(self).chunk_size(),
            r is Err ==> r->Err_0.kind == ErrorKind::Crypto && *final(self) == *old(self),
    {
        let ghost cs = self.chunk_size.spec_size();
        proof {
            self.lemma_sealed_lazily();
        }
        let cur = self.plaintext_len();
        if data.len() as u64 > u64::MAX - cur {
            proof {
                let total: int = cur + data@.len();
                let csi = cs as int;
                assert(csi * 4294967296 <= total - 1) by (nonlinear_arith)
                    requires csi <= 131072, total > 18446744073709551615int;
                lemma_div_is_ordered(csi * 4294967296, total - 1, csi);
                lemma_div_multiples_vanish(4294967296, csi);
            }
            return Err(Error::new(ErrorKind::Crypto));
        }
        let total = cur + data.len() as u64;
        if total > 0 && (total - 1) / (self.chunk_size.size() as u64) > u32::MAX as u64 {
            return Err(Error::new(ErrorKind::Crypto));
        }
        let ghost start = self.plaintext@;
        let mut i: usize = 0;
        while i < data.len()
            invariant
                self.wf(),
                i <= data@.len(),
                self.plaintext@ == start + data@.subrange(0, i as int),
                start == old(self).plaintext@,
                self.taken == old(self).taken,
                self.aad == old(self).aad,
                self.encryptor == old(self).encryptor,
                self.chunk_size == old(self).chunk_size,
                cs == self.chunk_size.spec_size(),
                total == start.len() + data@.len(),
                total > 0 ==> non_last_count(total as nat, cs) <= u32::MAX,
            decreases data@.len() - i,
        {
            proof {
                if self.buffer@.len() == cs && self.chunk_counter == u32::MAX {
                    let k: int = u32::MAX as int + 1;
                    let len = self.plaintext@.len() as int;
                    let csi = cs as int;
                    assert(len == self.chunk_counter as int * csi + csi);
                    assert(len == csi * k) by (nonlinear_arith)
                        requires len == (k - 1) * csi + csi;
                    assert(total - 1 >= csi * k);
                    lemma_div_is_ordered(csi * k, total - 1, csi);
                    lemma_div_multiples_vanish(k, csi);
                }
            }
            let r = self.push_byte(data[i]);
            assert(r is Ok);
            i = i + 1;
            assert(self.plaintext@ =~= start + data@.subrange(0, i as int));
        }
        assert(data@.subrange(0, i as int) =~= data@);
        proof {
            self.lemma_sealed_lazily();
        }
        Ok(data.len())
    }

    /// STREAM-encrypt the bytes that one read of an input produced; returns
    /// how many were consumed.
    pub fn encrypt_reader(&mut self, read: &[u8]) -> (r: Result<usize, Error>)
        requires
            old(self).wf(),
        ensures
            final(self).wf(),
            final(self).sealed_lazily(),
            r is Ok <==> accepts(old(self).plaintext().len() + read@.len(), old(self).chunk_size().spec_size()),
            r is Ok ==> r->Ok_0 == read@.len()
                && final(self).plaintext() == old(self).plaintext() + read@
                && final(self).taken() == old(self).taken()
                && final(self).aad() == old(self).aad()
                && final(self).encryptor() == old(self).encryptor()
                && final(self).chunk_size() == old(self).chunk_size(),
            r is Err ==> r->Err_0.kind == ErrorKind::Crypto && *final(self) == *old(self),
    {
        self.write_all(read)
    }

    /// Hand out the ciphertext produced so far.
    pub fn take_output(&mut self) -> (r: Vec<u8>)
        requires
            old(self).wf(),
        ensures
            final(self).wf(),
            r@ == old(self).pending(),
            final(self).sealed_lazily(),
            final(self).pending() == Seq::<u8>::empty(),
            final(self).taken() == old(self).taken() + r@,
            final(self).plaintext() == old(self).plaintext(),
            final(self).aad() == old(self).aad(),
            final(self).encryptor() == old(self).encryptor(),
            final(self).chunk_size() == old(self).chunk_size(),
    {
        let out = self.output.split_off(0);
        self.taken = Ghost(self.taken@ + out@);
        assert(self.output@ =~= Seq::<u8>::empty());
        assert(self.taken@ + self.output@ =~= old(self).taken@ + old(self).output@);
        proof {
            self.lemma_sealed_lazily();
        }
        out
    }

    /// Seal what remains in the buffer as the last chunk and hand out the
    /// remaining ciphertext. Nothing is sealed when nothing was written.
    pub fn finish(self) -> (r: Result<Vec<u8>, Error>)
        requires
            self.wf(),
        ensures
            r is Ok,
            r is Ok ==> self.taken() + r->Ok_0@
                == stream_of(self.encryptor(), self.aad(), self.plaintext(), self.chunk_size().spec_size()),
            r is Ok ==> (self.taken() + r->Ok_0@).len()
                == stream_len(self.plaintext().len(), self.chunk_size().spec_size()),
            r is Ok && self.plaintext().len() == 0 ==> r->Ok_0@ == self.pending(),
            r is Ok && self.plaintext().len() > 0 ==> {
                let cs = self.chunk_size().spec_size();
                let last = last_chunk(self.encryptor(), self.aad(), self.plaintext(), cs);
                &&& r->Ok_0@ == self.pending() + last
                &&& last.len() == self.plaintext().len() - non_last_count(self.plaintext().len(), cs) * cs + TAG_SIZE
                &&& 1 + TAG_SIZE <= last.len() <= cs + TAG_SIZE
            },
    {
        let mut this = self;
        let ghost cs = this.chunk_size.spec_size();
        let ghost c = this.chunk_counter as nat;
        if this.chunk_counter == 0 && this.buffer.len() == 0 {
            assert(this.output@ =~= this.taken@ + this.output@);
            return Ok(this.output);
        }
        let ghost pt = this.buffer@;
        let r = this.encryptor.encrypt_in_place(this.chunk_counter, true, this.aad.as_slice(), &mut this.buffer);
        assert(r is Ok);
        this.output.append(&mut this.buffer);
        proof {
            lemma_count(this.plaintext@.len(), c, pt.len() as nat, cs);
            lemma_last_chunk_size(this.plaintext@.len(), cs);
        }
        Ok(this.output)
    }
}

} // verus!
