//! Protocol Buffers wire format: the primitives the archive's messages are
//! built from.
//!
//! Field numbers stay below 16, so every field key is a single byte. Scalar
//! fields holding zero and byte fields holding nothing are left out, as proto3
//! does; a present sub-message is always written. Decoding reads fields in
//! ascending order of field number and rejects anything left over, so unknown
//! fields are refused rather than carried along.
use vstd::prelude::*;

verus! {

/// Wire type of varint fields.
pub const WIRE_VARINT: u8 = 0;

/// Wire type of length-delimited fields.
pub const WIRE_LEN: u8 = 2;

/// The one-byte key of field `field` with wire type `wire`.
pub open spec fn key(field: u8, wire: u8) -> u8 {
    (field * 8 + wire) as u8
}

/// LEB128 encoding of `v`, seven bits per byte, least significant first.
pub open spec fn varint(v: nat) -> Seq<u8>
    decreases v,
{
    if v < 128 {
        seq![v as u8]
    } else {
        seq![(v % 128 + 128) as u8] + varint(v / 128)
    }
}

/// Decode a varint starting at `pos`, ending no later than `end`: the value
/// and the position after it.
pub open spec fn varint_at(s: Seq<u8>, pos: int, end: int) -> Option<(nat, int)>
    decreases end - pos,
{
    if pos < 0 || pos >= end || end > s.len() {
        None
    } else if s[pos] < 128 {
        Some((s[pos] as nat, pos + 1))
    } else {
        match varint_at(s, pos + 1, end) {
            None => None,
            Some((v, p)) => Some((((s[pos] - 128) + 128 * v) as nat, p)),
        }
    }
}

/// 128 to the power `k`.
pub open spec fn pow128(k: nat) -> nat
    decreases k,
{
    if k == 0 {
        1
    } else {
        128 * pow128((k - 1) as nat)
    }
}

/// A value below 128^k takes at most `k` bytes as a varint.
pub proof fn lemma_varint_len(v: nat, k: nat)
    requires
        k >= 1,
        v < pow128(k),
    ensures
        varint(v).len() <= k,
    decreases k,
{
    if v >= 128 {
        let p = pow128((k - 1) as nat);
        if k == 1 {
            assert(pow128(0) == 1);
        }
        assert(v / 128 < p) by (nonlinear_arith)
            requires v < 128 * p;
        lemma_varint_len(v / 128, (k - 1) as nat);
    }
}

/// A 64-bit value takes at most 10 bytes as a varint.
pub proof fn lemma_varint_len_u64(v: nat)
    requires
        v <= u64::MAX,
    ensures
        varint(v).len() <= 10,
{
    reveal_with_fuel(pow128, 11);
    assert(pow128(10) == 1180591620717411303424nat);
    lemma_varint_len(v, 10);
}

/// A decoded varint ends after it starts and no later than `end`.
pub proof fn lemma_varint_at_bounds(s: Seq<u8>, pos: int, end: int)
    ensures
        varint_at(s, pos, end) matches Some((v, p)) ==> pos < p <= end,
    decreases end - pos,
{
    if 0 <= pos < end <= s.len() && s[pos] >= 128 {
        lemma_varint_at_bounds(s, pos + 1, end);
    }
}

/// A varint decodes to the value it encodes.
pub proof fn lemma_varint_round_trip(s: Seq<u8>, pos: int, end: int, v: nat)
    requires
        0 <= pos,
        pos + varint(v).len() <= end <= s.len(),
        s.subrange(pos, pos + varint(v).len()) == varint(v),
    ensures
        varint_at(s, pos, end) == Some((v, pos + varint(v).len())),
    decreases v,
{
    let e = varint(v);
    assert(s[pos] == s.subrange(pos, pos + e.len())[0]);
    if v >= 128 {
        let t = varint(v / 128);
        assert(s.subrange(pos + 1, pos + 1 + t.len()) =~= s.subrange(pos, pos + e.len()).subrange(1, e.len() as int));
        assert(e.subrange(1, e.len() as int) =~= t);
        lemma_varint_round_trip(s, pos + 1, end, v / 128);
    }
}

/// A field's encoding starts with its key, or is empty.
pub open spec fn starts_with(e: Seq<u8>, k: u8) -> bool {
    e.len() > 0 && e[0] == k
}

/// A varint field; left out when it holds zero.
pub open spec fn uint_field(field: u8, v: nat) -> Seq<u8> {
    if v == 0 {
        seq![]
    } else {
        seq![key(field, WIRE_VARINT)] + varint(v)
    }
}

/// A length-delimited field, always written.
pub open spec fn len_field(field: u8, b: Seq<u8>) -> Seq<u8> {
    seq![key(field, WIRE_LEN)] + varint(b.len()) + b
}

/// A byte-string field; left out when it is empty.
pub open spec fn bytes_field(field: u8, b: Seq<u8>) -> Seq<u8> {
    if b.len() == 0 {
        seq![]
    } else {
        len_field(field, b)
    }
}

/// Decode an optional varint field at `pos`: zero, and `pos` unmoved, when
/// the next byte is not this field's key.
pub open spec fn uint_field_at(s: Seq<u8>, pos: int, end: int, field: u8) -> Option<(nat, int)> {
    if 0 <= pos < end <= s.len() && s[pos] == key(field, WIRE_VARINT) {
        varint_at(s, pos + 1, end)
    } else {
        Some((0, pos))
    }
}

/// Decode a length-delimited field at `pos`: where its bytes start and end.
pub open spec fn len_field_at(s: Seq<u8>, pos: int, end: int, field: u8) -> Option<(int, int)> {
    if 0 <= pos < end <= s.len() && s[pos] == key(field, WIRE_LEN) {
        match varint_at(s, pos + 1, end) {
            None => None,
            Some((n, p)) => if p + n <= end {
                Some((p, p + n))
            } else {
                None
            },
        }
    } else {
        None
    }
}

/// Decode an optional byte-string field at `pos`: the bytes and the position
/// after them; nothing, and `pos` unmoved, when the next byte is not this
/// field's key.
pub open spec fn bytes_field_at(s: Seq<u8>, pos: int, end: int, field: u8) -> Option<(Seq<u8>, int)> {
    if 0 <= pos < end <= s.len() && s[pos] == key(field, WIRE_LEN) {
        match len_field_at(s, pos, end, field) {
            None => None,
            Some((a, b)) => Some((s.subrange(a, b), b)),
        }
    } else {
        Some((seq![], pos))
    }
}

/// The bytes at `pos` are `e`, followed by `rest` up to `end`.
pub open spec fn holds_at(s: Seq<u8>, pos: int, end: int, e: Seq<u8>, rest: Seq<u8>) -> bool {
    &&& 0 <= pos
    &&& end <= s.len()
    &&& pos + e.len() + rest.len() == end
    &&& s.subrange(pos, pos + e.len()) == e
    &&& s.subrange(pos + e.len(), end) == rest
}

/// Moving past an encoded piece: what follows it is where the rest lies.
pub proof fn lemma_holds_split(s: Seq<u8>, pos: int, end: int, e1: Seq<u8>, e2: Seq<u8>, rest: Seq<u8>)
    requires
        holds_at(s, pos, end, e1, e2 + rest),
    ensures
        holds_at(s, pos + e1.len(), end, e2, rest),
{
    let q = pos + e1.len();
    let t = e2 + rest;
    assert(s.subrange(q, end) == t);
    assert(s.subrange(q, q + e2.len()) =~= s.subrange(q, end).subrange(0, e2.len() as int));
    assert(s.subrange(q + e2.len(), end) =~= s.subrange(q, end).subrange(e2.len() as int, end - q));
    assert(t.subrange(0, e2.len() as int) =~= e2);
    assert(t.subrange(e2.len() as int, end - q) =~= rest);
}

/// Bytes that hold `a + b` and then nothing hold `a` followed by `b`.
pub proof fn lemma_holds_regroup(s: Seq<u8>, pos: int, end: int, a: Seq<u8>, b: Seq<u8>)
    requires
        holds_at(s, pos, end, a + b, Seq::empty()),
    ensures
        holds_at(s, pos, end, a, b),
{
    let e = a + b;
    assert(s.subrange(pos, pos + a.len()) =~= s.subrange(pos, pos + e.len()).subrange(0, a.len() as int));
    assert(s.subrange(pos + a.len(), end) =~= s.subrange(pos, pos + e.len()).subrange(a.len() as int, e.len() as int));
    assert(e.subrange(0, a.len() as int) =~= a);
    assert(e.subrange(a.len() as int, e.len() as int) =~= b);
}

/// Bytes that hold `a + b` followed by `rest` hold `a` followed by `b + rest`.
pub proof fn lemma_holds_assoc(s: Seq<u8>, pos: int, end: int, a: Seq<u8>, b: Seq<u8>, rest: Seq<u8>)
    requires
        holds_at(s, pos, end, a + b, rest),
    ensures
        holds_at(s, pos, end, a, b + rest),
{
    let e = a + b;
    assert(s.subrange(pos, pos + a.len()) =~= s.subrange(pos, pos + e.len()).subrange(0, a.len() as int));
    assert(e.subrange(0, a.len() as int) =~= a);
    assert(s.subrange(pos + a.len(), end) =~= s.subrange(pos, pos + e.len()).subrange(a.len() as int, e.len() as int) + s.subrange(pos + e.len(), end));
    assert(e.subrange(a.len() as int, e.len() as int) =~= b);
}

/// The bytes of a length-delimited field hold its contents and nothing more.
pub proof fn lemma_holds_inner(s: Seq<u8>, a: int, b: int, inner: Seq<u8>)
    requires
        0 <= a <= b <= s.len(),
        s.subrange(a, b) == inner,
    ensures
        holds_at(s, a, b, inner, Seq::empty()),
{
    assert(s.subrange(a, a + inner.len()) == inner);
    assert(s.subrange(b, b) =~= Seq::<u8>::empty());
}

/// A varint field decodes to its value; an omitted one decodes to zero as
/// long as what follows does not start with its key.
pub proof fn lemma_uint_field(s: Seq<u8>, pos: int, end: int, field: u8, v: nat, rest: Seq<u8>)
    requires
        field < 16,
        holds_at(s, pos, end, uint_field(field, v), rest),
        !starts_with(rest, key(field, WIRE_VARINT)),
    ensures
        uint_field_at(s, pos, end, field) == Some((v, pos + uint_field(field, v).len())),
{
    let e = uint_field(field, v);
    if v == 0 {
        if pos < end {
            assert(s[pos] == rest[0]);
        }
    } else {
        assert(s[pos] == e[0]);
        assert(s.subrange(pos + 1, pos + 1 + varint(v).len()) =~= s.subrange(pos, pos + e.len()).subrange(1, e.len() as int));
        assert(e.subrange(1, e.len() as int) =~= varint(v));
        lemma_varint_round_trip(s, pos + 1, end, v);
    }
}

/// A length-delimited field decodes to the bounds of its bytes.
pub proof fn lemma_len_field(s: Seq<u8>, pos: int, end: int, field: u8, b: Seq<u8>, rest: Seq<u8>)
    requires
        field < 16,
        holds_at(s, pos, end, len_field(field, b), rest),
    ensures
        ({
            let p = pos + 1 + varint(b.len()).len();
            &&& len_field_at(s, pos, end, field) == Some((p, p + b.len()))
            &&& s.subrange(p, p + b.len()) == b
            &&& p + b.len() == pos + len_field(field, b).len()
        }),
{
    let e = len_field(field, b);
    let vl = varint(b.len());
    assert(s[pos] == e[0]);
    assert(s.subrange(pos + 1, pos + 1 + vl.len()) =~= s.subrange(pos, pos + e.len()).subrange(1, 1 + vl.len() as int));
    assert(e.subrange(1, 1 + vl.len() as int) =~= vl);
    lemma_varint_round_trip(s, pos + 1, end, b.len());
    let p = pos + 1 + vl.len();
    assert(s.subrange(p, p + b.len()) =~= s.subrange(pos, pos + e.len()).subrange(1 + vl.len() as int, e.len() as int));
    assert(e.subrange(1 + vl.len() as int, e.len() as int) =~= b);
}

/// A byte-string field decodes to its bytes; an omitted one decodes to
/// nothing as long as what follows does not start with its key.
pub proof fn lemma_bytes_field(s: Seq<u8>, pos: int, end: int, field: u8, b: Seq<u8>, rest: Seq<u8>)
    requires
        field < 16,
        holds_at(s, pos, end, bytes_field(field, b), rest),
        !starts_with(rest, key(field, WIRE_LEN)),
    ensures
        bytes_field_at(s, pos, end, field) == Some((b, pos + bytes_field(field, b).len())),
{
    if b.len() == 0 {
        if pos < end {
            assert(s[pos] == rest[0]);
        }
        assert(b =~= seq![]);
    } else {
        lemma_len_field(s, pos, end, field, b, rest);
        assert(s[pos] == len_field(field, b)[0]);
    }
}

/// Append the varint encoding of `v`.
pub fn encode_varint(v: u64, out: &mut Vec<u8>)
    ensures
        final(out)@ == old(out)@ + varint(v as nat),
    decreases v,
{
    if v < 128 {
        out.push(v as u8);
        assert(final(out)@ =~= old(out)@ + varint(v as nat)) by {
            assert(out@ =~= old(out)@ + varint(v as nat));
        }
    } else {
        out.push((v % 128 + 128) as u8);
        let ghost mid = out@;
        encode_varint(v / 128, out);
        assert(out@ =~= old(out)@ + varint(v as nat));
    }
}

/// Decode a varint at `pos`, ending no later than `end`; `None` when it is
/// cut short or its value exceeds 64 bits.
pub fn decode_varint(s: &[u8], pos: usize, end: usize) -> (r: Option<(u64, usize)>)
    requires
        end <= s@.len(),
    ensures
        match varint_at(s@, pos as int, end as int) {
            None => r is None,
            Some((v, p)) => if v <= u64::MAX {
                r == Some((v as u64, p as usize))
            } else {
                r is None
            },
        },
        r is Some ==> pos < r->Some_0.1 <= end,
    decreases end - pos,
{
    if pos >= end {
        return None;
    }
    let b = s[pos];
    if b < 128 {
        return Some((b as u64, pos + 1));
    }
    let low = (b - 128) as u64;
    match decode_varint(s, pos + 1, end) {
        None => None,
        Some((v, p)) => {
            if v > (u64::MAX - low) / 128 {
                assert(low + 128 * v > u64::MAX) by (nonlinear_arith)
                    requires v > (u64::MAX - low) / 128, low <= 127;
                None
            } else {
                assert(low + 128 * v <= u64::MAX) by (nonlinear_arith)
                    requires v <= (u64::MAX - low) / 128, low <= 127;
                Some((low + 128 * v, p))
            }
        },
    }
}

/// Append the bytes `b[from..to]`.
pub fn append_range(out: &mut Vec<u8>, b: &[u8], from: usize, to: usize)
    requires
        from <= to <= b@.len(),
    ensures
        final(out)@ == old(out)@ + b@.subrange(from as int, to as int),
{
    let mut i = from;
    while i < to
        invariant
            from <= i <= to <= b@.len(),
            out@ == old(out)@ + b@.subrange(from as int, i as int),
        decreases to - i,
    {
        out.push(b[i]);
        i = i + 1;
        assert(out@ =~= old(out)@ + b@.subrange(from as int, i as int));
    }
}

/// Append all of `b`.
pub fn append_bytes(out: &mut Vec<u8>, b: &[u8])
    ensures
        final(out)@ == old(out)@ + b@,
{
    append_range(out, b, 0, b.len());
    assert(b@.subrange(0, b@.len() as int) =~= b@);
}

/// Append a varint field; nothing when `v` is zero.
pub fn encode_uint_field(field: u8, v: u64, out: &mut Vec<u8>)
    requires
        field < 16,
    ensures
        final(out)@ == old(out)@ + uint_field(field, v as nat),
{
    if v != 0 {
        out.push(field * 8 + WIRE_VARINT);
        encode_varint(v, out);
        assert(out@ =~= old(out)@ + uint_field(field, v as nat));
    } else {
        assert(out@ =~= old(out)@ + uint_field(field, v as nat));
    }
}

/// Append a length-delimited field holding `b`.
pub fn encode_len_field(field: u8, b: &[u8], out: &mut Vec<u8>)
    requires
        field < 16,
    ensures
        final(out)@ == old(out)@ + len_field(field, b@),
{
    out.push(field * 8 + WIRE_LEN);
    encode_varint(b.len() as u64, out);
    append_bytes(out, b);
    assert(out@ =~= old(out)@ + len_field(field, b@));
}

/// Append a byte-string field; nothing when `b` is empty.
pub fn encode_bytes_field(field: u8, b: &[u8], out: &mut Vec<u8>)
    requires
        field < 16,
    ensures
        final(out)@ == old(out)@ + bytes_field(field, b@),
{
    if b.len() != 0 {
        encode_len_field(field, b, out);
    } else {
        assert(out@ =~= old(out)@ + bytes_field(field, b@));
    }
}

/// Decode an optional varint field at `pos`.
pub fn decode_uint_field(s: &[u8], pos: usize, end: usize, field: u8) -> (r: Option<(u64, usize)>)
    requires
        pos <= end <= s@.len(),
        field < 16,
    ensures
        match uint_field_at(s@, pos as int, end as int, field) {
            None => r is None,
            Some((v, p)) => if v <= u64::MAX {
                r == Some((v as u64, p as usize))
            } else {
                r is None
            },
        },
        uint_field_at(s@, pos as int, end as int, field) matches Some((v, p)) ==> pos <= p <= end,
        r is Some ==> pos <= r->Some_0.1 <= end,
{
    assert(key(field, WIRE_VARINT) == field * 8 + WIRE_VARINT);
    proof {
        lemma_varint_at_bounds(s@, pos + 1, end as int);
    }
    if pos < end && s[pos] == field * 8 + WIRE_VARINT {
        decode_varint(s, pos + 1, end)
    } else {
        Some((0, pos))
    }
}

/// Decode a length-delimited field at `pos`: where its bytes start and end.
pub fn decode_len_field(s: &[u8], pos: usize, end: usize, field: u8) -> (r: Option<(usize, usize)>)
    requires
        pos <= end <= s@.len(),
        field < 16,
    ensures
        match len_field_at(s@, pos as int, end as int, field) {
            None => r is None,
            Some((a, b)) => r == Some((a as usize, b as usize)),
        },
        len_field_at(s@, pos as int, end as int, field) matches Some((a, b)) ==> pos < a <= b <= end,
        r is Some ==> pos < r->Some_0.0 <= r->Some_0.1 <= end,
{
    assert(key(field, WIRE_LEN) == field * 8 + WIRE_LEN);
    proof {
        lemma_varint_at_bounds(s@, pos + 1, end as int);
    }
    if pos < end && s[pos] == field * 8 + WIRE_LEN {
        match decode_varint(s, pos + 1, end) {
            None => {
                proof {
                    lemma_varint_at_bounds(s@, pos + 1, end as int);
                }
                None
            },
            Some((n, p)) => {
                if n <= (end - p) as u64 {
                    let m = n as usize;
                    assert(m as int == n as int);
                    Some((p, p + m))
                } else {
                    None
                }
            },
        }
    } else {
        None
    }
}

/// Decode an optional byte-string field at `pos`.
pub fn decode_bytes_field(s: &[u8], pos: usize, end: usize, field: u8) -> (r: Option<(Vec<u8>, usize)>)
    requires
        pos <= end <= s@.len(),
        field < 16,
    ensures
        match bytes_field_at(s@, pos as int, end as int, field) {
            None => r is None,
            Some((b, p)) => r is Some && r->Some_0.0@ == b && r->Some_0.1 == p,
        },
        r is Some ==> pos <= r->Some_0.1 <= end,
{
    assert(key(field, WIRE_LEN) == field * 8 + WIRE_LEN);
    if pos < end && s[pos] == field * 8 + WIRE_LEN {
        match decode_len_field(s, pos, end, field) {
            None => None,
            Some((a, b)) => {
                let mut v: Vec<u8> = Vec::new();
                append_range(&mut v, s, a, b);
                assert(v@ =~= s@.subrange(a as int, b as int));
                Some((v, b))
            },
        }
    } else {
        let v: Vec<u8> = Vec::new();
        assert(v@ =~= seq![]);
        Some((v, pos))
    }
}

} // verus!
