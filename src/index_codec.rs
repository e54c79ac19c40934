//! Decoding of the archive index: entries and metadata.
//!
//! Decoded text is described by its UTF-8 bytes, so each message has a model
//! built from byte strings and integers that both directions are stated over.
use vstd::prelude::*;
use vstd::utf8::encode_utf8;
use crate::error::{Error, ErrorKind};
use crate::entry::{
    Attributes, Entry, Kind, Mode, Name, Owner, Permissions, PosixAcl, SELinuxLabel, XAttr,
    attributes_enc, entry_enc, kind_enc, owner_enc, permissions_enc, repeated, timestamp_field, utf8,
};
use crate::metadata::{Index, Metadata, index_enc, metadata_enc};
use crate::protos::{Tai64n, lemma_tai64n_at, tai64n_at, tai64n_enc};
use crate::wire::{
    WIRE_LEN, append_range, decode_bytes_field, decode_len_field, decode_uint_field, bytes_field, bytes_field_at, holds_at, key, len_field, len_field_at,
    lemma_bytes_field, lemma_holds_assoc, lemma_holds_inner, lemma_holds_split, lemma_len_field, lemma_uint_field, starts_with, uint_field, uint_field_at,
};

verus! {

/// Owner: the field it is written in (3 for IDs, 4 for names, 5 for none),
/// the IDs, and the names' bytes.
pub type OwnerModel = (u8, u32, u32, Seq<u8>, Seq<u8>);

/// Permissions: mode, ACL entries and SELinux labels.
pub type PermissionsModel = (u32, Seq<Seq<u8>>, Seq<Seq<u8>>);

/// Attributes: creation and modification times, media type, extended attributes.
pub type AttributesModel = (Option<Seq<u8>>, Option<Seq<u8>>, Seq<u8>, Seq<Seq<u8>>);

/// Kind: whether it is a link, whether symbolic, and the target.
pub type KindModel = (bool, bool, Seq<u8>);

/// Entry: path, length, owner, permissions, attributes, kind.
pub type EntryModel = (Seq<u8>, u64, OwnerModel, PermissionsModel, AttributesModel, KindModel);

/// Metadata: index entries, creation time, user and host.
pub type MetadataModel = (Option<Seq<EntryModel>>, Option<Seq<u8>>, Seq<u8>, Seq<u8>);

/// Model of an owner.
pub open spec fn owner_model(o: Owner) -> OwnerModel {
    match o {
        Owner::Id { uid, gid } => (3u8, uid, gid, seq![], seq![]),
        Owner::Name { username, groupname } => (4u8, 0u32, 0u32, utf8(username.text()), utf8(groupname.text())),
        Owner::Unspecified => (5u8, 0u32, 0u32, seq![], seq![]),
    }
}

/// Model of permissions.
pub open spec fn permissions_model(p: Permissions) -> PermissionsModel {
    (
        p.mode.0,
        p.posix_acls@.map_values(|a: PosixAcl| utf8(a.text())),
        p.selinux_labels@.map_values(|l: SELinuxLabel| utf8(l.text())),
    )
}

/// Model of an optional timestamp: its bytes.
pub open spec fn timestamp_model(t: Option<Tai64n>) -> Option<Seq<u8>> {
    match t {
        Some(t) => Some(t@),
        None => None,
    }
}

/// Model of attributes.
pub open spec fn attributes_model(a: Attributes) -> AttributesModel {
    (
        timestamp_model(a.created_at),
        timestamp_model(a.modified_at),
        utf8(a.content_type),
        a.xattr@.map_values(|x: XAttr| utf8(x.text())),
    )
}

/// Model of a kind.
pub open spec fn kind_model(k: Kind) -> KindModel {
    match k {
        Kind::File => (false, false, seq![]),
        Kind::Link { symbolic, target } => (true, symbolic, utf8(target)),
    }
}

/// Model of an entry: its text as UTF-8 bytes.
pub open spec fn entry_model(e: Entry) -> EntryModel {
    (
        utf8(e.path),
        e.length,
        owner_model(e.owner),
        permissions_model(e.permissions),
        attributes_model(e.attributes),
        kind_model(e.kind),
    )
}

/// Model of metadata: its text as UTF-8 bytes.
pub open spec fn metadata_model(m: Metadata) -> MetadataModel {
    (
        match m.index {
            Some(i) => Some(i.entries@.map_values(|e: Entry| entry_model(e))),
            None => None,
        },
        timestamp_model(m.created_at),
        utf8(m.username),
        utf8(m.host),
    )
}

/// Decode the owner field at `pos`.
pub open spec fn owner_at(s: Seq<u8>, pos: int, end: int) -> Option<(OwnerModel, int)> {
    if !(0 <= pos < end <= s.len()) {
        None
    } else if s[pos] == key(3, WIRE_LEN) {
        match len_field_at(s, pos, end, 3) {
            None => None,
            Some((a, b)) => match uint_field_at(s, a, b, 1) {
                None => None,
                Some((u, p1)) => match uint_field_at(s, p1, b, 2) {
                    None => None,
                    Some((g, p2)) => if u <= u32::MAX && g <= u32::MAX && p2 == b {
                        Some(((3u8, u as u32, g as u32, seq![], seq![]), b))
                    } else {
                        None
                    },
                },
            },
        }
    } else if s[pos] == key(4, WIRE_LEN) {
        match len_field_at(s, pos, end, 4) {
            None => None,
            Some((a, b)) => match bytes_field_at(s, a, b, 1) {
                None => None,
                Some((u, p1)) => match bytes_field_at(s, p1, b, 2) {
                    None => None,
                    Some((g, p2)) => if p2 == b {
                        Some(((4u8, 0u32, 0u32, u, g), b))
                    } else {
                        None
                    },
                },
            },
        }
    } else if s[pos] == key(5, WIRE_LEN) {
        match len_field_at(s, pos, end, 5) {
            None => None,
            Some((a, b)) => if a == b {
                Some(((5u8, 0u32, 0u32, seq![], seq![]), b))
            } else {
                None
            },
        }
    } else {
        None
    }
}

/// Decode a repeated byte-string field at `pos`: every consecutive field
/// with this key.
pub open spec fn repeated_at(s: Seq<u8>, pos: int, end: int, field: u8) -> Option<(Seq<Seq<u8>>, int)>
    decreases end - pos,
{
    if 0 <= pos < end <= s.len() && s[pos] == key(field, WIRE_LEN) {
        match len_field_at(s, pos, end, field) {
            None => None,
            Some((a, b)) => if b <= pos {
                None
            } else {
                match repeated_at(s, b, end, field) {
                    None => None,
                    Some((rest, p)) => Some((seq![s.subrange(a, b)] + rest, p)),
                }
            },
        }
    } else {
        Some((seq![], pos))
    }
}

/// Decode an optional timestamp field at `pos`.
pub open spec fn timestamp_at(s: Seq<u8>, pos: int, end: int, field: u8) -> Option<(Option<Seq<u8>>, int)> {
    if 0 <= pos < end <= s.len() && s[pos] == key(field, WIRE_LEN) {
        match len_field_at(s, pos, end, field) {
            None => None,
            Some((a, b)) => match tai64n_at(s, a, b) {
                None => None,
                Some(v) => Some((Some(v), b)),
            },
        }
    } else {
        Some((None, pos))
    }
}

/// Decode permissions from `s[pos..end]`.
pub open spec fn permissions_at(s: Seq<u8>, pos: int, end: int) -> Option<PermissionsModel> {
    match uint_field_at(s, pos, end, 1) {
        None => None,
        Some((mode, p1)) => match repeated_at(s, p1, end, 2) {
            None => None,
            Some((acls, p2)) => match repeated_at(s, p2, end, 3) {
                None => None,
                Some((labels, p3)) => if mode <= u32::MAX && p3 == end {
                    Some((mode as u32, acls, labels))
                } else {
                    None
                },
            },
        },
    }
}

/// Decode attributes from `s[pos..end]`.
pub open spec fn attributes_at(s: Seq<u8>, pos: int, end: int) -> Option<AttributesModel> {
    match timestamp_at(s, pos, end, 1) {
        None => None,
        Some((created, p1)) => match timestamp_at(s, p1, end, 2) {
            None => None,
            Some((modified, p2)) => match bytes_field_at(s, p2, end, 3) {
                None => None,
                Some((ct, p3)) => match repeated_at(s, p3, end, 4) {
                    None => None,
                    Some((xattr, p4)) => if p4 == end {
                        Some((created, modified, ct, xattr))
                    } else {
                        None
                    },
                },
            },
        },
    }
}

/// Decode the kind field at `pos`.
pub open spec fn kind_at(s: Seq<u8>, pos: int, end: int) -> Option<(KindModel, int)> {
    if !(0 <= pos < end <= s.len()) {
        None
    } else if s[pos] == key(8, WIRE_LEN) {
        match len_field_at(s, pos, end, 8) {
            None => None,
            Some((a, b)) => if a == b {
                Some(((false, false, seq![]), b))
            } else {
                None
            },
        }
    } else if s[pos] == key(9, WIRE_LEN) {
        match len_field_at(s, pos, end, 9) {
            None => None,
            Some((a, b)) => match uint_field_at(s, a, b, 1) {
                None => None,
                Some((sym, p1)) => match bytes_field_at(s, p1, b, 2) {
                    None => None,
                    Some((t, p2)) => if sym <= u64::MAX && p2 == b {
                        Some(((true, sym != 0, t), b))
                    } else {
                        None
                    },
                },
            },
        }
    } else {
        None
    }
}

/// Decode an entry from `s[pos..end]`.
pub open spec fn entry_at(s: Seq<u8>, pos: int, end: int) -> Option<EntryModel> {
    match bytes_field_at(s, pos, end, 1) {
        None => None,
        Some((path, p1)) => match uint_field_at(s, p1, end, 2) {
            None => None,
            Some((length, p2)) => match owner_at(s, p2, end) {
                None => None,
                Some((owner, p3)) => match len_field_at(s, p3, end, 6) {
                    None => None,
                    Some((a6, b6)) => match permissions_at(s, a6, b6) {
                        None => None,
                        Some(perms) => match len_field_at(s, b6, end, 7) {
                            None => None,
                            Some((a7, b7)) => match attributes_at(s, a7, b7) {
                                None => None,
                                Some(attrs) => match kind_at(s, b7, end) {
                                    None => None,
                                    Some((kind, p4)) => if length <= u64::MAX && p4 == end {
                                        Some((path, length as u64, owner, perms, attrs, kind))
                                    } else {
                                        None
                                    },
                                },
                            },
                        },
                    },
                },
            },
        },
    }
}

/// Decode the entries of an index at `pos`: every consecutive field 1.
pub open spec fn entries_at(s: Seq<u8>, pos: int, end: int) -> Option<(Seq<EntryModel>, int)>
    decreases end - pos,
{
    if 0 <= pos < end <= s.len() && s[pos] == key(1, WIRE_LEN) {
        match len_field_at(s, pos, end, 1) {
            None => None,
            Some((a, b)) => if b <= pos {
                None
            } else {
                match entry_at(s, a, b) {
                    None => None,
                    Some(e) => match entries_at(s, b, end) {
                        None => None,
                        Some((rest, p)) => Some((seq![e] + rest, p)),
                    },
                }
            },
        }
    } else {
        Some((seq![], pos))
    }
}

/// Decode metadata from `s[pos..end]`.
pub open spec fn metadata_at(s: Seq<u8>, pos: int, end: int) -> Option<MetadataModel> {
    let index: Option<(Option<Seq<EntryModel>>, int)> = if 0 <= pos < end <= s.len() && s[pos] == key(1, WIRE_LEN) {
        match len_field_at(s, pos, end, 1) {
            None => None,
            Some((a, b)) => match entries_at(s, a, b) {
                Some((es, p)) => if p == b {
                    Some((Some(es), b))
                } else {
                    None
                },
                None => None,
            },
        }
    } else {
        Some((None, pos))
    };
    match index {
        None => None,
        Some((index, p1)) => match timestamp_at(s, p1, end, 2) {
            None => None,
            Some((created, p2)) => match bytes_field_at(s, p2, end, 3) {
                None => None,
                Some((user, p3)) => match bytes_field_at(s, p3, end, 4) {
                    None => None,
                    Some((host, p4)) => if p4 == end {
                        Some((index, created, user, host))
                    } else {
                        None
                    },
                },
            },
        },
    }
}

/// A repeated field read from the front: its first item, then the others.
pub proof fn lemma_repeated_cons(field: u8, items: Seq<Seq<u8>>)
    requires
        items.len() > 0,
    ensures
        repeated(field, items) == len_field(field, items[0]) + repeated(field, items.drop_first()),
    decreases items.len(),
{
    if items.len() == 1 {
        assert(items.drop_first() =~= Seq::<Seq<u8>>::empty());
        assert(items.drop_last() =~= Seq::<Seq<u8>>::empty());
        assert(repeated(field, items) =~= len_field(field, items[0]) + repeated(field, items.drop_first()));
    } else {
        let dl = items.drop_last();
        lemma_repeated_cons(field, dl);
        assert(dl[0] == items[0]);
        assert(dl.drop_first() =~= items.drop_first().drop_last());
        assert(items.drop_first().last() == items.last());
        assert(repeated(field, items) =~= len_field(field, items[0]) + repeated(field, items.drop_first()));
    }
}

/// A nonempty repeated field starts with its key.
pub proof fn lemma_repeated_head(field: u8, items: Seq<Seq<u8>>)
    ensures
        repeated(field, items).len() == 0 || starts_with(repeated(field, items), key(field, WIRE_LEN)),
{
    if items.len() > 0 {
        lemma_repeated_cons(field, items);
    }
}

/// A repeated field decodes to its items.
pub proof fn lemma_repeated_at(s: Seq<u8>, pos: int, end: int, field: u8, items: Seq<Seq<u8>>, rest: Seq<u8>)
    requires
        field < 16,
        holds_at(s, pos, end, repeated(field, items), rest),
        !starts_with(rest, key(field, WIRE_LEN)),
    ensures
        repeated_at(s, pos, end, field) == Some((items, pos + repeated(field, items).len())),
    decreases items.len(),
{
    if items.len() == 0 {
        if pos < end {
            assert(s[pos] == s.subrange(pos, end)[0]);
        }
        assert(items =~= seq![]);
    } else {
        let x = items[0];
        let tail = items.drop_first();
        lemma_repeated_cons(field, items);
        let lf = len_field(field, x);
        let r = repeated(field, tail);
        lemma_holds_assoc(s, pos, end, lf, r, rest);
        lemma_len_field(s, pos, end, field, x, r + rest);
        assert(s[pos] == lf[0]);
        lemma_holds_split(s, pos, end, lf, r, rest);
        lemma_repeated_at(s, pos + lf.len(), end, field, tail, rest);
        assert(seq![x] + tail =~= items);
    }
}

/// A timestamp field decodes to its value, or to none when omitted.
pub proof fn lemma_timestamp_at(s: Seq<u8>, pos: int, end: int, field: u8, t: Option<Tai64n>, rest: Seq<u8>)
    requires
        field < 16,
        holds_at(s, pos, end, timestamp_field(field, t), rest),
        !starts_with(rest, key(field, WIRE_LEN)),
    ensures
        timestamp_at(s, pos, end, field) == Some((timestamp_model(t), pos + timestamp_field(field, t).len())),
{
    match t {
        Some(v) => {
            let inner = tai64n_enc(v@);
            lemma_len_field(s, pos, end, field, inner, rest);
            assert(s[pos] == len_field(field, inner)[0]);
            let p = pos + 1 + crate::wire::varint(inner.len()).len();
            lemma_holds_inner(s, p, p + inner.len(), inner);
            lemma_tai64n_at(s, p, p + inner.len(), v@);
        },
        None => {
            if pos < end {
                assert(s[pos] == s.subrange(pos, end)[0]);
            }
        },
    }
}

/// The owner field decodes to the owner's model.
pub proof fn lemma_owner_at(s: Seq<u8>, pos: int, end: int, o: Owner, rest: Seq<u8>)
    requires
        holds_at(s, pos, end, owner_enc(o), rest),
    ensures
        owner_at(s, pos, end) == Some((owner_model(o), pos + owner_enc(o).len())),
{
    let empty = Seq::<u8>::empty();
    match o {
        Owner::Id { uid, gid } => {
            let e1 = uint_field(1, uid as nat);
            let e2 = uint_field(2, gid as nat);
            let inner = e1 + e2;
            lemma_len_field(s, pos, end, 3, inner, rest);
            assert(s[pos] == len_field(3, inner)[0]);
            let a = pos + 1 + crate::wire::varint(inner.len()).len();
            let b = a + inner.len();
            lemma_holds_inner(s, a, b, inner);
            assert(inner =~= e1 + (e2 + empty));
            lemma_holds_assoc(s, a, b, e1, e2, empty);
            assert(e2 + empty =~= e2);
            lemma_uint_field(s, a, b, 1, uid as nat, e2 + empty);
            lemma_holds_split(s, a, b, e1, e2, empty);
            lemma_uint_field(s, a + e1.len(), b, 2, gid as nat, empty);
        },
        Owner::Name { username, groupname } => {
            let e1 = bytes_field(1, utf8(username.text()));
            let e2 = bytes_field(2, utf8(groupname.text()));
            let inner = e1 + e2;
            lemma_len_field(s, pos, end, 4, inner, rest);
            assert(s[pos] == len_field(4, inner)[0]);
            let a = pos + 1 + crate::wire::varint(inner.len()).len();
            let b = a + inner.len();
            lemma_holds_inner(s, a, b, inner);
            lemma_holds_assoc(s, a, b, e1, e2, empty);
            lemma_bytes_field(s, a, b, 1, utf8(username.text()), e2 + empty);
            lemma_holds_split(s, a, b, e1, e2, empty);
            lemma_bytes_field(s, a + e1.len(), b, 2, utf8(groupname.text()), empty);
        },
        Owner::Unspecified => {
            lemma_len_field(s, pos, end, 5, empty, rest);
            assert(s[pos] == len_field(5, empty)[0]);
        },
    }
}

/// The kind field decodes to the kind's model.
pub proof fn lemma_kind_at(s: Seq<u8>, pos: int, end: int, k: Kind, rest: Seq<u8>)
    requires
        holds_at(s, pos, end, kind_enc(k), rest),
    ensures
        kind_at(s, pos, end) == Some((kind_model(k), pos + kind_enc(k).len())),
{
    let empty = Seq::<u8>::empty();
    match k {
        Kind::File => {
            lemma_len_field(s, pos, end, 8, empty, rest);
            assert(s[pos] == len_field(8, empty)[0]);
        },
        Kind::Link { symbolic, target } => {
            let e1 = uint_field(1, if symbolic { 1 } else { 0 });
            let e2 = bytes_field(2, utf8(target));
            let inner = e1 + e2;
            lemma_len_field(s, pos, end, 9, inner, rest);
            assert(s[pos] == len_field(9, inner)[0]);
            let a = pos + 1 + crate::wire::varint(inner.len()).len();
            let b = a + inner.len();
            lemma_holds_inner(s, a, b, inner);
            lemma_holds_assoc(s, a, b, e1, e2, empty);
            lemma_uint_field(s, a, b, 1, if symbolic { 1 } else { 0 }, e2 + empty);
            lemma_holds_split(s, a, b, e1, e2, empty);
            lemma_bytes_field(s, a + e1.len(), b, 2, utf8(target), empty);
        },
    }
}

/// Encoded permissions decode to their model.
pub proof fn lemma_permissions_at(s: Seq<u8>, pos: int, end: int, p: Permissions)
    requires
        holds_at(s, pos, end, permissions_enc(p), Seq::empty()),
    ensures
        permissions_at(s, pos, end) == Some(permissions_model(p)),
{
    let empty = Seq::<u8>::empty();
    let acls = p.posix_acls@.map_values(|a: PosixAcl| utf8(a.text()));
    let labels = p.selinux_labels@.map_values(|l: SELinuxLabel| utf8(l.text()));
    let e1 = uint_field(1, p.mode.0 as nat);
    let e2 = repeated(2, acls);
    let e3 = repeated(3, labels);
    lemma_repeated_head(2, acls);
    lemma_repeated_head(3, labels);
    assert(permissions_enc(p) == e1 + e2 + e3);
    lemma_holds_assoc(s, pos, end, e1 + e2, e3, empty);
    lemma_holds_assoc(s, pos, end, e1, e2, e3 + empty);
    lemma_uint_field(s, pos, end, 1, p.mode.0 as nat, e2 + (e3 + empty));
    lemma_holds_split(s, pos, end, e1, e2, e3 + empty);
    lemma_repeated_at(s, pos + e1.len(), end, 2, acls, e3 + empty);
    lemma_holds_split(s, pos + e1.len(), end, e2, e3, empty);
    lemma_repeated_at(s, pos + e1.len() + e2.len(), end, 3, labels, empty);
}

/// Encoded attributes decode to their model.
pub proof fn lemma_attributes_at(s: Seq<u8>, pos: int, end: int, a: Attributes)
    requires
        holds_at(s, pos, end, attributes_enc(a), Seq::empty()),
    ensures
        attributes_at(s, pos, end) == Some(attributes_model(a)),
{
    let empty = Seq::<u8>::empty();
    let xs = a.xattr@.map_values(|x: XAttr| utf8(x.text()));
    let e1 = timestamp_field(1, a.created_at);
    let e2 = timestamp_field(2, a.modified_at);
    let e3 = bytes_field(3, utf8(a.content_type));
    let e4 = repeated(4, xs);
    lemma_repeated_head(4, xs);
    assert(attributes_enc(a) == e1 + e2 + e3 + e4);
    lemma_holds_assoc(s, pos, end, e1 + e2 + e3, e4, empty);
    lemma_holds_assoc(s, pos, end, e1 + e2, e3, e4 + empty);
    lemma_holds_assoc(s, pos, end, e1, e2, e3 + (e4 + empty));
    lemma_timestamp_at(s, pos, end, 1, a.created_at, e2 + (e3 + (e4 + empty)));
    lemma_holds_split(s, pos, end, e1, e2, e3 + (e4 + empty));
    let p1 = pos + e1.len();
    lemma_timestamp_at(s, p1, end, 2, a.modified_at, e3 + (e4 + empty));
    lemma_holds_split(s, p1, end, e2, e3, e4 + empty);
    let p2 = p1 + e2.len();
    lemma_bytes_field(s, p2, end, 3, utf8(a.content_type), e4 + empty);
    lemma_holds_split(s, p2, end, e3, e4, empty);
    lemma_repeated_at(s, p2 + e3.len(), end, 4, xs, empty);
}

/// An encoded entry decodes to its model, wherever it lies.
pub proof fn lemma_entry_at(s: Seq<u8>, pos: int, end: int, e: Entry)
    requires
        holds_at(s, pos, end, entry_enc(e), Seq::empty()),
    ensures
        entry_at(s, pos, end) == Some(entry_model(e)),
{
    let empty = Seq::<u8>::empty();
    let pe = permissions_enc(e.permissions);
    let ae = attributes_enc(e.attributes);
    let e1 = bytes_field(1, utf8(e.path));
    let e2 = uint_field(2, e.length as nat);
    let e3 = owner_enc(e.owner);
    let e4 = len_field(6, pe);
    let e5 = len_field(7, ae);
    let e6 = kind_enc(e.kind);
    assert(entry_enc(e) == e1 + e2 + e3 + e4 + e5 + e6);
    let r5 = e6 + empty;
    let r4 = e5 + r5;
    let r3 = e4 + r4;
    let r2 = e3 + r3;
    let r1 = e2 + r2;
    lemma_holds_assoc(s, pos, end, e1 + e2 + e3 + e4 + e5, e6, empty);
    lemma_holds_assoc(s, pos, end, e1 + e2 + e3 + e4, e5, r5);
    lemma_holds_assoc(s, pos, end, e1 + e2 + e3, e4, r4);
    lemma_holds_assoc(s, pos, end, e1 + e2, e3, r3);
    lemma_holds_assoc(s, pos, end, e1, e2, r2);
    assert(e3.len() > 0);
    lemma_bytes_field(s, pos, end, 1, utf8(e.path), r1);
    lemma_holds_split(s, pos, end, e1, e2, r2);
    let p1 = pos + e1.len();
    lemma_uint_field(s, p1, end, 2, e.length as nat, r2);
    lemma_holds_split(s, p1, end, e2, e3, r3);
    let p2 = p1 + e2.len();
    lemma_owner_at(s, p2, end, e.owner, r3);
    lemma_holds_split(s, p2, end, e3, e4, r4);
    let p3 = p2 + e3.len();
    lemma_len_field(s, p3, end, 6, pe, r4);
    let a6 = p3 + 1 + crate::wire::varint(pe.len()).len();
    lemma_holds_inner(s, a6, a6 + pe.len(), pe);
    lemma_permissions_at(s, a6, a6 + pe.len(), e.permissions);
    lemma_holds_split(s, p3, end, e4, e5, r5);
    let p4 = p3 + e4.len();
    lemma_len_field(s, p4, end, 7, ae, r5);
    let a7 = p4 + 1 + crate::wire::varint(ae.len()).len();
    lemma_holds_inner(s, a7, a7 + ae.len(), ae);
    lemma_attributes_at(s, a7, a7 + ae.len(), e.attributes);
    lemma_holds_split(s, p4, end, e5, e6, empty);
    lemma_kind_at(s, p4 + e5.len(), end, e.kind, empty);
}

/// Decoding an encoded entry gives its model back, text that `Entry::decode`
/// accepts.
pub proof fn lemma_entry_round_trip(e: Entry)
    ensures
        entry_at(entry_enc(e), 0, entry_enc(e).len() as int) == Some(entry_model(e)),
        entry_text(entry_model(e)),
{
    lemma_entry_text(e);
    let s = entry_enc(e);
    assert(s.subrange(0, s.len() as int) =~= s);
    lemma_holds_inner(s, 0, s.len() as int, s);
    lemma_entry_at(s, 0, s.len() as int, e);
}

/// The encoded entries of an index decode to their models, in order.
#[verifier::rlimit(60)]
pub proof fn lemma_entries_at(s: Seq<u8>, pos: int, end: int, entries: Seq<Entry>, rest: Seq<u8>)
    requires
        holds_at(s, pos, end, index_enc(entries), rest),
        !starts_with(rest, key(1, WIRE_LEN)),
    ensures
        entries_at(s, pos, end) == Some((entries.map_values(|e: Entry| entry_model(e)), pos + index_enc(entries).len())),
    decreases entries.len(),
{
    let items = entries.map_values(|e: Entry| entry_enc(e));
    if entries.len() == 0 {
        assert(items =~= Seq::<Seq<u8>>::empty());
        if pos < end {
            assert(s[pos] == s.subrange(pos, end)[0]);
        }
        assert(entries.map_values(|e: Entry| entry_model(e)) =~= Seq::<EntryModel>::empty());
    } else {
        let x = entries[0];
        let tail = entries.drop_first();
        lemma_repeated_cons(1, items);
        assert(items.drop_first() =~= tail.map_values(|e: Entry| entry_enc(e)));
        let lf = len_field(1, entry_enc(x));
        let r = index_enc(tail);
        lemma_holds_assoc(s, pos, end, lf, r, rest);
        lemma_len_field(s, pos, end, 1, entry_enc(x), r + rest);
        assert(s[pos] == lf[0]);
        let a = pos + 1 + crate::wire::varint(entry_enc(x).len()).len();
        lemma_holds_inner(s, a, a + entry_enc(x).len(), entry_enc(x));
        lemma_entry_at(s, a, a + entry_enc(x).len(), x);
        lemma_holds_split(s, pos, end, lf, r, rest);
        lemma_entries_at(s, pos + lf.len(), end, tail, rest);
        assert(seq![entry_model(x)] + tail.map_values(|e: Entry| entry_model(e))
            =~= entries.map_values(|e: Entry| entry_model(e)));
    }
}

/// Encoded metadata decodes to its model, wherever it lies.
pub proof fn lemma_metadata_at(s: Seq<u8>, pos: int, end: int, m: Metadata)
    requires
        holds_at(s, pos, end, metadata_enc(m), Seq::empty()),
    ensures
        metadata_at(s, pos, end) == Some(metadata_model(m)),
{
    let empty = Seq::<u8>::empty();
    let e1: Seq<u8> = match m.index {
        Some(i) => len_field(1, index_enc(i.entries@)),
        None => seq![],
    };
    let e2 = timestamp_field(2, m.created_at);
    let e3 = bytes_field(3, utf8(m.username));
    let e4 = bytes_field(4, utf8(m.host));
    assert(metadata_enc(m) == e1 + e2 + e3 + e4);
    lemma_holds_assoc(s, pos, end, e1 + e2 + e3, e4, empty);
    lemma_holds_assoc(s, pos, end, e1 + e2, e3, e4 + empty);
    lemma_holds_assoc(s, pos, end, e1, e2, e3 + (e4 + empty));
    match m.index {
        Some(i) => {
            let ie = index_enc(i.entries@);
            lemma_len_field(s, pos, end, 1, ie, e2 + (e3 + (e4 + empty)));
            assert(s[pos] == e1[0]);
            let a = pos + 1 + crate::wire::varint(ie.len()).len();
            lemma_holds_inner(s, a, a + ie.len(), ie);
            lemma_entries_at(s, a, a + ie.len(), i.entries@, empty);
        },
        None => {
            if pos < end {
                assert(s[pos] == s.subrange(pos, end)[0]);
            }
        },
    }
    lemma_holds_split(s, pos, end, e1, e2, e3 + (e4 + empty));
    let p1 = pos + e1.len();
    lemma_timestamp_at(s, p1, end, 2, m.created_at, e3 + (e4 + empty));
    lemma_holds_split(s, p1, end, e2, e3, e4 + empty);
    let p2 = p1 + e2.len();
    lemma_bytes_field(s, p2, end, 3, utf8(m.username), e4 + empty);
    lemma_holds_split(s, p2, end, e3, e4, empty);
    lemma_bytes_field(s, p2 + e3.len(), end, 4, utf8(m.host), empty);
}

/// Decoding encoded metadata gives its model back (the index's entries in
/// order, the creation time, the user and the host), text that
/// `Metadata::decode` accepts.
pub proof fn lemma_metadata_round_trip(m: Metadata)
    ensures
        metadata_at(metadata_enc(m), 0, metadata_enc(m).len() as int) == Some(metadata_model(m)),
        metadata_text(metadata_model(m)),
{
    lemma_metadata_text(m);
    let s = metadata_enc(m);
    assert(s.subrange(0, s.len() as int) =~= s);
    lemma_holds_inner(s, 0, s.len() as int, s);
    lemma_metadata_at(s, 0, s.len() as int, m);
}

/// The bytes are the UTF-8 encoding of some text.
pub open spec fn is_text(b: Seq<u8>) -> bool {
    exists|c: Seq<char>| encode_utf8(c) == b
}

/// Every byte string in the list is text.
pub open spec fn all_text(items: Seq<Seq<u8>>) -> bool {
    forall|i: int| 0 <= i < items.len() ==> is_text(#[trigger] items[i])
}

/// The owner's names are text.
pub open spec fn owner_text(m: OwnerModel) -> bool {
    is_text(m.3) && is_text(m.4)
}

/// The ACL entries and labels are text.
pub open spec fn permissions_text(m: PermissionsModel) -> bool {
    all_text(m.1) && all_text(m.2)
}

/// The media type and extended attributes are text.
pub open spec fn attributes_text(m: AttributesModel) -> bool {
    is_text(m.2) && all_text(m.3)
}

/// A link's target is text.
pub open spec fn kind_text(m: KindModel) -> bool {
    is_text(m.2)
}

/// Every byte string that an entry holds as text is text.
pub open spec fn entry_text(m: EntryModel) -> bool {
    is_text(m.0) && owner_text(m.2) && permissions_text(m.3) && attributes_text(m.4) && kind_text(m.5)
}

/// Every byte string that metadata holds as text is text.
pub open spec fn metadata_text(m: MetadataModel) -> bool {
    &&& m.0 matches Some(es) ==> forall|i: int| 0 <= i < es.len() ==> entry_text(#[trigger] es[i])
    &&& is_text(m.2)
    &&& is_text(m.3)
}

/// Relies on `String::from_utf8`: it keeps the bytes, and accepts the UTF-8
/// encoding of any text.
#[verifier::external_body]
fn string_from_utf8(bytes: Vec<u8>) -> (r: Option<String>)
    ensures
        r matches Some(t) ==> utf8(t) == bytes@,
        is_text(bytes@) ==> r is Some,
{
    String::from_utf8(bytes).ok()
}

/// Decode the text in `s[a..b]`.
fn text_at(s: &[u8], a: usize, b: usize) -> (r: Option<String>)
    requires
        a <= b <= s@.len(),
    ensures
        r matches Some(t) ==> utf8(t) == s@.subrange(a as int, b as int),
        is_text(s@.subrange(a as int, b as int)) ==> r is Some,
{
    let mut bytes: Vec<u8> = Vec::new();
    append_range(&mut bytes, s, a, b);
    assert(bytes@ =~= s@.subrange(a as int, b as int));
    string_from_utf8(bytes)
}

/// Decode an optional text field at `pos`.
fn text_field_at(s: &[u8], pos: usize, end: usize, field: u8) -> (r: Option<(String, usize)>)
    requires
        pos <= end <= s@.len(),
        field < 16,
    ensures
        match bytes_field_at(s@, pos as int, end as int, field) {
            None => r is None,
            Some((b, p)) => (r matches Some((t, q)) ==> utf8(t) == b && q == p) && (is_text(b) ==> r is Some),
        },
{
    let (bytes, p) = decode_bytes_field(s, pos, end, field)?;
    let t = string_from_utf8(bytes)?;
    Some((t, p))
}

/// Decode a repeated text field at `pos`.
fn repeated_text_at(s: &[u8], pos: usize, end: usize, field: u8) -> (r: Option<(Vec<String>, usize)>)
    requires
        pos <= end <= s@.len(),
        field < 16,
    ensures
        match repeated_at(s@, pos as int, end as int, field) {
            None => r is None,
            Some((items, p)) => (r matches Some((v, q)) ==> v@.map_values(|t: String| utf8(t)) == items && q == p)
                && (all_text(items) ==> r is Some),
        },
        r matches Some((_, q)) ==> pos <= q <= end,
    decreases end - pos,
{
    if pos < end && s[pos] == field * 8 + WIRE_LEN {
        assert(key(field, WIRE_LEN) == field * 8 + WIRE_LEN);
        let (a, b) = decode_len_field(s, pos, end, field)?;
        if b <= pos {
            return None;
        }
        let t = text_at(s, a, b);
        let rest = repeated_text_at(s, b, end, field);
        proof {
            if let Some((items, p)) = repeated_at(s@, pos as int, end as int, field) {
                if all_text(items) {
                    assert(items[0] == s@.subrange(a as int, b as int));
                    let r2 = repeated_at(s@, b as int, end as int, field)->Some_0.0;
                    assert(items == seq![items[0]] + r2);
                    assert forall|i: int| 0 <= i < r2.len() implies is_text(#[trigger] r2[i]) by {
                        assert(r2[i] == items[i + 1]);
                    }
                }
            }
        }
        let t = t?;
        let (mut v, p) = rest?;
        let ghost tail = v@;
        v.insert(0, t);
        assert(v@.map_values(|t: String| utf8(t)) =~= seq![utf8(t)] + tail.map_values(|t: String| utf8(t)));
        Some((v, p))
    } else {
        assert(key(field, WIRE_LEN) == field * 8 + WIRE_LEN);
        let v: Vec<String> = Vec::new();
        assert(v@.map_values(|t: String| utf8(t)) =~= seq![]);
        Some((v, pos))
    }
}

/// Decode an optional timestamp field at `pos`.
fn timestamp_field_at(s: &[u8], pos: usize, end: usize, field: u8) -> (r: Option<(Option<Tai64n>, usize)>)
    requires
        pos <= end <= s@.len(),
        field < 16,
    ensures
        match timestamp_at(s@, pos as int, end as int, field) {
            None => r is None,
            Some((t, p)) => r matches Some((u, q)) && timestamp_model(u) == t && q == p,
        },
{
    assert(key(field, WIRE_LEN) == field * 8 + WIRE_LEN);
    if pos < end && s[pos] == field * 8 + WIRE_LEN {
        let (a, b) = decode_len_field(s, pos, end, field)?;
        match Tai64n::decode_range(s, a, b) {
            Ok(t) => Some((Some(t), b)),
            Err(_) => None,
        }
    } else {
        Some((None, pos))
    }
}

/// Decode the owner field at `pos`.
fn owner_field_at(s: &[u8], pos: usize, end: usize) -> (r: Option<(Owner, usize)>)
    requires
        pos <= end <= s@.len(),
    ensures
        match owner_at(s@, pos as int, end as int) {
            None => r is None,
            Some((m, p)) => (r matches Some((o, q)) ==> owner_model(o) == m && q == p)
                && (owner_text(m) ==> r is Some),
        },
{
    if pos >= end {
        return None;
    }
    let k = s[pos];
    if k == 26 {
        let (a, b) = decode_len_field(s, pos, end, 3)?;
        let (u, p1) = decode_uint_field(s, a, b, 1)?;
        let (g, p2) = decode_uint_field(s, p1, b, 2)?;
        if u <= u32::MAX as u64 && g <= u32::MAX as u64 && p2 == b {
            Some((Owner::Id { uid: u as u32, gid: g as u32 }, b))
        } else {
            None
        }
    } else if k == 34 {
        let (a, b) = decode_len_field(s, pos, end, 4)?;
        let (u, p1) = decode_bytes_field(s, a, b, 1)?;
        let (g, p2) = decode_bytes_field(s, p1, b, 2)?;
        if p2 != b {
            return None;
        }
        let u = string_from_utf8(u);
        let g = string_from_utf8(g);
        let u = u?;
        let g = g?;
        Some((Owner::Name { username: Name::from_text(u), groupname: Name::from_text(g) }, b))
    } else if k == 42 {
        let (a, b) = decode_len_field(s, pos, end, 5)?;
        if a == b {
            Some((Owner::Unspecified, b))
        } else {
            None
        }
    } else {
        None
    }
}

/// Decode the kind field at `pos`.
fn kind_field_at(s: &[u8], pos: usize, end: usize) -> (r: Option<(Kind, usize)>)
    requires
        pos <= end <= s@.len(),
    ensures
        match kind_at(s@, pos as int, end as int) {
            None => r is None,
            Some((m, p)) => (r matches Some((k, q)) ==> kind_model(k) == m && q == p)
                && (kind_text(m) ==> r is Some),
        },
{
    if pos >= end {
        return None;
    }
    let k = s[pos];
    if k == 66 {
        let (a, b) = decode_len_field(s, pos, end, 8)?;
        if a == b {
            assert(kind_model(Kind::File).2 =~= seq![]);
            Some((Kind::File, b))
        } else {
            None
        }
    } else if k == 74 {
        let (a, b) = decode_len_field(s, pos, end, 9)?;
        let (sym, p1) = decode_uint_field(s, a, b, 1)?;
        let (target, p2) = text_field_at(s, p1, b, 2)?;
        if p2 == b {
            Some((Kind::Link { symbolic: sym != 0, target }, b))
        } else {
            None
        }
    } else {
        None
    }
}

/// Wrap each decoded text.
fn to_posix_acls(texts: Vec<String>) -> (r: Vec<PosixAcl>)
    ensures
        r@.map_values(|x: PosixAcl| utf8(x.text())) == texts@.map_values(|t: String| utf8(t)),
{
    let mut r: Vec<PosixAcl> = Vec::new();
    let mut i: usize = 0;
    while i < texts.len()
        invariant
            i <= texts@.len(),
            r@.len() == i,
            forall|j: int| 0 <= j < i ==> (#[trigger] r@[j]).text() == texts@[j],
        decreases texts@.len() - i,
    {
        r.push(PosixAcl::from_text(texts[i].clone()));
        i = i + 1;
    }
    assert(r@.map_values(|x: PosixAcl| utf8(x.text())) =~= texts@.map_values(|t: String| utf8(t)));
    r
}

/// Wrap each decoded text.
fn to_selinux_labels(texts: Vec<String>) -> (r: Vec<SELinuxLabel>)
    ensures
        r@.map_values(|x: SELinuxLabel| utf8(x.text())) == texts@.map_values(|t: String| utf8(t)),
{
    let mut r: Vec<SELinuxLabel> = Vec::new();
    let mut i: usize = 0;
    while i < texts.len()
        invariant
            i <= texts@.len(),
            r@.len() == i,
            forall|j: int| 0 <= j < i ==> (#[trigger] r@[j]).text() == texts@[j],
        decreases texts@.len() - i,
    {
        r.push(SELinuxLabel::from_text(texts[i].clone()));
        i = i + 1;
    }
    assert(r@.map_values(|x: SELinuxLabel| utf8(x.text())) =~= texts@.map_values(|t: String| utf8(t)));
    r
}

/// Wrap each decoded text.
fn to_xattrs(texts: Vec<String>) -> (r: Vec<XAttr>)
    ensures
        r@.map_values(|x: XAttr| utf8(x.text())) == texts@.map_values(|t: String| utf8(t)),
{
    let mut r: Vec<XAttr> = Vec::new();
    let mut i: usize = 0;
    while i < texts.len()
        invariant
            i <= texts@.len(),
            r@.len() == i,
            forall|j: int| 0 <= j < i ==> (#[trigger] r@[j]).text() == texts@[j],
        decreases texts@.len() - i,
    {
        r.push(XAttr::from_text(texts[i].clone()));
        i = i + 1;
    }
    assert(r@.map_values(|x: XAttr| utf8(x.text())) =~= texts@.map_values(|t: String| utf8(t)));
    r
}

/// Decode permissions from `s[pos..end]`.
fn permissions_in(s: &[u8], pos: usize, end: usize) -> (r: Option<Permissions>)
    requires
        pos <= end <= s@.len(),
    ensures
        match permissions_at(s@, pos as int, end as int) {
            None => r is None,
            Some(m) => (r matches Some(p) ==> permissions_model(p) == m) && (permissions_text(m) ==> r is Some),
        },
{
    let (mode, p1) = decode_uint_field(s, pos, end, 1)?;
    let (acls, p2) = repeated_text_at(s, p1, end, 2)?;
    let (labels, p3) = repeated_text_at(s, p2, end, 3)?;
    if mode <= u32::MAX as u64 && p3 == end {
        Some(Permissions { mode: Mode(mode as u32), posix_acls: to_posix_acls(acls), selinux_labels: to_selinux_labels(labels) })
    } else {
        None
    }
}

/// Decode attributes from `s[pos..end]`.
fn attributes_in(s: &[u8], pos: usize, end: usize) -> (r: Option<Attributes>)
    requires
        pos <= end <= s@.len(),
    ensures
        match attributes_at(s@, pos as int, end as int) {
            None => r is None,
            Some(m) => (r matches Some(a) ==> attributes_model(a) == m) && (attributes_text(m) ==> r is Some),
        },
{
    let (created_at, p1) = timestamp_field_at(s, pos, end, 1)?;
    let (modified_at, p2) = timestamp_field_at(s, p1, end, 2)?;
    let (content_type, p3) = text_field_at(s, p2, end, 3)?;
    let (xattr, p4) = repeated_text_at(s, p3, end, 4)?;
    if p4 == end {
        Some(Attributes { created_at, modified_at, content_type, xattr: to_xattrs(xattr) })
    } else {
        None
    }
}

/// Decode an entry from `s[pos..end]`.
fn entry_in(s: &[u8], pos: usize, end: usize) -> (r: Option<Entry>)
    requires
        pos <= end <= s@.len(),
    ensures
        match entry_at(s@, pos as int, end as int) {
            None => r is None,
            Some(m) => (r matches Some(e) ==> entry_model(e) == m) && (entry_text(m) ==> r is Some),
        },
{
    let (path, p1) = text_field_at(s, pos, end, 1)?;
    let (length, p2) = decode_uint_field(s, p1, end, 2)?;
    let (owner, p3) = owner_field_at(s, p2, end)?;
    let (a6, b6) = decode_len_field(s, p3, end, 6)?;
    let permissions = permissions_in(s, a6, b6)?;
    let (a7, b7) = decode_len_field(s, b6, end, 7)?;
    let attributes = attributes_in(s, a7, b7)?;
    let (kind, p4) = kind_field_at(s, b7, end)?;
    if p4 != end {
        return None;
    }
    Some(Entry { path, length, owner, permissions, attributes, kind })
}

/// Decode the entries of an index at `pos`.
fn entries_field_at(s: &[u8], pos: usize, end: usize) -> (r: Option<(Vec<Entry>, usize)>)
    requires
        pos <= end <= s@.len(),
    ensures
        match entries_at(s@, pos as int, end as int) {
            None => r is None,
            Some((ms, p)) => (r matches Some((v, q)) ==> v@.map_values(|e: Entry| entry_model(e)) == ms && q == p)
                && ((forall|i: int| 0 <= i < ms.len() ==> entry_text(#[trigger] ms[i])) ==> r is Some),
        },
        r matches Some((_, q)) ==> pos <= q <= end,
    decreases end - pos,
{
    if pos < end && s[pos] == 10 {
        assert(key(1, WIRE_LEN) == 10);
        let (a, b) = decode_len_field(s, pos, end, 1)?;
        if b <= pos {
            return None;
        }
        let e = entry_in(s, a, b);
        let rest = entries_field_at(s, b, end);
        proof {
            if let Some((ms, p)) = entries_at(s@, pos as int, end as int) {
                if forall|i: int| 0 <= i < ms.len() ==> entry_text(#[trigger] ms[i]) {
                    let r2 = entries_at(s@, b as int, end as int)->Some_0.0;
                    assert(ms == seq![ms[0]] + r2);
                    assert(entry_text(ms[0]));
                    assert forall|i: int| 0 <= i < r2.len() implies entry_text(#[trigger] r2[i]) by {
                        assert(r2[i] == ms[i + 1]);
                    }
                }
            }
        }
        let e = e?;
        let (mut v, p) = rest?;
        let ghost tail = v@;
        v.insert(0, e);
        assert(v@.map_values(|e: Entry| entry_model(e))
            =~= seq![entry_model(e)] + tail.map_values(|e: Entry| entry_model(e)));
        Some((v, p))
    } else {
        assert(key(1, WIRE_LEN) == 10);
        let v: Vec<Entry> = Vec::new();
        assert(v@.map_values(|e: Entry| entry_model(e)) =~= seq![]);
        Some((v, pos))
    }
}

/// Decode metadata from `s[pos..end]`.
fn metadata_in(s: &[u8], pos: usize, end: usize) -> (r: Option<Metadata>)
    requires
        pos <= end <= s@.len(),
    ensures
        match metadata_at(s@, pos as int, end as int) {
            None => r is None,
            Some(m) => (r matches Some(d) ==> metadata_model(d) == m) && (metadata_text(m) ==> r is Some),
        },
{
    assert(key(1, WIRE_LEN) == 10);
    let (index, p1) = if pos < end && s[pos] == 10 {
        let (a, b) = decode_len_field(s, pos, end, 1)?;
        let found = entries_field_at(s, a, b);
        proof {
            if let Some(m) = metadata_at(s@, pos as int, end as int) {
                if metadata_text(m) {
                    let es = entries_at(s@, a as int, b as int)->Some_0.0;
                    assert(m.0 == Some(es));
                    assert forall|i: int| 0 <= i < es.len() implies entry_text(#[trigger] es[i]) by {
                        assert(entry_text(m.0->Some_0[i]));
                    }
                }
            }
        }
        let (entries, p) = found?;
        if p != b {
            return None;
        }
        (Some(Index::new(entries)), b)
    } else {
        (None, pos)
    };
    let (created_at, p2) = timestamp_field_at(s, p1, end, 2)?;
    let (username, p3) = text_field_at(s, p2, end, 3)?;
    let (host, p4) = text_field_at(s, p3, end, 4)?;
    if p4 != end {
        return None;
    }
    Some(Metadata { index, created_at, username, host })
}

impl Entry {
    /// Decode an entry. Bytes that are no encoded entry, or whose text is not
    /// UTF-8, are a `Parse` error.
    pub fn decode(bytes: &[u8]) -> (r: Result<Entry, Error>)
        ensures
            match entry_at(bytes@, 0, bytes@.len() as int) {
                None => r is Err,
                Some(m) => (r is Ok ==> entry_model(r->Ok_0) == m) && (entry_text(m) ==> r is Ok),
            },
            r is Err ==> r->Err_0.kind == ErrorKind::Parse,
    {
        match entry_in(bytes, 0, bytes.len()) {
            Some(e) => Ok(e),
            None => Err(Error::new(ErrorKind::Parse)),
        }
    }
}

impl Metadata {
    /// Decode metadata. Bytes that are no encoded metadata, or whose text is
    /// not UTF-8, are a `Parse` error.
    pub fn decode(bytes: &[u8]) -> (r: Result<Metadata, Error>)
        ensures
            match metadata_at(bytes@, 0, bytes@.len() as int) {
                None => r is Err,
                Some(m) => (r is Ok ==> metadata_model(r->Ok_0) == m) && (metadata_text(m) ==> r is Ok),
            },
            r is Err ==> r->Err_0.kind == ErrorKind::Parse,
    {
        match metadata_in(bytes, 0, bytes.len()) {
            Some(m) => Ok(m),
            None => Err(Error::new(ErrorKind::Parse)),
        }
    }
}

/// A string's UTF-8 bytes are text.
proof fn lemma_utf8_is_text(t: String)
    ensures
        is_text(utf8(t)),
{
    assert(encode_utf8(t@) == utf8(t));
}

/// Everything an entry holds as text encodes as text.
pub proof fn lemma_entry_text(e: Entry)
    ensures
        entry_text(entry_model(e)),
{
    let m = entry_model(e);
    lemma_utf8_is_text(e.path);
    assert(is_text(seq![])) by {
        assert(encode_utf8(Seq::<char>::empty()) =~= Seq::<u8>::empty());
    }
    match e.owner {
        Owner::Name { username, groupname } => {
            lemma_utf8_is_text(username.text());
            lemma_utf8_is_text(groupname.text());
        },
        _ => {},
    }
    assert forall|i: int| 0 <= i < m.3.1.len() implies is_text(#[trigger] m.3.1[i]) by {
        lemma_utf8_is_text(e.permissions.posix_acls@[i].text());
    }
    assert forall|i: int| 0 <= i < m.3.2.len() implies is_text(#[trigger] m.3.2[i]) by {
        lemma_utf8_is_text(e.permissions.selinux_labels@[i].text());
    }
    lemma_utf8_is_text(e.attributes.content_type);
    assert forall|i: int| 0 <= i < m.4.3.len() implies is_text(#[trigger] m.4.3[i]) by {
        lemma_utf8_is_text(e.attributes.xattr@[i].text());
    }
    match e.kind {
        Kind::Link { symbolic, target } => {
            lemma_utf8_is_text(target);
        },
        _ => {},
    }
}

/// Everything metadata holds as text encodes as text.
pub proof fn lemma_metadata_text(m: Metadata)
    ensures
        metadata_text(metadata_model(m)),
{
    let mm = metadata_model(m);
    match m.index {
        Some(i) => {
            assert forall|k: int| 0 <= k < mm.0->Some_0.len() implies entry_text(#[trigger] mm.0->Some_0[k]) by {
                lemma_entry_text(i.entries@[k]);
            }
        },
        None => {},
    }
    lemma_utf8_is_text(m.username);
    lemma_utf8_is_text(m.host);
}

} // verus!
