use sear::entry::{
    Attributes, Entry, FileType, Kind, Mode, Name, Owner, Permissions, PosixAcl, SELinuxLabel, XAttr,
    DEFAULT_MODE,
};
use sear::error::ErrorKind;
use sear::metadata::{Index, Metadata};
use sear::protos::{Footer, Header, Tai64n};
use sear::wire::{decode_varint, encode_varint};

#[test]
fn varint_encoding() {
    let mut out = vec![];
    encode_varint(300, &mut out);
    assert_eq!(out, vec![0xac, 0x02]);
    assert_eq!(decode_varint(&out, 0, 2), Some((300, 2)));
    let mut max = vec![];
    encode_varint(u64::MAX, &mut max);
    assert_eq!(max.len(), 10);
    assert_eq!(decode_varint(&max, 0, 10), Some((u64::MAX, 10)));
    assert_eq!(decode_varint(&[0x80], 0, 1), None);
    let too_big = [0xff, 0xff, 0xff, 0xff, 0xff, 0xff, 0xff, 0xff, 0xff, 0x02];
    assert_eq!(decode_varint(&too_big, 0, 10), None);
}

#[test]
fn header_encoding_and_round_trip() {
    let h = Header {
        uuid: b"\nab\n".to_vec(),
        chunk_size: 1024,
        encryption_key_fingerprint: vec![],
        signing_key_fingerprint: vec![],
    };
    let bytes = h.to_vec();
    assert_eq!(bytes, vec![0x0a, 4, b'\n', b'a', b'b', b'\n', 0x10, 0x80, 0x08]);
    assert_eq!(Header::decode(&bytes).unwrap(), h);
    let full = Header {
        uuid: b"u".to_vec(),
        chunk_size: 0,
        encryption_key_fingerprint: b"e".to_vec(),
        signing_key_fingerprint: b"s".to_vec(),
    };
    assert_eq!(Header::decode(&full.to_vec()).unwrap(), full);
}

#[test]
fn footer_encoding_and_round_trip() {
    let f = Footer { metadata_length: 300, signature: vec![] };
    let bytes = f.to_vec();
    assert_eq!(bytes, vec![0x08, 0xac, 0x02]);
    assert_eq!(Footer::decode(&bytes).unwrap(), f);
    let g = Footer { metadata_length: 0, signature: b"sig".to_vec() };
    assert_eq!(Footer::decode(&g.to_vec()).unwrap(), g);
    assert_eq!(Footer::decode(&[]).unwrap(), Footer { metadata_length: 0, signature: vec![] });
}

#[test]
fn decoding_rejects_garbage() {
    assert_eq!(Footer::decode(&[0x08]).unwrap_err().kind(), ErrorKind::Parse);
    assert_eq!(Footer::decode(&[0x7f, 0x00]).unwrap_err().kind(), ErrorKind::Parse);
    assert_eq!(Header::decode(&[0x0a, 5, 1]).unwrap_err().kind(), ErrorKind::Parse);
    assert_eq!(Tai64n::decode(&[0x0a, 1, 1, 0]).unwrap_err().kind(), ErrorKind::Parse);
}

#[test]
fn timestamp_round_trip() {
    let t = Tai64n { value: vec![0x40, 0, 0, 0, 1, 2, 3, 4, 0, 0, 0, 9] };
    let bytes = t.to_vec();
    assert_eq!(bytes.len(), 14);
    assert_eq!(Tai64n::decode(&bytes).unwrap(), t);
}

#[test]
fn names() {
    assert_eq!(Name::parse("alice").unwrap().as_str(), "alice");
    assert_eq!(Name::parse("a-1").unwrap().as_str(), "a-1");
    assert_eq!(Name::parse("").unwrap_err().kind(), ErrorKind::Parse);
    assert_eq!(Name::parse("1abc").unwrap_err().kind(), ErrorKind::Parse);
    assert_eq!(Name::parse("-abc").unwrap_err().kind(), ErrorKind::Parse);
    assert_eq!(Name::parse("Alice").unwrap_err().kind(), ErrorKind::Parse);
    assert_eq!(Name::parse("al ice").unwrap_err().kind(), ErrorKind::Parse);
}

#[test]
fn labels_may_not_be_empty() {
    assert_eq!(PosixAcl::parse("user::rw-").unwrap().as_str(), "user::rw-");
    assert_eq!(PosixAcl::parse("").unwrap_err().kind(), ErrorKind::Parse);
    assert_eq!(SELinuxLabel::parse("system_u:object_r:etc_t:s0").unwrap().as_str(), "system_u:object_r:etc_t:s0");
    assert_eq!(SELinuxLabel::parse("").unwrap_err().kind(), ErrorKind::Parse);
    assert_eq!(XAttr::parse("user.comment").unwrap().as_str(), "user.comment");
    assert_eq!(XAttr::parse("").unwrap_err().kind(), ErrorKind::Parse);
}

#[test]
fn permissions_default_mode() {
    let p = Permissions::for_file(None);
    assert_eq!(p.mode, Mode(0o644));
    assert_eq!(DEFAULT_MODE, 0o644);
    assert!(p.posix_acls.is_empty() && p.selinux_labels.is_empty());
    assert_eq!(Permissions::for_file(Some(0o100755)).mode, Mode(0o100755));
}

fn bare_entry() -> Entry {
    Entry {
        path: "a".to_string(),
        length: 0,
        owner: Owner::Unspecified,
        permissions: Permissions { mode: Mode(0), posix_acls: vec![], selinux_labels: vec![] },
        attributes: Attributes {
            created_at: None,
            modified_at: None,
            content_type: String::new(),
            xattr: vec![],
        },
        kind: Kind::File,
    }
}

#[test]
fn entry_encoding() {
    let e = bare_entry();
    assert_eq!(e.to_vec(), vec![0x0a, 1, b'a', 0x2a, 0, 0x32, 0, 0x3a, 0, 0x42, 0]);
    let link = Entry {
        length: 3,
        owner: Owner::Id { uid: 1, gid: 2 },
        kind: Kind::Link { symbolic: true, target: "b".to_string() },
        ..bare_entry()
    };
    assert_eq!(
        link.to_vec(),
        vec![0x0a, 1, b'a', 0x10, 3, 0x1a, 4, 0x08, 1, 0x10, 2, 0x32, 0, 0x3a, 0, 0x4a, 5, 0x08, 1, 0x12, 1, b'b']
    );
}

#[test]
fn named_owner_and_lists_encoding() {
    let e = Entry {
        owner: Owner::Name {
            username: Name::parse("u").unwrap(),
            groupname: Name::parse("g").unwrap(),
        },
        permissions: Permissions {
            mode: Mode(1),
            posix_acls: vec![PosixAcl::parse("x").unwrap()],
            selinux_labels: vec![SELinuxLabel::parse("y").unwrap(), SELinuxLabel::parse("z").unwrap()],
        },
        attributes: Attributes {
            created_at: Some(Tai64n { value: vec![1] }),
            modified_at: None,
            content_type: "t".to_string(),
            xattr: vec![XAttr::parse("w").unwrap()],
        },
        ..bare_entry()
    };
    assert_eq!(
        e.to_vec(),
        vec![
            0x0a, 1, b'a', //
            0x22, 6, 0x0a, 1, b'u', 0x12, 1, b'g', //
            0x32, 11, 0x08, 1, 0x12, 1, b'x', 0x1a, 1, b'y', 0x1a, 1, b'z', //
            0x3a, 11, 0x0a, 3, 0x0a, 1, 1, 0x1a, 1, b't', 0x22, 1, b'w', //
            0x42, 0,
        ]
    );
}

#[test]
fn metadata_encoding() {
    let m = Metadata {
        index: Some(Index::new(vec![bare_entry(), bare_entry()])),
        created_at: None,
        username: "me".to_string(),
        host: String::new(),
    };
    let e = bare_entry().to_vec();
    let mut index = vec![0x0a, e.len() as u8];
    index.extend(&e);
    index.push(0x0a);
    index.push(e.len() as u8);
    index.extend(&e);
    let mut expected = vec![0x0a, index.len() as u8];
    expected.extend(index);
    expected.extend(vec![0x1a, 2, b'm', b'e']);
    assert_eq!(m.to_vec(), expected);
}

fn rich_entry() -> Entry {
    Entry {
        path: "dir/ünï.txt".to_string(),
        length: 70_000,
        owner: Owner::Name {
            username: Name::parse("alice").unwrap(),
            groupname: Name::parse("staff-2").unwrap(),
        },
        permissions: Permissions {
            mode: Mode(0o100640),
            posix_acls: vec![PosixAcl::parse("user:bob:r--").unwrap()],
            selinux_labels: vec![SELinuxLabel::parse("system_u:object_r:etc_t:s0").unwrap()],
        },
        attributes: Attributes {
            created_at: Some(Tai64n { value: vec![0x40, 0, 0, 0, 0x5e, 1, 2, 3, 0, 0, 0, 7] }),
            modified_at: Some(Tai64n { value: vec![0x40, 0, 0, 0, 0x5e, 1, 2, 4, 0, 0, 0, 8] }),
            content_type: "text/plain".to_string(),
            xattr: vec![XAttr::parse("user.a").unwrap(), XAttr::parse("user.b").unwrap()],
        },
        kind: Kind::Link { symbolic: true, target: "../elsewhere".to_string() },
    }
}

#[test]
fn entries_decode_to_what_was_encoded() {
    for e in [bare_entry(), rich_entry()] {
        assert_eq!(Entry::decode(&e.to_vec()).unwrap(), e);
    }
    let id_owner = Entry { owner: Owner::Id { uid: 0, gid: 4_000_000_000 }, ..bare_entry() };
    assert_eq!(Entry::decode(&id_owner.to_vec()).unwrap(), id_owner);
}

#[test]
fn metadata_decodes_to_what_was_encoded() {
    let m = Metadata {
        index: Some(Index::new(vec![bare_entry(), rich_entry(), bare_entry()])),
        created_at: Some(Tai64n { value: vec![1; 12] }),
        username: "me".to_string(),
        host: "box".to_string(),
    };
    assert_eq!(Metadata::decode(&m.to_vec()).unwrap(), m);
    let empty = Metadata { index: None, created_at: None, username: String::new(), host: String::new() };
    assert!(empty.to_vec().is_empty());
    assert_eq!(Metadata::decode(&[]).unwrap(), empty);
}

#[test]
fn decoding_entries_rejects_bad_input() {
    assert_eq!(Entry::decode(&[]).unwrap_err().kind(), ErrorKind::Parse);
    let mut bytes = bare_entry().to_vec();
    bytes.push(0);
    assert_eq!(Entry::decode(&bytes).unwrap_err().kind(), ErrorKind::Parse);
    let bad_utf8 = vec![0x0a, 1, 0xff, 0x2a, 0, 0x32, 0, 0x3a, 0, 0x42, 0];
    assert_eq!(Entry::decode(&bad_utf8).unwrap_err().kind(), ErrorKind::Parse);
    assert_eq!(Metadata::decode(&[0x0a, 3, 0x0a, 1, 0]).unwrap_err().kind(), ErrorKind::Parse);
}

#[test]
fn entries_for_files() {
    let t = Some(Tai64n { value: vec![0x40, 0, 0, 0, 0, 0, 0, 1, 0, 0, 0, 0] });
    let file = Entry::for_file(
        "foo.txt".to_string(),
        FileType::File,
        42,
        Owner::Id { uid: 1, gid: 2 },
        Some(0o100600),
        t.clone(),
        None,
        "text/plain".to_string(),
    )
    .unwrap();
    assert_eq!(file.length, 42);
    assert_eq!(file.kind, Kind::File);
    assert_eq!(file.permissions.mode, Mode(0o100600));
    assert_eq!(file.attributes.content_type, "text/plain");
    assert_eq!(file.attributes.created_at, t);

    let link = Entry::for_file(
        "l".to_string(),
        FileType::Symlink("target".to_string()),
        6,
        Owner::Unspecified,
        None,
        None,
        None,
        String::new(),
    )
    .unwrap();
    assert_eq!(link.length, 0);
    assert_eq!(link.kind, Kind::Link { symbolic: true, target: "target".to_string() });
    assert_eq!(link.attributes.content_type, "inode/symlink");
    assert_eq!(link.permissions.mode, Mode(0o644));

    let dir = Entry::for_file(
        "d".to_string(),
        FileType::Other,
        4096,
        Owner::Unspecified,
        None,
        None,
        None,
        String::new(),
    );
    assert_eq!(dir.unwrap_err().kind(), ErrorKind::Path);
    assert_eq!(Kind::for_file(&FileType::Other).unwrap_err().kind(), ErrorKind::Path);
    assert_eq!(
        Attributes::for_file(&FileType::Symlink("x".to_string()), None, None, "text/x".to_string()).content_type,
        "inode/symlink"
    );
}

#[test]
fn labels_parse_through_from_str() {
    let n: Name = "bob".parse().unwrap();
    assert_eq!(n.as_str(), "bob");
    assert_eq!("".parse::<Name>().unwrap_err().kind(), ErrorKind::Parse);
    assert_eq!("".parse::<PosixAcl>().unwrap_err().kind(), ErrorKind::Parse);
    assert_eq!("".parse::<SELinuxLabel>().unwrap_err().kind(), ErrorKind::Parse);
    assert_eq!("user.x".parse::<XAttr>().unwrap().as_str(), "user.x");
}
