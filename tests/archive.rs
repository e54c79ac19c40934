use aes_gcm::aead::{AeadInOut, KeyInit};
use cryptouri::secret_key::ExposeSecret;
use sear::builder::{compute_aad, magic_bytes, pad_with_newlines, read_footer, read_header};
use sear::crypto::kdf::{DerivedAlgorithm, Key};
use sear::crypto::writer::ChunkSize;
use sear::entry::{Attributes, Entry, Kind, Owner, Permissions};
use sear::error::ErrorKind;
use sear::metadata::{Index, Metadata};
use sear::protos::{Footer, Header, Tai64n};
use sear::{Builder, KeyRing};

const AES_KEY: &str =
    "crypto:sec:key:hkdfsha256+aes256gcm:pv9skzctpv9skzctpv9skzctpv9skzctpv9skzctpv9skzctpv9sxm0sk0";
const CHACHA_KEY: &str = "crypto:sec:key:hkdfsha256+chacha20poly1305:pv9skzctpv9skzctpv9skzctpv9skzctpv9skzctpv9skzctpv9s3r0lad";
const PLAIN_HKDF_KEY: &str =
    "crypto:sec:key:hkdfsha256:pv9skzctpv9skzctpv9skzctpv9skzctpv9skzctpv9skzctpv9srmexrr";
const AES128_KEY: &str =
    "crypto:sec:key:hkdfsha256+aes128gcm:pv9skzctpv9skzctpv9skzctpv9skzctpv9skzctpv9skzctpv9sarehxr";
const UUID: &str = "0b6e1ad1-6ad4-4f5a-9d2c-0b84bd8b07a5";

fn entry(path: &str, length: u64) -> Entry {
    Entry {
        path: path.to_string(),
        length,
        owner: Owner::Id { uid: 1000, gid: 1000 },
        permissions: Permissions::for_file(Some(0o100644)),
        attributes: Attributes {
            created_at: None,
            modified_at: None,
            content_type: "text/plain".to_string(),
            xattr: vec![],
        },
        kind: Kind::File,
    }
}

fn stamp() -> Tai64n {
    Tai64n { value: vec![0x40, 0, 0, 0, 0x5e, 0, 0, 0, 0, 0, 0, 1] }
}

/// Split an archive into header, body and footer, checking the framing.
fn sections(archive: &[u8]) -> (Header, Vec<u8>, Footer) {
    assert_eq!(&archive[..6], b"sear:0");
    let hl = u16::from_le_bytes([archive[6], archive[7]]) as usize;
    let header = Header::decode(&archive[8..8 + hl]).unwrap();
    assert_eq!(read_header(archive).unwrap(), header);
    let n = archive.len();
    let fl = u16::from_le_bytes([archive[n - 2], archive[n - 1]]) as usize;
    let footer = Footer::decode(&archive[n - 2 - fl..n - 2]).unwrap();
    assert_eq!(read_footer(archive).unwrap(), footer);
    (header, archive[8 + hl..n - 2 - fl].to_vec(), footer)
}

fn build(key: &Key, chunk_size: ChunkSize, files: &[(&str, Vec<u8>)]) -> Vec<u8> {
    let mut b = Builder::new_with_uuid(key, UUID, chunk_size).unwrap();
    let mut out = b.take_output();
    for (path, data) in files {
        b.append(entry(path, 0), data).unwrap();
        out.extend(b.take_output());
    }
    out.extend(b.finish_at(stamp()).unwrap());
    out
}

fn metadata_for(files: &[(&str, Vec<u8>)]) -> Vec<u8> {
    let entries = files.iter().map(|(p, d)| entry(p, d.len() as u64)).collect();
    Metadata {
        index: Some(Index::new(entries)),
        created_at: Some(stamp()),
        username: String::new(),
        host: String::new(),
    }
    .to_vec()
}

/// Decrypt the body with the AES-256-GCM key the archive derives.
fn decrypt_body(body: &[u8], chunk: usize) -> Result<Vec<u8>, ()> {
    let uri = cryptouri::CryptoUri::parse_uri(AES_KEY).unwrap();
    let hkdf_key = uri.secret_key().unwrap().hkdfsha256_key().unwrap().clone();
    let mut okm = [0u8; 32];
    hkdf::Hkdf::<sha2::Sha256>::new(Some(UUID.as_bytes()), hkdf_key.expose_secret())
        .expand(b"sear:0", &mut okm)
        .unwrap();
    let cipher = aes_gcm::Aes256Gcm::new(&okm.into());
    let mut plaintext = vec![];
    let chunks: Vec<&[u8]> = body.chunks(chunk + 16).collect();
    for (i, c) in chunks.iter().enumerate() {
        let mut nonce = [0u8; 12];
        nonce[8..].copy_from_slice(&(i as u32).to_le_bytes());
        if i + 1 == chunks.len() {
            nonce[7] |= 1;
        }
        let mut buf = c.to_vec();
        cipher.decrypt_in_place(&nonce.into(), b"sear:0", &mut buf).map_err(|_| ())?;
        plaintext.extend(buf);
    }
    Ok(plaintext)
}

#[test]
fn archive_starts_with_magic_and_header() {
    let key = Key::parse_uri(AES_KEY).unwrap();
    let archive = build(&key, ChunkSize::Kib1, &[("foo.txt", b"foo".to_vec())]);
    let (header, _, _) = sections(&archive);
    assert_eq!(header.uuid, format!("\n{}\n", UUID).into_bytes());
    assert_eq!(header.chunk_size, 1024);
    assert!(header.encryption_key_fingerprint.is_empty());
    assert!(header.signing_key_fingerprint.is_empty());
}

#[test]
fn footer_records_metadata_length_and_body_decrypts() {
    let key = Key::parse_uri(AES_KEY).unwrap();
    let files = vec![
        ("foo.txt", b"foo contents\n".to_vec()),
        ("bar.txt", vec![7u8; 3000]),
        ("baz.txt", b"baz".to_vec()),
    ];
    let archive = build(&key, ChunkSize::Kib1, &files);
    let (_, body, footer) = sections(&archive);
    let metadata = metadata_for(&files);
    assert_eq!(footer.metadata_length, metadata.len() as u64);
    assert!(footer.signature.is_empty());
    let plaintext = decrypt_body(&body, 1024).unwrap();
    let mut expected: Vec<u8> = files.iter().flat_map(|(_, d)| d.clone()).collect();
    let payload_len = expected.len();
    expected.extend(metadata);
    assert_eq!(plaintext, expected);
    assert_eq!(payload_len, 13 + 3000 + 3);
    let index = Metadata::decode(&plaintext[payload_len..]).unwrap().index.unwrap();
    let paths: Vec<&str> = index.entries.iter().map(|e| e.path.as_str()).collect();
    assert_eq!(paths, vec!["foo.txt", "bar.txt", "baz.txt"]);
    let lengths: Vec<u64> = index.entries.iter().map(|e| e.length).collect();
    assert_eq!(lengths, vec![13, 3000, 3]);
}

#[test]
fn flipped_last_byte_fails_decryption() {
    let key = Key::parse_uri(AES_KEY).unwrap();
    let files = vec![("foo.txt", vec![1u8; 2000])];
    let archive = build(&key, ChunkSize::Kib1, &files);
    let (_, mut body, _) = sections(&archive);
    assert!(decrypt_body(&body, 1024).is_ok());
    let last = body.len() - 1;
    body[last] ^= 1;
    assert!(decrypt_body(&body, 1024).is_err());
}

#[test]
fn swapped_chunks_fail_decryption() {
    let key = Key::parse_uri(AES_KEY).unwrap();
    let files = vec![("foo.txt", (0..3000u32).map(|i| i as u8).collect::<Vec<u8>>())];
    let archive = build(&key, ChunkSize::Kib1, &files);
    let (_, body, _) = sections(&archive);
    let mut swapped = body[1040..2080].to_vec();
    swapped.extend_from_slice(&body[..1040]);
    swapped.extend_from_slice(&body[2080..]);
    assert!(decrypt_body(&swapped, 1024).is_err());
}

#[test]
fn zero_byte_file_gives_well_formed_archive() {
    let key = Key::parse_uri(AES_KEY).unwrap();
    let files = vec![("empty.txt", vec![])];
    let archive = build(&key, ChunkSize::Kib1, &files);
    let (_, body, footer) = sections(&archive);
    let metadata = metadata_for(&files);
    assert_eq!(footer.metadata_length, metadata.len() as u64);
    assert_eq!(body.len(), metadata.len() + 16);
    assert_eq!(decrypt_body(&body, 1024).unwrap(), metadata);
}

#[test]
fn file_of_exactly_one_chunk_leaves_metadata_to_the_last_chunk() {
    let key = Key::parse_uri(AES_KEY).unwrap();
    let files = vec![("one.bin", vec![5u8; 1024])];
    let archive = build(&key, ChunkSize::Kib1, &files);
    let (_, body, _) = sections(&archive);
    let metadata = metadata_for(&files);
    assert!(metadata.len() < 1024);
    assert_eq!(body.len(), 1040 + metadata.len() + 16);
}

#[test]
fn different_uuids_give_different_archives() {
    let key = Key::parse_uri(AES_KEY).unwrap();
    let mut a = Builder::new(&key, ChunkSize::Kib1).unwrap();
    let mut b = Builder::new(&key, ChunkSize::Kib1).unwrap();
    a.append(entry("x", 0), b"same").unwrap();
    b.append(entry("x", 0), b"same").unwrap();
    let mut x = a.take_output();
    x.extend(a.finish_at(stamp()).unwrap());
    let mut y = b.take_output();
    y.extend(b.finish_at(stamp()).unwrap());
    assert_eq!(&x[..6], &y[..6]);
    assert_ne!(x, y);
    let (hx, bx, _) = sections(&x);
    let (hy, by, _) = sections(&y);
    assert_ne!(hx.uuid, hy.uuid);
    assert_ne!(bx, by);
}

#[test]
fn chacha_key_builds_an_archive() {
    let key = Key::parse_uri(CHACHA_KEY).unwrap();
    assert_eq!(key.algorithm(), DerivedAlgorithm::ChaCha20Poly1305);
    let archive = build(&key, ChunkSize::Kib128, &[("a", b"abc".to_vec())]);
    let (header, body, footer) = sections(&archive);
    assert_eq!(header.chunk_size, 131_072);
    assert_eq!(body.len() as u64, 3 + footer.metadata_length + 16);
}

#[test]
fn mismatched_entry_length_is_an_argument_error() {
    let key = Key::parse_uri(AES_KEY).unwrap();
    let mut b = Builder::new_with_uuid(&key, UUID, ChunkSize::Kib1).unwrap();
    let err = b.append(entry("foo.txt", 5), b"abc").unwrap_err();
    assert_eq!(err.kind(), ErrorKind::Argument);
    b.close_entry(entry("foo.txt", 3)).unwrap();
}

#[test]
fn entry_length_is_filled_in_and_kept() {
    let key = Key::parse_uri(AES_KEY).unwrap();
    let mut b = Builder::new_with_uuid(&key, UUID, ChunkSize::Kib1).unwrap();
    b.write_entry_data(b"ab").unwrap();
    b.write_entry_data(b"cd").unwrap();
    b.close_entry(entry("a", 0)).unwrap();
    b.append(entry("b", 2), b"xy").unwrap();
    let mut out = b.take_output();
    out.extend(b.finish_at(stamp()).unwrap());
    let (_, body, _) = sections(&out);
    let files = vec![("a", b"abcd".to_vec()), ("b", b"xy".to_vec())];
    let mut expected = b"abcdxy".to_vec();
    expected.extend(metadata_for(&files));
    assert_eq!(decrypt_body(&body, 1024).unwrap(), expected);
}

#[test]
fn finishing_with_an_open_entry_is_an_argument_error() {
    let key = Key::parse_uri(AES_KEY).unwrap();
    let mut b = Builder::new_with_uuid(&key, UUID, ChunkSize::Kib1).unwrap();
    b.write_entry_data(b"dangling").unwrap();
    assert_eq!(b.finish_at(stamp()).unwrap_err().kind(), ErrorKind::Argument);
}

#[test]
fn unsupported_keys_are_parse_errors() {
    assert_eq!(Key::parse_uri(PLAIN_HKDF_KEY).err().unwrap().kind(), ErrorKind::Parse);
    assert_eq!(Key::parse_uri(AES128_KEY).err().unwrap().kind(), ErrorKind::Parse);
    assert_eq!(Key::parse_uri("not a key").err().unwrap().kind(), ErrorKind::Parse);
    let trailing = format!("{}\n", AES_KEY);
    assert_eq!(Key::parse_uri(&trailing).unwrap().algorithm(), DerivedAlgorithm::Aes256Gcm);
}

#[test]
fn keyring_holds_loaded_key() {
    let mut ring = KeyRing::new();
    assert!(ring.symmetric_key().is_none());
    assert_eq!(ring.load_symmetric_key(PLAIN_HKDF_KEY).unwrap_err().kind(), ErrorKind::Parse);
    assert_eq!(ring.symmetric_key_count(), 0);
    ring.load_symmetric_key(AES_KEY).unwrap();
    assert_eq!(ring.symmetric_key_count(), 1);
    assert_eq!(ring.symmetric_key().unwrap().algorithm(), DerivedAlgorithm::Aes256Gcm);
    ring.add_symmetric_key(Key::parse_uri(CHACHA_KEY).unwrap());
    assert_eq!(ring.symmetric_key_count(), 2);
}

#[test]
fn preamble_helpers() {
    assert_eq!(magic_bytes(), b"sear:0".to_vec());
    assert_eq!(compute_aad(), b"sear:0".to_vec());
    assert_eq!(pad_with_newlines("abc"), b"\nabc\n".to_vec());
}

#[test]
fn new_v4_is_a_hyphenated_uuid() {
    let u = sear::uuid::new_v4().unwrap();
    assert_eq!(u.len(), 36);
    assert_eq!(u.as_bytes()[14], b'4');
    assert_ne!(u, sear::uuid::new_v4().unwrap());
}

#[test]
fn now_is_twelve_bytes() {
    let t = Tai64n::now();
    assert_eq!(t.value.len(), 12);
    assert_eq!(t.value[0], 0x40);
}

#[test]
fn readers_reject_malformed_archives() {
    assert_eq!(read_header(b"sear:0").unwrap_err().kind(), ErrorKind::Parse);
    assert_eq!(read_header(b"tar:00\x00\x00").unwrap_err().kind(), ErrorKind::Parse);
    assert_eq!(read_header(b"sear:0\x05\x00\x0a").unwrap_err().kind(), ErrorKind::Parse);
    assert_eq!(read_header(b"sear:0\x00\x00").unwrap().chunk_size, 0);
    assert_eq!(read_footer(b"\x01").unwrap_err().kind(), ErrorKind::Parse);
    assert_eq!(read_footer(b"\x09\x00").unwrap_err().kind(), ErrorKind::Parse);
    assert_eq!(read_footer(b"\x08\x05\x02\x00").unwrap().metadata_length, 5);
}

#[test]
fn promoting_a_chunk_to_last_fails_decryption() {
    let key = Key::parse_uri(AES_KEY).unwrap();
    let files = vec![("foo.txt", vec![3u8; 2000])];
    let archive = build(&key, ChunkSize::Kib1, &files);
    let (_, body, _) = sections(&archive);
    assert!(body.len() > 1040);
    assert!(decrypt_body(&body[..1040], 1024).is_err());
}

#[test]
fn derived_keys_follow_hkdf_of_the_salt() {
    let key = Key::parse_uri(AES_KEY).unwrap();
    let seal = |k: sear::crypto::symmetric::Key| {
        let mut buf = b"payload".to_vec();
        k.encrypt_in_place(&[0u8; 12], b"sear:0", &mut buf).unwrap();
        buf
    };
    let a = seal(key.derive_symmetric_key(UUID.as_bytes(), b"sear:0"));
    let b = seal(key.derive_symmetric_key(UUID.as_bytes(), b"sear:0"));
    let c = seal(key.derive_symmetric_key(b"another salt", b"sear:0"));
    assert_eq!(a, b);
    assert_ne!(a, c);
    let uri = cryptouri::CryptoUri::parse_uri(AES_KEY).unwrap();
    let hkdf_key = uri.secret_key().unwrap().hkdfsha256_key().unwrap().clone();
    let mut okm = [0u8; 32];
    hkdf::Hkdf::<sha2::Sha256>::new(Some(UUID.as_bytes()), hkdf_key.expose_secret())
        .expand(b"sear:0", &mut okm)
        .unwrap();
    assert_eq!(seal(sear::crypto::symmetric::Key::Aes256Gcm(okm)), a);
}

#[test]
fn builder_new_writes_only_the_preamble() {
    let key = Key::parse_uri(CHACHA_KEY).unwrap();
    let mut b = Builder::new(&key, ChunkSize::Kib1).unwrap();
    let out = b.take_output();
    let hl = u16::from_le_bytes([out[6], out[7]]) as usize;
    assert_eq!(out.len(), 8 + hl);
    let header = read_header(&out).unwrap();
    assert_eq!(header.uuid.len(), 38);
    assert_eq!(header.uuid[15], b'4');
    assert_eq!(header.chunk_size, 1024);
}
