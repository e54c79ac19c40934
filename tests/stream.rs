use sear::crypto::encryptor::Encryptor;
use sear::crypto::symmetric::Key;
use sear::crypto::writer::{ChunkSize, Writer};
use sear::error::ErrorKind;

fn aes_key() -> Key {
    Key::Aes256Gcm([7u8; 32])
}

#[test]
fn encryptor_clears_flag_bit_of_prefix() {
    let enc = Encryptor::new(aes_key(), [0xff; 8]);
    let nonce = enc.stream_nonce(0x0403_0201, false);
    assert_eq!(nonce, [0xff, 0xff, 0xff, 0xff, 0xff, 0xff, 0xff, 0xfe, 0x01, 0x02, 0x03, 0x04]);
}

#[test]
fn last_block_nonce_sets_flag_bit() {
    let enc = Encryptor::new(aes_key(), [0u8; 8]);
    assert_eq!(enc.stream_nonce(0, true), [0, 0, 0, 0, 0, 0, 0, 1, 0, 0, 0, 0]);
    assert_eq!(enc.stream_nonce(1, false), [0, 0, 0, 0, 0, 0, 0, 0, 1, 0, 0, 0]);
    assert_ne!(enc.stream_nonce(5, true), enc.stream_nonce(5, false));
    assert_ne!(enc.stream_nonce(5, false), enc.stream_nonce(6, false));
}

#[test]
fn chunk_sizes() {
    assert_eq!(ChunkSize::Kib1.size(), 1024);
    assert_eq!(ChunkSize::Kib128.size(), 131_072);
    assert_eq!(ChunkSize::default(), ChunkSize::Kib128);
}

#[test]
fn empty_stream_writes_nothing() {
    let w = Writer::new(aes_key(), b"sear:0".to_vec(), ChunkSize::Kib1);
    let out = w.finish().unwrap();
    assert!(out.is_empty());
}

#[test]
fn single_byte_is_one_last_chunk_of_17_bytes() {
    let mut w = Writer::new(aes_key(), b"sear:0".to_vec(), ChunkSize::Kib1);
    assert_eq!(w.write_all(&[42]).unwrap(), 1);
    assert!(w.take_output().is_empty());
    let out = w.finish().unwrap();
    assert_eq!(out.len(), 17);
    assert_ne!(out[0], 42);
}

#[test]
fn full_chunk_is_sealed_only_when_more_follows() {
    let mut w = Writer::new(aes_key(), b"sear:0".to_vec(), ChunkSize::Kib1);
    w.write_all(&vec![1u8; 1024]).unwrap();
    assert!(w.take_output().is_empty());
    assert_eq!(w.plaintext_len(), 1024);
    w.write_all(&[2u8]).unwrap();
    assert_eq!(w.take_output().len(), 1040);
    assert_eq!(w.finish().unwrap().len(), 17);
}

#[test]
fn chunk_lengths_over_many_writes() {
    let mut w = Writer::new(aes_key(), b"sear:0".to_vec(), ChunkSize::Kib1);
    let mut total = 0usize;
    for i in 0..10u8 {
        let piece = vec![i; 333];
        assert_eq!(w.encrypt_reader(&piece).unwrap(), 333);
        total += 333;
    }
    let mut out = w.take_output();
    out.extend(w.finish().unwrap());
    let full = (total - 1) / 1024;
    let tail = total - full * 1024;
    assert_eq!(out.len(), full * 1040 + tail + 16);
    assert_eq!(tail, 258);
}

#[test]
fn ciphers_give_different_ciphertexts() {
    let mut a = Writer::new(Key::Aes256Gcm([7u8; 32]), b"sear:0".to_vec(), ChunkSize::Kib1);
    let mut c = Writer::new(Key::ChaCha20Poly1305([7u8; 32]), b"sear:0".to_vec(), ChunkSize::Kib1);
    a.write_all(b"hello").unwrap();
    c.write_all(b"hello").unwrap();
    let a = a.finish().unwrap();
    let c = c.finish().unwrap();
    assert_eq!(a.len(), 21);
    assert_eq!(c.len(), 21);
    assert_ne!(a, c);
    assert_ne!(&a[..5], b"hello");
}

#[test]
fn same_plaintext_in_another_position_seals_differently() {
    let mut w = Writer::new(aes_key(), b"sear:0".to_vec(), ChunkSize::Kib1);
    w.write_all(&vec![9u8; 2049]).unwrap();
    let out = w.take_output();
    assert_eq!(out.len(), 2080);
    assert_ne!(out[..1040], out[1040..]);
}

#[test]
fn sealing_key_error_kind_is_crypto() {
    let mut buf = b"abc".to_vec();
    aes_key().encrypt_in_place(&[0u8; 12], b"", &mut buf).unwrap();
    assert_eq!(buf.len(), 19);
    assert_eq!(ErrorKind::Crypto.description(), "crypto failure");
}

#[test]
fn writes_emit_only_sealed_full_chunks() {
    let mut w = Writer::new(aes_key(), b"sear:0".to_vec(), ChunkSize::Kib1);
    assert_eq!(w.write_all(&[0u8; 1025]).unwrap(), 1025);
    assert_eq!(w.take_output().len(), 1040);
    let mut v = Writer::new(aes_key(), b"sear:0".to_vec(), ChunkSize::Kib1);
    assert_eq!(v.write_all(&[0u8; 1024]).unwrap(), 1024);
    assert_eq!(v.write_all(&[]).unwrap(), 0);
    assert!(v.take_output().is_empty());
    assert_eq!(v.finish().unwrap().len(), 1040);
}
