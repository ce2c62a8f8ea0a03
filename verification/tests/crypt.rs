use md5::{Digest, Md5};
use rustium::crypt::{padded, rc4, Decryptor, PAD};
use rustium::error::Error;
use rustium::filters::Direct;
use rustium::object::{Dict, Object};

#[test]
fn rc4_test_vectors() {
    // RFC 6229-style known vector: key "Key", plaintext "Plaintext".
    let out = rc4(b"Key", b"Plaintext");
    assert_eq!(out, [0xBB, 0xF3, 0x16, 0xE8, 0xD9, 0x40, 0xAF, 0x0A, 0xD3]);
    // Round trip.
    assert_eq!(rc4(b"Key", &out), b"Plaintext");
}

#[test]
fn padding_pads_and_truncates() {
    assert_eq!(padded(b"")[..], PAD[..]);
    let p = padded(b"secret");
    assert_eq!(&p[..6], b"secret");
    assert_eq!(&p[6..], &PAD[..26]);
}

#[test]
fn long_passwords_are_cut_to_32_bytes() {
    let pw = [b'x'; 40];
    assert_eq!(padded(&pw), vec![b'x'; 32]);
}

fn name(n: &str) -> Object {
    Object::Name(n.to_string())
}

/// A revision 2 dictionary for the empty user password, with `U` computed by algorithm 4.
fn revision_two(file_id: &[u8]) -> (Dict, Vec<u8>) {
    let o_entry = vec![0x11u8; 32];
    let p: i32 = -4;
    let mut h = Md5::new();
    h.update(padded(b""));
    h.update(&o_entry);
    h.update(p.to_le_bytes());
    h.update(file_id);
    let key = h.finalize()[..5].to_vec();
    let u_entry = rc4(&key, &PAD);
    let mut enc = Dict::new();
    enc.insert("Filter".to_string(), name("Standard"));
    enc.insert("V".to_string(), Object::Int(1));
    enc.insert("R".to_string(), Object::Int(2));
    enc.insert("O".to_string(), Object::String(o_entry));
    enc.insert("U".to_string(), Object::String(u_entry));
    enc.insert("P".to_string(), Object::Int(p as i64));
    (enc, key)
}

#[test]
fn a_revision_two_file_opens_and_decrypts() {
    let file_id = b"0123456789abcdef";
    let (enc, key) = revision_two(file_id);
    let d = Decryptor::new(&enc, file_id, None, &Direct).expect("the empty password opens it");
    // The object key: MD5 of the file key, three bytes of the number and two of the generation.
    let mut h = Md5::new();
    h.update(&key);
    h.update([7, 0, 0, 0, 0]);
    let object_key = h.finalize()[..10].to_vec();
    let secret = rc4(&object_key, b"attack at dawn");
    assert_eq!(d.decrypt_string(7, 0, &secret), b"attack at dawn");
    assert_eq!(d.decrypt_stream(7, 0, &secret), b"attack at dawn");
    assert!(d.stream_needs_decrypt(Some("Metadata")));
    assert!(d.stream_needs_decrypt(None));
}

#[test]
fn a_wrong_password_is_refused() {
    let file_id = b"0123456789abcdef";
    let (enc, _) = revision_two(file_id);
    assert!(matches!(
        Decryptor::new(&enc, file_id, Some("nope"), &Direct),
        Err(Error::Password)
    ));
}

#[test]
fn other_handlers_and_versions_are_unsupported() {
    let mut enc = Dict::new();
    enc.insert("Filter".to_string(), name("Adobe.PubSec"));
    match Decryptor::new(&enc, b"", None, &Direct) {
        Err(Error::UnsupportedEncryption(m)) => assert_eq!(m, "security handler \"Adobe.PubSec\""),
        _ => panic!("expected an unsupported handler"),
    }
    let mut enc = Dict::new();
    enc.insert("Filter".to_string(), name("Standard"));
    enc.insert("V".to_string(), Object::Int(-7));
    match Decryptor::new(&enc, b"", None, &Direct) {
        Err(Error::UnsupportedEncryption(m)) => assert_eq!(m, "V -7"),
        _ => panic!("expected an unsupported version"),
    }
    let mut enc = Dict::new();
    enc.insert("Filter".to_string(), name("Standard"));
    enc.insert("V".to_string(), Object::Int(5));
    enc.insert("R".to_string(), Object::Int(6));
    match Decryptor::new(&enc, b"", None, &Direct) {
        Err(Error::UnsupportedEncryption(m)) => assert_eq!(m, "short O/U entries"),
        _ => panic!("expected short entries"),
    }
    match Decryptor::new(&Dict::new(), b"", None, &Direct) {
        Err(Error::UnsupportedEncryption(m)) => assert_eq!(m, "security handler \"\""),
        _ => panic!("expected a missing handler"),
    }
}

#[test]
fn metadata_stays_clear_when_the_document_says_so() {
    let file_id = b"0123456789abcdef";
    let (mut enc, _) = revision_two(file_id);
    enc.insert("EncryptMetadata".to_string(), Object::Bool(false));
    // Revision 2 ignores the flag for the key, so the password still opens it.
    let d = Decryptor::new(&enc, file_id, None, &Direct).unwrap();
    assert!(!d.stream_needs_decrypt(Some("Metadata")));
    assert!(d.stream_needs_decrypt(Some("XObject")));
}
