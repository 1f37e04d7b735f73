//! Identities, signatures, and their base58 forms.

use feoblog::ids::{DecodeError, Signature, UserID};

fn sample_key_bytes() -> Vec<u8> {
    // RFC 8032 test vector 1: the public key.
    vec![
        0xd7, 0x5a, 0x98, 0x01, 0x82, 0xb1, 0x0a, 0xb7, 0xd5, 0x4b, 0xfe, 0xd3, 0xc9, 0x64, 0x07,
        0x3a, 0x0e, 0xe1, 0x72, 0xf3, 0xda, 0xa6, 0x23, 0x25, 0xaf, 0x02, 0x1a, 0x68, 0xf7, 0x07,
        0x51, 0x1a,
    ]
}

fn sample_sig_bytes() -> Vec<u8> {
    // RFC 8032 test vector 1: the signature over the empty message.
    vec![
        0xe5, 0x56, 0x43, 0x00, 0xc3, 0x60, 0xac, 0x72, 0x90, 0x86, 0xe2, 0xcc, 0x80, 0x6e, 0x82,
        0x8a, 0x84, 0x87, 0x7f, 0x1e, 0xb8, 0xe5, 0xd9, 0x74, 0xd8, 0x73, 0xe0, 0x65, 0x22, 0x49,
        0x01, 0x55, 0x5f, 0xb8, 0x82, 0x15, 0x90, 0xa3, 0x3b, 0xac, 0xc6, 0x1e, 0x39, 0x70, 0x1c,
        0xf9, 0xb4, 0x6b, 0xd2, 0x5b, 0xf5, 0xf0, 0x59, 0x5b, 0xbe, 0x24, 0x65, 0x51, 0x41, 0x43,
        0x8e, 0x7a, 0x10, 0x0b,
    ]
}

#[test]
fn base58_exact_encoding() {
    // 32 zero bytes encode to 32 of the character '1', and that text
    // decodes back to the 32 zero bytes.
    let id = UserID::from_vec(vec![0u8; 32]).unwrap();
    assert_eq!(id.to_base58(), vec![b'1'; 32]);
    let back = UserID::from_base58(&vec![b'1'; 32]).unwrap();
    assert_eq!(back.bytes(), &[0u8; 32]);
}

#[test]
fn base58_round_trip() {
    let user = UserID::from_vec(sample_key_bytes()).unwrap();
    let b58 = user.to_base58();
    let back = UserID::from_base58(&b58).unwrap();
    assert_eq!(back.bytes(), user.bytes());
}

#[test]
fn base58_rejects_bad_alphabet() {
    // '0', 'O', 'I' and 'l' are not base58 characters.
    assert_eq!(
        UserID::from_base58(b"0OIl").unwrap_err(),
        DecodeError::BadEncoding
    );
}

#[test]
fn base58_rejects_wrong_length() {
    // "Hello World!" is the classic vector for 2NEpo7TZRRrLZSi2U: it
    // decodes to 12 bytes, not 32, so an identity rejects it for length
    // -- which also shows the decoder really decoded it.
    assert_eq!(
        UserID::from_base58(b"2NEpo7TZRRrLZSi2U").unwrap_err(),
        DecodeError::WrongLength
    );
}

#[test]
fn user_id_length_checked() {
    assert_eq!(UserID::from_vec(vec![1u8; 31]).unwrap_err(), DecodeError::WrongLength);
    assert_eq!(UserID::from_vec(vec![1u8; 33]).unwrap_err(), DecodeError::WrongLength);
    assert!(UserID::from_vec(vec![1u8; 32]).is_ok());
    assert_eq!(Signature::from_vec(vec![1u8; 63]).unwrap_err(), DecodeError::WrongLength);
    assert!(Signature::from_vec(vec![1u8; 64]).is_ok());
}

#[test]
fn signature_verifies_rfc_vector() {
    let user = UserID::from_vec(sample_key_bytes()).unwrap();
    let sig = Signature::from_vec(sample_sig_bytes()).unwrap();
    assert!(sig.is_valid(&user, b""));
}

#[test]
fn signature_rejects_tampered_message() {
    let user = UserID::from_vec(sample_key_bytes()).unwrap();
    let sig = Signature::from_vec(sample_sig_bytes()).unwrap();
    assert!(!sig.is_valid(&user, b"x"));
}

#[test]
fn signature_rejects_tampered_signature() {
    let user = UserID::from_vec(sample_key_bytes()).unwrap();
    let mut bytes = sample_sig_bytes();
    bytes[0] ^= 1;
    let sig = Signature::from_vec(bytes).unwrap();
    assert!(!sig.is_valid(&user, b""));
}

#[test]
fn signature_base58_round_trip() {
    let sig = Signature::from_vec(sample_sig_bytes()).unwrap();
    let b58 = sig.to_base58();
    let back = Signature::from_base58(&b58).unwrap();
    assert_eq!(back.bytes(), sig.bytes());
}
