//! The write path: the ordered checks of the ingestion pipeline.

use ed25519_dalek::{Signer, SigningKey};
use feoblog::ids::{Signature, UserID};
use feoblog::ingest::{ingest, IngestOutcome};
use feoblog::item::{Item, ItemType};
use feoblog::store::{DenyReason, Store, Timestamp};

fn keypair(seed: u8) -> (SigningKey, UserID) {
    let sk = SigningKey::from_bytes(&[seed; 32]);
    let user = UserID::from_vec(sk.verifying_key().to_bytes().to_vec()).unwrap();
    (sk, user)
}

fn post_bytes(ts: i64, body: &[u8]) -> Vec<u8> {
    Item {
        timestamp_ms_utc: ts,
        utc_offset_minutes: 0,
        item_type: ItemType::Post { title: vec![], body: body.to_vec() },
    }
    .encode()
}

fn sign(sk: &SigningKey, bytes: &[u8]) -> Signature {
    Signature::from_vec(sk.sign(bytes).to_bytes().to_vec()).unwrap()
}

fn header_for(bytes: &[u8]) -> Vec<u8> {
    format!("{}", bytes.len()).into_bytes()
}

fn now() -> Timestamp {
    Timestamp { unix_utc_ms: 1_700_000_000_000 }
}

#[test]
fn ingest_twice_created_then_already_exists() {
    let (sk, user) = keypair(1);
    let mut store = Store::new(None);
    store.add_known(user.duplicate());

    let bytes = post_bytes(1000, b"hello");
    let sig = sign(&sk, &bytes);
    let header = header_for(&bytes);

    let first = ingest(
        &mut store,
        user.duplicate(),
        sig.duplicate(),
        Some(&header),
        &bytes,
        now(),
    );
    assert_eq!(first, IngestOutcome::Created { bytes_received: bytes.len() });
    assert_eq!(store.row_count(), 1);

    let second = ingest(
        &mut store,
        user.duplicate(),
        sig.duplicate(),
        Some(&header),
        &bytes,
        now(),
    );
    assert_eq!(second, IngestOutcome::AlreadyExists);
    assert_eq!(store.row_count(), 1);
}

#[test]
fn missing_length_header_rejected() {
    let (sk, user) = keypair(2);
    let mut store = Store::new(None);
    store.add_known(user.duplicate());
    let bytes = post_bytes(1, b"b");
    let sig = sign(&sk, &bytes);
    let r = ingest(&mut store, user, sig, None, &bytes, now());
    assert_eq!(r, IngestOutcome::LengthRequired);
    assert_eq!(store.row_count(), 0);
}

#[test]
fn unparseable_length_rejected() {
    let (sk, user) = keypair(3);
    let mut store = Store::new(None);
    store.add_known(user.duplicate());
    let bytes = post_bytes(1, b"b");
    let sig = sign(&sk, &bytes);
    for bad in [&b"abc"[..], &b""[..], &b"12x"[..], &b"184467440737095516160"[..]] {
        let r = ingest(
            &mut store,
            user.duplicate(),
            sig.duplicate(),
            Some(bad),
            &bytes,
            now(),
        );
        assert_eq!(r, IngestOutcome::BadLength);
    }
    assert_eq!(store.row_count(), 0);
}

#[test]
fn oversize_declared_length_rejected() {
    // A write declaring 40000 bytes ends too-large; the store is
    // untouched, so no backend work happened.
    let (sk, user) = keypair(4);
    let mut store = Store::new(None);
    store.add_known(user.duplicate());
    let bytes = post_bytes(1, b"b");
    let sig = sign(&sk, &bytes);
    let r = ingest(&mut store, user, sig, Some(b"40000"), &bytes, now());
    assert_eq!(r, IngestOutcome::TooLarge);
    assert_eq!(store.row_count(), 0);
}

#[test]
fn unknown_user_forbidden() {
    let (sk, user) = keypair(5);
    let mut store = Store::new(None);
    // The user was never made known here.
    let bytes = post_bytes(1, b"b");
    let sig = sign(&sk, &bytes);
    let header = header_for(&bytes);
    let r = ingest(&mut store, user, sig, Some(&header), &bytes, now());
    assert_eq!(r, IngestOutcome::ForbiddenUnknownUser);
    assert_eq!(store.row_count(), 0);
}

#[test]
fn tampered_byte_invalid_signature() {
    // A single flipped byte in an otherwise valid payload: rejected for
    // its signature, zero rows persisted.
    let (sk, user) = keypair(6);
    let mut store = Store::new(None);
    store.add_known(user.duplicate());
    let mut bytes = post_bytes(1, b"hello");
    let sig = sign(&sk, &bytes);
    let last = bytes.len() - 1;
    bytes[last] ^= 1;
    let header = header_for(&bytes);
    let r = ingest(&mut store, user, sig, Some(&header), &bytes, now());
    assert_eq!(r, IngestOutcome::InvalidSignature);
    assert_eq!(store.row_count(), 0);
}

#[test]
fn body_length_mismatch_rejected() {
    let (sk, user) = keypair(7);
    let mut store = Store::new(None);
    store.add_known(user.duplicate());
    let bytes = post_bytes(1, b"hello");
    let sig = sign(&sk, &bytes);
    // Declared length differs from the body handed over.
    let r = ingest(&mut store, user, sig, Some(b"3"), &bytes, now());
    assert_eq!(r, IngestOutcome::BadLength);
    assert_eq!(store.row_count(), 0);
}

#[test]
fn undecodable_item_rejected() {
    let (sk, user) = keypair(8);
    let mut store = Store::new(None);
    store.add_known(user.duplicate());
    // Signed, but too short to be an item at all.
    let bytes = b"not an item".to_vec();
    let sig = sign(&sk, &bytes);
    let header = header_for(&bytes);
    let r = ingest(&mut store, user, sig, Some(&header), &bytes, now());
    assert_eq!(r, IngestOutcome::InvalidItem);
    assert_eq!(store.row_count(), 0);
}

#[test]
fn structurally_invalid_item_rejected() {
    let (sk, user) = keypair(9);
    let mut store = Store::new(None);
    store.add_known(user.duplicate());
    // A post with an empty body decodes but fails structural validation.
    let bytes = post_bytes(1, b"");
    let sig = sign(&sk, &bytes);
    let header = header_for(&bytes);
    let r = ingest(&mut store, user, sig, Some(&header), &bytes, now());
    assert_eq!(r, IngestOutcome::InvalidItem);
    assert_eq!(store.row_count(), 0);
}

#[test]
fn quota_denied_with_reason() {
    let (sk, user) = keypair(10);
    let mut store = Store::new(Some(1));
    store.add_known(user.duplicate());

    let first = post_bytes(1, b"one");
    let sig1 = sign(&sk, &first);
    let h1 = header_for(&first);
    assert_eq!(
        ingest(&mut store, user.duplicate(), sig1, Some(&h1), &first, now()),
        IngestOutcome::Created { bytes_received: first.len() }
    );

    let second = post_bytes(2, b"two");
    let sig2 = sign(&sk, &second);
    let h2 = header_for(&second);
    assert_eq!(
        ingest(&mut store, user.duplicate(), sig2, Some(&h2), &second, now()),
        IngestOutcome::QuotaDenied(DenyReason::QuotaExceeded)
    );
    assert_eq!(store.row_count(), 1);
}

#[test]
fn created_message_counts_bytes() {
    let (sk, user) = keypair(11);
    let mut store = Store::new(None);
    store.add_known(user.duplicate());
    let bytes = post_bytes(1, b"count me");
    let sig = sign(&sk, &bytes);
    let header = header_for(&bytes);
    let r = ingest(&mut store, user, sig, Some(&header), &bytes, now());
    assert_eq!(r, IngestOutcome::Created { bytes_received: bytes.len() });
}
