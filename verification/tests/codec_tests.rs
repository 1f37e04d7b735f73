//! The item wire codec: round trips and rejection of malformed bytes.

use feoblog::ids::UserID;
use feoblog::item::{Follow, Item, ItemType};
use feoblog::wire::decode_item;

fn post(ts: i64, off: i32, title: &[u8], body: &[u8]) -> Item {
    Item {
        timestamp_ms_utc: ts,
        utc_offset_minutes: off,
        item_type: ItemType::Post { title: title.to_vec(), body: body.to_vec() },
    }
}

#[test]
fn post_round_trip() {
    let item = post(1_600_000_000_000, -300, b"A title", b"The body.");
    let bytes = item.encode();
    let back = decode_item(&bytes).unwrap();
    assert_eq!(back.timestamp_ms_utc, 1_600_000_000_000);
    assert_eq!(back.utc_offset_minutes, -300);
    match back.item_type {
        ItemType::Post { title, body } => {
            assert_eq!(title, b"A title".to_vec());
            assert_eq!(body, b"The body.".to_vec());
        },
        _ => panic!("expected a post"),
    }
}

#[test]
fn exact_post_encoding() {
    // Timestamp 0 stores as 2^63 offset-binary, little endian; offset 0
    // as 2^31; then the post tag and two length-prefixed strings.
    let item = post(0, 0, b"", b"x");
    let bytes = item.encode();
    let expected: Vec<u8> = vec![
        0, 0, 0, 0, 0, 0, 0, 0x80, // timestamp 0, offset binary
        0, 0, 0, 0x80, // utc offset 0, offset binary
        1,    // post tag
        0, 0, // title length 0
        1, 0, // body length 1
        b'x',
    ];
    assert_eq!(bytes, expected);
}

#[test]
fn negative_timestamp_round_trip() {
    let item = post(-1, 59, b"t", b"b");
    let back = decode_item(&item.encode()).unwrap();
    assert_eq!(back.timestamp_ms_utc, -1);
    assert_eq!(back.utc_offset_minutes, 59);
}

#[test]
fn profile_round_trip() {
    let follow_user = UserID::from_vec(vec![7u8; 32]).unwrap();
    let item = Item {
        timestamp_ms_utc: 42,
        utc_offset_minutes: 0,
        item_type: ItemType::Profile {
            display_name: b"Alice".to_vec(),
            about: b"About me.".to_vec(),
            follows: vec![Follow { user: follow_user, display_name: b"Bob".to_vec() }],
        },
    };
    let bytes = item.encode();
    let back = decode_item(&bytes).unwrap();
    match &back.item_type {
        ItemType::Profile { display_name, about, follows } => {
            assert_eq!(display_name, &b"Alice".to_vec());
            assert_eq!(about, &b"About me.".to_vec());
            assert_eq!(follows.len(), 1);
            assert_eq!(follows[0].user.bytes(), &[7u8; 32]);
            assert_eq!(follows[0].display_name, b"Bob".to_vec());
        },
        _ => panic!("expected a profile"),
    }
    // Re-encoding what was decoded reproduces the bytes exactly.
    assert_eq!(back.encode(), bytes);
}

#[test]
fn unknown_payload_kept_verbatim() {
    let item = Item {
        timestamp_ms_utc: 5,
        utc_offset_minutes: 0,
        item_type: ItemType::Unknown { tag: 9, rest: b"future data".to_vec() },
    };
    let bytes = item.encode();
    let back = decode_item(&bytes).unwrap();
    match &back.item_type {
        ItemType::Unknown { tag, rest } => {
            assert_eq!(*tag, 9);
            assert_eq!(rest, &b"future data".to_vec());
        },
        _ => panic!("expected an unknown payload"),
    }
    assert_eq!(back.encode(), bytes);
}

#[test]
fn decode_then_encode_is_identity() {
    // The canonicity half of the round trip on stored-looking bytes.
    let item = post(123_456, 60, b"hi", b"there");
    let bytes = item.encode();
    let decoded = decode_item(&bytes).unwrap();
    assert_eq!(decoded.encode(), bytes);
}

#[test]
fn trailing_bytes_rejected() {
    let mut bytes = post(1, 0, b"t", b"b").encode();
    bytes.push(0);
    assert!(decode_item(&bytes).is_none());
}

#[test]
fn truncated_bytes_rejected() {
    let bytes = post(1, 0, b"t", b"b").encode();
    assert!(decode_item(&bytes[..bytes.len() - 1]).is_none());
    assert!(decode_item(&bytes[..12]).is_none());
    assert!(decode_item(b"").is_none());
}

#[test]
fn structural_validation_requires_post_body() {
    let empty_body = post(1, 0, b"title", b"");
    assert!(!empty_body.validate());
    let with_body = post(1, 0, b"", b"b");
    assert!(with_body.validate());
    // Profiles and unknown payloads carry no such requirement.
    let profile = Item {
        timestamp_ms_utc: 1,
        utc_offset_minutes: 0,
        item_type: ItemType::Profile {
            display_name: vec![],
            about: vec![],
            follows: vec![],
        },
    };
    assert!(profile.validate());
}

#[test]
fn display_filter_shows_only_posts() {
    let p = post(1, 0, b"", b"b");
    assert!(feoblog::item::display_by_default(&p));
    let profile = Item {
        timestamp_ms_utc: 1,
        utc_offset_minutes: 0,
        item_type: ItemType::Profile { display_name: vec![], about: vec![], follows: vec![] },
    };
    assert!(!feoblog::item::display_by_default(&profile));
    let unknown = Item {
        timestamp_ms_utc: 1,
        utc_offset_minutes: 0,
        item_type: ItemType::Unknown { tag: 77, rest: vec![] },
    };
    assert!(!feoblog::item::display_by_default(&unknown));
}
