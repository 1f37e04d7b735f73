//! The read path: single-item reads, feeds, pagination and cursors.

use ed25519_dalek::{Signer, SigningKey};
use feoblog::bound;
use feoblog::ids::{Signature, UserID};
use feoblog::ingest::{ingest, IngestOutcome};
use feoblog::item::{Follow, Item, ItemType};
use feoblog::pages::{get_item, index_page, show_item, show_profile, user_feed_page,
    user_items_page, ShowItemPage};
use feoblog::pagination::{PageMessage, Pagination};
use feoblog::pagination::Paginator;
use feoblog::store::{ItemDisplayRow, ItemRow, Store, Timestamp};
use feoblog::wire::decode_item;

fn keypair(seed: u8) -> (SigningKey, UserID) {
    let sk = SigningKey::from_bytes(&[seed; 32]);
    let user = UserID::from_vec(sk.verifying_key().to_bytes().to_vec()).unwrap();
    (sk, user)
}

fn now() -> Timestamp {
    Timestamp { unix_utc_ms: 1_000_000 }
}

fn publish(store: &mut Store, sk: &SigningKey, user: &UserID, item: &Item) {
    let bytes = item.encode();
    let sig = Signature::from_vec(sk.sign(&bytes).to_bytes().to_vec()).unwrap();
    let header = format!("{}", bytes.len()).into_bytes();
    let r = ingest(store, user.duplicate(), sig, Some(&header), &bytes, now());
    assert_eq!(r, IngestOutcome::Created { bytes_received: bytes.len() });
}

fn post(ts: i64, body: &[u8]) -> Item {
    Item {
        timestamp_ms_utc: ts,
        utc_offset_minutes: 0,
        item_type: ItemType::Post { title: b"t".to_vec(), body: body.to_vec() },
    }
}

fn profile(ts: i64, name: &[u8], follows: Vec<Follow>) -> Item {
    Item {
        timestamp_ms_utc: ts,
        utc_offset_minutes: 0,
        item_type: ItemType::Profile {
            display_name: name.to_vec(),
            about: b"about".to_vec(),
            follows,
        },
    }
}

#[test]
fn bound_clamps() {
    assert_eq!(bound(5, 1, 100), 5);
    assert_eq!(bound(0, 1, 100), 1);
    assert_eq!(bound(1000, 1, 100), 100);
    assert_eq!(bound(1, 1, 100), 1);
    assert_eq!(bound(100, 1, 100), 100);
}

#[test]
fn never_written_item_not_found() {
    let store = Store::new(None);
    let (_, user) = keypair(1);
    let sig = Signature::from_vec(vec![0u8; 64]).unwrap();
    assert!(get_item(&store, &user, &sig).is_none());
    assert!(matches!(
        show_item(&store, &user, &sig).unwrap(),
        ShowItemPage::NotFound
    ));
}

#[test]
fn single_item_read_returns_exact_bytes() {
    let (sk, user) = keypair(2);
    let mut store = Store::new(None);
    store.add_known(user.duplicate());
    let item = post(42, b"exact bytes");
    let bytes = item.encode();
    let sig = Signature::from_vec(sk.sign(&bytes).to_bytes().to_vec()).unwrap();
    let header = format!("{}", bytes.len()).into_bytes();
    ingest(&mut store, user.duplicate(), sig.duplicate(), Some(&header), &bytes, now());

    let got = get_item(&store, &user, &sig).unwrap();
    // Byte-identical to what was written: never transformed.
    assert_eq!(got, bytes);
    // Decoding and re-encoding reproduces the same bytes.
    assert_eq!(decode_item(&got).unwrap().encode(), bytes);
    // And the returned bytes still verify under the signature.
    assert!(sig.is_valid(&user, &got));
}

#[test]
fn homepage_scenario_pagination() {
    // 25 posts and 5 profiles, count unset: the page holds the 20 most
    // recent posts, profiles excluded, has_more set, and the next cursor
    // is the timestamp of the 20th post.
    let (sk, user) = keypair(3);
    let mut store = Store::new(None);
    store.add_known(user.duplicate());
    for ts in 1..=25i64 {
        publish(&mut store, &sk, &user, &post(ts, format!("post {}", ts).as_bytes()));
    }
    for ts in 26..=30i64 {
        publish(&mut store, &sk, &user, &profile(ts, b"name", vec![]));
    }

    let page = index_page(
        &store,
        Pagination { before: None, count: None },
        Timestamp { unix_utc_ms: 1_000_000 },
    )
    .unwrap();

    assert_eq!(page.items.len(), 20);
    assert!(page.has_more);
    // Most recent posts first: timestamps 25 down to 6.
    for (i, item) in page.items.iter().enumerate() {
        assert_eq!(item.item().timestamp_ms_utc, 25 - i as i64);
        assert!(matches!(item.item().item_type, ItemType::Post { .. }));
    }
    let more = page.more.unwrap();
    assert_eq!(more.before, 6);
    assert_eq!(more.count, None);
    assert!(page.message.is_none());
}

#[test]
fn paging_concatenation_is_gapless() {
    // Follow the cursor until the end: the concatenation of pages is the
    // whole displayable sequence, no repeats, no omissions.
    let (sk, user) = keypair(4);
    let mut store = Store::new(None);
    store.add_known(user.duplicate());
    for ts in 1..=25i64 {
        publish(&mut store, &sk, &user, &post(ts, format!("p{}", ts).as_bytes()));
    }

    let mut seen: Vec<i64> = Vec::new();
    let mut before: Option<i64> = None;
    loop {
        let page = index_page(
            &store,
            Pagination { before, count: Some(7) },
            Timestamp { unix_utc_ms: 1_000_000 },
        )
        .unwrap();
        for item in &page.items {
            seen.push(item.item().timestamp_ms_utc);
        }
        match page.more {
            Some(link) => before = Some(link.before),
            None => break,
        }
    }
    let expected: Vec<i64> = (1..=25).rev().collect();
    assert_eq!(seen, expected);
}

#[test]
fn count_is_clamped() {
    let (sk, user) = keypair(5);
    let mut store = Store::new(None);
    store.add_known(user.duplicate());
    for ts in 1..=5i64 {
        publish(&mut store, &sk, &user, &post(ts, b"b"));
    }
    // count 0 clamps to 1.
    let page = index_page(
        &store,
        Pagination { before: None, count: Some(0) },
        Timestamp { unix_utc_ms: 1_000_000 },
    )
    .unwrap();
    assert_eq!(page.items.len(), 1);
    assert!(page.has_more);
    // A count far over 100 clamps to 100, which exceeds what exists.
    let page = index_page(
        &store,
        Pagination { before: None, count: Some(1000) },
        Timestamp { unix_utc_ms: 1_000_000 },
    )
    .unwrap();
    assert_eq!(page.items.len(), 5);
    assert!(!page.has_more);
}

#[test]
fn empty_page_messages() {
    let store = Store::new(None);
    let fresh = index_page(
        &store,
        Pagination { before: None, count: None },
        now(),
    )
    .unwrap();
    assert_eq!(fresh.message, Some(PageMessage::NothingToDisplay));
    assert!(fresh.more.is_none());

    let followed_cursor = index_page(
        &store,
        Pagination { before: Some(5), count: None },
        now(),
    )
    .unwrap();
    assert_eq!(followed_cursor.message, Some(PageMessage::NoMoreItems));
}

#[test]
fn user_page_is_paginated() {
    let (sk, user) = keypair(7);
    let mut store = Store::new(None);
    store.add_known(user.duplicate());
    for ts in 1..=25i64 {
        publish(&mut store, &sk, &user, &post(ts, b"b"));
    }
    publish(&mut store, &sk, &user, &profile(30, b"Display Me", vec![]));

    // Default page size 20, like every other feed.
    let up = user_items_page(
        &store,
        &user,
        Pagination { before: None, count: None },
        Timestamp { unix_utc_ms: 1_000_000 },
    )
    .unwrap();
    assert_eq!(up.page.items.len(), 20);
    assert!(up.page.has_more);
    for (i, item) in up.page.items.iter().enumerate() {
        assert_eq!(item.item().timestamp_ms_utc, 25 - i as i64);
        // The user's own page does not annotate rows with their name.
        assert!(item.row().display_name.is_none());
    }
    // The cursor is the last included post's timestamp; following it
    // yields the remaining posts.
    let link = up.page.more.unwrap();
    assert_eq!(link.before, 6);
    let rest = user_items_page(
        &store,
        &user,
        Pagination { before: Some(link.before), count: None },
        Timestamp { unix_utc_ms: 1_000_000 },
    )
    .unwrap();
    assert_eq!(rest.page.items.len(), 5);
    assert!(!rest.page.has_more);
    assert_eq!(up.profile_name.unwrap(), b"Display Me".to_vec());

    // A caller-supplied count is honoured, clamped like elsewhere.
    let small = user_items_page(
        &store,
        &user,
        Pagination { before: None, count: Some(3) },
        Timestamp { unix_utc_ms: 1_000_000 },
    )
    .unwrap();
    assert_eq!(small.page.items.len(), 3);
    assert!(small.page.has_more);
    assert_eq!(small.page.more.unwrap().count, Some(3));
}

#[test]
fn feed_shows_followed_users_only() {
    let (sk_a, alice) = keypair(8);
    let (sk_b, bob) = keypair(9);
    let (sk_c, carol) = keypair(10);
    let mut store = Store::new(None);
    store.add_known(alice.duplicate());
    store.add_known(bob.duplicate());
    store.add_known(carol.duplicate());

    publish(&mut store, &sk_b, &bob, &post(10, b"from bob"));
    publish(&mut store, &sk_c, &carol, &post(11, b"from carol"));
    publish(&mut store, &sk_a, &alice, &post(12, b"from alice"));
    // Alice follows only Bob.
    publish(
        &mut store,
        &sk_a,
        &alice,
        &profile(
            13,
            b"Alice",
            vec![Follow { user: bob.duplicate(), display_name: b"Bob".to_vec() }],
        ),
    );

    let page = user_feed_page(
        &store,
        &alice,
        Pagination { before: None, count: None },
        Timestamp { unix_utc_ms: 1_000_000 },
    )
    .unwrap();
    assert_eq!(page.items.len(), 1);
    assert_eq!(page.items[0].item().timestamp_ms_utc, 10);
    match &page.items[0].item().item_type {
        ItemType::Post { body, .. } => assert_eq!(body, &b"from bob".to_vec()),
        _ => panic!("expected a post"),
    }
}

#[test]
fn show_item_variants() {
    let (sk, user) = keypair(11);
    let mut store = Store::new(None);
    store.add_known(user.duplicate());

    let post_item = post(5, b"the text");
    let post_bytes = post_item.encode();
    let post_sig = Signature::from_vec(sk.sign(&post_bytes).to_bytes().to_vec()).unwrap();
    let header = format!("{}", post_bytes.len()).into_bytes();
    ingest(&mut store, user.duplicate(), post_sig.duplicate(), Some(&header), &post_bytes, now());

    let profile_item = profile(6, b"Named", vec![]);
    let prof_bytes = profile_item.encode();
    let prof_sig = Signature::from_vec(sk.sign(&prof_bytes).to_bytes().to_vec()).unwrap();
    let prof_header = format!("{}", prof_bytes.len()).into_bytes();
    ingest(
        &mut store,
        user.duplicate(),
        prof_sig.duplicate(),
        Some(&prof_header),
        &prof_bytes,
        now(),
    );

    let unknown = Item {
        timestamp_ms_utc: 7,
        utc_offset_minutes: 0,
        item_type: ItemType::Unknown { tag: 42, rest: b"later".to_vec() },
    };
    let unk_bytes = unknown.encode();
    let unk_sig = Signature::from_vec(sk.sign(&unk_bytes).to_bytes().to_vec()).unwrap();
    let unk_header = format!("{}", unk_bytes.len()).into_bytes();
    ingest(&mut store, user.duplicate(), unk_sig.duplicate(), Some(&unk_header), &unk_bytes, now());

    match show_item(&store, &user, &post_sig).unwrap() {
        ShowItemPage::Post(p) => {
            assert_eq!(p.body, b"the text".to_vec());
            assert_eq!(p.title, b"t".to_vec());
            assert_eq!(p.timestamp_ms_utc, 5);
            assert_eq!(p.display_name.unwrap(), b"Named".to_vec());
        },
        _ => panic!("expected the post page"),
    }
    assert!(matches!(
        show_item(&store, &user, &unk_sig).unwrap(),
        ShowItemPage::UnknownType
    ));
    assert!(matches!(
        show_item(&store, &user, &prof_sig).unwrap(),
        ShowItemPage::ProfileUpdate
    ));
}

#[test]
fn show_profile_returns_newest_profile() {
    let (sk, user) = keypair(12);
    let mut store = Store::new(None);
    store.add_known(user.duplicate());
    publish(&mut store, &sk, &user, &profile(1, b"Old Name", vec![]));
    publish(
        &mut store,
        &sk,
        &user,
        &profile(2, b"New Name", vec![Follow {
            user: UserID::from_vec(vec![9u8; 32]).unwrap(),
            display_name: b"Friend".to_vec(),
        }]),
    );

    let page = show_profile(&store, &user).unwrap();
    assert_eq!(page.display_name, b"New Name".to_vec());
    assert_eq!(page.about, b"about".to_vec());
    assert_eq!(page.timestamp_ms_utc, 2);
    assert_eq!(page.follows.len(), 1);
    assert_eq!(page.follows[0].display_name, b"Friend".to_vec());

    let (_, stranger) = keypair(13);
    assert!(show_profile(&store, &stranger).is_none());
}

#[test]
fn display_name_trims_and_falls_back() {
    let (sk, user) = keypair(14);
    let mut store = Store::new(None);
    store.add_known(user.duplicate());
    publish(&mut store, &sk, &user, &post(1, b"b"));
    publish(&mut store, &sk, &user, &profile(2, b"  Padded Name \t", vec![]));

    let page = index_page(
        &store,
        Pagination { before: None, count: None },
        Timestamp { unix_utc_ms: 1_000_000 },
    )
    .unwrap();
    assert_eq!(page.items.len(), 1);
    assert_eq!(page.items[0].display_name(), b"Padded Name".to_vec());

    // A blank profile name falls back to the author's base58 identity.
    let (sk2, user2) = keypair(15);
    let mut store2 = Store::new(None);
    store2.add_known(user2.duplicate());
    publish(&mut store2, &sk2, &user2, &post(1, b"b"));
    publish(&mut store2, &sk2, &user2, &profile(2, b"   ", vec![]));
    let page2 = index_page(
        &store2,
        Pagination { before: None, count: None },
        Timestamp { unix_utc_ms: 1_000_000 },
    )
    .unwrap();
    assert_eq!(page2.items[0].display_name(), user2.to_base58());
}

#[test]
fn paginator_protocol_direct() {
    let (sk, user) = keypair(16);
    let mk_row = |ts: i64, item: &Item| -> ItemDisplayRow {
        let bytes = item.encode();
        let sig = Signature::from_vec(sk.sign(&bytes).to_bytes().to_vec()).unwrap();
        ItemDisplayRow {
            item: ItemRow {
                user: user.duplicate(),
                signature: sig,
                timestamp: Timestamp { unix_utc_ms: ts },
                received: now(),
                item_bytes: bytes,
            },
            display_name: None,
        }
    };

    let mut p = Paginator::new(Pagination { before: None, count: Some(1) });
    // A profile row is filtered out and does not count.
    assert_eq!(p.callback(mk_row(3, &profile(3, b"n", vec![]))), Ok(true));
    assert_eq!(p.items.len(), 0);
    // The first post fills the one-item page.
    assert_eq!(p.accept(mk_row(2, &post(2, b"a"))), Ok(true));
    // The next displayable row crosses the boundary: stop, has_more.
    assert_eq!(p.accept(mk_row(1, &post(1, b"b"))), Ok(false));
    assert!(p.has_more);
    assert_eq!(p.items.len(), 1);
    assert!(p.message().is_none());
    let link = p.more_items_link().unwrap();
    assert_eq!(link.before, 2);
    assert_eq!(link.count, Some(1));

    // A corrupt row aborts a page.
    let mut q = Paginator::new(Pagination { before: None, count: None });
    let mut corrupt = mk_row(9, &post(9, b"x"));
    corrupt.item.item_bytes.push(0);
    assert!(q.accept(corrupt).is_err());
    assert_eq!(q.message(), Some(PageMessage::NothingToDisplay));
}
