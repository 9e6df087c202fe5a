//! The channel store: posts, bodies, blocks and the publisher set.

use quartznet::crypto::{HashCode, PrivateKey, PublicKey};
use quartznet::post;
use quartznet::store;

fn publisher_pair(seed: u8) -> (PrivateKey, PublicKey) {
    let private = PrivateKey::from_bytes(vec![seed; 32]);
    let public = private.extract_public();
    (private, public)
}

fn fresh_timeline(seed: u8) -> (PrivateKey, store::Timeline) {
    let (private, public) = publisher_pair(seed);
    (private, store::Timeline::new(public))
}

#[test]
fn create_post_announces_and_stores() {
    let (private, mut t) = fresh_timeline(5);
    let info = post::PostInfo { publish_timestamp: 123, tags: vec![String::from("hello")] };
    let p = t.create_post(&private, "the first words", info).unwrap();
    assert_eq!(p.id, 0);
    assert_eq!(t.next_post_id(), 1);
    let loaded = t.load_post(0).unwrap();
    assert_eq!(loaded, p);
    assert_eq!(t.load_content(0).unwrap(), "the first words");
    assert!(t.load_post(1).is_none());

    let info = post::PostInfo { publish_timestamp: 124, tags: Vec::new() };
    let q = t.create_post(&private, "more words", info).unwrap();
    assert_eq!(q.id, 1);
}

#[test]
fn create_post_rejects_a_foreign_key() {
    let (_private, mut t) = fresh_timeline(5);
    let stranger = PrivateKey::from_bytes(vec![6u8; 32]);
    let info = post::PostInfo { publish_timestamp: 1, tags: Vec::new() };
    assert!(t.create_post(&stranger, "not mine", info).is_err());
}

#[test]
fn insert_post_checks_hash_and_signature() {
    let (private, mut t) = fresh_timeline(7);
    let meta = post::PostMeta {
        info: post::PostInfo { publish_timestamp: 9, tags: Vec::new() },
        content_hash: HashCode::from_bytes(vec![1; 64]),
        attachment_ids: Vec::new(),
    };
    let mut enc: Vec<u8> = Vec::new();
    post::enc_post_meta(&mut enc, &meta);
    let hash = HashCode::generate(&enc);
    let signature = private.sign_hash(&hash);
    let good = post::Post { id: 3, hash, signature, meta };
    assert!(t.insert_post(good.clone()).is_ok());
    assert_eq!(t.load_post(3).unwrap(), good);

    // a wrong hash is the peer's fault
    let mut bad = good.clone();
    bad.hash = HashCode::from_bytes(vec![2; 64]);
    bad.signature = private.sign_hash(&bad.hash);
    assert!(matches!(
        t.insert_post(bad),
        Err(quartznet::error::MessageMalformedError::InvalidHash(_))
    ));

    // a signature by someone else is too
    let stranger = PrivateKey::from_bytes(vec![8u8; 32]);
    let mut forged = good.clone();
    forged.signature = stranger.sign_hash(&forged.hash);
    assert!(matches!(
        t.insert_post(forged),
        Err(quartznet::error::MessageMalformedError::InvalidSignature(_))
    ));
}

#[test]
fn list_posts_is_dense_with_gaps() {
    let (private, mut t) = fresh_timeline(9);
    for id in [0u64, 2, 3] {
        let meta = post::PostMeta {
            info: post::PostInfo { publish_timestamp: id, tags: Vec::new() },
            content_hash: HashCode::from_bytes(vec![id as u8; 64]),
            attachment_ids: Vec::new(),
        };
        let mut enc: Vec<u8> = Vec::new();
        post::enc_post_meta(&mut enc, &meta);
        let hash = HashCode::generate(&enc);
        let signature = private.sign_hash(&hash);
        t.insert_post(post::Post { id, hash, signature, meta }).unwrap();
    }
    let run = t.list_posts(0, 4);
    assert_eq!(run.len(), 4);
    assert!(run[0].is_some());
    assert!(run[1].is_none());
    assert!(run[2].is_some());
    assert!(run[3].is_some());
    assert_eq!(run[3].as_ref().unwrap().id, 3);
}

#[test]
fn content_is_replaced_and_forgotten() {
    let (_, mut t) = fresh_timeline(11);
    t.store_content(4, String::from("first"));
    t.store_content(4, String::from("second"));
    assert_eq!(t.load_content(4).unwrap(), "second");
    t.forget_content(4);
    assert!(t.load_content(4).is_none());
    // forgetting what is absent is a quiet no-op
    t.forget_content(4);
    assert!(t.load_content(4).is_none());
}

#[test]
fn breakup_reconstructs_by_concatenation() {
    let data: Vec<u8> = (0..=255u8).chain(0..=99u8).collect();
    let blocks = store::breakup_data(&data, 100);
    assert_eq!(blocks.len(), 4);
    assert_eq!(blocks[0].len(), 100);
    assert_eq!(blocks[1].len(), 100);
    assert_eq!(blocks[2].len(), 100);
    assert_eq!(blocks[3].len(), 56);
    let glued: Vec<u8> = blocks.concat();
    assert_eq!(glued, data);
    let ids = store::hash_blocks(&blocks);
    assert_eq!(ids.len(), 4);
    assert_eq!(ids[0], HashCode::generate(&blocks[0]));
    assert_ne!(ids[0], ids[3]);
}

#[test]
fn breakup_of_empty_content_is_empty() {
    let blocks = store::breakup_data(&Vec::new(), 1024);
    assert_eq!(blocks.len(), 0);
}

#[test]
fn stored_blocks_come_back_under_their_hash() {
    let (_, mut t) = fresh_timeline(13);
    let data: Vec<u8> = (0..50u8).collect();
    let ids = t.store_data(&data, 16);
    assert_eq!(ids.len(), 4);
    let first = t.load_block(&ids[0]).unwrap();
    assert_eq!(first, (0..16u8).collect::<Vec<u8>>());
    assert_eq!(HashCode::generate(&first), ids[0]);
    let absent = HashCode::from_bytes(vec![0xEE; 64]);
    assert!(t.load_block(&absent).is_none());
}

#[test]
fn set_publishers_keeps_surviving_timelines() {
    let owner = publisher_pair(1).1;
    let mut store = store::ChannelStore::new(owner);
    let (private_a, a) = publisher_pair(20);
    let b = publisher_pair(21).1;
    let c = publisher_pair(22).1;
    store.set_publishers(&vec![a.clone(), b.clone()]);
    assert_eq!(store.timelines.len(), 2);

    // give publisher a some history
    let at = store.find_timeline(&a).unwrap();
    let mut t = store.take_timeline(at);
    let info = post::PostInfo { publish_timestamp: 3, tags: Vec::new() };
    t.create_post(&private_a, "kept across the change", info).unwrap();
    store.put_timeline(at, t);

    // replace b by c; a's timeline must survive untouched
    store.set_publishers(&vec![a.clone(), c.clone()]);
    assert_eq!(store.timelines.len(), 2);
    assert!(store.find_timeline(&b).is_none());
    let at = store.find_timeline(&a).unwrap();
    assert_eq!(store.timeline_at(at).next_post_id(), 1);
    let at_c = store.find_timeline(&c).unwrap();
    assert_eq!(store.timeline_at(at_c).next_post_id(), 0);
}

#[test]
fn channel_profile_store_is_a_plain_cell() {
    let owner = publisher_pair(1).1;
    let mut store = store::ChannelStore::new(owner);
    assert!(store.fetch_profile().is_none());
    let profile = quartznet::message::ChannelProfile {
        base: quartznet::message::Profile {
            revision: 1,
            title: String::from("t"),
            description: String::from("d"),
            profile_picture: None,
        },
        stylesheet: None,
    };
    store.store_profile(profile.clone());
    assert_eq!(store.fetch_profile().unwrap(), &profile);
}
