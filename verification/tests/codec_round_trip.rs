//! Round trips and failure modes of the wire codec.

use quartznet::codec;
use quartznet::crypto::{HashCode, PrivateKey, PublicKey, Signature};
use quartznet::error::MessageMalformedError;
use quartznet::event;
use quartznet::message;
use quartznet::post;
use quartznet::request;
use quartznet::subscription;

fn hash(seed: u8) -> HashCode {
    HashCode::from_bytes(vec![seed; 64])
}

fn key(seed: u8) -> PublicKey {
    PublicKey::from_bytes(vec![seed; 33])
}

fn sig(seed: u8) -> Signature {
    Signature::from_bytes(vec![seed; 64])
}

fn sample_profile() -> message::Profile {
    message::Profile {
        revision: 7,
        title: String::from("a channel"),
        description: String::from("what this channel is about"),
        profile_picture: Some(hash(0xAA)),
    }
}

fn sample_channel_profile() -> message::ChannelProfile {
    message::ChannelProfile { base: sample_profile(), stylesheet: None }
}

#[test]
fn primitives_round_trip() {
    let mut buf: Vec<u8> = Vec::new();
    codec::enc_u16(&mut buf, 0xBEEF);
    codec::enc_u32(&mut buf, 0xDEAD_BEEF);
    codec::enc_u64(&mut buf, 0x0123_4567_89AB_CDEF);
    let (a, p) = codec::dec_u16(&buf, 0, "a").unwrap();
    let (b, p) = codec::dec_u32(&buf, p, "b").unwrap();
    let (c, p) = codec::dec_u64(&buf, p, "c").unwrap();
    assert_eq!(a, 0xBEEF);
    assert_eq!(b, 0xDEAD_BEEF);
    assert_eq!(c, 0x0123_4567_89AB_CDEF);
    assert_eq!(p, buf.len());
    assert_eq!(buf[0], 0xEF);
    assert_eq!(buf[1], 0xBE);
}

#[test]
fn numbers_are_little_endian() {
    let mut buf: Vec<u8> = Vec::new();
    codec::enc_u64(&mut buf, 1);
    assert_eq!(buf, vec![1, 0, 0, 0, 0, 0, 0, 0]);
}

#[test]
fn short_input_is_missing_data() {
    let buf: Vec<u8> = vec![1, 2, 3];
    assert!(matches!(
        codec::dec_u64(&buf, 0, "x"),
        Err(MessageMalformedError::MissingData(_))
    ));
    assert!(matches!(
        codec::dec_u32(&buf, 1, "x"),
        Err(MessageMalformedError::MissingData(_))
    ));
}

#[test]
fn strings_round_trip() {
    let mut buf: Vec<u8> = Vec::new();
    codec::enc_str8(&mut buf, "grüße");
    codec::enc_str16(&mut buf, "a longer text, still fine");
    let (a, p) = codec::dec_str8(&buf, 0, "a").unwrap();
    let (b, p) = codec::dec_str16(&buf, p, "b").unwrap();
    assert_eq!(a, "grüße");
    assert_eq!(b, "a longer text, still fine");
    assert_eq!(p, buf.len());
}

#[test]
fn invalid_utf8_is_rejected() {
    // a length byte of 2, then an invalid UTF-8 sequence
    let buf: Vec<u8> = vec![2, 0xC3, 0x28];
    assert!(matches!(
        codec::dec_str8(&buf, 0, "t"),
        Err(MessageMalformedError::InvalidUtf8(_))
    ));
}

#[test]
fn profile_round_trip() {
    let p = sample_profile();
    let mut buf: Vec<u8> = Vec::new();
    message::enc_profile(&mut buf, &p);
    let (q, end) = message::dec_profile(&buf, 0).unwrap();
    assert_eq!(end, buf.len());
    assert_eq!(q, p);
}

#[test]
fn channel_profile_round_trip() {
    let p = message::ChannelProfile { base: sample_profile(), stylesheet: Some(hash(0x31)) };
    let mut buf: Vec<u8> = Vec::new();
    message::enc_channel_profile(&mut buf, &p);
    let (q, end) = message::dec_channel_profile(&buf, 0).unwrap();
    assert_eq!(end, buf.len());
    assert_eq!(q, p);
}

#[test]
fn option_tag_must_be_boolean() {
    let mut buf: Vec<u8> = Vec::new();
    codec::enc_u64(&mut buf, 1);
    buf.push(0); // empty title
    buf.push(0);
    buf.push(0); // empty description
    buf.push(9); // an invalid optional-hash tag
    assert!(matches!(
        message::dec_profile(&buf, 0),
        Err(MessageMalformedError::InvalidBoolean(9, _))
    ));
}

#[test]
fn event_type_round_trip() {
    for t in [event::EventType::Channel, event::EventType::Publisher(key(0x44))] {
        let mut buf: Vec<u8> = Vec::new();
        event::enc_event_type(&mut buf, &t);
        let (u, end) = event::dec_event_type(&buf, 0).unwrap();
        assert_eq!(end, buf.len());
        assert_eq!(u, t);
    }
}

#[test]
fn event_type_rejects_unknown_tag() {
    let buf: Vec<u8> = vec![7];
    assert!(matches!(
        event::dec_event_type(&buf, 0),
        Err(MessageMalformedError::InvalidTypeId(7, _))
    ));
}

#[test]
fn byte_enums_map_both_ways() {
    assert_eq!(message::MessageDirectionType::Event.to_byte(), 0);
    assert_eq!(message::MessageDirectionType::Request.to_byte(), 1);
    assert_eq!(message::MessageDirectionType::Response.to_byte(), 2);
    assert_eq!(
        message::MessageDirectionType::try_from_byte(2),
        Some(message::MessageDirectionType::Response)
    );
    assert_eq!(message::MessageDirectionType::try_from_byte(3), None);
    assert_eq!(event::ChannelEventType::UpdateChannelProfile.to_byte(), 0);
    assert_eq!(event::ChannelEventType::UpdatePublisherList.to_byte(), 1);
    assert_eq!(event::PublisherEventType::ForgetPost.to_byte(), 3);
    assert_eq!(event::PublisherEventType::try_from_byte(4), None);
    assert_eq!(message::RequestType::Posts.to_byte(), 0);
    assert_eq!(message::ResponseResultType::InternalError.to_byte(), 1);
}

#[test]
fn event_payloads_round_trip() {
    let d = event::PublishPostEventData { hash: hash(0x55) };
    let mut buf: Vec<u8> = Vec::new();
    event::enc_publish_post(&mut buf, &d);
    let (e, end) = event::dec_publish_post(&buf, 0).unwrap();
    assert_eq!(end, buf.len());
    assert_eq!(e, d);

    let d = event::RevisePostEventData { old_post_id: 12, new_hash: hash(0x66) };
    let mut buf: Vec<u8> = Vec::new();
    event::enc_revise_post(&mut buf, &d);
    let (e, end) = event::dec_revise_post(&buf, 0).unwrap();
    assert_eq!(end, buf.len());
    assert_eq!(e, d);

    let d = event::ChannelCreateEventData { public: true, requested_replication_time: 30 };
    let mut buf: Vec<u8> = Vec::new();
    event::enc_channel_create(&mut buf, &d);
    let (e, end) = event::dec_channel_create(&buf, 0).unwrap();
    assert_eq!(end, buf.len());
    assert_eq!(e, d);
}

#[test]
fn signed_envelopes_round_trip() {
    let m = message::UpdateChannelProfileEventMessage {
        hash: hash(1),
        signature: sig(2),
        profile: sample_channel_profile(),
    };
    let mut buf: Vec<u8> = Vec::new();
    message::enc_update_channel_profile(&mut buf, &m);
    let (n, end) = message::dec_update_channel_profile(&buf, 0).unwrap();
    assert_eq!(end, buf.len());
    assert_eq!(n, m);

    let m = message::UpdatePublisherListEventMessage {
        hash: hash(3),
        signature: sig(4),
        publishers: vec![key(5), key(6)],
    };
    let mut buf: Vec<u8> = Vec::new();
    message::enc_update_publisher_list(&mut buf, &m);
    let (n, end) = message::dec_update_publisher_list(&buf, 0).unwrap();
    assert_eq!(end, buf.len());
    assert_eq!(n, m);

    let m = message::UpdateProfileEventMessage {
        hash: hash(7),
        signature: sig(8),
        profile: sample_profile(),
    };
    let mut buf: Vec<u8> = Vec::new();
    message::enc_update_profile(&mut buf, &m);
    let (n, end) = message::dec_update_profile(&buf, 0).unwrap();
    assert_eq!(end, buf.len());
    assert_eq!(n, m);
}

fn sample_post(seed: u8, id: u64) -> post::Post {
    post::Post {
        id,
        hash: hash(seed),
        signature: sig(seed),
        meta: post::PostMeta {
            info: post::PostInfo {
                publish_timestamp: 1000 + id,
                tags: vec![String::from("news"), String::from("art")],
            },
            content_hash: hash(seed ^ 0xFF),
            attachment_ids: vec![hash(seed ^ 1), hash(seed ^ 2)],
        },
    }
}

#[test]
fn post_round_trip() {
    let p = sample_post(0x21, 9);
    let mut buf: Vec<u8> = Vec::new();
    post::enc_post(&mut buf, &p);
    let (q, end) = post::dec_post(&buf, 0).unwrap();
    assert_eq!(end, buf.len());
    assert_eq!(q, p);
}

#[test]
fn posts_request_round_trip() {
    let m = request::PostsRequest {
        timeline_id: key(0x11),
        post_id_start: 40,
        post_id_count: 12,
        mask: vec![0b1010_0110, 0b0000_1001],
    };
    let mut buf: Vec<u8> = Vec::new();
    request::enc_posts_request(&mut buf, &m);
    let (n, end) = request::dec_posts_request(&buf, 0).unwrap();
    assert_eq!(end, buf.len());
    assert_eq!(n, m);
}

#[test]
fn posts_response_round_trip() {
    // three bits set among four: posts for ids 0, 2, 3
    let m = request::PostsResponse {
        mask: vec![0b0000_1101],
        posts: vec![sample_post(0x41, 0), sample_post(0x42, 2), sample_post(0x43, 3)],
    };
    let mut buf: Vec<u8> = Vec::new();
    request::enc_posts_response(&mut buf, &m);
    let (n, end) = request::dec_posts_response(&buf, 0, 4).unwrap();
    assert_eq!(end, buf.len());
    assert_eq!(n, m);
}

#[test]
fn blocks_request_round_trip() {
    let m = request::BlocksRequest { post_id: hash(0x71), block_ids: vec![hash(0x72), hash(0x73)] };
    let mut buf: Vec<u8> = Vec::new();
    request::enc_blocks_request(&mut buf, &m);
    let (n, end) = request::dec_blocks_request(&buf, 0).unwrap();
    assert_eq!(end, buf.len());
    assert_eq!(n, m);
}

#[test]
fn subscription_round_trip() {
    let s = subscription::Subscription {
        owner: key(0x01),
        publishers: vec![key(0x02), key(0x03)],
        cached_peers: vec![key(0x04)],
    };
    let mut buf: Vec<u8> = Vec::new();
    subscription::enc_subscription(&mut buf, &s);
    let (t, end) = subscription::dec_subscription(&buf, 0).unwrap();
    assert_eq!(end, buf.len());
    assert_eq!(t, s);
}

#[test]
fn connection_candidates_order() {
    let s = subscription::Subscription {
        owner: key(0x01),
        publishers: vec![key(0x02), key(0x03)],
        cached_peers: vec![key(0x04)],
    };
    let order = s.connection_candidates();
    assert_eq!(order, vec![key(0x04), key(0x02), key(0x03), key(0x01)]);
}

fn hex_to_bytes(hex: &str) -> Vec<u8> {
    let digits: Vec<u32> = hex.chars().map(|c| c.to_digit(16).unwrap()).collect();
    digits.chunks(2).map(|p| (p[0] * 16 + p[1]) as u8).collect()
}

#[test]
fn sha512_matches_the_known_test_vector() {
    // the digest must be a real SHA-512, not the input handed back
    let digest = HashCode::generate(&b"abc".to_vec());
    let expected = hex_to_bytes(
        "ddaf35a193617abacc417349ae20413112e6fa4e89a97ea20a9eeee64b55d39a\
         2192992a274fc1a836ba3c23a3feebbd454d4423643ce80e2a9ac94fa54ca49f",
    );
    assert_eq!(digest.as_bytes(), &expected);
}

#[test]
fn signatures_verify_only_over_the_signed_hash() {
    let private = PrivateKey::from_bytes(vec![9u8; 32]);
    let public = private.extract_public();
    let h1 = hash(0x10);
    let h2 = hash(0x20);
    let s = private.sign_hash(&h1);
    assert!(s.verify_hash(&h1, &public));
    assert!(!s.verify_hash(&h2, &public));
    let other = PrivateKey::from_bytes(vec![10u8; 32]).extract_public();
    assert!(!s.verify_hash(&h1, &other));
}

#[test]
fn blocks_response_round_trip() {
    let m = request::BlocksResponse { data: vec![vec![1, 2, 3], Vec::new(), vec![9; 40]] };
    let mut buf: Vec<u8> = Vec::new();
    request::enc_blocks_response(&mut buf, &m);
    let (n, end) = request::dec_blocks_response(&buf, 0).unwrap();
    assert_eq!(end, buf.len());
    assert_eq!(n, m);
    // a truncated chunk list is missing data
    let cut: Vec<u8> = buf[..buf.len() - 1].to_vec();
    assert!(matches!(
        request::dec_blocks_response(&cut, 0),
        Err(MessageMalformedError::MissingData(_))
    ));
}
