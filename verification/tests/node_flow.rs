//! The node end to end: ordering, gap handling, banning, serving requests,
//! and the session slots.

use quartznet::codec;
use quartznet::crypto::{self, HashCode, PrivateKey, PublicKey};
use quartznet::error::{Error, MessageMalformedError};
use quartznet::event;
use quartznet::message;
use quartznet::node::Node;
use quartznet::request;
use quartznet::session::SessionManager;
use quartznet::store::ChannelStore;

const PARENT: u32 = 1;
const CHILD_A: u32 = 2;
const CHILD_B: u32 = 3;

fn owner_key() -> PrivateKey {
    PrivateKey::from_bytes(vec![42u8; 32])
}

fn publisher_key() -> PrivateKey {
    PrivateKey::from_bytes(vec![43u8; 32])
}

fn fresh_node(latest: u64) -> Node {
    let store = ChannelStore::new(owner_key().extract_public());
    let parent_address = PublicKey::from_bytes(vec![0x77; 33]);
    let mut node = Node::new(store, parent_address, PARENT, 1, latest);
    assert!(node.accept_child(CHILD_A));
    assert!(node.accept_child(CHILD_B));
    node
}

fn channel_profile_event(id: u64, signer: &PrivateKey, revision: u64, forge: bool) -> Vec<u8> {
    let profile = message::ChannelProfile {
        base: message::Profile {
            revision,
            title: String::from("the channel"),
            description: String::from("about it"),
            profile_picture: None,
        },
        stylesheet: None,
    };
    let mut enc: Vec<u8> = Vec::new();
    message::enc_channel_profile(&mut enc, &profile);
    let hash = HashCode::generate(&enc);
    let signed = if forge {
        // a signature over some other hash: correct hash, wrong signature
        HashCode::from_bytes(vec![0xEE; 64])
    } else {
        HashCode::from_bytes(hash.as_bytes().clone())
    };
    let signature = signer.sign_hash(&signed);
    let msg = message::UpdateChannelProfileEventMessage { hash, signature, profile };
    let mut frame: Vec<u8> = Vec::new();
    frame.push(message::MessageDirectionType::Event.to_byte());
    codec::enc_u64(&mut frame, id);
    frame.push(0); // event kind: channel
    frame.push(event::ChannelEventType::UpdateChannelProfile.to_byte());
    message::enc_update_channel_profile(&mut frame, &msg);
    frame
}

fn publish_post_event(id: u64, publisher: &PrivateKey, content_seed: u8) -> Vec<u8> {
    let hash = HashCode::from_bytes(vec![content_seed; 64]);
    let signature = publisher.sign_hash(&hash);
    let mut frame: Vec<u8> = Vec::new();
    frame.push(message::MessageDirectionType::Event.to_byte());
    codec::enc_u64(&mut frame, id);
    frame.push(1); // event kind: publisher, then the publisher's key
    crypto::enc_key(&mut frame, &publisher.extract_public());
    frame.push(event::PublisherEventType::PublishPost.to_byte());
    event::enc_publish_post(&mut frame, &event::PublishPostEventData { hash });
    crypto::enc_sig(&mut frame, &signature);
    frame
}

#[test]
fn contiguous_events_advance_and_rebroadcast() {
    let owner = owner_key();
    let mut node = fresh_node(0);
    for id in 1..=3u64 {
        let frame = channel_profile_event(id, &owner, id, false);
        let sends = node.process_message(&frame, PARENT).unwrap();
        // the event came from the parent: both children get it, the parent not
        assert_eq!(sends.len(), 2);
        for s in &sends {
            assert_ne!(s.channel_id, PARENT);
            assert_eq!(s.frame, frame);
        }
        assert_eq!(node.latest_event_id, id);
    }
    assert_eq!(node.store.fetch_profile().unwrap().base.revision, 3);
}

#[test]
fn lower_revision_is_a_valid_no_op() {
    let owner = owner_key();
    let mut node = fresh_node(0);
    node.process_message(&channel_profile_event(1, &owner, 5, false), PARENT).unwrap();
    node.process_message(&channel_profile_event(2, &owner, 4, false), PARENT).unwrap();
    assert_eq!(node.latest_event_id, 2);
    assert_eq!(node.store.fetch_profile().unwrap().base.revision, 5);
}

#[test]
fn stale_events_change_nothing_but_still_travel() {
    let owner = owner_key();
    let mut node = fresh_node(0);
    let first = channel_profile_event(1, &owner, 1, false);
    node.process_message(&first, PARENT).unwrap();
    let sends = node.process_message(&first, CHILD_A).unwrap();
    assert_eq!(node.latest_event_id, 1);
    assert_eq!(node.store.fetch_profile().unwrap().base.revision, 1);
    // rebroadcast still happens, skipping only the inbound socket
    assert_eq!(sends.len(), 2);
    for s in &sends {
        assert_ne!(s.channel_id, CHILD_A);
    }
}

#[test]
fn gap_is_buffered_and_drained_by_ticks() {
    let publisher = publisher_key();
    let mut node = fresh_node(5);
    node.store.set_publishers(&vec![publisher.extract_public()]);

    // event 7 arrives early: buffered raw, the latest id stays
    let seven = publish_post_event(7, &publisher, 0x07);
    node.process_message(&seven, PARENT).unwrap();
    assert_eq!(node.latest_event_id, 5);
    let at = node.store.find_timeline(&publisher.extract_public()).unwrap();
    assert_eq!(node.store.timeline_at(at).events.len(), 1);
    assert_eq!(node.store.timeline_at(at).next_post_id(), 0);

    // event 6 closes the gap and is applied at once
    let six = publish_post_event(6, &publisher, 0x06);
    node.process_message(&six, PARENT).unwrap();
    assert_eq!(node.latest_event_id, 6);
    assert_eq!(node.store.timeline_at(at).next_post_id(), 1);

    // the buffered 7 is picked up on the next tick
    assert_eq!(node.tick().unwrap(), true);
    assert_eq!(node.latest_event_id, 7);
    assert_eq!(node.store.timeline_at(at).next_post_id(), 2);
    assert_eq!(node.store.timeline_at(at).events.len(), 0);

    // nothing else is waiting
    assert_eq!(node.tick().unwrap(), false);
}

#[test]
fn an_event_too_far_ahead_is_malicious() {
    let owner = owner_key();
    let mut node = fresh_node(0);
    let frame = channel_profile_event(101, &owner, 1, false);
    let r = node.process_message(&frame, PARENT);
    assert!(matches!(
        r,
        Err(Error::MessageMalformed(MessageMalformedError::InvalidEventId(101)))
    ));
    assert_eq!(node.latest_event_id, 0);
    // the window's edge is still buffered
    let frame = channel_profile_event(100, &owner, 1, false);
    node.process_message(&frame, PARENT).unwrap();
    assert_eq!(node.latest_event_id, 0);
    assert_eq!(node.store.events.len(), 1);
}

#[test]
fn a_bad_signature_is_malicious() {
    let owner = owner_key();
    let mut node = fresh_node(0);
    let frame = channel_profile_event(1, &owner, 1, true);
    let r = node.process_message(&frame, PARENT);
    assert!(matches!(
        r,
        Err(Error::MessageMalformed(MessageMalformedError::InvalidSignature(_)))
    ));
    assert_eq!(node.latest_event_id, 0);
    assert!(node.store.fetch_profile().is_none());
}

#[test]
fn a_signature_by_a_stranger_is_malicious_too() {
    let mut node = fresh_node(0);
    let stranger = PrivateKey::from_bytes(vec![0x66; 32]);
    let frame = channel_profile_event(1, &stranger, 1, false);
    let r = node.process_message(&frame, PARENT);
    assert!(matches!(
        r,
        Err(Error::MessageMalformed(MessageMalformedError::InvalidSignature(_)))
    ));
}

#[test]
fn unknown_publisher_is_malicious() {
    let publisher = publisher_key();
    let mut node = fresh_node(0);
    // the publisher is not listed for the channel
    let frame = publish_post_event(1, &publisher, 0x01);
    let r = node.process_message(&frame, PARENT);
    assert!(matches!(
        r,
        Err(Error::MessageMalformed(MessageMalformedError::UnknownPublisher(_)))
    ));
}

#[test]
fn garbled_frames_are_malicious() {
    let mut node = fresh_node(0);
    assert!(matches!(
        node.process_message(&Vec::new(), PARENT),
        Err(Error::MessageMalformed(MessageMalformedError::MissingData(_)))
    ));
    assert!(matches!(
        node.process_message(&vec![9u8], PARENT),
        Err(Error::MessageMalformed(MessageMalformedError::InvalidTypeId(9, _)))
    ));
    // an event frame cut short
    assert!(matches!(
        node.process_message(&vec![0u8, 1, 2], PARENT),
        Err(Error::MessageMalformed(MessageMalformedError::MissingData(_)))
    ));
}

#[test]
fn posts_request_answers_with_what_is_held() {
    let publisher = publisher_key();
    let mut node = fresh_node(0);
    node.store.set_publishers(&vec![publisher.extract_public()]);

    // the timeline holds posts 0, 2 and 3 out of [0, 4)
    let at = node.store.find_timeline(&publisher.extract_public()).unwrap();
    let mut t = node.store.take_timeline(at);
    for id in [0u64, 2, 3] {
        let meta = quartznet::post::PostMeta {
            info: quartznet::post::PostInfo { publish_timestamp: id, tags: Vec::new() },
            content_hash: HashCode::from_bytes(vec![id as u8; 64]),
            attachment_ids: Vec::new(),
        };
        let mut enc: Vec<u8> = Vec::new();
        quartznet::post::enc_post_meta(&mut enc, &meta);
        let hash = HashCode::generate(&enc);
        let signature = publisher.sign_hash(&hash);
        t.insert_post(quartznet::post::Post { id, hash, signature, meta }).unwrap();
    }
    node.store.put_timeline(at, t);

    // ask for all four ids of the range
    let req = request::PostsRequest {
        timeline_id: publisher.extract_public(),
        post_id_start: 0,
        post_id_count: 4,
        mask: vec![0b0000_1111],
    };
    let mut frame: Vec<u8> = Vec::new();
    frame.push(message::MessageDirectionType::Request.to_byte());
    codec::enc_u32(&mut frame, 55);
    frame.push(message::RequestType::Posts.to_byte());
    request::enc_posts_request(&mut frame, &req);

    let sends = node.process_message(&frame, CHILD_A).unwrap();
    assert_eq!(sends.len(), 1);
    let reply = &sends[0];
    assert_eq!(reply.channel_id, CHILD_A);
    assert_eq!(reply.frame[0], message::MessageDirectionType::Response.to_byte());
    let (request_id, p) = codec::dec_u32(&reply.frame, 1, "request id").unwrap();
    assert_eq!(request_id, 55);
    assert_eq!(reply.frame[p], message::ResponseResultType::Success.to_byte());
    let payload: Vec<u8> = reply.frame[p + 1..].to_vec();
    let (resp, end) = request::dec_posts_response(&payload, 0, 4).unwrap();
    assert_eq!(end, payload.len());
    // bits 0, 2 and 3 are set: binary 1101
    assert_eq!(resp.mask, vec![0b0000_1101]);
    assert_eq!(resp.posts.len(), 3);
    assert_eq!(resp.posts[0].id, 0);
    assert_eq!(resp.posts[1].id, 2);
    assert_eq!(resp.posts[2].id, 3);
}

#[test]
fn posts_request_for_an_unknown_timeline_is_malicious() {
    let mut node = fresh_node(0);
    let req = request::PostsRequest {
        timeline_id: PublicKey::from_bytes(vec![0x51; 33]),
        post_id_start: 0,
        post_id_count: 1,
        mask: vec![1],
    };
    let mut frame: Vec<u8> = Vec::new();
    frame.push(message::MessageDirectionType::Request.to_byte());
    codec::enc_u32(&mut frame, 1);
    frame.push(message::RequestType::Posts.to_byte());
    request::enc_posts_request(&mut frame, &req);
    assert!(matches!(
        node.process_message(&frame, PARENT),
        Err(Error::MessageMalformed(MessageMalformedError::UnknownPublisher(_)))
    ));
}

#[test]
fn reserved_request_kinds_get_no_answer() {
    let mut node = fresh_node(0);
    let mut frame: Vec<u8> = Vec::new();
    frame.push(message::MessageDirectionType::Request.to_byte());
    codec::enc_u32(&mut frame, 2);
    frame.push(message::RequestType::Files.to_byte());
    let sends = node.process_message(&frame, PARENT).unwrap();
    assert_eq!(sends.len(), 0);
}

#[test]
fn responses_reach_the_waiting_session() {
    let mut node = fresh_node(0);
    node.session_manager.request(77);
    let mut frame: Vec<u8> = Vec::new();
    frame.push(message::MessageDirectionType::Response.to_byte());
    codec::enc_u32(&mut frame, 77);
    frame.push(message::ResponseResultType::Success.to_byte());
    frame.push(0xAB);
    let sends = node.process_message(&frame, PARENT).unwrap();
    assert_eq!(sends.len(), 0);
    let delivered = node.session_manager.take_response(77).unwrap();
    // the delivered bytes: the result byte, then the payload
    assert_eq!(delivered, vec![0, 0xAB]);
}

#[test]
fn session_delivers_the_exact_bytes_once() {
    let mut sm = SessionManager::new();
    sm.request(42);
    assert!(sm.take_response(42).is_none());
    assert!(sm.respond(42, vec![1, 2, 3]));
    assert_eq!(sm.take_response(42).unwrap(), vec![1, 2, 3]);
    // the session is closed now: a repeated response is dropped
    assert!(!sm.respond(42, vec![4, 5]));
    assert!(sm.take_response(42).is_none());
}

#[test]
fn a_late_response_after_the_timeout_is_dropped() {
    let mut sm = SessionManager::new();
    sm.request(42);
    // no response arrived within the timeout: the waiter gives up
    sm.expire(42);
    assert!(!sm.respond(42, vec![9]));
    assert!(sm.take_response(42).is_none());
}

#[test]
fn a_node_accepts_children_only_up_to_its_relay_power() {
    let store = ChannelStore::new(owner_key().extract_public());
    let parent_address = PublicKey::from_bytes(vec![0x77; 33]);
    let mut node = Node::new(store, parent_address, PARENT, 1, 0);
    assert!(node.accept_child(10));
    assert!(node.accept_child(11));
    assert!(!node.accept_child(12));
    assert_eq!(node.child_sockets, vec![10, 11]);
}
