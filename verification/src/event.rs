//! The event kinds of a channel swarm and their payloads.
//!
//! An event frame carries the channel-wide event id, then the event kind:
//! a channel event (a profile or publisher-list update, emitted by the
//! owner) or a publisher event (profile update, post publication, post
//! revision, or a request to forget a post), tagged with the publisher's
//! key. Each kind's payload has a verified codec and a round-trip lemma.

use vstd::prelude::*;

use crate::codec;
use crate::crypto;
use crate::crypto::{HashCode, PublicKey};
use crate::error::MessageMalformedError;

verus! {

/// The view of an event kind.
pub enum EventTypeV {
    Channel,
    Publisher(Seq<u8>),
}

impl EventTypeV {
    pub open spec fn wf(self) -> bool {
        self matches EventTypeV::Publisher(k) ==> k.len() == crypto::PUBLIC_KEY_LENGTH
    }
}

/// The kind of an event: either about the channel itself, or about the
/// timeline of one publisher.
#[derive(Debug, PartialEq, Eq)]
pub enum EventType {
    Channel,
    Publisher(PublicKey),
}

impl View for EventType {
    type V = EventTypeV;

    open spec fn view(&self) -> EventTypeV {
        match self {
            EventType::Channel => EventTypeV::Channel,
            EventType::Publisher(k) => EventTypeV::Publisher(k@),
        }
    }
}

impl Clone for EventType {
    fn clone(&self) -> (r: Self)
        ensures
            r@ == self@,
    {
        match self {
            EventType::Channel => EventType::Channel,
            EventType::Publisher(k) => EventType::Publisher(k.clone()),
        }
    }
}

pub open spec fn spec_enc_event_type(t: EventTypeV) -> Seq<u8>
    recommends
        t.wf(),
{
    match t {
        EventTypeV::Channel => seq![0u8],
        EventTypeV::Publisher(k) => seq![1u8] + k,
    }
}

pub open spec fn spec_dec_event_type(s: Seq<u8>) -> Option<(EventTypeV, int)> {
    if s.len() < 1 {
        None
    } else if s[0] == 0 {
        Some((EventTypeV::Channel, 1int))
    } else if s[0] == 1 {
        match crypto::spec_dec_key(s.skip(1)) {
            None => None,
            Some((k, c)) => Some((EventTypeV::Publisher(k), 1 + c)),
        }
    } else {
        None
    }
}

pub proof fn lemma_dec_enc_event_type(t: EventTypeV, rest: Seq<u8>)
    requires
        t.wf(),
    ensures
        spec_dec_event_type(spec_enc_event_type(t) + rest) == Some(
            (t, spec_enc_event_type(t).len() as int),
        ),
{
    let s = spec_enc_event_type(t) + rest;
    match t {
        EventTypeV::Channel => {
            assert(s[0] == 0);
        },
        EventTypeV::Publisher(k) => {
            assert(s[0] == 1);
            assert(s.skip(1) =~= k + rest);
            crypto::lemma_dec_enc_key(k, rest);
        },
    }
}

/// Appends an event kind: a tag byte, then the publisher key when the tag
/// is 1.
pub fn enc_event_type(out: &mut Vec<u8>, t: &EventType)
    requires
        t@.wf(),
    ensures
        final(out)@ == old(out)@ + spec_enc_event_type(t@),
{
    match t {
        EventType::Channel => {
            out.push(0u8);
            assert(out@ =~= old(out)@ + spec_enc_event_type(EventTypeV::Channel));
        },
        EventType::Publisher(k) => {
            out.push(1u8);
            crypto::enc_key(out, k);
            assert(out@ =~= old(out)@ + spec_enc_event_type(EventTypeV::Publisher(k@)));
        },
    }
}

/// Reads an event kind.
pub fn dec_event_type(buf: &Vec<u8>, pos: usize) -> (r: Result<
    (EventType, usize),
    MessageMalformedError,
>)
    requires
        pos <= buf@.len(),
    ensures
        match r {
            Ok((t, end)) => pos <= end <= buf@.len() && t@.wf() && spec_dec_event_type(
                buf@.skip(pos as int),
            ) == Some((t@, end - pos)),
            Err(e) => spec_dec_event_type(buf@.skip(pos as int)) is None && (e matches
                MessageMalformedError::MissingData(_) || e matches
                MessageMalformedError::InvalidTypeId(_, _)),
        },
{
    let (tag, p1) = codec::dec_u8(buf, pos, "event type")?;
    if tag == 0 {
        Ok((EventType::Channel, p1))
    } else if tag == 1 {
        proof {
            assert(buf@.skip(pos as int).skip(1) =~= buf@.skip(p1 as int));
        }
        let (k, end) = crypto::dec_key(buf, p1, "publisher address")?;
        Ok((EventType::Publisher(k), end))
    } else {
        Err(MessageMalformedError::InvalidTypeId(tag, "event type".to_owned()))
    }
}

/// The kind of a channel event.
#[derive(Clone, Copy, Debug, PartialEq, Eq, Structural)]
pub enum ChannelEventType {
    /// Carries the new profile information.
    UpdateChannelProfile,
    /// Replaces the set of authorized publishers.
    UpdatePublisherList,
}

impl ChannelEventType {
    pub open spec fn spec_byte(self) -> u8 {
        match self {
            ChannelEventType::UpdateChannelProfile => 0,
            ChannelEventType::UpdatePublisherList => 1,
        }
    }

    pub open spec fn spec_from_byte(b: u8) -> Option<ChannelEventType> {
        if b == 0 {
            Some(ChannelEventType::UpdateChannelProfile)
        } else if b == 1 {
            Some(ChannelEventType::UpdatePublisherList)
        } else {
            None
        }
    }

    pub fn to_byte(self) -> (r: u8)
        ensures
            r == self.spec_byte(),
    {
        match self {
            ChannelEventType::UpdateChannelProfile => 0,
            ChannelEventType::UpdatePublisherList => 1,
        }
    }

    pub fn try_from_byte(b: u8) -> (r: Option<ChannelEventType>)
        ensures
            r == ChannelEventType::spec_from_byte(b),
    {
        if b == 0 {
            Some(ChannelEventType::UpdateChannelProfile)
        } else if b == 1 {
            Some(ChannelEventType::UpdatePublisherList)
        } else {
            None
        }
    }
}

/// The kind of a publisher event.
#[derive(Clone, Copy, Debug, PartialEq, Eq, Structural)]
pub enum PublisherEventType {
    UpdateProfile,
    /// Publishes a post: the hash that identifies the post's content.
    PublishPost,
    /// Replaces the hash that identifies a post.
    RevisePost,
    /// Asks the participating nodes to forget a post.
    ForgetPost,
}

impl PublisherEventType {
    pub open spec fn spec_byte(self) -> u8 {
        match self {
            PublisherEventType::UpdateProfile => 0,
            PublisherEventType::PublishPost => 1,
            PublisherEventType::RevisePost => 2,
            PublisherEventType::ForgetPost => 3,
        }
    }

    pub open spec fn spec_from_byte(b: u8) -> Option<PublisherEventType> {
        if b == 0 {
            Some(PublisherEventType::UpdateProfile)
        } else if b == 1 {
            Some(PublisherEventType::PublishPost)
        } else if b == 2 {
            Some(PublisherEventType::RevisePost)
        } else if b == 3 {
            Some(PublisherEventType::ForgetPost)
        } else {
            None
        }
    }

    pub fn to_byte(self) -> (r: u8)
        ensures
            r == self.spec_byte(),
    {
        match self {
            PublisherEventType::UpdateProfile => 0,
            PublisherEventType::PublishPost => 1,
            PublisherEventType::RevisePost => 2,
            PublisherEventType::ForgetPost => 3,
        }
    }

    pub fn try_from_byte(b: u8) -> (r: Option<PublisherEventType>)
        ensures
            r == PublisherEventType::spec_from_byte(b),
    {
        if b == 0 {
            Some(PublisherEventType::UpdateProfile)
        } else if b == 1 {
            Some(PublisherEventType::PublishPost)
        } else if b == 2 {
            Some(PublisherEventType::RevisePost)
        } else if b == 3 {
            Some(PublisherEventType::ForgetPost)
        } else {
            None
        }
    }
}

/// The payload of a post publication: the hash code taken from all hash
/// codes of the blocks that make up the content.
#[derive(Debug, PartialEq, Eq)]
pub struct PublishPostEventData {
    pub hash: HashCode,
}

impl View for PublishPostEventData {
    type V = Seq<u8>;

    open spec fn view(&self) -> Seq<u8> {
        self.hash@
    }
}

impl Clone for PublishPostEventData {
    fn clone(&self) -> (r: Self)
        ensures
            r@ == self@,
    {
        PublishPostEventData { hash: self.hash.clone() }
    }
}

pub open spec fn spec_enc_publish_post(hash: Seq<u8>) -> Seq<u8>
    recommends
        hash.len() == crypto::HASH_LENGTH,
{
    hash
}

pub open spec fn spec_dec_publish_post(s: Seq<u8>) -> Option<(Seq<u8>, int)> {
    crypto::spec_dec_hash(s)
}

pub proof fn lemma_dec_enc_publish_post(hash: Seq<u8>, rest: Seq<u8>)
    requires
        hash.len() == crypto::HASH_LENGTH,
    ensures
        spec_dec_publish_post(spec_enc_publish_post(hash) + rest) == Some(
            (hash, crypto::HASH_LENGTH as int),
        ),
{
    crypto::lemma_dec_enc_hash(hash, rest);
}

/// Appends a post publication payload.
pub fn enc_publish_post(out: &mut Vec<u8>, d: &PublishPostEventData)
    requires
        d.hash.wf(),
    ensures
        final(out)@ == old(out)@ + spec_enc_publish_post(d@),
{
    crypto::enc_hash(out, &d.hash);
}

/// Reads a post publication payload.
pub fn dec_publish_post(buf: &Vec<u8>, pos: usize) -> (r: Result<
    (PublishPostEventData, usize),
    MessageMalformedError,
>)
    requires
        pos <= buf@.len(),
    ensures
        match r {
            Ok((d, end)) => pos <= end <= buf@.len() && d.hash.wf() && spec_dec_publish_post(
                buf@.skip(pos as int),
            ) == Some((d@, end - pos)),
            Err(e) => spec_dec_publish_post(buf@.skip(pos as int)) is None && e matches
                MessageMalformedError::MissingData(_),
        },
{
    let (hash, end) = crypto::dec_hash(buf, pos, "post content hash")?;
    Ok((PublishPostEventData { hash }, end))
}

/// The view of a post revision.
pub struct RevisePostEventDataV {
    pub old_post_id: u64,
    pub new_hash: Seq<u8>,
}

impl RevisePostEventDataV {
    pub open spec fn wf(self) -> bool {
        self.new_hash.len() == crypto::HASH_LENGTH
    }
}

/// The payload of a post revision: which post, and its new content hash.
#[derive(Debug, PartialEq, Eq)]
pub struct RevisePostEventData {
    pub old_post_id: u64,
    pub new_hash: HashCode,
}

impl View for RevisePostEventData {
    type V = RevisePostEventDataV;

    open spec fn view(&self) -> RevisePostEventDataV {
        RevisePostEventDataV { old_post_id: self.old_post_id, new_hash: self.new_hash@ }
    }
}

impl Clone for RevisePostEventData {
    fn clone(&self) -> (r: Self)
        ensures
            r@ == self@,
    {
        RevisePostEventData { old_post_id: self.old_post_id, new_hash: self.new_hash.clone() }
    }
}

pub open spec fn spec_enc_revise_post(d: RevisePostEventDataV) -> Seq<u8>
    recommends
        d.wf(),
{
    codec::spec_enc_u64(d.old_post_id) + d.new_hash
}

pub open spec fn spec_dec_revise_post(s: Seq<u8>) -> Option<(RevisePostEventDataV, int)> {
    match codec::spec_dec_u64(s) {
        None => None,
        Some((old_post_id, c0)) => match crypto::spec_dec_hash(s.skip(c0)) {
            None => None,
            Some((new_hash, c1)) => Some((RevisePostEventDataV { old_post_id, new_hash }, c0 + c1)),
        },
    }
}

pub proof fn lemma_dec_enc_revise_post(d: RevisePostEventDataV, rest: Seq<u8>)
    requires
        d.wf(),
    ensures
        spec_dec_revise_post(spec_enc_revise_post(d) + rest) == Some(
            (d, spec_enc_revise_post(d).len() as int),
        ),
{
    let s = spec_enc_revise_post(d) + rest;
    assert(s =~= codec::spec_enc_u64(d.old_post_id) + (d.new_hash + rest));
    codec::lemma_dec_enc_u64(d.old_post_id, d.new_hash + rest);
    assert(s.skip(8) =~= d.new_hash + rest);
    crypto::lemma_dec_enc_hash(d.new_hash, rest);
}

/// Appends a post revision payload.
pub fn enc_revise_post(out: &mut Vec<u8>, d: &RevisePostEventData)
    requires
        d@.wf(),
    ensures
        final(out)@ == old(out)@ + spec_enc_revise_post(d@),
{
    codec::enc_u64(out, d.old_post_id);
    crypto::enc_hash(out, &d.new_hash);
    assert(out@ =~= old(out)@ + spec_enc_revise_post(d@));
}

/// Reads a post revision payload.
pub fn dec_revise_post(buf: &Vec<u8>, pos: usize) -> (r: Result<
    (RevisePostEventData, usize),
    MessageMalformedError,
>)
    requires
        pos <= buf@.len(),
    ensures
        match r {
            Ok((d, end)) => pos <= end <= buf@.len() && d@.wf() && spec_dec_revise_post(
                buf@.skip(pos as int),
            ) == Some((d@, end - pos)),
            Err(e) => spec_dec_revise_post(buf@.skip(pos as int)) is None && e matches
                MessageMalformedError::MissingData(_),
        },
{
    let (old_post_id, p1) = codec::dec_u64(buf, pos, "revised post id")?;
    proof {
        assert(buf@.skip(pos as int).skip(p1 - pos) =~= buf@.skip(p1 as int));
    }
    let (new_hash, end) = crypto::dec_hash(buf, p1, "revised content hash")?;
    Ok((RevisePostEventData { old_post_id, new_hash }, end))
}

/// The first event of a channel: the immutable creation parameters.
///
/// These cannot change later: a publisher who missed such a change would
/// share data with more (or fewer) peers than intended.
#[derive(Clone, Copy, Debug, PartialEq, Eq, Structural)]
pub struct ChannelCreateEventData {
    /// If true, posts from the listed publishers can be shared with any
    /// subscriber peer.
    pub public: bool,
    /// The number of days that subscribers are asked to keep content. Not
    /// a guarantee; a hint for channels meant to be temporal.
    pub requested_replication_time: u32,
}

pub open spec fn spec_enc_channel_create(d: ChannelCreateEventData) -> Seq<u8> {
    seq![if d.public { 1u8 } else { 0u8 }] + codec::spec_enc_u32(d.requested_replication_time)
}

pub open spec fn spec_dec_channel_create(s: Seq<u8>) -> Option<(ChannelCreateEventData, int)> {
    if s.len() < 1 {
        None
    } else if s[0] == 0 || s[0] == 1 {
        match codec::spec_dec_u32(s.skip(1)) {
            None => None,
            Some((t, c)) => Some(
                (ChannelCreateEventData { public: s[0] == 1, requested_replication_time: t }, 1 + c),
            ),
        }
    } else {
        None
    }
}

pub proof fn lemma_dec_enc_channel_create(d: ChannelCreateEventData, rest: Seq<u8>)
    ensures
        spec_dec_channel_create(spec_enc_channel_create(d) + rest) == Some(
            (d, spec_enc_channel_create(d).len() as int),
        ),
{
    let s = spec_enc_channel_create(d) + rest;
    assert(s[0] == if d.public { 1u8 } else { 0u8 });
    assert(s.skip(1) =~= codec::spec_enc_u32(d.requested_replication_time) + rest);
    codec::lemma_dec_enc_u32(d.requested_replication_time, rest);
}

/// Appends the channel creation parameters.
pub fn enc_channel_create(out: &mut Vec<u8>, d: &ChannelCreateEventData)
    ensures
        final(out)@ == old(out)@ + spec_enc_channel_create(*d),
{
    out.push(if d.public { 1u8 } else { 0u8 });
    codec::enc_u32(out, d.requested_replication_time);
    assert(out@ =~= old(out)@ + spec_enc_channel_create(*d));
}

/// Reads the channel creation parameters.
pub fn dec_channel_create(buf: &Vec<u8>, pos: usize) -> (r: Result<
    (ChannelCreateEventData, usize),
    MessageMalformedError,
>)
    requires
        pos <= buf@.len(),
    ensures
        match r {
            Ok((d, end)) => pos <= end <= buf@.len() && spec_dec_channel_create(
                buf@.skip(pos as int),
            ) == Some((d, end - pos)),
            Err(e) => spec_dec_channel_create(buf@.skip(pos as int)) is None && (e matches
                MessageMalformedError::MissingData(_) || e matches
                MessageMalformedError::InvalidBoolean(_, _)),
        },
{
    let (tag, p1) = codec::dec_u8(buf, pos, "channel public flag")?;
    if tag != 0 && tag != 1 {
        return Err(MessageMalformedError::InvalidBoolean(tag, "channel public flag".to_owned()));
    }
    proof {
        assert(buf@.skip(pos as int).skip(1) =~= buf@.skip(p1 as int));
    }
    let (requested_replication_time, end) = codec::dec_u32(buf, p1, "replication time")?;
    Ok((ChannelCreateEventData { public: tag == 1, requested_replication_time }, end))
}

} // verus!
