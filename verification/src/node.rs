//! The swarm node: one peer's runtime view of one channel's swarm.
//!
//! A node holds the channel store, the locally known latest event id, the
//! session manager, and the channel ids of the duplex sockets to its parent
//! and children. Frames come in from the transport as byte vectors tagged
//! with the socket's channel id; the node decodes, validates and applies
//! them, and hands back the frames to send out. Sending, receiving and
//! waiting stay outside: the loop around the node performs each returned
//! send, bans the peer when the node reports its message malformed, and
//! feeds responses back in.
//!
//! The event stream advances only contiguously: the event one past the
//! locally known latest id is applied at once, a plausible future event is
//! buffered raw until the gap before it closes, a stale event changes
//! nothing, and an event too far ahead is rejected as malformed. Whatever
//! the outcome of ordering, a frame that was not malformed is rebroadcast
//! to the parent and every child, except the socket it arrived on.

use vstd::prelude::*;

use crate::codec;
use crate::crypto;
use crate::crypto::{HashCode, PublicKey};
use crate::error::{Error, MessageMalformedError};
use crate::message::{MessageDirectionType, ResponseResultType};
use crate::session::SessionManager;
use crate::store::ChannelStore;

verus! {

/// One frame to send, and the channel id of the socket to send it on.
#[derive(Debug, PartialEq, Eq)]
pub struct Outgoing {
    pub channel_id: u32,
    pub frame: Vec<u8>,
}

/// Whether some entry of `sends` goes to the socket `channel_id`.
pub open spec fn sends_to(sends: Seq<Outgoing>, channel_id: u32) -> bool {
    exists|i: int| 0 <= i < sends.len() && (#[trigger] sends[i]).channel_id == channel_id
}

/// A peer of one channel's swarm.
#[derive(Debug, PartialEq, Eq)]
pub struct Node {
    /// What the node stores for the channel.
    pub store: ChannelStore,
    /// The id of the latest contiguously applied event.
    pub latest_event_id: u64,
    /// The slots of the requests in flight.
    pub session_manager: SessionManager,
    /// The address of the parent peer.
    pub parent_address: PublicKey,
    /// The channel id of the socket to the parent.
    pub parent_socket: u32,
    /// The channel ids of the sockets to the children.
    pub child_sockets: Vec<u32>,
    /// The node accepts up to two-to-the-`relay_power` children.
    pub relay_power: u8,
}

impl Node {
    pub open spec fn wf(&self) -> bool {
        &&& self.store.wf()
        &&& self.session_manager.wf()
        &&& self.parent_address.wf()
        &&& self.relay_power < 32
        &&& self.child_sockets@.len() <= (1usize << self.relay_power)
    }

    /// A node freshly connected to its parent. The latest event id comes
    /// from persistence; a bootstrapping subscriber starts it at zero.
    pub fn new(
        store: ChannelStore,
        parent_address: PublicKey,
        parent_socket: u32,
        relay_power: u8,
        latest_event_id: u64,
    ) -> (r: Node)
        requires
            store.wf(),
            parent_address.wf(),
            relay_power < 32,
        ensures
            r.wf(),
            r.store == store,
            r.latest_event_id == latest_event_id,
            r.parent_address == parent_address,
            r.parent_socket == parent_socket,
            r.child_sockets@.len() == 0,
            r.relay_power == relay_power,
            forall|id: u32| #[trigger] r.session_manager.slot(id) is None,
    {
        Node {
            store,
            latest_event_id,
            session_manager: SessionManager::new(),
            parent_address,
            parent_socket,
            child_sockets: Vec::new(),
            relay_power,
        }
    }

    /// Accepts a child connection if there is room: a node relays to at
    /// most two-to-the-`relay_power` children, and a full node turns the
    /// newcomer away to try another peer.
    pub fn accept_child(&mut self, channel_id: u32) -> (r: bool)
        requires
            old(self).wf(),
        ensures
            final(self).wf(),
            r == (old(self).child_sockets@.len() < (1usize << old(self).relay_power)),
            r ==> final(self).child_sockets@ == old(self).child_sockets@.push(channel_id),
            !r ==> final(self).child_sockets == old(self).child_sockets,
            final(self).store == old(self).store,
            final(self).latest_event_id == old(self).latest_event_id,
            final(self).session_manager == old(self).session_manager,
            final(self).parent_address == old(self).parent_address,
            final(self).parent_socket == old(self).parent_socket,
            final(self).relay_power == old(self).relay_power,
    {
        let cap: usize = 1usize << self.relay_power;
        if self.child_sockets.len() < cap {
            self.child_sockets.push(channel_id);
            true
        } else {
            false
        }
    }

    /// The frames that carry an inbound event on to the rest of the swarm:
    /// one to the parent and one to each child, except the socket the
    /// event arrived on. No frame ever goes back where it came from.
    pub fn rebroadcast_message(&self, message: &Vec<u8>, skip_channel_id: u32) -> (r: Vec<
        Outgoing,
    >)
        requires
            self.wf(),
        ensures
            // rebroadcast exclusion: nothing goes to the inbound socket
            forall|i: int|
                0 <= i < r@.len() ==> (#[trigger] r@[i]).channel_id != skip_channel_id,
            // every frame is the event frame, rebuilt with its direction byte
            forall|i: int|
                0 <= i < r@.len() ==> (#[trigger] r@[i]).frame@ == seq![
                    MessageDirectionType::Event.spec_byte(),
                ] + message@,
            // every frame goes to a peer of this node
            forall|i: int|
                0 <= i < r@.len() ==> (#[trigger] r@[i]).channel_id == self.parent_socket
                    || self.child_sockets@.contains(r@[i].channel_id),
            // the parent is served unless it is the inbound socket
            self.parent_socket != skip_channel_id ==> sends_to(r@, self.parent_socket),
            // each child is served unless it is the inbound socket
            forall|k: int|
                0 <= k < self.child_sockets@.len() && (#[trigger] self.child_sockets@[k])
                    != skip_channel_id ==> sends_to(r@, self.child_sockets@[k]),
    {
        let mut frame: Vec<u8> = Vec::new();
        frame.push(MessageDirectionType::Event.to_byte());
        codec::push_bytes(&mut frame, message);
        proof {
            assert(frame@ =~= seq![MessageDirectionType::Event.spec_byte()] + message@);
        }
        let mut r: Vec<Outgoing> = Vec::new();
        if self.parent_socket != skip_channel_id {
            let f = codec::copy_range(&frame, 0, frame.len());
            proof {
                assert(f@ =~= frame@);
            }
            r.push(Outgoing { channel_id: self.parent_socket, frame: f });
            proof {
                assert(r@[0].channel_id == self.parent_socket);
            }
        }
        let n = self.child_sockets.len();
        let mut i: usize = 0;
        while i < n
            invariant
                i <= n,
                n == self.child_sockets@.len(),
                forall|j: int|
                    0 <= j < r@.len() ==> (#[trigger] r@[j]).channel_id != skip_channel_id,
                forall|j: int|
                    0 <= j < r@.len() ==> (#[trigger] r@[j]).frame@ == seq![
                        MessageDirectionType::Event.spec_byte(),
                    ] + message@,
                forall|j: int|
                    0 <= j < r@.len() ==> (#[trigger] r@[j]).channel_id == self.parent_socket
                        || self.child_sockets@.contains(r@[j].channel_id),
                self.parent_socket != skip_channel_id ==> sends_to(r@, self.parent_socket),
                forall|k: int|
                    0 <= k < i && (#[trigger] self.child_sockets@[k]) != skip_channel_id
                        ==> sends_to(r@, self.child_sockets@[k]),
                frame@ == seq![MessageDirectionType::Event.spec_byte()] + message@,
            decreases n - i,
        {
            let ghost r_pre = r@;
            let child = self.child_sockets[i];
            if child != skip_channel_id {
                let f = codec::copy_range(&frame, 0, frame.len());
                proof {
                    assert(f@ =~= frame@);
                }
                r.push(Outgoing { channel_id: child, frame: f });
                proof {
                    assert(self.child_sockets@.contains(child)) by {
                        assert(self.child_sockets@[i as int] == child);
                    }
                    assert(r@[r@.len() - 1].channel_id == child);
                    assert forall|j: int| 0 <= j < r@.len() implies (#[trigger] r@[j]).channel_id
                        == self.parent_socket || self.child_sockets@.contains(
                        r@[j].channel_id,
                    ) by {
                        if j < r_pre.len() {
                            assert(r@[j] == r_pre[j]);
                        }
                    }
                    assert forall|k: int|
                        0 <= k <= i as int && (#[trigger] self.child_sockets@[k])
                            != skip_channel_id implies sends_to(r@, self.child_sockets@[k]) by {
                        if k < i as int {
                            let w = choose|w: int|
                                0 <= w < r_pre.len() && (#[trigger] r_pre[w]).channel_id
                                    == self.child_sockets@[k];
                            assert(r@[w] == r_pre[w]);
                        } else {
                            assert(r@[r@.len() - 1].channel_id == self.child_sockets@[k]);
                        }
                    }
                    if self.parent_socket != skip_channel_id {
                        let w = choose|w: int|
                            0 <= w < r_pre.len() && (#[trigger] r_pre[w]).channel_id
                                == self.parent_socket;
                        assert(r@[w] == r_pre[w]);
                    }
                }
            }
            i = i + 1;
        }
        r
    }

    /// Builds the response frame for a request that arrived on
    /// `channel_id`: the direction byte, the request id, the result byte
    /// and the payload.
    pub fn respond(
        channel_id: u32,
        request_id: u32,
        result: ResponseResultType,
        response: &Vec<u8>,
    ) -> (r: Outgoing)
        ensures
            r.channel_id == channel_id,
            r.frame@ == seq![MessageDirectionType::Response.spec_byte()] + codec::spec_enc_u32(
                request_id,
            ) + seq![result.spec_byte()] + response@,
    {
        let mut frame: Vec<u8> = Vec::new();
        frame.push(MessageDirectionType::Response.to_byte());
        codec::enc_u32(&mut frame, request_id);
        frame.push(result.to_byte());
        codec::push_bytes(&mut frame, response);
        proof {
            assert(frame@ =~= seq![MessageDirectionType::Response.spec_byte()]
                + codec::spec_enc_u32(request_id) + seq![result.spec_byte()] + response@);
        }
        Outgoing { channel_id, frame }
    }

    /// Routes an inbound response to the session that waits for it. The
    /// message holds the session id and then the delivered bytes (the
    /// result byte and the payload). A response to a session that is not
    /// waiting is dropped.
    pub fn process_response(&mut self, message: &Vec<u8>) -> (r: Result<(), Error>)
        requires
            old(self).wf(),
        ensures
            final(self).wf(),
            final(self).store == old(self).store,
            final(self).latest_event_id == old(self).latest_event_id,
            final(self).parent_address == old(self).parent_address,
            final(self).parent_socket == old(self).parent_socket,
            final(self).child_sockets == old(self).child_sockets,
            final(self).relay_power == old(self).relay_power,
            r is Ok <==> message@.len() >= 4,
            match r {
                Ok(()) => {
                    let session_id = codec::spec_u32_of(
                        message@[0],
                        message@[1],
                        message@[2],
                        message@[3],
                    );
                    &&& (old(self).session_manager.slot(session_id) == Some(
                        crate::session::SlotStateV::Waiting,
                    ) ==> final(self).session_manager.slot(session_id) == Some(
                        crate::session::SlotStateV::Delivered(message@.skip(4)),
                    ))
                    &&& (old(self).session_manager.slot(session_id) != Some(
                        crate::session::SlotStateV::Waiting,
                    ) ==> final(self).session_manager == old(self).session_manager)
                },
                Err(e) => final(self).session_manager == old(self).session_manager && e matches
                    Error::MessageMalformed(MessageMalformedError::MissingData(_)),
            },
    {
        let (session_id, p1) = match codec::dec_u32(message, 0, "response session id") {
            Ok(x) => x,
            Err(e) => {
                return Err(Error::MessageMalformed(e));
            },
        };
        let payload = codec::copy_range(message, 4, message.len() - 4);
        proof {
            assert(message@.skip(0) =~= message@);
            assert(payload@ =~= message@.skip(4));
        }
        self.session_manager.respond(session_id, payload);
        Ok(())
    }
}

} // verus!

// ---------------------------------------------------------------------------
// Applying channel events
// ---------------------------------------------------------------------------

verus! {

/// How the stored channel profile moves under an update carrying `p`:
/// replaced when none was stored or when `p` carries a higher revision,
/// else unchanged.
pub open spec fn spec_channel_profile_updated(
    old_profile: Option<crate::message::ChannelProfile>,
    new_profile: Option<crate::message::ChannelProfile>,
    p: crate::message::ChannelProfileV,
) -> bool {
    match old_profile {
        None => new_profile matches Some(q) && q@ == p,
        Some(cur) => if p.base.revision > cur@.base.revision {
            new_profile matches Some(q) && q@ == p
        } else {
            new_profile == old_profile
        },
    }
}

/// When a channel-profile update applies: its envelope decodes, its hash is
/// the hash of the encoded profile, and its signature verifies under the
/// channel owner's key.
pub open spec fn spec_update_channel_profile_ok(
    store: ChannelStore,
    message: Seq<u8>,
    pos: int,
) -> bool {
    crate::message::spec_dec_update_channel_profile(message.skip(pos)) matches Some((m, c))
        && m.hash == crypto::hash_of(crate::message::spec_enc_channel_profile(m.profile))
        && crypto::sig_ok(m.signature, m.hash, store.address@)
}

/// When a publisher-list update applies: its envelope decodes, its hash is
/// the hash of the encoded key list, and its signature verifies under the
/// channel owner's key.
pub open spec fn spec_update_publisher_list_ok(
    store: ChannelStore,
    message: Seq<u8>,
    pos: int,
) -> bool {
    crate::message::spec_dec_update_publisher_list(message.skip(pos)) matches Some((m, c))
        && m.hash == crypto::hash_of(crate::message::spec_enc_key_list(m.publishers))
        && crypto::sig_ok(m.signature, m.hash, store.address@)
}

/// How the timelines move when the publisher set becomes `keys`: every
/// listed key has a timeline and nothing else does, a publisher that stays
/// keeps its timeline, and a new one starts empty.
pub open spec fn spec_publishers_applied(
    old_store: ChannelStore,
    new_store: ChannelStore,
    keys: Seq<Seq<u8>>,
) -> bool {
    &&& forall|k: int| 0 <= k < keys.len() ==> new_store.spec_has_timeline(#[trigger] keys[k])
    &&& forall|i: int|
        0 <= i < new_store.timelines@.len() ==> exists|k: int|
            0 <= k < keys.len() && (#[trigger] new_store.timelines@[i]).publisher@ == (
            #[trigger] keys[k])
    &&& forall|i: int, j: int|
        0 <= i < new_store.timelines@.len() && 0 <= j < old_store.timelines@.len() && (
        #[trigger] new_store.timelines@[i]).publisher@ == (
        #[trigger] old_store.timelines@[j]).publisher@ ==> new_store.timelines@[i]
            == old_store.timelines@[j]
    &&& forall|i: int|
        0 <= i < new_store.timelines@.len() && !crate::store::publisher_among(
            (#[trigger] new_store.timelines@[i]).publisher@,
            old_store.timelines@,
        ) ==> crate::store::spec_timeline_empty(new_store.timelines@[i])
}

/// Whether the channel event whose kind byte stands at `pos` applies.
pub open spec fn spec_channel_event_ok(store: ChannelStore, message: Seq<u8>, pos: int) -> bool {
    &&& 0 <= pos < message.len()
    &&& match crate::event::ChannelEventType::spec_from_byte(message[pos]) {
        Some(crate::event::ChannelEventType::UpdateChannelProfile) =>
            spec_update_channel_profile_ok(store, message, pos + 1),
        Some(crate::event::ChannelEventType::UpdatePublisherList) =>
            spec_update_publisher_list_ok(store, message, pos + 1),
        None => false,
    }
}

/// How the store moves under the channel event whose kind byte stands at
/// `pos`.
pub open spec fn spec_channel_event_applied(
    old_store: ChannelStore,
    new_store: ChannelStore,
    message: Seq<u8>,
    pos: int,
) -> bool {
    &&& new_store.address == old_store.address
    &&& new_store.events == old_store.events
    &&& 0 <= pos < message.len()
    &&& match crate::event::ChannelEventType::spec_from_byte(message[pos]) {
        Some(crate::event::ChannelEventType::UpdateChannelProfile) => {
            &&& new_store.timelines == old_store.timelines
            &&& crate::message::spec_dec_update_channel_profile(message.skip(pos + 1)) matches
                Some((m, c)) && spec_channel_profile_updated(
                old_store.profile,
                new_store.profile,
                m.profile,
            )
        },
        Some(crate::event::ChannelEventType::UpdatePublisherList) => {
            &&& new_store.profile == old_store.profile
            &&& crate::message::spec_dec_update_publisher_list(message.skip(pos + 1)) matches
                Some((m, c)) && spec_publishers_applied(old_store, new_store, m.publishers)
        },
        None => false,
    }
}

impl Node {
    /// Applies a channel-profile update: checks that the carried hash is
    /// the hash of the encoded profile and that the signature over it
    /// verifies under the channel owner's key, then stores the profile if
    /// its revision is higher than the stored one's. An equal or lower
    /// revision is a valid no-op.
    pub fn process_event_channel_update_profile(&mut self, message: &Vec<u8>, pos: usize) -> (r:
        Result<(), Error>)
        requires
            old(self).wf(),
            pos <= message@.len(),
        ensures
            final(self).wf(),
            final(self).latest_event_id == old(self).latest_event_id,
            final(self).session_manager == old(self).session_manager,
            final(self).parent_address == old(self).parent_address,
            final(self).parent_socket == old(self).parent_socket,
            final(self).child_sockets == old(self).child_sockets,
            final(self).relay_power == old(self).relay_power,
            final(self).store.address == old(self).store.address,
            final(self).store.timelines == old(self).store.timelines,
            final(self).store.events == old(self).store.events,
            r is Ok <==> spec_update_channel_profile_ok(old(self).store, message@, pos as int),
            match r {
                Ok(()) => crate::message::spec_dec_update_channel_profile(
                    message@.skip(pos as int),
                ) matches Some((m, c)) && spec_channel_profile_updated(
                    old(self).store.profile,
                    final(self).store.profile,
                    m.profile,
                ),
                Err(e) => final(self).store.profile == old(self).store.profile && (e matches
                    Error::MessageMalformed(_)) && (e matches Error::MessageMalformed(
                    MessageMalformedError::InvalidHash(_),
                ) <==> (crate::message::spec_dec_update_channel_profile(
                    message@.skip(pos as int),
                ) matches Some((m, c)) && m.hash != crypto::hash_of(
                    crate::message::spec_enc_channel_profile(m.profile),
                ))) && (e matches Error::MessageMalformed(
                    MessageMalformedError::InvalidSignature(_),
                ) <==> (crate::message::spec_dec_update_channel_profile(
                    message@.skip(pos as int),
                ) matches Some((m, c)) && m.hash == crypto::hash_of(
                    crate::message::spec_enc_channel_profile(m.profile),
                ) && !crypto::sig_ok(m.signature, m.hash, old(self).store.address@))),
            },
    {
        let msg = match crate::message::dec_update_channel_profile(message, pos) {
            Ok((m, _end)) => m,
            Err(e) => {
                return Err(Error::MessageMalformed(e));
            },
        };
        let mut enc: Vec<u8> = Vec::new();
        crate::message::enc_channel_profile(&mut enc, &msg.profile);
        proof {
            assert(enc@ =~= crate::message::spec_enc_channel_profile(msg.profile@));
        }
        let hash = HashCode::generate(&enc);
        if !hash.equals(&msg.hash) {
            return Err(
                Error::MessageMalformed(
                    MessageMalformedError::InvalidHash("channel profile update".to_owned()),
                ),
            );
        }
        let public_key = self.store.load_address();
        if !msg.signature.verify_hash(&msg.hash, &public_key) {
            return Err(
                Error::MessageMalformed(
                    MessageMalformedError::InvalidSignature("channel profile update".to_owned()),
                ),
            );
        }
        let newer = match self.store.fetch_profile() {
            None => true,
            Some(cur) => msg.profile.base.revision > cur.base.revision,
        };
        if newer {
            self.store.store_profile(msg.profile);
        }
        Ok(())
    }

    /// Applies a publisher-list update: checks that the carried hash is
    /// the hash of the encoded key list and that the signature over it
    /// verifies under the channel owner's key, then replaces the publisher
    /// set atomically. The timeline of a publisher that stays is kept.
    pub fn process_event_channel_update_publisher_list(
        &mut self,
        message: &Vec<u8>,
        pos: usize,
    ) -> (r: Result<(), Error>)
        requires
            old(self).wf(),
            pos <= message@.len(),
        ensures
            final(self).wf(),
            final(self).latest_event_id == old(self).latest_event_id,
            final(self).session_manager == old(self).session_manager,
            final(self).parent_address == old(self).parent_address,
            final(self).parent_socket == old(self).parent_socket,
            final(self).child_sockets == old(self).child_sockets,
            final(self).relay_power == old(self).relay_power,
            final(self).store.address == old(self).store.address,
            final(self).store.profile == old(self).store.profile,
            final(self).store.events == old(self).store.events,
            r is Ok <==> spec_update_publisher_list_ok(old(self).store, message@, pos as int),
            match r {
                Ok(()) => crate::message::spec_dec_update_publisher_list(
                    message@.skip(pos as int),
                ) matches Some((m, c)) && spec_publishers_applied(
                    old(self).store,
                    final(self).store,
                    m.publishers,
                ),
                Err(e) => final(self).store.timelines == old(self).store.timelines && (e matches
                    Error::MessageMalformed(_)),
            },
    {
        let msg = match crate::message::dec_update_publisher_list(message, pos) {
            Ok((m, _end)) => m,
            Err(e) => {
                return Err(Error::MessageMalformed(e));
            },
        };
        let mut enc: Vec<u8> = Vec::new();
        crate::message::enc_key_list(&mut enc, &msg.publishers);
        proof {
            assert(enc@ =~= crate::message::spec_enc_key_list(
                crate::message::spec_keys_view(msg.publishers@),
            ));
        }
        let hash = HashCode::generate(&enc);
        if !hash.equals(&msg.hash) {
            return Err(
                Error::MessageMalformed(
                    MessageMalformedError::InvalidHash("publisher list update".to_owned()),
                ),
            );
        }
        let public_key = self.store.load_address();
        if !msg.signature.verify_hash(&msg.hash, &public_key) {
            return Err(
                Error::MessageMalformed(
                    MessageMalformedError::InvalidSignature("publisher list update".to_owned()),
                ),
            );
        }
        proof {
            assert forall|k: int|
                0 <= k < msg.publishers@.len() implies (#[trigger] msg.publishers@[k]).wf() by {
                assert(crate::message::spec_keys_view(msg.publishers@)[k].len()
                    == crypto::PUBLIC_KEY_LENGTH);
            }
        }
        self.store.set_publishers(&msg.publishers);
        proof {
            let m = crate::message::spec_keys_view(msg.publishers@);
            assert forall|k: int|
                0 <= k < m.len() implies self.store.spec_has_timeline(#[trigger] m[k]) by {
                assert(self.store.spec_has_timeline((msg.publishers@[k])@));
            }
            assert forall|i: int|
                0 <= i < self.store.timelines@.len() implies exists|k: int|
                0 <= k < m.len() && (#[trigger] self.store.timelines@[i]).publisher@ == m[k] by {
                assert(crate::store::key_among_first(
                    self.store.timelines@[i].publisher@,
                    msg.publishers@,
                    msg.publishers@.len() as int,
                ));
                let k = choose|k: int|
                    0 <= k < msg.publishers@.len() && (#[trigger] msg.publishers@[k])@
                        == self.store.timelines@[i].publisher@;
                assert(m[k] == self.store.timelines@[i].publisher@);
            }
        }
        Ok(())
    }

    /// Dispatches a channel event by its kind byte.
    pub fn process_event_channel(&mut self, message: &Vec<u8>, pos: usize) -> (r: Result<
        (),
        Error,
    >)
        requires
            old(self).wf(),
            pos <= message@.len(),
        ensures
            final(self).wf(),
            final(self).latest_event_id == old(self).latest_event_id,
            final(self).session_manager == old(self).session_manager,
            final(self).parent_address == old(self).parent_address,
            final(self).parent_socket == old(self).parent_socket,
            final(self).child_sockets == old(self).child_sockets,
            final(self).relay_power == old(self).relay_power,
            final(self).store.address == old(self).store.address,
            final(self).store.events == old(self).store.events,
            r is Err ==> (r matches Err(e) && e matches Error::MessageMalformed(_)),
            pos == message@.len() ==> (r matches Err(e) && e matches Error::MessageMalformed(
                MessageMalformedError::MissingData(_),
            )),
            pos < message@.len() && crate::event::ChannelEventType::spec_from_byte(
                message@[pos as int],
            ) is None ==> (r matches Err(e) && e matches Error::MessageMalformed(
                MessageMalformedError::InvalidTypeId(_, _),
            )),
            r is Ok <==> spec_channel_event_ok(old(self).store, message@, pos as int),
            r is Ok ==> spec_channel_event_applied(
                old(self).store,
                final(self).store,
                message@,
                pos as int,
            ),
    {
        if message.len() - pos < 1 {
            return Err(
                Error::MessageMalformed(MessageMalformedError::MissingData("channel event".to_owned())),
            );
        }
        let tag = message[pos];
        match crate::event::ChannelEventType::try_from_byte(tag) {
            None => Err(
                Error::MessageMalformed(
                    MessageMalformedError::InvalidTypeId(tag, "channel event type".to_owned()),
                ),
            ),
            Some(crate::event::ChannelEventType::UpdateChannelProfile) => {
                self.process_event_channel_update_profile(message, pos + 1)
            },
            Some(crate::event::ChannelEventType::UpdatePublisherList) => {
                self.process_event_channel_update_publisher_list(message, pos + 1)
            },
        }
    }
}

} // verus!

// ---------------------------------------------------------------------------
// Applying publisher events
// ---------------------------------------------------------------------------

verus! {

/// When a publisher event applies: the channel lists the publisher, and the
/// event's kind byte and payload apply to that publisher's timeline.
pub open spec fn spec_publisher_event_ok(
    store: ChannelStore,
    address: Seq<u8>,
    message: Seq<u8>,
    pos: int,
) -> bool {
    &&& store.spec_has_timeline(address)
    &&& crate::store::spec_timeline_event_ok(
        crate::store::spec_timeline_of(store, address),
        message,
        pos,
    )
}

/// How the store moves under a publisher event: only the addressed
/// publisher's timeline changes, and it changes as the event's kind says.
pub open spec fn spec_publisher_event_applied(
    old_store: ChannelStore,
    new_store: ChannelStore,
    address: Seq<u8>,
    message: Seq<u8>,
    pos: int,
) -> bool {
    &&& new_store.address == old_store.address
    &&& new_store.profile == old_store.profile
    &&& new_store.events == old_store.events
    &&& new_store.timelines@.len() == old_store.timelines@.len()
    &&& forall|k: int|
        0 <= k < old_store.timelines@.len() && (#[trigger] old_store.timelines@[k]).publisher@
            != address ==> new_store.timelines@[k] == old_store.timelines@[k]
    &&& forall|k: int|
        0 <= k < old_store.timelines@.len() && (#[trigger] old_store.timelines@[k]).publisher@
            == address ==> crate::store::spec_timeline_applied(
            old_store.timelines@[k],
            new_store.timelines@[k],
            message,
            pos,
        )
}

impl Node {
    /// Dispatches a publisher event by its kind byte to the publisher's
    /// timeline. An address that the channel does not list is a fault of
    /// the sending peer.
    pub fn process_event_publisher(
        &mut self,
        address: &PublicKey,
        message: &Vec<u8>,
        pos: usize,
    ) -> (r: Result<(), Error>)
        requires
            old(self).wf(),
            pos <= message@.len(),
        ensures
            final(self).wf(),
            final(self).latest_event_id == old(self).latest_event_id,
            final(self).session_manager == old(self).session_manager,
            final(self).parent_address == old(self).parent_address,
            final(self).parent_socket == old(self).parent_socket,
            final(self).child_sockets == old(self).child_sockets,
            final(self).relay_power == old(self).relay_power,
            final(self).store.address == old(self).store.address,
            final(self).store.profile == old(self).store.profile,
            final(self).store.events == old(self).store.events,
            final(self).store.timelines@.len() == old(self).store.timelines@.len(),
            // only the addressed publisher's timeline may change
            forall|k: int|
                0 <= k < old(self).store.timelines@.len() && (#[trigger] old(self).store.timelines@[k]).publisher@ != address@ ==> final(self).store.timelines@[k]
                    == old(self).store.timelines@[k],
            forall|k: int|
                0 <= k < old(self).store.timelines@.len() ==> (#[trigger] final(self).store.timelines@[k]).publisher == old(self).store.timelines@[k].publisher,
            r is Err ==> (r matches Err(e) && e matches Error::MessageMalformed(_)),
            !old(self).store.spec_has_timeline(address@) ==> (r matches Err(e) && e matches
                Error::MessageMalformed(MessageMalformedError::UnknownPublisher(_))),
            old(self).store.spec_has_timeline(address@) && pos == message@.len() ==> (r matches
                Err(e) && e matches Error::MessageMalformed(MessageMalformedError::MissingData(_))),
            old(self).store.spec_has_timeline(address@) && pos < message@.len()
                && crate::event::PublisherEventType::spec_from_byte(message@[pos as int]) is None
                ==> (r matches Err(e) && e matches Error::MessageMalformed(
                MessageMalformedError::InvalidTypeId(_, _),
            )),
            r is Ok <==> spec_publisher_event_ok(old(self).store, address@, message@, pos as int),
            r is Ok ==> spec_publisher_event_applied(
                old(self).store,
                final(self).store,
                address@,
                message@,
                pos as int,
            ),
    {
        let at = match self.store.find_timeline(address) {
            None => {
                return Err(
                    Error::MessageMalformed(
                        MessageMalformedError::UnknownPublisher(address.clone()),
                    ),
                );
            },
            Some(at) => at,
        };
        proof {
            assert(old(self).store.spec_has_timeline(address@)) by {
                assert(old(self).store.timelines@[at as int].publisher@ == address@);
            }
            crate::store::lemma_timeline_of_at(old(self).store, at as int);
        }
        if message.len() - pos < 1 {
            return Err(
                Error::MessageMalformed(
                    MessageMalformedError::MissingData("publisher event".to_owned()),
                ),
            );
        }
        let tag = message[pos];
        let kind = match crate::event::PublisherEventType::try_from_byte(tag) {
            None => {
                return Err(
                    Error::MessageMalformed(
                        MessageMalformedError::InvalidTypeId(
                            tag,
                            "publisher event type".to_owned(),
                        ),
                    ),
                );
            },
            Some(k) => k,
        };
        proof {
            assert(crate::event::PublisherEventType::spec_from_byte(message@[pos as int])
                == Some(kind));
        }
        let ghost pool0 = self.store.timelines@;
        let ghost t0 = self.store.timelines@[at as int];
        let mut t = self.store.take_timeline(at);
        proof {
            assert forall|k: int|
                0 <= k < self.store.timelines@.len() implies (
            #[trigger] self.store.timelines@[k]).publisher@ != t.publisher@ by {
                if k < at {
                    assert(self.store.timelines@[k] == pool0[k]);
                } else {
                    assert(self.store.timelines@[k] == pool0[k + 1]);
                }
            }
        }
        let r = match kind {
            crate::event::PublisherEventType::UpdateProfile => t.apply_update_profile(
                message,
                pos + 1,
            ),
            crate::event::PublisherEventType::PublishPost => t.apply_publish_post(
                message,
                pos + 1,
            ),
            crate::event::PublisherEventType::RevisePost => t.apply_revise_post(message, pos + 1),
            crate::event::PublisherEventType::ForgetPost => t.apply_forget_post(message, pos + 1),
        };
        let ghost t_new = t;
        self.store.put_timeline(at, t);
        proof {
            assert forall|k: int|
                0 <= k < pool0.len() && k != at implies (#[trigger] self.store.timelines@[k])
                == pool0[k] by {
                if k < at {
                    assert(self.store.timelines@[k] == pool0.remove(at as int)[k]);
                } else {
                    assert(self.store.timelines@[k] == pool0.remove(at as int)[k - 1]);
                }
            }
            assert(self.store.timelines@[at as int].publisher == pool0[at as int].publisher);
            assert(self.store.timelines@[at as int] == t_new);
            assert(crate::store::spec_timeline_of(old(self).store, address@) == t0);
            if r is Ok {
                assert(crate::store::spec_timeline_applied(t0, t_new, message@, pos as int));
                assert forall|k: int|
                    0 <= k < old(self).store.timelines@.len() && (#[trigger] old(self).store.timelines@[k]).publisher@ == address@ implies
                    crate::store::spec_timeline_applied(
                    old(self).store.timelines@[k],
                    self.store.timelines@[k],
                    message@,
                    pos as int,
                ) by {
                    if k != at {
                        assert(old(self).store.timelines@[k].publisher@ != old(self).store.timelines@[at as int].publisher@);
                    }
                }
            }
        }
        match r {
            Ok(()) => Ok(()),
            Err(e) => Err(e),
        }
    }
}

} // verus!

// ---------------------------------------------------------------------------
// Serving posts requests
// ---------------------------------------------------------------------------

verus! {

/// Builds the response to a posts request from one timeline: a mask with a
/// bit for each requested id the node holds, and those posts, in ascending
/// id order.
#[verifier::rlimit(60)]
pub fn build_posts_response(
    timeline: &crate::store::Timeline,
    req: &crate::request::PostsRequest,
) -> (r: crate::request::PostsResponse)
    requires
        timeline.wf(),
        req@.wf(),
        req.post_id_start + req.post_id_count <= u64::MAX,
    ensures
        r.mask@.len() == crate::request::spec_mask_len(req.post_id_count),
        // a bit answers: it was asked for, and the post is stored here
        forall|i: int|
            0 <= i < req.post_id_count ==> #[trigger] crate::request::spec_bit(r.mask@, i) == (
            crate::request::spec_bit(req.mask@, i) && crate::store::has_post(
                timeline.posts@,
                (req.post_id_start + i) as u64,
            )),
        // one post per set bit
        r.posts@.len() == crate::request::spec_count_bits(r.mask@, 0, req.post_id_count as int),
        // the posts are sound, stored here, inside the range, at set bits
        forall|k: int|
            0 <= k < r.posts@.len() ==> {
                &&& (#[trigger] r.posts@[k])@.wf()
                &&& crate::post::post_valid(r.posts@[k]@, timeline.publisher@)
                &&& req.post_id_start <= r.posts@[k].id < req.post_id_start + req.post_id_count
                &&& crate::request::spec_bit(r.mask@, r.posts@[k].id - req.post_id_start)
                &&& crate::store::post_view_among(r.posts@[k]@, timeline.posts@)
            },
        // ascending id order
        forall|k: int, l: int|
            0 <= k < l < r.posts@.len() ==> (#[trigger] r.posts@[k]).id < (
            #[trigger] r.posts@[l]).id,
        // every set bit has its post
        forall|i: int|
            0 <= i < req.post_id_count && #[trigger] crate::request::spec_bit(r.mask@, i)
                ==> exists|k: int|
                0 <= k < r.posts@.len() && (#[trigger] r.posts@[k]).id == req.post_id_start + i,
{
    let count = req.post_id_count;
    let start = req.post_id_start;
    let mask_len: usize = (count as usize + 7) / 8;
    let mut mask: Vec<u8> = Vec::new();
    let mut z: usize = 0;
    while z < mask_len
        invariant
            z <= mask_len,
            mask@.len() == z,
            forall|b: int| 0 <= b < z ==> #[trigger] mask@[b] == 0,
        decreases mask_len - z,
    {
        mask.push(0u8);
        z = z + 1;
    }
    proof {
        assert forall|j: int| 0 <= j < count implies #[trigger] crate::request::spec_bit(
            mask@,
            j,
        ) == false by {
            assert(j / 8 < mask_len as int) by (nonlinear_arith)
                requires
                    0 <= j < count,
                    mask_len as int == (count + 7) / 8,
            ;
            let bj = (j % 8) as u8;
            assert(mask@[j / 8] == 0);
            assert((0u8 & (1u8 << bj)) == 0) by (bit_vector);
        }
        assert(crate::request::spec_count_bits(mask@, 0, 0) == 0);
    }
    let mut posts: Vec<crate::post::Post> = Vec::new();
    let mut i: u16 = 0;
    while i < count
        invariant
            i <= count,
            timeline.wf(),
            req@.wf(),
            count == req.post_id_count,
            start == req.post_id_start,
            start + count <= u64::MAX,
            mask@.len() == crate::request::spec_mask_len(count),
            forall|j: int|
                0 <= j < i ==> #[trigger] crate::request::spec_bit(mask@, j) == (
                crate::request::spec_bit(req.mask@, j) && crate::store::has_post(
                    timeline.posts@,
                    (start + j) as u64,
                )),
            forall|j: int|
                i <= j < count ==> #[trigger] crate::request::spec_bit(mask@, j) == false,
            posts@.len() == crate::request::spec_count_bits(mask@, 0, i as int),
            forall|k: int|
                0 <= k < posts@.len() ==> {
                    &&& (#[trigger] posts@[k])@.wf()
                    &&& crate::post::post_valid(posts@[k]@, timeline.publisher@)
                    &&& start <= posts@[k].id < start + i
                    &&& crate::request::spec_bit(mask@, posts@[k].id - start)
                    &&& crate::store::post_view_among(posts@[k]@, timeline.posts@)
                },
            forall|k: int, l: int|
                0 <= k < l < posts@.len() ==> (#[trigger] posts@[k]).id < (
                #[trigger] posts@[l]).id,
            forall|j: int|
                0 <= j < i && #[trigger] crate::request::spec_bit(mask@, j) ==> exists|k: int|
                    0 <= k < posts@.len() && (#[trigger] posts@[k]).id == start + j,
        decreases count - i,
    {
        let ghost mask_pre = mask@;
        let ghost posts_pre = posts@;
        proof {
            assert(i as int / 8 < crate::request::spec_mask_len(count)) by (nonlinear_arith)
                requires
                    0 <= i < count,
            ;
        }
        let want = crate::request::get_bit(&req.mask, i);
        let mut stored = false;
        if want {
            match timeline.load_post(start + i as u64) {
                None => {},
                Some(p) => {
                    crate::request::set_bit(&mut mask, i);
                    posts.push(p);
                    stored = true;
                },
            }
        }
        proof {
            if stored {
                assert forall|j: int|
                    0 <= j < count && j != i implies #[trigger] crate::request::spec_bit(mask@, j)
                    == crate::request::spec_bit(mask_pre, j) by {
                    assert(j / 8 < mask_pre.len()) by (nonlinear_arith)
                        requires
                            0 <= j < count,
                            mask_pre.len() == (count + 7) / 8,
                    ;
                }
                crate::request::lemma_count_bits_congruent(mask@, mask_pre, 0, i as int);
                crate::request::lemma_count_bits_snoc(mask@, 0, i as int);
                assert(crate::request::spec_bit(mask@, i as int));
                assert(posts@[posts@.len() - 1].id == start + i);
                assert forall|j: int|
                    0 <= j < i + 1 && #[trigger] crate::request::spec_bit(mask@, j)
                    implies exists|k: int|
                    0 <= k < posts@.len() && (#[trigger] posts@[k]).id == start + j by {
                    if j < i as int {
                        let k = choose|k: int|
                            0 <= k < posts_pre.len() && (#[trigger] posts_pre[k]).id == start + j;
                        assert(posts@[k] == posts_pre[k]);
                    } else {
                        assert(posts@[posts@.len() - 1].id == start + j);
                    }
                }
            } else {
                crate::request::lemma_count_bits_snoc(mask@, 0, i as int);
                assert(!crate::request::spec_bit(mask@, i as int));
            }
        }
        i = i + 1;
    }
    let r = crate::request::PostsResponse { mask, posts };
    proof {
        assert forall|i2: int|
            0 <= i2 < count && #[trigger] crate::request::spec_bit(r.mask@, i2) implies exists|
            k: int,
        |
            0 <= k < r.posts@.len() && (#[trigger] r.posts@[k]).id == start + i2 by {
            assert(crate::request::spec_bit(r.mask@, i2) == crate::request::spec_bit(
                r.mask@,
                i2,
            ));
            let k = choose|k: int|
                0 <= k < r.posts@.len() && (#[trigger] r.posts@[k]).id == start + i2;
            assert(r.posts@[k].id == start + i2);
        }
    }
    r
}

/// The exact content of a posts response `m` to the request `q`, against
/// the store: bit `i` of the mask answers whether the asked id is held by
/// the addressed timeline, and the posts are that timeline's stored
/// records for the set bits, in ascending id order, one per set bit.
pub open spec fn spec_posts_response_exact(
    store: ChannelStore,
    q: crate::request::PostsRequestV,
    m: crate::request::PostsResponseV,
) -> bool {
    let t = crate::store::spec_timeline_of(store, q.timeline_id);
    &&& m.mask.len() == crate::request::spec_mask_len(q.post_id_count)
    &&& forall|i: int|
        0 <= i < q.post_id_count ==> #[trigger] crate::request::spec_bit(m.mask, i) == (
        crate::request::spec_bit(q.mask, i) && crate::store::has_post(
            t.posts@,
            (q.post_id_start + i) as u64,
        ))
    &&& m.posts.len() == crate::request::spec_count_bits(m.mask, 0, q.post_id_count as int)
    &&& forall|k: int|
        0 <= k < m.posts.len() ==> {
            &&& (#[trigger] m.posts[k]).wf()
            &&& crate::post::post_valid(m.posts[k], t.publisher@)
            &&& q.post_id_start <= m.posts[k].id < q.post_id_start + q.post_id_count
            &&& crate::request::spec_bit(m.mask, m.posts[k].id - q.post_id_start)
            &&& crate::store::post_view_among(m.posts[k], t.posts@)
        }
    &&& forall|k: int, l: int|
        0 <= k < l < m.posts.len() ==> (#[trigger] m.posts[k]).id < (#[trigger] m.posts[l]).id
    &&& forall|i: int|
        0 <= i < q.post_id_count && #[trigger] crate::request::spec_bit(m.mask, i) ==> exists|
            k: int,
        | 0 <= k < m.posts.len() && (#[trigger] m.posts[k]).id == q.post_id_start + i
}

/// Whether a request frame (after its direction byte) is served: the
/// request id and kind decode, and a Posts request names a listed timeline
/// and a range that fits. Files and Blocks are reserved: well-formed, but
/// answered with silence.
pub open spec fn spec_request_ok(store: ChannelStore, message: Seq<u8>) -> bool {
    &&& message.len() >= 5
    &&& match crate::message::RequestType::spec_from_byte(message[4]) {
        Some(crate::message::RequestType::Posts) => crate::request::spec_dec_posts_request(
            message.skip(5),
        ) matches Some((q, c)) && store.spec_has_timeline(q.timeline_id) && q.post_id_start
            + q.post_id_count <= u64::MAX,
        Some(crate::message::RequestType::Files) => true,
        Some(crate::message::RequestType::Blocks) => true,
        None => false,
    }
}

/// What a served request sends back: a Posts request gets exactly one
/// response frame on the inbound socket, carrying its request id, the
/// success byte and the exact posts response; the reserved kinds get
/// nothing.
pub open spec fn spec_request_outcome(
    store: ChannelStore,
    message: Seq<u8>,
    channel_id: u32,
    sends: Seq<Outgoing>,
) -> bool {
    &&& message.len() >= 5
    &&& match crate::message::RequestType::spec_from_byte(message[4]) {
        Some(crate::message::RequestType::Posts) => {
            &&& sends.len() == 1
            &&& sends[0].channel_id == channel_id
            &&& crate::request::spec_dec_posts_request(message.skip(5)) matches Some((q, c))
                && (exists|m: crate::request::PostsResponseV|
                sends[0].frame@ == seq![MessageDirectionType::Response.spec_byte()]
                    + codec::spec_enc_u32(
                    codec::spec_u32_of(message[0], message[1], message[2], message[3]),
                ) + seq![ResponseResultType::Success.spec_byte()]
                    + #[trigger] crate::request::spec_enc_posts_response(m)
                    && spec_posts_response_exact(store, q, m))
        },
        Some(crate::message::RequestType::Files) => sends.len() == 0,
        Some(crate::message::RequestType::Blocks) => sends.len() == 0,
        None => false,
    }
}

impl Node {
    /// Serves a posts request: collects which of the asked ids this node
    /// stores and those posts, and encodes the response payload.
    pub fn process_request_posts(&self, message: &Vec<u8>, pos: usize) -> (r: Result<
        (ResponseResultType, Vec<u8>),
        Error,
    >)
        requires
            self.wf(),
            pos <= message@.len(),
        ensures
            r is Ok <==> (crate::request::spec_dec_posts_request(message@.skip(pos as int))
                matches Some((q, c)) && self.store.spec_has_timeline(q.timeline_id)
                && q.post_id_start + q.post_id_count <= u64::MAX),
            match r {
                Ok((result, payload)) => result == ResponseResultType::Success && (
                crate::request::spec_dec_posts_request(message@.skip(pos as int)) matches
                    Some((q, c)) && (exists|m: crate::request::PostsResponseV|
                    payload@ == #[trigger] crate::request::spec_enc_posts_response(m)
                        && spec_posts_response_exact(self.store, q, m))),
                Err(e) => (e matches Error::MessageMalformed(_)) && (
                crate::request::spec_dec_posts_request(message@.skip(pos as int)) matches Some(
                    (q, c),
                ) ==> ((!self.store.spec_has_timeline(q.timeline_id) ==> e matches
                    Error::MessageMalformed(MessageMalformedError::UnknownPublisher(_))) && (
                self.store.spec_has_timeline(q.timeline_id) && q.post_id_start + q.post_id_count
                    > u64::MAX ==> e matches Error::MessageMalformed(
                    MessageMalformedError::DeserializationIssue(_),
                )))),
            },
    {
        let (req, _end) = match crate::request::dec_posts_request(message, pos) {
            Ok(x) => x,
            Err(e) => {
                return Err(Error::MessageMalformed(e));
            },
        };
        let at = match self.store.find_timeline(&req.timeline_id) {
            None => {
                return Err(
                    Error::MessageMalformed(
                        MessageMalformedError::UnknownPublisher(req.timeline_id),
                    ),
                );
            },
            Some(at) => at,
        };
        if req.post_id_start > u64::MAX - req.post_id_count as u64 {
            return Err(
                Error::MessageMalformed(
                    MessageMalformedError::DeserializationIssue(
                        "posts request range overflows".to_owned(),
                    ),
                ),
            );
        }
        let timeline = self.store.timeline_at(at);
        let resp = build_posts_response(timeline, &req);
        let mut payload: Vec<u8> = Vec::new();
        crate::request::enc_posts_response(&mut payload, &resp);
        proof {
            assert(payload@ =~= crate::request::spec_enc_posts_response(resp@));
            crate::store::lemma_timeline_of_at(self.store, at as int);
            let t = crate::store::spec_timeline_of(self.store, req.timeline_id@);
            assert(t == self.store.timelines@[at as int]);
            let m = resp@;
            assert forall|k: int| 0 <= k < m.posts.len() implies {
                &&& (#[trigger] m.posts[k]).wf()
                &&& crate::post::post_valid(m.posts[k], t.publisher@)
                &&& req.post_id_start <= m.posts[k].id < req.post_id_start + req.post_id_count
                &&& crate::request::spec_bit(m.mask, m.posts[k].id - req.post_id_start)
                &&& crate::store::post_view_among(m.posts[k], t.posts@)
            } by {
                assert(m.posts[k] == resp.posts@[k]@);
                assert(crate::store::post_view_among(resp.posts@[k]@, timeline.posts@));
                assert(t.posts@ == timeline.posts@);
            }
            assert forall|k: int, l: int|
                0 <= k < l < m.posts.len() implies (#[trigger] m.posts[k]).id < (
            #[trigger] m.posts[l]).id by {
                assert(m.posts[k] == resp.posts@[k]@);
                assert(m.posts[l] == resp.posts@[l]@);
            }
            assert forall|i: int|
                0 <= i < req.post_id_count && #[trigger] crate::request::spec_bit(m.mask, i)
                implies exists|k: int|
                0 <= k < m.posts.len() && (#[trigger] m.posts[k]).id == req.post_id_start + i by {
                let k = choose|k: int|
                    0 <= k < resp.posts@.len() && (#[trigger] resp.posts@[k]).id
                        == req.post_id_start + i;
                assert(m.posts[k] == resp.posts@[k]@);
                assert(m.posts[k].id == req.post_id_start + i);
            }
            assert(spec_posts_response_exact(self.store, req@, m));
        }
        Ok((ResponseResultType::Success, payload))
    }

    /// Serves an inbound request frame (after its direction byte): decodes
    /// the request id and kind and answers on the same socket. `Files` and
    /// `Blocks` requests are reserved; the node does not answer them yet.
    pub fn process_request(&self, message: &Vec<u8>, channel_id: u32) -> (r: Result<
        Vec<Outgoing>,
        Error,
    >)
        requires
            self.wf(),
        ensures
            r is Ok <==> spec_request_ok(self.store, message@),
            match r {
                Ok(sends) => spec_request_outcome(self.store, message@, channel_id, sends@),
                Err(e) => {
                    &&& (e matches Error::MessageMalformed(_))
                    &&& (message@.len() < 5 ==> e matches Error::MessageMalformed(
                        MessageMalformedError::MissingData(_),
                    ))
                    &&& (message@.len() >= 5 && crate::message::RequestType::spec_from_byte(
                        message@[4],
                    ) is None ==> e matches Error::MessageMalformed(
                        MessageMalformedError::InvalidTypeId(_, _),
                    ))
                    &&& (message@.len() >= 5 && crate::message::RequestType::spec_from_byte(
                        message@[4],
                    ) == Some(crate::message::RequestType::Posts) ==> (
                    crate::request::spec_dec_posts_request(message@.skip(5)) matches Some(
                        (q, c),
                    ) ==> (!self.store.spec_has_timeline(q.timeline_id) ==> e matches
                        Error::MessageMalformed(MessageMalformedError::UnknownPublisher(_)))))
                },
            },
    {
        proof {
            assert(message@.skip(0) =~= message@);
        }
        let (request_id, p1) = match codec::dec_u32(message, 0, "request id") {
            Ok(x) => x,
            Err(e) => {
                return Err(Error::MessageMalformed(e));
            },
        };
        if message.len() - p1 < 1 {
            return Err(
                Error::MessageMalformed(MessageMalformedError::MissingData("request".to_owned())),
            );
        }
        let tag = message[p1];
        match crate::message::RequestType::try_from_byte(tag) {
            None => Err(
                Error::MessageMalformed(
                    MessageMalformedError::InvalidTypeId(tag, "request type".to_owned()),
                ),
            ),
            Some(crate::message::RequestType::Posts) => {
                let (result, payload) = self.process_request_posts(message, p1 + 1)?;
                let mut sends: Vec<Outgoing> = Vec::new();
                sends.push(Node::respond(channel_id, request_id, result, &payload));
                proof {
                    let (qv, c) = choose|qv: crate::request::PostsRequestV, c: int|
                        crate::request::spec_dec_posts_request(message@.skip(5)) == Some(
                            (qv, c),
                        );
                    let m = choose|m: crate::request::PostsResponseV|
                        payload@ == #[trigger] crate::request::spec_enc_posts_response(m)
                            && spec_posts_response_exact(self.store, qv, m);
                    assert(sends@[0].frame@ =~= seq![MessageDirectionType::Response.spec_byte()]
                        + codec::spec_enc_u32(
                        codec::spec_u32_of(message@[0], message@[1], message@[2], message@[3]),
                    ) + seq![ResponseResultType::Success.spec_byte()]
                        + crate::request::spec_enc_posts_response(m));
                }
                Ok(sends)
            },
            // reserved kinds: not supported yet, and no response goes out
            Some(crate::message::RequestType::Files) => Ok(Vec::new()),
            Some(crate::message::RequestType::Blocks) => Ok(Vec::new()),
        }
    }
}

} // verus!

// ---------------------------------------------------------------------------
// The event-ordering state machine and the dispatcher
// ---------------------------------------------------------------------------

verus! {

/// The window of future events a node is willing to buffer: an event
/// whose id is further than this past the locally known latest id is
/// treated as an attempt to fill the disk, and its sender as malicious.
pub const EVENT_BUFFER_WINDOW: u64 = 100;

/// The event id at the head of an event frame's content.
pub open spec fn spec_event_id(message: Seq<u8>) -> u64
    recommends
        message.len() >= 8,
{
    codec::spec_u64_of(message.subrange(0, 8))
}

/// How a run of buffered raw events grows by one: the given event is
/// appended and everything already buffered stays.
pub open spec fn spec_event_buffered(
    old_events: Seq<crate::store::StoredEvent>,
    new_events: Seq<crate::store::StoredEvent>,
    id: u64,
    payload: Seq<u8>,
) -> bool {
    &&& new_events.len() == old_events.len() + 1
    &&& new_events.subrange(0, old_events.len() as int) == old_events
    &&& new_events[old_events.len() as int].id == id
    &&& new_events[old_events.len() as int].payload@ == payload
}

/// How a timeline buffers one raw event: only its event buffer grows.
pub open spec fn spec_timeline_buffered(
    t0: crate::store::Timeline,
    t1: crate::store::Timeline,
    id: u64,
    payload: Seq<u8>,
) -> bool {
    &&& t1.publisher == t0.publisher
    &&& t1.profile == t0.profile
    &&& t1.entries == t0.entries
    &&& t1.posts == t0.posts
    &&& t1.contents == t0.contents
    &&& t1.blocks == t0.blocks
    &&& spec_event_buffered(t0.events@, t1.events@, id, payload)
}

/// Whether an event frame (after its direction byte) is accepted by the
/// node: it decodes, and by its id it is contiguous and applies, is stale,
/// or is plausibly future with a place to be buffered.
pub open spec fn spec_event_frame_ok(node: Node, message: Seq<u8>) -> bool {
    codec::spec_dec_u64(message) matches Some((id, c0)) && (
    crate::event::spec_dec_event_type(message.skip(8)) matches Some((t, c1)) && {
        let pos = 8 + c1;
        let latest = node.latest_event_id;
        if latest < u64::MAX && id == latest + 1 {
            match t {
                crate::event::EventTypeV::Channel => spec_channel_event_ok(
                    node.store,
                    message,
                    pos,
                ),
                crate::event::EventTypeV::Publisher(k) => spec_publisher_event_ok(
                    node.store,
                    k,
                    message,
                    pos,
                ),
            }
        } else if id <= latest {
            true
        } else if id - latest > EVENT_BUFFER_WINDOW {
            false
        } else {
            match t {
                crate::event::EventTypeV::Channel => true,
                crate::event::EventTypeV::Publisher(k) => node.store.spec_has_timeline(k),
            }
        }
    })
}

/// What an accepted event frame does to the node: a contiguous id applies
/// its kind's effect and advances the latest id; a stale id changes
/// nothing; a plausible future id leaves the latest id and buffers the raw
/// payload where it belongs.
pub open spec fn spec_event_outcome(
    node: Node,
    new_store: ChannelStore,
    new_latest: u64,
    message: Seq<u8>,
) -> bool {
    codec::spec_dec_u64(message) matches Some((id, c0)) && (
    crate::event::spec_dec_event_type(message.skip(8)) matches Some((t, c1)) && {
        let pos = 8 + c1;
        let latest = node.latest_event_id;
        if latest < u64::MAX && id == latest + 1 {
            &&& new_latest == id
            &&& match t {
                crate::event::EventTypeV::Channel => spec_channel_event_applied(
                    node.store,
                    new_store,
                    message,
                    pos,
                ),
                crate::event::EventTypeV::Publisher(k) => spec_publisher_event_applied(
                    node.store,
                    new_store,
                    k,
                    message,
                    pos,
                ),
            }
        } else if id <= latest {
            &&& new_latest == latest
            &&& new_store == node.store
        } else {
            &&& new_latest == latest
            &&& match t {
                crate::event::EventTypeV::Channel => {
                    &&& new_store.address == node.store.address
                    &&& new_store.profile == node.store.profile
                    &&& new_store.timelines == node.store.timelines
                    &&& spec_event_buffered(
                        node.store.events@,
                        new_store.events@,
                        id,
                        message.skip(pos),
                    )
                },
                crate::event::EventTypeV::Publisher(k) => {
                    &&& new_store.address == node.store.address
                    &&& new_store.profile == node.store.profile
                    &&& new_store.events == node.store.events
                    &&& new_store.timelines@.len() == node.store.timelines@.len()
                    &&& forall|j: int|
                        0 <= j < node.store.timelines@.len() && (
                        #[trigger] node.store.timelines@[j]).publisher@ != k
                            ==> new_store.timelines@[j] == node.store.timelines@[j]
                    &&& forall|j: int|
                        0 <= j < node.store.timelines@.len() && (
                        #[trigger] node.store.timelines@[j]).publisher@ == k
                            ==> spec_timeline_buffered(
                            node.store.timelines@[j],
                            new_store.timelines@[j],
                            id,
                            message.skip(pos),
                        )
                },
            }
        }
    })
}

impl Node {
    /// Processes one event frame (after its direction byte): the event id,
    /// the event kind, and the kind's payload.
    ///
    /// The id decides everything. The next contiguous id is applied at
    /// once and advances the latest id — and only then. A stale id changes
    /// nothing. A plausible future id has its raw payload buffered until
    /// the gap closes. An id further ahead than the buffer window is a
    /// fault of the sender. Every event that was not found malformed is
    /// rebroadcast to the parent and children, except the inbound socket.
    pub fn process_event(&mut self, message: &Vec<u8>, channel_id: u32) -> (r: Result<
        Vec<Outgoing>,
        Error,
    >)
        requires
            old(self).wf(),
        ensures
            final(self).wf(),
            final(self).session_manager == old(self).session_manager,
            final(self).parent_address == old(self).parent_address,
            final(self).parent_socket == old(self).parent_socket,
            final(self).child_sockets == old(self).child_sockets,
            final(self).relay_power == old(self).relay_power,
            final(self).store.address == old(self).store.address,
            r is Ok <==> spec_event_frame_ok(*old(self), message@),
            match r {
                Ok(sends) => {
                    // the id decides what became of the event
                    &&& spec_event_outcome(
                        *old(self),
                        final(self).store,
                        final(self).latest_event_id,
                        message@,
                    )
                    // rebroadcast exclusion: no frame to the inbound socket
                    &&& forall|i: int|
                        0 <= i < sends@.len() ==> (#[trigger] sends@[i]).channel_id != channel_id
                    // what goes out is this event frame
                    &&& forall|i: int|
                        0 <= i < sends@.len() ==> (#[trigger] sends@[i]).frame@ == seq![
                            MessageDirectionType::Event.spec_byte(),
                        ] + message@
                    // it goes to this node's peers
                    &&& forall|i: int|
                        0 <= i < sends@.len() ==> (#[trigger] sends@[i]).channel_id
                            == final(self).parent_socket || final(self).child_sockets@.contains(
                            sends@[i].channel_id,
                        )
                    // the parent and each child are served, bar the source
                    &&& (final(self).parent_socket != channel_id ==> sends_to(
                        sends@,
                        final(self).parent_socket,
                    ))
                    &&& forall|k: int|
                        0 <= k < final(self).child_sockets@.len() && (#[trigger] final(self).child_sockets@[k]) != channel_id ==> sends_to(
                            sends@,
                            final(self).child_sockets@[k],
                        )
                },
                Err(e) => {
                    &&& final(self).latest_event_id == old(self).latest_event_id
                    &&& (e matches Error::MessageMalformed(_))
                    // the anti-flooding bound: an id too far ahead is malformed
                    &&& (message@.len() >= 8 && crate::event::spec_dec_event_type(
                        message@.skip(8),
                    ) is Some && spec_event_id(message@) > old(self).latest_event_id
                        && spec_event_id(message@) - old(self).latest_event_id
                        > EVENT_BUFFER_WINDOW ==> e == Error::MessageMalformed(
                        MessageMalformedError::InvalidEventId(spec_event_id(message@)),
                    ))
                    // a plausible future event of an unlisted publisher is
                    // the peer's fault
                    &&& (crate::event::spec_dec_event_type(message@.skip(8)) matches Some(
                        (t, c1),
                    ) ==> (t matches crate::event::EventTypeV::Publisher(k) ==> (message@.len()
                        >= 8 && spec_event_id(message@) > old(self).latest_event_id && !(old(
                        self,
                    ).latest_event_id < u64::MAX && spec_event_id(message@) == old(self).latest_event_id + 1) && spec_event_id(message@) - old(self).latest_event_id
                        <= EVENT_BUFFER_WINDOW && !old(self).store.spec_has_timeline(k) ==> e
                        matches Error::MessageMalformed(
                        MessageMalformedError::UnknownPublisher(_),
                    ))))
                },
            },
    {
        let (id, p1) = match codec::dec_u64(message, 0, "event id") {
            Ok(x) => x,
            Err(e) => {
                return Err(Error::MessageMalformed(e));
            },
        };
        let (etype, p2) = match crate::event::dec_event_type(message, p1) {
            Ok(x) => x,
            Err(e) => {
                return Err(Error::MessageMalformed(e));
            },
        };
        proof {
            assert(message@.skip(0) =~= message@);
        }
        let latest = self.latest_event_id;
        if latest < u64::MAX && id == latest + 1 {
            // the contiguous next event: apply it, and only on success
            // advance the latest id
            match &etype {
                crate::event::EventType::Channel => {
                    self.process_event_channel(message, p2)?;
                },
                crate::event::EventType::Publisher(address) => {
                    self.process_event_publisher(address, message, p2)?;
                },
            }
            self.latest_event_id = id;
        } else if id <= latest {
            // stale or duplicate: do not apply, do not store, but still
            // rebroadcast below
        } else {
            // a future event: plausible ones are buffered raw until the
            // gap before them closes
            if id - latest > EVENT_BUFFER_WINDOW {
                return Err(
                    Error::MessageMalformed(MessageMalformedError::InvalidEventId(id)),
                );
            }
            let payload = codec::copy_range(message, p2, message.len() - p2);
            proof {
                assert(payload@ =~= message@.skip(p2 as int));
            }
            match etype {
                crate::event::EventType::Channel => {
                    let ghost events_pre = self.store.events@;
                    self.store.store_event(id, payload);
                    proof {
                        assert(self.store.events@.subrange(0, events_pre.len() as int)
                            =~= events_pre);
                    }
                },
                crate::event::EventType::Publisher(address) => {
                    match self.store.find_timeline(&address) {
                        None => {
                            return Err(
                                Error::MessageMalformed(
                                    MessageMalformedError::UnknownPublisher(address),
                                ),
                            );
                        },
                        Some(at) => {
                            let ghost pool0 = self.store.timelines@;
                            self.store.store_timeline_event(at, id, payload);
                            proof {
                                assert(self.store.timelines@[at as int].events@.subrange(
                                    0,
                                    pool0[at as int].events@.len() as int,
                                ) =~= pool0[at as int].events@);
                                assert(spec_timeline_buffered(
                                    pool0[at as int],
                                    self.store.timelines@[at as int],
                                    id,
                                    message@.skip(p2 as int),
                                ));
                                assert forall|j: int|
                                    0 <= j < pool0.len() && (#[trigger] pool0[j]).publisher@
                                        == address@ implies spec_timeline_buffered(
                                    pool0[j],
                                    self.store.timelines@[j],
                                    id,
                                    message@.skip(p2 as int),
                                ) by {
                                    if j != at {
                                        assert(pool0[j].publisher@ != pool0[at as int].publisher@);
                                    }
                                }
                            }
                        },
                    }
                },
            }
        }
        Ok(self.rebroadcast_message(message, channel_id))
    }
}

} // verus!

// ---------------------------------------------------------------------------
// The per-frame dispatcher and the buffered-event tick
// ---------------------------------------------------------------------------

verus! {

impl Node {
    /// Processes one inbound frame: classifies it by its leading direction
    /// byte and hands it to the event processor, the request handler or
    /// the session manager. The returned frames are what the node sends
    /// in reaction; a returned fault means the sending peer is to be
    /// banned and its socket dropped.
    pub fn process_message(&mut self, message: &Vec<u8>, channel_id: u32) -> (r: Result<
        Vec<Outgoing>,
        Error,
    >)
        requires
            old(self).wf(),
        ensures
            final(self).wf(),
            final(self).parent_address == old(self).parent_address,
            final(self).parent_socket == old(self).parent_socket,
            final(self).child_sockets == old(self).child_sockets,
            final(self).relay_power == old(self).relay_power,
            final(self).store.address == old(self).store.address,
            r is Err ==> (r matches Err(e) && e matches Error::MessageMalformed(_)),
            r is Err ==> final(self).latest_event_id == old(self).latest_event_id,
            // an event frame is rebroadcast whole, never to its source
            r matches Ok(sends) ==> (message@.len() >= 1 && message@[0]
                == MessageDirectionType::Event.spec_byte() ==> (forall|i: int|
                0 <= i < sends@.len() ==> (#[trigger] sends@[i]).channel_id != channel_id
                    && sends@[i].frame@ == message@)),
            // a request is answered on the socket it came from, if at all
            r matches Ok(sends) ==> (message@.len() >= 1 && message@[0]
                == MessageDirectionType::Request.spec_byte() ==> sends@.len() <= 1 && (forall|
                i: int,
            |
                0 <= i < sends@.len() ==> (#[trigger] sends@[i]).channel_id == channel_id)),
            // a response is consumed; nothing goes out for it
            r matches Ok(sends) ==> (message@.len() >= 1 && message@[0]
                == MessageDirectionType::Response.spec_byte() ==> sends@.len() == 0),
            // only an event can advance the stream, only a response can fill a slot
            message@.len() >= 1 && message@[0] != MessageDirectionType::Event.spec_byte() ==>
                final(self).latest_event_id == old(self).latest_event_id,
            message@.len() >= 1 && message@[0] != MessageDirectionType::Response.spec_byte() ==>
                final(self).session_manager == old(self).session_manager,
            // the selected handler decides success
            r is Ok <==> (message@.len() >= 1 && match MessageDirectionType::spec_from_byte(
                message@[0],
            ) {
                Some(MessageDirectionType::Event) => spec_event_frame_ok(
                    *old(self),
                    message@.skip(1),
                ),
                Some(MessageDirectionType::Request) => spec_request_ok(
                    old(self).store,
                    message@.skip(1),
                ),
                Some(MessageDirectionType::Response) => message@.len() >= 5,
                None => false,
            }),
            // an empty frame and an unknown direction byte are named faults
            message@.len() == 0 ==> (r matches Err(e) && e matches Error::MessageMalformed(
                MessageMalformedError::MissingData(_),
            )),
            message@.len() >= 1 && MessageDirectionType::spec_from_byte(message@[0]) is None ==> (
            r matches Err(e) && e matches Error::MessageMalformed(
                MessageMalformedError::InvalidTypeId(_, _),
            )),
            // and the selected handler's effect is this function's effect
            r matches Ok(sends) ==> (message@[0] == MessageDirectionType::Event.spec_byte()
                ==> spec_event_outcome(
                *old(self),
                final(self).store,
                final(self).latest_event_id,
                message@.skip(1),
            )),
            r matches Ok(sends) ==> (message@[0] == MessageDirectionType::Request.spec_byte()
                ==> spec_request_outcome(old(self).store, message@.skip(1), channel_id, sends@)
                && *final(self) == *old(self)),
            r matches Ok(sends) ==> (message@[0] == MessageDirectionType::Response.spec_byte()
                ==> final(self).store == old(self).store && final(self).latest_event_id == old(
                self,
            ).latest_event_id && {
                let session_id = codec::spec_u32_of(
                    message@[1],
                    message@[2],
                    message@[3],
                    message@[4],
                );
                &&& (old(self).session_manager.slot(session_id) == Some(
                    crate::session::SlotStateV::Waiting,
                ) ==> final(self).session_manager.slot(session_id) == Some(
                    crate::session::SlotStateV::Delivered(message@.skip(5)),
                ))
                &&& (old(self).session_manager.slot(session_id) != Some(
                    crate::session::SlotStateV::Waiting,
                ) ==> final(self).session_manager == old(self).session_manager)
            }),
    {
        if message.len() < 1 {
            return Err(
                Error::MessageMalformed(
                    MessageMalformedError::MissingData("direction type".to_owned()),
                ),
            );
        }
        let tag = message[0];
        let direction = match MessageDirectionType::try_from_byte(tag) {
            None => {
                return Err(
                    Error::MessageMalformed(
                        MessageMalformedError::InvalidTypeId(tag, "direction type".to_owned()),
                    ),
                );
            },
            Some(d) => d,
        };
        let tail = codec::copy_range(message, 1, message.len() - 1);
        proof {
            assert(seq![message@[0]] + tail@ =~= message@);
        }
        proof {
            assert(tail@ =~= message@.skip(1));
        }
        match direction {
            MessageDirectionType::Event => {
                let sends = self.process_event(&tail, channel_id)?;
                Ok(sends)
            },
            MessageDirectionType::Request => {
                let sends = self.process_request(&tail, channel_id)?;
                Ok(sends)
            },
            MessageDirectionType::Response => {
                self.process_response(&tail)?;
                proof {
                    assert(tail@[0] == message@[1]);
                    assert(tail@[1] == message@[2]);
                    assert(tail@[2] == message@[3]);
                    assert(tail@[3] == message@[4]);
                    assert(tail@.skip(4) =~= message@.skip(5));
                }
                Ok(Vec::new())
            },
        }
    }

    /// Applies one buffered event whose gap has closed, if any: when the
    /// buffer holds an event with the next contiguous id, it is taken out
    /// and applied, and the latest id advances. Ticking after each apply
    /// drains a gap-filled run. A buffered event that turns out malformed
    /// is dropped and reported.
    pub fn tick(&mut self) -> (r: Result<bool, Error>)
        requires
            old(self).wf(),
        ensures
            final(self).wf(),
            final(self).parent_address == old(self).parent_address,
            final(self).parent_socket == old(self).parent_socket,
            final(self).child_sockets == old(self).child_sockets,
            final(self).relay_power == old(self).relay_power,
            final(self).store.address == old(self).store.address,
            final(self).session_manager == old(self).session_manager,
            // a tick reports nothing to do exactly when nothing with the
            // next id is buffered (or the id space is exhausted)
            r == Ok::<bool, Error>(false) <==> (old(self).latest_event_id == u64::MAX
                || !crate::store::spec_has_buffered(
                old(self).store,
                (old(self).latest_event_id + 1) as u64,
            )),
            match r {
                Ok(true) => old(self).latest_event_id < u64::MAX && final(self).latest_event_id
                    == old(self).latest_event_id + 1,
                Ok(false) => *final(self) == *old(self),
                Err(e) => final(self).latest_event_id == old(self).latest_event_id && (e matches
                    Error::MessageMalformed(_)),
            },
    {
        if self.latest_event_id == u64::MAX {
            return Ok(false);
        }
        let next = self.latest_event_id + 1;
        // a buffered channel event first
        let n = self.store.events.len();
        let mut i: usize = 0;
        while i < n
            invariant
                i <= n,
                self == old(self),
                self.wf(),
                n == self.store.events@.len(),
                next == self.latest_event_id + 1,
                self.latest_event_id < u64::MAX,
                forall|j: int| 0 <= j < i ==> (#[trigger] self.store.events@[j]).id != next,
            decreases n - i,
        {
            if self.store.events[i].id == next {
                proof {
                    assert(crate::store::spec_has_buffered(old(self).store, next)) by {
                        assert(old(self).store.events@[i as int].id == next);
                    }
                }
                let entry = self.store.events.remove(i);
                self.process_event_channel(&entry.payload, 0)?;
                self.latest_event_id = next;
                return Ok(true);
            }
            i = i + 1;
        }
        // then the buffered events of each publisher's timeline
        let tn = self.store.timelines.len();
        let mut at: usize = 0;
        while at < tn
            invariant
                at <= tn,
                self == old(self),
                self.wf(),
                tn == self.store.timelines@.len(),
                next == self.latest_event_id + 1,
                self.latest_event_id < u64::MAX,
                forall|j: int| 0 <= j < self.store.events@.len() ==> (#[trigger] self.store.events@[j]).id != next,
                forall|k: int, j: int|
                    0 <= k < at && 0 <= j < self.store.timelines@[k].events@.len() ==> (
                    #[trigger] self.store.timelines@[k].events@[j]).id != next,
            decreases tn - at,
        {
            let en = self.store.timeline_at(at).events.len();
            let mut j: usize = 0;
            while j < en
                invariant
                    j <= en,
                    at < tn,
                    self == old(self),
                    self.wf(),
                    tn == self.store.timelines@.len(),
                    en == self.store.timelines@[at as int].events@.len(),
                    next == self.latest_event_id + 1,
                    self.latest_event_id < u64::MAX,
                    forall|j2: int|
                        0 <= j2 < j ==> (#[trigger] self.store.timelines@[at as int].events@[j2]).id
                            != next,
                decreases en - j,
            {
                if self.store.timeline_at(at).events[j].id == next {
                    proof {
                        assert(crate::store::spec_has_buffered(old(self).store, next)) by {
                            assert(old(self).store.timelines@[at as int].events@[j as int].id
                                == next);
                        }
                    }
                    let address = self.store.timeline_at(at).publisher.clone();
                    let ghost pool0 = self.store.timelines@;
                    let mut t = self.store.take_timeline(at);
                    proof {
                        assert forall|k: int|
                            0 <= k < self.store.timelines@.len() implies (
                        #[trigger] self.store.timelines@[k]).publisher@ != t.publisher@ by {
                            if k < at {
                                assert(self.store.timelines@[k] == pool0[k]);
                            } else {
                                assert(self.store.timelines@[k] == pool0[k + 1]);
                            }
                        }
                    }
                    let entry = t.events.remove(j);
                    self.store.put_timeline(at, t);
                    let r = self.process_event_publisher(&address, &entry.payload, 0);
                    match r {
                        Ok(()) => {
                            self.latest_event_id = next;
                            return Ok(true);
                        },
                        Err(e) => {
                            return Err(e);
                        },
                    }
                }
                j = j + 1;
            }
            at = at + 1;
        }
        proof {
            assert(!crate::store::spec_has_buffered(old(self).store, next));
        }
        Ok(false)
    }
}

} // verus!
