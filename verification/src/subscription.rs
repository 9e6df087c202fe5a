//! The per-channel subscription record.
//!
//! A subscription names the channel's owner, the publishers known for it,
//! and peers remembered from earlier sessions. It is persisted as a file
//! named by the owner's address; this module gives it a verified codec.
//! When the node rejoins the swarm it tries the cached peers first, so as
//! not to overload the publishers; then the publishers, so as not to
//! overload the owner; then the owner itself. `connection_candidates`
//! fixes that order; the loop that dials them lives outside.

use vstd::prelude::*;

use crate::crypto;
use crate::crypto::PublicKey;
use crate::error::MessageMalformedError;
use crate::message;

verus! {

/// The view of a subscription.
pub struct SubscriptionV {
    pub owner: Seq<u8>,
    pub publishers: Seq<Seq<u8>>,
    pub cached_peers: Seq<Seq<u8>>,
}

impl SubscriptionV {
    pub open spec fn wf(self) -> bool {
        &&& self.owner.len() == crypto::PUBLIC_KEY_LENGTH
        &&& message::wf_keys(self.publishers)
        &&& self.publishers.len() <= u32::MAX
        &&& message::wf_keys(self.cached_peers)
        &&& self.cached_peers.len() <= u32::MAX
    }
}

/// What the node keeps about one channel it subscribes to.
#[derive(Debug, PartialEq, Eq)]
pub struct Subscription {
    /// The address of the channel's owner; it also identifies the channel.
    pub owner: PublicKey,
    /// The publishers known for this channel.
    pub publishers: Vec<PublicKey>,
    /// Peers remembered from the last session, to find a way back into
    /// the swarm when the owner and the publishers are not reachable.
    pub cached_peers: Vec<PublicKey>,
}

impl View for Subscription {
    type V = SubscriptionV;

    open spec fn view(&self) -> SubscriptionV {
        SubscriptionV {
            owner: self.owner@,
            publishers: message::spec_keys_view(self.publishers@),
            cached_peers: message::spec_keys_view(self.cached_peers@),
        }
    }
}

pub open spec fn spec_enc_subscription(s: SubscriptionV) -> Seq<u8>
    recommends
        s.wf(),
{
    s.owner + message::spec_enc_key_list(s.publishers) + message::spec_enc_key_list(
        s.cached_peers,
    )
}

pub open spec fn spec_dec_subscription(s: Seq<u8>) -> Option<(SubscriptionV, int)> {
    match crypto::spec_dec_key(s) {
        None => None,
        Some((owner, c0)) => match message::spec_dec_key_list(s.skip(c0)) {
            None => None,
            Some((publishers, c1)) => match message::spec_dec_key_list(s.skip(c0 + c1)) {
                None => None,
                Some((cached_peers, c2)) => Some(
                    (SubscriptionV { owner, publishers, cached_peers }, c0 + c1 + c2),
                ),
            },
        },
    }
}

pub proof fn lemma_dec_enc_subscription(s: SubscriptionV, rest: Seq<u8>)
    requires
        s.wf(),
    ensures
        spec_dec_subscription(spec_enc_subscription(s) + rest) == Some(
            (s, spec_enc_subscription(s).len() as int),
        ),
{
    let e1 = message::spec_enc_key_list(s.publishers);
    let e2 = message::spec_enc_key_list(s.cached_peers);
    let b = spec_enc_subscription(s) + rest;
    assert(b =~= s.owner + (e1 + (e2 + rest)));
    crypto::lemma_dec_enc_key(s.owner, e1 + (e2 + rest));
    assert(b.skip(crypto::PUBLIC_KEY_LENGTH as int) =~= e1 + (e2 + rest));
    message::lemma_dec_enc_key_list(s.publishers, e2 + rest);
    assert(b.skip(crypto::PUBLIC_KEY_LENGTH as int + e1.len() as int) =~= e2 + rest);
    message::lemma_dec_enc_key_list(s.cached_peers, rest);
}

/// Appends a subscription: the owner's key, the publisher list, the
/// cached-peer list.
pub fn enc_subscription(out: &mut Vec<u8>, s: &Subscription)
    requires
        s@.wf(),
    ensures
        final(out)@ == old(out)@ + spec_enc_subscription(s@),
{
    crypto::enc_key(out, &s.owner);
    message::enc_key_list(out, &s.publishers);
    message::enc_key_list(out, &s.cached_peers);
    assert(out@ =~= old(out)@ + spec_enc_subscription(s@));
}

/// Reads a subscription.
pub fn dec_subscription(buf: &Vec<u8>, pos: usize) -> (r: Result<
    (Subscription, usize),
    MessageMalformedError,
>)
    requires
        pos <= buf@.len(),
    ensures
        match r {
            Ok((s, end)) => pos <= end <= buf@.len() && s@.wf() && spec_dec_subscription(
                buf@.skip(pos as int),
            ) == Some((s@, end - pos)),
            Err(e) => spec_dec_subscription(buf@.skip(pos as int)) is None && e matches
                MessageMalformedError::MissingData(_),
        },
{
    let (owner, p1) = crypto::dec_key(buf, pos, "subscription owner")?;
    proof {
        assert(buf@.skip(pos as int).skip(p1 - pos) =~= buf@.skip(p1 as int));
    }
    let (publishers, p2) = message::dec_key_list(buf, p1, "subscription publishers")?;
    proof {
        assert(buf@.skip(pos as int).skip(p2 - pos) =~= buf@.skip(p2 as int));
    }
    let (cached_peers, end) = message::dec_key_list(buf, p2, "subscription peers")?;
    Ok((Subscription { owner, publishers, cached_peers }, end))
}

impl Subscription {
    /// A fresh subscription to the channel owned by `owner`, with nothing
    /// learned yet.
    pub fn new(owner: PublicKey) -> (r: Subscription)
        requires
            owner.wf(),
        ensures
            r@.wf(),
            r.owner@ == owner@,
            r.publishers@.len() == 0,
            r.cached_peers@.len() == 0,
    {
        Subscription { owner, publishers: Vec::new(), cached_peers: Vec::new() }
    }

    /// The peers to try when (re)joining the swarm, in order: the cached
    /// peers, then the publishers, then the owner as the last resort.
    pub fn connection_candidates(&self) -> (r: Vec<PublicKey>)
        requires
            self@.wf(),
        ensures
            message::spec_keys_view(r@) == self@.cached_peers + self@.publishers + seq![
                self@.owner,
            ],
            forall|i: int| 0 <= i < r@.len() ==> (#[trigger] r@[i]).wf(),
    {
        let mut r: Vec<PublicKey> = Vec::new();
        let n1 = self.cached_peers.len();
        let mut i: usize = 0;
        while i < n1
            invariant
                i <= n1,
                self@.wf(),
                n1 == self.cached_peers@.len(),
                r@.len() == i,
                forall|j: int|
                    0 <= j < i ==> (#[trigger] r@[j])@ == self@.cached_peers[j] && r@[j].wf(),
            decreases n1 - i,
        {
            r.push(self.cached_peers[i].clone());
            i = i + 1;
        }
        let n2 = self.publishers.len();
        let mut k: usize = 0;
        while k < n2
            invariant
                k <= n2,
                self@.wf(),
                n1 == self.cached_peers@.len(),
                n2 == self.publishers@.len(),
                r@.len() == n1 + k,
                forall|j: int|
                    0 <= j < n1 ==> (#[trigger] r@[j])@ == self@.cached_peers[j] && r@[j].wf(),
                forall|j: int|
                    n1 <= j < n1 + k ==> (#[trigger] r@[j])@ == self@.publishers[j - n1]
                        && r@[j].wf(),
            decreases n2 - k,
        {
            r.push(self.publishers[k].clone());
            k = k + 1;
        }
        r.push(self.owner.clone());
        proof {
            let total = self@.cached_peers + self@.publishers + seq![self@.owner];
            assert forall|j: int| 0 <= j < r@.len() implies (#[trigger] r@[j])@ == total[j]
                && r@[j].wf() by {
                if j < n1 {
                    assert(total[j] == self@.cached_peers[j]);
                } else if j < n1 + n2 {
                    assert(total[j] == self@.publishers[j - n1]);
                } else {
                    assert(total[j] == self@.owner);
                }
            }
            assert(message::spec_keys_view(r@) =~= total);
        }
        r
    }
}

} // verus!
