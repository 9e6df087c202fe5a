//! The in-memory model of a channel's persistent state.
//!
//! A `ChannelStore` holds what the node knows of one channel: the owner's
//! address, the current channel profile, one `Timeline` per authorized
//! publisher, and the raw future events buffered until the gap before them
//! closes. A timeline holds the publisher's profile, the announced posts
//! (hash and signature per post id, gap-free from zero), the fully stored
//! posts, their body texts and their content-addressed blocks.
//!
//! The well-formedness of a store carries the system's data invariants:
//! every stored post's hash is the hash of its serialized metadata and its
//! signature verifies under the publisher's key, and every stored block's
//! id is the hash of its bytes. Constructors establish these and every
//! operation preserves them.

use vstd::prelude::*;

use crate::codec;
use crate::crypto;
use crate::crypto::{HashCode, PublicKey, Signature};
use crate::error::{Error, MessageMalformedError};
use crate::message::{ChannelProfile, Profile};
use crate::post;
use crate::post::{Post, PostInfo, PostMeta};

verus! {

/// The block length used for the text content of posts.
pub const POST_BLOCK_LENGTH: usize = 1024;

/// The block length used for attachments and other files.
pub const FILE_BLOCK_LENGTH: usize = 1048576;

/// A raw event buffered for later application.
#[derive(Debug, PartialEq, Eq)]
pub struct StoredEvent {
    pub id: u64,
    pub payload: Vec<u8>,
}

/// A content-addressed block.
#[derive(Debug, PartialEq, Eq)]
pub struct Block {
    pub id: HashCode,
    pub data: Vec<u8>,
}

/// An announced post: what a `PublishPost` event carries, keyed by the
/// timeline-local post id.
#[derive(Debug, PartialEq, Eq)]
pub struct TimelineEntry {
    pub post_id: u64,
    pub hash: HashCode,
    pub signature: Signature,
}

/// The body text of a post, stored locally.
#[derive(Debug, PartialEq, Eq)]
pub struct PostContent {
    pub post_id: u64,
    pub body: String,
}

/// The history of posts that one publisher maintains, with everything the
/// node stores for it.
#[derive(Debug, PartialEq, Eq)]
pub struct Timeline {
    /// The publisher this timeline belongs to.
    pub publisher: PublicKey,
    /// The publisher's current profile, if any was applied.
    pub profile: Option<Profile>,
    /// The announced posts; entry `i` holds post id `i`.
    pub entries: Vec<TimelineEntry>,
    /// The fully stored posts, with unique ids.
    pub posts: Vec<Post>,
    /// The locally stored body texts, with unique post ids.
    pub contents: Vec<PostContent>,
    /// The content-addressed blocks.
    pub blocks: Vec<Block>,
    /// Raw publisher events buffered until the gap before them closes.
    pub events: Vec<StoredEvent>,
}

impl Timeline {
    pub open spec fn wf(&self) -> bool {
        &&& self.publisher.wf()
        &&& (self.profile matches Some(p) ==> p@.wf())
        &&& forall|i: int|
            0 <= i < self.entries@.len() ==> {
                &&& (#[trigger] self.entries@[i]).post_id == i
                &&& self.entries@[i].hash.wf()
                &&& self.entries@[i].signature.wf()
                &&& crypto::sig_ok(
                    self.entries@[i].signature@,
                    self.entries@[i].hash@,
                    self.publisher@,
                )
            }
        &&& forall|i: int|
            0 <= i < self.posts@.len() ==> {
                &&& (#[trigger] self.posts@[i])@.wf()
                &&& post::post_valid(self.posts@[i]@, self.publisher@)
            }
        &&& forall|i: int, j: int|
            0 <= i < j < self.posts@.len() ==> (#[trigger] self.posts@[i]).id != (
            #[trigger] self.posts@[j]).id
        &&& forall|i: int|
            0 <= i < self.blocks@.len() ==> {
                &&& (#[trigger] self.blocks@[i]).id.wf()
                &&& self.blocks@[i].id@ == crypto::hash_of(self.blocks@[i].data@)
            }
        &&& forall|i: int, j: int|
            0 <= i < j < self.contents@.len() ==> (#[trigger] self.contents@[i]).post_id != (
            #[trigger] self.contents@[j]).post_id
    }

    /// A fresh, empty timeline for `publisher`.
    pub fn new(publisher: PublicKey) -> (r: Timeline)
        requires
            publisher.wf(),
        ensures
            r.wf(),
            r.publisher@ == publisher@,
            r.profile is None,
            r.entries@.len() == 0,
            r.posts@.len() == 0,
            r.contents@.len() == 0,
            r.blocks@.len() == 0,
            r.events@.len() == 0,
    {
        Timeline {
            publisher,
            profile: None,
            entries: Vec::new(),
            posts: Vec::new(),
            contents: Vec::new(),
            blocks: Vec::new(),
            events: Vec::new(),
        }
    }

    /// Stores a raw publisher event with the given id for later
    /// application. Storing several events with the same id is possible.
    pub fn store_event(&mut self, id: u64, payload: Vec<u8>)
        requires
            old(self).wf(),
        ensures
            final(self).wf(),
            final(self).events@ == old(self).events@.push(StoredEvent { id, payload }),
            final(self).publisher == old(self).publisher,
            final(self).profile == old(self).profile,
            final(self).entries == old(self).entries,
            final(self).posts == old(self).posts,
            final(self).contents == old(self).contents,
            final(self).blocks == old(self).blocks,
    {
        self.events.push(StoredEvent { id, payload });
    }

    /// The next post id of this timeline: one past the last announced
    /// post, starting at zero.
    pub fn next_post_id(&self) -> (r: u64)
        requires
            self.wf(),
            self.entries@.len() < u64::MAX,
        ensures
            r == self.entries@.len(),
    {
        self.entries.len() as u64
    }
}

/// A timeline with nothing in it yet, as a fresh publisher starts.
pub open spec fn spec_timeline_empty(t: Timeline) -> bool {
    &&& t.profile is None
    &&& t.entries@.len() == 0
    &&& t.posts@.len() == 0
    &&& t.contents@.len() == 0
    &&& t.blocks@.len() == 0
    &&& t.events@.len() == 0
}

/// Whether `t` is one of the timelines of `ts`.
pub open spec fn timeline_among(t: Timeline, ts: Seq<Timeline>) -> bool {
    exists|j: int| 0 <= j < ts.len() && t == #[trigger] ts[j]
}

/// Whether some timeline of `ts` belongs to the publisher with key `key`.
pub open spec fn publisher_among(key: Seq<u8>, ts: Seq<Timeline>) -> bool {
    exists|j: int| 0 <= j < ts.len() && (#[trigger] ts[j]).publisher@ == key
}

/// Whether `key` is among the first `n` keys of `keys`.
pub open spec fn key_among_first(key: Seq<u8>, keys: Seq<PublicKey>, n: int) -> bool {
    exists|j: int| 0 <= j < n && (#[trigger] keys[j])@ == key
}

/// What the node stores for one channel.
#[derive(Debug, PartialEq, Eq)]
pub struct ChannelStore {
    /// The public key of the channel's owner; it identifies the channel.
    pub address: PublicKey,
    /// The current channel profile, if any was applied.
    pub profile: Option<ChannelProfile>,
    /// One timeline per authorized publisher.
    pub timelines: Vec<Timeline>,
    /// Raw channel events buffered until the gap before them closes.
    pub events: Vec<StoredEvent>,
}

impl ChannelStore {
    pub open spec fn wf(&self) -> bool {
        &&& self.address.wf()
        &&& (self.profile matches Some(p) ==> p@.wf())
        &&& forall|i: int| 0 <= i < self.timelines@.len() ==> (#[trigger] self.timelines@[i]).wf()
        &&& forall|i: int, j: int|
            0 <= i < j < self.timelines@.len() ==> (#[trigger] self.timelines@[i]).publisher@ != (
            #[trigger] self.timelines@[j]).publisher@
    }

    /// Whether some timeline belongs to the publisher with key `key`.
    pub open spec fn spec_has_timeline(&self, key: Seq<u8>) -> bool {
        publisher_among(key, self.timelines@)
    }

    /// A fresh store for the channel owned by `address`, with no profile,
    /// no publishers and nothing buffered.
    pub fn new(address: PublicKey) -> (r: ChannelStore)
        requires
            address.wf(),
        ensures
            r.wf(),
            r.address@ == address@,
            r.profile is None,
            r.timelines@.len() == 0,
            r.events@.len() == 0,
    {
        ChannelStore { address, profile: None, timelines: Vec::new(), events: Vec::new() }
    }

    /// The address of the channel's owner.
    pub fn load_address(&self) -> (r: PublicKey)
        requires
            self.wf(),
        ensures
            r@ == self.address@,
            r.wf(),
    {
        self.address.clone()
    }

    /// Stores the channel profile, replacing any current one. The caller
    /// decides monotonicity; this merely persists.
    pub fn store_profile(&mut self, profile: ChannelProfile)
        requires
            old(self).wf(),
            profile@.wf(),
        ensures
            final(self).wf(),
            final(self).profile == Some(profile),
            final(self).address == old(self).address,
            final(self).timelines == old(self).timelines,
            final(self).events == old(self).events,
    {
        self.profile = Some(profile);
    }

    /// The currently stored channel profile, if any.
    pub fn fetch_profile(&self) -> (r: Option<&ChannelProfile>)
        requires
            self.wf(),
        ensures
            match r {
                Some(p) => self.profile matches Some(q) && p == q,
                None => self.profile is None,
            },
    {
        match &self.profile {
            None => None,
            Some(p) => Some(p),
        }
    }

    /// Stores a raw channel event with the given id for later
    /// application. Storing several events with the same id is possible.
    pub fn store_event(&mut self, id: u64, payload: Vec<u8>)
        requires
            old(self).wf(),
        ensures
            final(self).wf(),
            final(self).events@ == old(self).events@.push(StoredEvent { id, payload }),
            final(self).address == old(self).address,
            final(self).profile == old(self).profile,
            final(self).timelines == old(self).timelines,
    {
        self.events.push(StoredEvent { id, payload });
    }

    /// Finds the timeline of the publisher with the given key.
    pub fn find_timeline(&self, key: &PublicKey) -> (r: Option<usize>)
        requires
            self.wf(),
        ensures
            match r {
                Some(i) => i < self.timelines@.len() && self.timelines@[i as int].publisher@
                    == key@,
                None => !self.spec_has_timeline(key@),
            },
    {
        let n = self.timelines.len();
        let mut i: usize = 0;
        while i < n
            invariant
                i <= n,
                n == self.timelines@.len(),
                forall|j: int|
                    0 <= j < i ==> (#[trigger] self.timelines@[j]).publisher@ != key@,
            decreases n - i,
        {
            if self.timelines[i].publisher.equals(key) {
                return Some(i);
            }
            i = i + 1;
        }
        None
    }

    /// Replaces the publisher set. The timeline of a publisher that stays
    /// is kept; a new publisher starts with a fresh timeline; the timeline
    /// of a publisher no longer listed is dropped. Duplicate keys in the
    /// new list are collapsed to their first occurrence.
    pub fn set_publishers(&mut self, keys: &Vec<PublicKey>)
        requires
            old(self).wf(),
            forall|i: int| 0 <= i < keys@.len() ==> (#[trigger] keys@[i]).wf(),
        ensures
            final(self).wf(),
            final(self).address == old(self).address,
            final(self).profile == old(self).profile,
            final(self).events == old(self).events,
            // every new key has a timeline
            forall|i: int|
                0 <= i < keys@.len() ==> final(self).spec_has_timeline((#[trigger] keys@[i])@),
            // every timeline belongs to a new key
            forall|i: int|
                0 <= i < final(self).timelines@.len() ==> key_among_first(
                    (#[trigger] final(self).timelines@[i]).publisher@,
                    keys@,
                    keys@.len() as int,
                ),
            // a publisher that stays keeps its timeline
            forall|i: int, j: int|
                0 <= i < final(self).timelines@.len() && 0 <= j < old(self).timelines@.len() && (
                #[trigger] final(self).timelines@[i]).publisher@ == (#[trigger] old(self).timelines@[j]).publisher@ ==> final(self).timelines@[i] == old(self).timelines@[j],
            // a newly listed publisher starts with an empty timeline
            forall|i: int|
                0 <= i < final(self).timelines@.len() && !publisher_among(
                    (#[trigger] final(self).timelines@[i]).publisher@,
                    old(self).timelines@,
                ) ==> spec_timeline_empty(final(self).timelines@[i]),
    {
        let n = keys.len();
        let mut timelines: Vec<Timeline> = Vec::new();
        let mut i: usize = 0;
        proof {
            assert forall|k: int|
                0 <= k < self.timelines@.len() implies timeline_among(
                #[trigger] self.timelines@[k],
                old(self).timelines@,
            ) by {
                assert(self.timelines@[k] == old(self).timelines@[k]);
            }
            assert forall|j: int|
                0 <= j < old(self).timelines@.len() implies timeline_among(
                #[trigger] old(self).timelines@[j],
                self.timelines@,
            ) by {
                assert(old(self).timelines@[j] == self.timelines@[j]);
            }
        }
        while i < n
            invariant
                i <= n,
                n == keys@.len(),
                old(self).wf(),
                self.address == old(self).address,
                self.profile == old(self).profile,
                self.events == old(self).events,
                self.wf(),
                forall|k: int| 0 <= k < keys@.len() ==> (#[trigger] keys@[k]).wf(),
                // the pool holds only timelines of the old store
                forall|k: int|
                    0 <= k < self.timelines@.len() ==> timeline_among(
                        #[trigger] self.timelines@[k],
                        old(self).timelines@,
                    ),
                // every old timeline is still in the pool, or its publisher
                // already has a timeline among the new ones
                forall|j: int|
                    0 <= j < old(self).timelines@.len() ==> timeline_among(
                        #[trigger] old(self).timelines@[j],
                        self.timelines@,
                    ) || publisher_among(old(self).timelines@[j].publisher@, timelines@),
                forall|k: int| 0 <= k < timelines@.len() ==> (#[trigger] timelines@[k]).wf(),
                forall|k: int, l: int|
                    0 <= k < l < timelines@.len() ==> (#[trigger] timelines@[k]).publisher@ != (
                    #[trigger] timelines@[l]).publisher@,
                // each new timeline belongs to one of the first i keys
                forall|k: int|
                    0 <= k < timelines@.len() ==> key_among_first(
                        (#[trigger] timelines@[k]).publisher@,
                        keys@,
                        i as int,
                    ),
                // each of the first i keys has a new timeline
                forall|j: int|
                    0 <= j < i ==> publisher_among((#[trigger] keys@[j])@, timelines@),
                // each new timeline is an old one, or it is empty and its
                // publisher is new
                forall|k: int|
                    0 <= k < timelines@.len() ==> timeline_among(
                        #[trigger] timelines@[k],
                        old(self).timelines@,
                    ) || (spec_timeline_empty(timelines@[k]) && !publisher_among(
                        timelines@[k].publisher@,
                        old(self).timelines@,
                    )),
            decreases n - i,
        {
            let key = &keys[i];
            let ghost tl_pre = timelines@;
            let ghost pool_pre = self.timelines@;
            // skip a duplicate of a key already handled
            let mut dup = false;
            let mut k: usize = 0;
            let m = timelines.len();
            while k < m
                invariant
                    k <= m,
                    m == timelines@.len(),
                    dup <==> exists|l: int|
                        0 <= l < k && (#[trigger] timelines@[l]).publisher@ == key@,
                decreases m - k,
            {
                if timelines[k].publisher.equals(key) {
                    dup = true;
                    proof {
                        assert(timelines@[k as int].publisher@ == key@);
                    }
                }
                k = k + 1;
            }
            if !dup {
                let found = self.find_timeline(key);
                match found {
                    None => {
                        proof {
                            // the key's publisher appears nowhere in the old store
                            assert forall|j: int|
                                0 <= j < old(self).timelines@.len() && (#[trigger] old(self).timelines@[j]).publisher@ == key@ implies false by {
                                if timeline_among(old(self).timelines@[j], pool_pre) {
                                    let k2 = choose|k2: int|
                                        0 <= k2 < pool_pre.len() && old(self).timelines@[j] == (
                                        #[trigger] pool_pre[k2]);
                                    assert(self.timelines@[k2].publisher@ == key@);
                                } else {
                                    let k2 = choose|k2: int|
                                        0 <= k2 < tl_pre.len() && (#[trigger] tl_pre[k2]).publisher@
                                            == old(self).timelines@[j].publisher@;
                                    assert(tl_pre[k2].publisher@ == key@);
                                }
                            }
                        }
                        timelines.push(Timeline::new(key.clone()));
                        proof {
                            assert forall|j: int|
                                0 <= j < old(self).timelines@.len() && !timeline_among(
                                    #[trigger] old(self).timelines@[j],
                                    self.timelines@,
                                ) implies publisher_among(
                                old(self).timelines@[j].publisher@,
                                timelines@,
                            ) by {
                                let k2 = choose|k2: int|
                                    0 <= k2 < tl_pre.len() && (#[trigger] tl_pre[k2]).publisher@
                                        == old(self).timelines@[j].publisher@;
                                assert(timelines@[k2] == tl_pre[k2]);
                            }
                        }
                    },
                    Some(at) => {
                        let kept = self.timelines.remove(at);
                        let ghost kept_g = kept;
                        proof {
                            assert(kept_g == pool_pre[at as int]);
                            assert forall|k2: int|
                                0 <= k2 < self.timelines@.len() implies timeline_among(
                                #[trigger] self.timelines@[k2],
                                old(self).timelines@,
                            ) by {
                                if k2 < at {
                                    assert(self.timelines@[k2] == pool_pre[k2]);
                                } else {
                                    assert(self.timelines@[k2] == pool_pre[k2 + 1]);
                                }
                            }
                        }
                        timelines.push(kept);
                        proof {
                            assert(timelines@[tl_pre.len() as int] == kept_g);
                            assert forall|j: int|
                                0 <= j < old(self).timelines@.len() && !timeline_among(
                                    #[trigger] old(self).timelines@[j],
                                    self.timelines@,
                                ) implies publisher_among(
                                old(self).timelines@[j].publisher@,
                                timelines@,
                            ) by {
                                if timeline_among(old(self).timelines@[j], pool_pre) {
                                    let k3 = choose|k3: int|
                                        0 <= k3 < pool_pre.len() && old(self).timelines@[j] == (
                                        #[trigger] pool_pre[k3]);
                                    if k3 == at {
                                        assert(timelines@[tl_pre.len() as int].publisher@ == old(self).timelines@[j].publisher@);
                                    } else if k3 < at {
                                        assert(self.timelines@[k3] == pool_pre[k3]);
                                        assert(false);
                                    } else {
                                        assert(self.timelines@[k3 - 1] == pool_pre[k3]);
                                        assert(false);
                                    }
                                } else {
                                    let k3 = choose|k3: int|
                                        0 <= k3 < tl_pre.len() && (#[trigger] tl_pre[k3]).publisher@
                                            == old(self).timelines@[j].publisher@;
                                    assert(timelines@[k3] == tl_pre[k3]);
                                }
                            }
                        }
                    },
                }
            }
            proof {
                // the first i + 1 keys all have a timeline now
                assert forall|j: int| 0 <= j <= i as int implies publisher_among(
                    (#[trigger] keys@[j])@,
                    timelines@,
                ) by {
                    if j < i as int {
                        let k2 = choose|k2: int|
                            0 <= k2 < tl_pre.len() && (#[trigger] tl_pre[k2]).publisher@ == (
                            keys@[j])@;
                        assert(timelines@[k2] == tl_pre[k2]);
                        assert(timelines@[k2].publisher@ == (keys@[j])@);
                    } else if dup {
                        let l = choose|l: int|
                            0 <= l < tl_pre.len() && (#[trigger] tl_pre[l]).publisher@ == key@;
                        assert(timelines@[l] == tl_pre[l]);
                        assert(timelines@[l].publisher@ == key@);
                    } else {
                        assert(timelines@[tl_pre.len() as int].publisher@ == key@);
                    }
                }
                // every new timeline belongs to one of the first i + 1 keys
                assert forall|k: int| 0 <= k < timelines@.len() implies key_among_first(
                    (#[trigger] timelines@[k]).publisher@,
                    keys@,
                    i as int + 1,
                ) by {
                    if k < tl_pre.len() {
                        assert(timelines@[k] == tl_pre[k]);
                        let j2 = choose|j2: int|
                            0 <= j2 < i as int && (#[trigger] keys@[j2])@ == tl_pre[k].publisher@;
                        assert((keys@[j2])@ == timelines@[k].publisher@);
                    } else {
                        assert((keys@[i as int])@ == timelines@[k].publisher@);
                    }
                }
            }
            i = i + 1;
        }
        self.timelines = timelines;
        proof {
            assert forall|i2: int|
                0 <= i2 < self.timelines@.len() && !publisher_among(
                    (#[trigger] self.timelines@[i2]).publisher@,
                    old(self).timelines@,
                ) implies spec_timeline_empty(self.timelines@[i2]) by {
                if timeline_among(self.timelines@[i2], old(self).timelines@) {
                    let j = choose|j: int|
                        0 <= j < old(self).timelines@.len() && self.timelines@[i2] == (
                        #[trigger] old(self).timelines@[j]);
                    assert(old(self).timelines@[j].publisher@ == self.timelines@[i2].publisher@);
                    assert(false);
                }
            }
            assert forall|i2: int, j: int|
                0 <= i2 < self.timelines@.len() && 0 <= j < old(self).timelines@.len() && (
                #[trigger] self.timelines@[i2]).publisher@ == (#[trigger] old(self).timelines@[j]).publisher@ implies self.timelines@[i2] == old(self).timelines@[j] by {
                if timeline_among(self.timelines@[i2], old(self).timelines@) {
                    let j2 = choose|j2: int|
                        0 <= j2 < old(self).timelines@.len() && self.timelines@[i2] == (
                        #[trigger] old(self).timelines@[j2]);
                    assert(old(self).timelines@[j2].publisher@ == old(self).timelines@[j].publisher@);
                    if j2 != j {
                        assert(false);
                    }
                }
            }
        }
    }
}

} // verus!

// ---------------------------------------------------------------------------
// Timeline operations: profile, announced posts, body texts
// ---------------------------------------------------------------------------

verus! {

/// The body text stored for `post_id`, if any.
pub open spec fn spec_content_of(contents: Seq<PostContent>, post_id: u64) -> Option<Seq<char>> {
    if exists|j: int| 0 <= j < contents.len() && (#[trigger] contents[j]).post_id == post_id {
        let j = choose|j: int|
            0 <= j < contents.len() && (#[trigger] contents[j]).post_id == post_id;
        Some(contents[j].body@)
    } else {
        None
    }
}

/// Whether some stored post carries the id `id`.
pub open spec fn has_post(posts: Seq<Post>, id: u64) -> bool {
    exists|j: int| 0 <= j < posts.len() && (#[trigger] posts[j]).id == id
}

/// Whether `c` is one of the stored bodies of `cs`.
pub open spec fn content_among(c: PostContent, cs: Seq<PostContent>) -> bool {
    exists|k: int| 0 <= k < cs.len() && c == #[trigger] cs[k]
}

impl Timeline {
    /// Stores the publisher's profile, replacing any current one. The
    /// caller decides monotonicity; this merely persists.
    pub fn store_profile(&mut self, profile: Profile)
        requires
            old(self).wf(),
            profile@.wf(),
        ensures
            final(self).wf(),
            final(self).profile == Some(profile),
            final(self).publisher == old(self).publisher,
            final(self).entries == old(self).entries,
            final(self).posts == old(self).posts,
            final(self).contents == old(self).contents,
            final(self).blocks == old(self).blocks,
            final(self).events == old(self).events,
    {
        self.profile = Some(profile);
    }

    /// The currently stored publisher profile, if any.
    pub fn fetch_profile(&self) -> (r: Option<&Profile>)
        requires
            self.wf(),
        ensures
            match r {
                Some(p) => self.profile matches Some(q) && p == q,
                None => self.profile is None,
            },
    {
        match &self.profile {
            None => None,
            Some(p) => Some(p),
        }
    }

    /// Announces the next post: appends an entry under the next post id.
    /// The signature must verify over the hash under this publisher's key.
    pub fn append_entry(&mut self, hash: HashCode, signature: Signature)
        requires
            old(self).wf(),
            old(self).entries@.len() < u64::MAX,
            hash.wf(),
            signature.wf(),
            crypto::sig_ok(signature@, hash@, old(self).publisher@),
        ensures
            final(self).wf(),
            final(self).entries@ == old(self).entries@.push(
                TimelineEntry { post_id: old(self).entries@.len() as u64, hash, signature },
            ),
            final(self).publisher == old(self).publisher,
            final(self).profile == old(self).profile,
            final(self).posts == old(self).posts,
            final(self).contents == old(self).contents,
            final(self).blocks == old(self).blocks,
            final(self).events == old(self).events,
    {
        let post_id = self.entries.len() as u64;
        self.entries.push(TimelineEntry { post_id, hash, signature });
    }

    /// Replaces the hash of an announced post. The signature must verify
    /// over the new hash under this publisher's key. Fails when no post
    /// with that id was announced.
    pub fn revise_entry(&mut self, post_id: u64, new_hash: HashCode, signature: Signature) -> (r:
        Result<(), MessageMalformedError>)
        requires
            old(self).wf(),
            new_hash.wf(),
            signature.wf(),
            crypto::sig_ok(signature@, new_hash@, old(self).publisher@),
        ensures
            final(self).wf(),
            final(self).publisher == old(self).publisher,
            final(self).profile == old(self).profile,
            final(self).posts == old(self).posts,
            final(self).contents == old(self).contents,
            final(self).blocks == old(self).blocks,
            final(self).events == old(self).events,
            match r {
                Ok(()) => post_id < old(self).entries@.len() && final(self).entries@ == old(self).entries@.update(
                    post_id as int,
                    TimelineEntry { post_id, hash: new_hash, signature },
                ),
                Err(e) => post_id >= old(self).entries@.len() && final(self).entries == old(self).entries && e matches MessageMalformedError::MissingData(_),
            },
    {
        let n = self.entries.len();
        if post_id >= n as u64 {
            return Err(MessageMalformedError::MissingData("revised post".to_owned()));
        }
        self.entries.set(post_id as usize, TimelineEntry { post_id, hash: new_hash, signature });
        Ok(())
    }

    /// Forgets the locally stored body text of a post, if any. Cooperative
    /// only: the announcement and the post metadata stay, and no peer can
    /// force another to comply.
    pub fn forget_content(&mut self, post_id: u64)
        requires
            old(self).wf(),
        ensures
            final(self).wf(),
            spec_content_of(final(self).contents@, post_id) is None,
            final(self).publisher == old(self).publisher,
            final(self).profile == old(self).profile,
            final(self).entries == old(self).entries,
            final(self).posts == old(self).posts,
            final(self).blocks == old(self).blocks,
            final(self).events == old(self).events,
            // every kept body was stored before, under its own id
            forall|j: int|
                0 <= j < final(self).contents@.len() ==> content_among(
                    #[trigger] final(self).contents@[j],
                    old(self).contents@,
                ),
            // the bodies of all other posts stay exactly as they were
            forall|other: u64|
                other != post_id ==> #[trigger] spec_content_of(final(self).contents@, other)
                    == spec_content_of(old(self).contents@, other),
    {
        let n = self.contents.len();
        let mut at: usize = 0;
        let mut found = false;
        let mut i: usize = 0;
        while i < n
            invariant
                i <= n,
                n == self.contents@.len(),
                found ==> at < i && self.contents@[at as int].post_id == post_id,
                !found ==> forall|j: int|
                    0 <= j < i ==> (#[trigger] self.contents@[j]).post_id != post_id,
            decreases n - i,
        {
            if self.contents[i].post_id == post_id {
                found = true;
                at = i;
            }
            i = i + 1;
        }
        if found {
            let ghost pre = self.contents@;
            self.contents.remove(at);
            proof {
                assert forall|j: int|
                    0 <= j < self.contents@.len() implies content_among(
                    #[trigger] self.contents@[j],
                    old(self).contents@,
                ) by {
                    if j < at {
                        assert(self.contents@[j] == old(self).contents@[j]);
                    } else {
                        assert(self.contents@[j] == old(self).contents@[j + 1]);
                    }
                }
                // uniqueness of ids means the one removed was the only one
                assert forall|j: int|
                    0 <= j < self.contents@.len() implies (#[trigger] self.contents@[j]).post_id
                    != post_id by {
                    if j < at {
                        assert(self.contents@[j] == pre[j]);
                    } else {
                        assert(self.contents@[j] == pre[j + 1]);
                    }
                }
                assert forall|other: u64|
                    other != post_id implies #[trigger] spec_content_of(self.contents@, other)
                    == spec_content_of(old(self).contents@, other) by {
                    lemma_content_after_remove(pre, at as int, other);
                }
            }
        } else {
            proof {
                assert forall|j: int|
                    0 <= j < self.contents@.len() implies content_among(
                    #[trigger] self.contents@[j],
                    old(self).contents@,
                ) by {
                    assert(self.contents@[j] == old(self).contents@[j]);
                }
            }
        }
    }

    /// Stores the body text of a post, replacing any earlier one.
    pub fn store_content(&mut self, post_id: u64, body: String)
        requires
            old(self).wf(),
        ensures
            final(self).wf(),
            spec_content_of(final(self).contents@, post_id) == Some(body@),
            final(self).publisher == old(self).publisher,
            final(self).profile == old(self).profile,
            final(self).entries == old(self).entries,
            final(self).posts == old(self).posts,
            final(self).blocks == old(self).blocks,
            final(self).events == old(self).events,
            // the bodies of all other posts stay exactly as they were
            forall|other: u64|
                other != post_id ==> #[trigger] spec_content_of(final(self).contents@, other)
                    == spec_content_of(old(self).contents@, other),
    {
        self.forget_content(post_id);
        let ghost mid = *self;
        let ghost pre = self.contents@;
        let entry = PostContent { post_id, body };
        let ghost entry_g = entry;
        self.contents.push(entry);
        proof {
            let n = pre.len() as int;
            assert(self.contents@[n].post_id == post_id);
            assert forall|j: int|
                0 <= j < self.contents@.len() && (#[trigger] self.contents@[j]).post_id == post_id
                implies j == n by {
                if j < n {
                    assert(self.contents@[j] == pre[j]);
                }
            }
            let j = choose|j: int|
                0 <= j < self.contents@.len() && (#[trigger] self.contents@[j]).post_id == post_id;
            assert(j == n);
            assert forall|other: u64|
                other != post_id implies #[trigger] spec_content_of(self.contents@, other)
                == spec_content_of(old(self).contents@, other) by {
                lemma_content_after_push(pre, entry_g, other);
                assert(spec_content_of(pre, other) == spec_content_of(mid.contents@, other));
                assert(spec_content_of(mid.contents@, other) == spec_content_of(
                    old(self).contents@,
                    other,
                ));
            }
        }
    }

    /// The locally stored body text of a post, if any.
    pub fn load_content(&self, post_id: u64) -> (r: Option<String>)
        requires
            self.wf(),
        ensures
            match r {
                Some(body) => spec_content_of(self.contents@, post_id) == Some(body@),
                None => spec_content_of(self.contents@, post_id) is None,
            },
    {
        let n = self.contents.len();
        let mut i: usize = 0;
        while i < n
            invariant
                i <= n,
                self.wf(),
                n == self.contents@.len(),
                forall|j: int| 0 <= j < i ==> (#[trigger] self.contents@[j]).post_id != post_id,
            decreases n - i,
        {
            if self.contents[i].post_id == post_id {
                proof {
                    let j = choose|j: int|
                        0 <= j < self.contents@.len() && (#[trigger] self.contents@[j]).post_id
                            == post_id;
                    assert(j == i as int);
                }
                return Some(self.contents[i].body.as_str().to_owned());
            }
            i = i + 1;
        }
        None
    }
}

} // verus!

// ---------------------------------------------------------------------------
// Timeline operations: stored posts
// ---------------------------------------------------------------------------

verus! {

/// Whether `p` is the view of one of the stored posts of `posts`.
pub open spec fn post_view_among(p: post::PostV, posts: Seq<Post>) -> bool {
    exists|k: int| 0 <= k < posts.len() && p == (#[trigger] posts[k])@
}

impl Timeline {
    /// Loads the post with the given id, if it is stored locally.
    pub fn load_post(&self, post_id: u64) -> (r: Option<Post>)
        requires
            self.wf(),
        ensures
            match r {
                Some(p) => p.id == post_id && p@.wf() && post::post_valid(p@, self.publisher@)
                    && post_view_among(p@, self.posts@) && has_post(self.posts@, post_id),
                None => !has_post(self.posts@, post_id),
            },
    {
        let n = self.posts.len();
        let mut i: usize = 0;
        while i < n
            invariant
                i <= n,
                self.wf(),
                n == self.posts@.len(),
                forall|j: int| 0 <= j < i ==> (#[trigger] self.posts@[j]).id != post_id,
            decreases n - i,
        {
            if self.posts[i].id == post_id {
                let p = self.posts[i].clone();
                proof {
                    assert(p@ == self.posts@[i as int]@);
                    assert((self.posts@[i as int]).id == post_id);
                }
                return Some(p);
            }
            i = i + 1;
        }
        None
    }

    /// Stores a post received from a peer. The post's hash must be the
    /// hash of its serialized metadata and its signature must verify under
    /// this publisher's key; storing a post whose id is already stored is
    /// a no-op.
    pub fn insert_post(&mut self, post: Post) -> (r: Result<(), MessageMalformedError>)
        requires
            old(self).wf(),
            post@.wf(),
        ensures
            final(self).wf(),
            final(self).publisher == old(self).publisher,
            final(self).profile == old(self).profile,
            final(self).entries == old(self).entries,
            final(self).contents == old(self).contents,
            final(self).blocks == old(self).blocks,
            final(self).events == old(self).events,
            match r {
                Ok(()) => post::post_valid(post@, old(self).publisher@) && (if has_post(
                    old(self).posts@,
                    post.id,
                ) {
                    final(self).posts == old(self).posts
                } else {
                    final(self).posts@ == old(self).posts@.push(post)
                }),
                Err(e) => final(self).posts == old(self).posts && (e matches
                    MessageMalformedError::InvalidHash(_) <==> post@.hash != crypto::hash_of(
                    post::spec_enc_post_meta(post@.meta),
                )) && (e matches MessageMalformedError::InvalidSignature(_) <==> (post@.hash
                    == crypto::hash_of(post::spec_enc_post_meta(post@.meta)) && !crypto::sig_ok(
                    post@.signature,
                    post@.hash,
                    old(self).publisher@,
                ))),
            },
            r is Ok <==> post::post_valid(post@, old(self).publisher@),
    {
        let mut enc: Vec<u8> = Vec::new();
        post::enc_post_meta(&mut enc, &post.meta);
        proof {
            assert(enc@ =~= post::spec_enc_post_meta(post@.meta));
        }
        let hash = HashCode::generate(&enc);
        if !hash.equals(&post.hash) {
            return Err(MessageMalformedError::InvalidHash("stored post".to_owned()));
        }
        if !post.signature.verify_hash(&post.hash, &self.publisher) {
            return Err(MessageMalformedError::InvalidSignature("stored post".to_owned()));
        }
        let n = self.posts.len();
        let mut i: usize = 0;
        while i < n
            invariant
                i <= n,
                self.wf(),
                self == old(self),
                post::post_valid(post@, old(self).publisher@),
                n == self.posts@.len(),
                forall|j: int| 0 <= j < i ==> (#[trigger] self.posts@[j]).id != post.id,
            decreases n - i,
        {
            if self.posts[i].id == post.id {
                proof {
                    assert(has_post(self.posts@, post.id));
                }
                return Ok(());
            }
            i = i + 1;
        }
        self.posts.push(post);
        Ok(())
    }

    /// Loads a dense run of posts: one slot per id from `start` on, `None`
    /// where the post is not stored locally.
    pub fn list_posts(&self, start: u64, count: u16) -> (r: Vec<Option<Post>>)
        requires
            self.wf(),
            start + count <= u64::MAX,
        ensures
            r@.len() == count,
            forall|i: int|
                0 <= i < count ==> match #[trigger] r@[i] {
                    Some(p) => p.id == start + i && p@.wf() && post::post_valid(
                        p@,
                        self.publisher@,
                    ) && has_post(self.posts@, (start + i) as u64),
                    None => !has_post(self.posts@, (start + i) as u64),
                },
    {
        let mut r: Vec<Option<Post>> = Vec::new();
        let mut i: u16 = 0;
        while i < count
            invariant
                i <= count,
                self.wf(),
                start + count <= u64::MAX,
                r@.len() == i,
                forall|j: int|
                    0 <= j < i ==> match #[trigger] r@[j] {
                        Some(p) => p.id == start + j && p@.wf() && post::post_valid(
                            p@,
                            self.publisher@,
                        ) && has_post(self.posts@, (start + j) as u64),
                        None => !has_post(self.posts@, (start + j) as u64),
                    },
            decreases count - i,
        {
            r.push(self.load_post(start + i as u64));
            i = i + 1;
        }
        r
    }

    /// Creates and stores a new post of this publisher: hashes the
    /// content, builds and hashes the metadata, signs the hash with the
    /// publisher's private key, announces the post under the next post id
    /// and stores its body. Fails when the key is not this timeline's
    /// publisher, or when a post under the next id is already stored.
    pub fn create_post(&mut self, private_key: &crypto::PrivateKey, content: &str, info: PostInfo)
        -> (r: Result<Post, Error>)
        requires
            old(self).wf(),
            private_key.wf(),
            info@.wf(),
            old(self).entries@.len() < u64::MAX,
        ensures
            final(self).wf(),
            final(self).publisher == old(self).publisher,
            final(self).profile == old(self).profile,
            final(self).blocks == old(self).blocks,
            final(self).events == old(self).events,
            r is Ok <==> (old(self).publisher@ == seq![crypto::KEY_TYPE_EDDSA]
                + crypto::eddsa_public_of(private_key@) && !has_post(
                old(self).posts@,
                old(self).entries@.len() as u64,
            )),
            match r {
                Ok(post) => {
                    &&& post@.wf()
                    &&& post::post_valid(post@, old(self).publisher@)
                    &&& post.id == old(self).entries@.len()
                    &&& post.meta@.info == info@
                    &&& post.meta@.content_hash == crypto::hash_of(
                        vstd::utf8::encode_utf8(content@),
                    )
                    &&& post.meta@.attachment_ids == Seq::<Seq<u8>>::empty()
                    &&& final(self).entries@.len() == old(self).entries@.len() + 1
                    &&& final(self).entries@.subrange(0, old(self).entries@.len() as int) == old(self).entries@
                    &&& final(self).entries@[old(self).entries@.len() as int].hash@ == post.hash@
                    &&& final(self).entries@[old(self).entries@.len() as int].signature@
                        == post.signature@
                    &&& final(self).posts@.len() == old(self).posts@.len() + 1
                    &&& final(self).posts@[old(self).posts@.len() as int]@ == post@
                    &&& final(self).posts@.subrange(0, old(self).posts@.len() as int) == old(self).posts@
                    &&& spec_content_of(final(self).contents@, post.id) == Some(content@)
                },
                Err(e) => {
                    &&& final(self).entries == old(self).entries
                    &&& final(self).posts == old(self).posts
                    &&& final(self).contents == old(self).contents
                    &&& (e matches Error::MessageMalformed(
                        MessageMalformedError::UnknownPublisher(_),
                    ) <==> old(self).publisher@ != seq![crypto::KEY_TYPE_EDDSA]
                        + crypto::eddsa_public_of(private_key@))
                },
            },
    {
        let public = private_key.extract_public();
        if !public.equals(&self.publisher) {
            return Err(
                Error::MessageMalformed(MessageMalformedError::UnknownPublisher(public)),
            );
        }
        let post_id = self.entries.len() as u64;
        if self.load_post(post_id).is_some() {
            return Err(Error::Persistence("a post under the next post id is stored".to_owned()));
        }
        let content_bytes = content.as_bytes_vec();
        let content_hash = HashCode::generate(&content_bytes);
        let meta = PostMeta { info, content_hash, attachment_ids: Vec::new() };
        let mut enc: Vec<u8> = Vec::new();
        post::enc_post_meta(&mut enc, &meta);
        proof {
            assert(enc@ =~= post::spec_enc_post_meta(meta@));
            assert(meta@.attachment_ids =~= Seq::<Seq<u8>>::empty());
        }
        let post_hash = HashCode::generate(&enc);
        let signature = private_key.sign_hash(&post_hash);
        self.append_entry(post_hash.clone(), signature.clone());
        let post = Post { id: post_id, hash: post_hash, signature, meta };
        let ghost posts_pre = self.posts@;
        self.posts.push(post.clone());
        proof {
            assert(self.posts@[posts_pre.len() as int]@ == post@);
            assert(self.posts@.subrange(0, posts_pre.len() as int) =~= posts_pre);
        }
        self.store_content(post_id, content.to_owned());
        Ok(post)
    }
}

} // verus!

// ---------------------------------------------------------------------------
// Blocks: content-addressed storage
// ---------------------------------------------------------------------------

verus! {

/// The views of a vector of raw blocks.
pub open spec fn spec_blocks_view(v: Seq<Vec<u8>>) -> Seq<Seq<u8>> {
    Seq::new(v.len(), |i: int| v[i]@)
}

/// Whether some stored block carries the id `id`.
pub open spec fn has_block(blocks: Seq<Block>, id: Seq<u8>) -> bool {
    exists|j: int| 0 <= j < blocks.len() && (#[trigger] blocks[j]).id@ == id
}

/// Divides `s` into blocks of `b` bytes; the last block is shorter when
/// `b` does not divide the length, and empty content yields no blocks.
pub open spec fn spec_breakup(s: Seq<u8>, b: int) -> Seq<Seq<u8>>
    recommends
        b > 0,
    decreases s.len(), 0int when b > 0
{
    if s.len() == 0 {
        Seq::empty()
    } else if s.len() <= b {
        seq![s]
    } else {
        seq![s.take(b)] + spec_breakup(s.skip(b), b)
    }
}

/// Dividing content into blocks loses nothing: the blocks concatenate back
/// to the content, every block but the last is exactly `b` bytes, and no
/// block is empty.
pub proof fn lemma_breakup_reconstructs(d: Seq<u8>, b: int)
    requires
        b > 0,
    ensures
        spec_breakup(d, b).flatten() == d,
        forall|i: int|
            0 <= i < spec_breakup(d, b).len() ==> 0 < (#[trigger] spec_breakup(d, b)[i]).len()
                <= b,
        forall|i: int|
            0 <= i < spec_breakup(d, b).len() - 1 ==> (#[trigger] spec_breakup(d, b)[i]).len()
                == b,
    decreases d.len(),
{
    if d.len() == 0 {
        assert(spec_breakup(d, b).flatten() =~= d);
    } else if d.len() <= b {
        assert(seq![d].drop_first() =~= Seq::<Seq<u8>>::empty());
        assert(Seq::<Seq<u8>>::empty().flatten() =~= Seq::<u8>::empty());
        assert(seq![d].flatten() == d + Seq::<Seq<u8>>::empty().flatten());
        assert(d + Seq::<u8>::empty() =~= d);
        assert(spec_breakup(d, b).flatten() =~= d);
    } else {
        lemma_breakup_reconstructs(d.skip(b), b);
        let blocks = spec_breakup(d, b);
        let rest = spec_breakup(d.skip(b), b);
        assert(blocks =~= seq![d.take(b)] + rest);
        assert(blocks.drop_first() =~= rest);
        assert(blocks.flatten() == d.take(b) + rest.flatten());
        assert(d.take(b) + d.skip(b) =~= d);
        assert forall|i: int| 0 <= i < blocks.len() implies 0 < (#[trigger] blocks[i]).len()
            <= b by {
            if i > 0 {
                assert(blocks[i] == rest[i - 1]);
            }
        }
        assert forall|i: int| 0 <= i < blocks.len() - 1 implies (#[trigger] blocks[i]).len()
            == b by {
            if i > 0 {
                assert(blocks[i] == rest[i - 1]);
            }
        }
    }
}

/// Divides `data` into blocks of `block_len` bytes each; the last block
/// may be shorter.
pub fn breakup_data(data: &Vec<u8>, block_len: usize) -> (r: Vec<Vec<u8>>)
    requires
        block_len > 0,
    ensures
        spec_blocks_view(r@) == spec_breakup(data@, block_len as int),
{
    let ghost b = block_len as int;
    let n = data.len();
    let mut blocks: Vec<Vec<u8>> = Vec::new();
    let mut i: usize = 0;
    proof {
        assert(data@.skip(0) =~= data@);
        assert(spec_blocks_view(blocks@) + spec_breakup(data@, b) =~= spec_breakup(data@, b));
    }
    while i < n
        invariant
            block_len > 0,
            b == block_len as int,
            i <= n,
            n == data@.len(),
            spec_breakup(data@, b) == spec_blocks_view(blocks@) + spec_breakup(
                data@.skip(i as int),
                b,
            ),
        decreases n - i,
    {
        let ghost blocks_pre = blocks@;
        let remaining = n - i;
        let take = if remaining > block_len {
            block_len
        } else {
            remaining
        };
        let blk = codec::copy_range(data, i, take);
        blocks.push(blk);
        proof {
            let s = data@.skip(i as int);
            assert(spec_blocks_view(blocks@) =~= spec_blocks_view(blocks_pre) + seq![
                blocks@[blocks@.len() - 1]@,
            ]);
            if remaining > block_len {
                assert(s.take(b) =~= data@.subrange(i as int, i + take));
                assert(s.skip(b) =~= data@.skip(i + take));
                assert(spec_breakup(s, b) == seq![s.take(b)] + spec_breakup(s.skip(b), b));
            } else {
                assert(s =~= data@.subrange(i as int, i + take));
                assert(spec_breakup(s, b) =~= seq![s]);
                assert(data@.skip(i + take) =~= Seq::<u8>::empty());
                assert(spec_breakup(data@.skip(i + take), b) =~= Seq::<Seq<u8>>::empty());
                assert(seq![s] + Seq::<Seq<u8>>::empty() =~= seq![s]);
            }
            assert(spec_blocks_view(blocks_pre) + (seq![blocks@[blocks@.len() - 1]@]
                + spec_breakup(data@.skip(i + take), b)) =~= (spec_blocks_view(blocks_pre) + seq![
                blocks@[blocks@.len() - 1]@,
            ]) + spec_breakup(data@.skip(i + take), b));
        }
        i = i + take;
    }
    proof {
        assert(data@.skip(n as int) =~= Seq::<u8>::empty());
        assert(spec_breakup(data@.skip(n as int), b) =~= Seq::<Seq<u8>>::empty());
        assert(spec_blocks_view(blocks@) + Seq::<Seq<u8>>::empty() =~= spec_blocks_view(blocks@));
    }
    blocks
}

/// Hashes each block, in order.
pub fn hash_blocks(blocks: &Vec<Vec<u8>>) -> (r: Vec<HashCode>)
    ensures
        r@.len() == blocks@.len(),
        forall|i: int|
            0 <= i < r@.len() ==> (#[trigger] r@[i])@ == crypto::hash_of(blocks@[i]@)
                && r@[i].wf(),
{
    let n = blocks.len();
    let mut r: Vec<HashCode> = Vec::new();
    let mut i: usize = 0;
    while i < n
        invariant
            i <= n,
            n == blocks@.len(),
            r@.len() == i,
            forall|j: int|
                0 <= j < i ==> (#[trigger] r@[j])@ == crypto::hash_of(blocks@[j]@) && r@[j].wf(),
        decreases n - i,
    {
        r.push(HashCode::generate(&blocks[i]));
        i = i + 1;
    }
    r
}

impl Timeline {
    /// Stores one content-addressed block. Its id must be the hash of its
    /// bytes; `store_data` computes ids and meets this for any content.
    pub fn store_block(&mut self, id: HashCode, data: Vec<u8>)
        requires
            old(self).wf(),
            id.wf(),
            id@ == crypto::hash_of(data@),
        ensures
            final(self).wf(),
            final(self).blocks@ == old(self).blocks@.push(Block { id, data }),
            final(self).publisher == old(self).publisher,
            final(self).profile == old(self).profile,
            final(self).entries == old(self).entries,
            final(self).posts == old(self).posts,
            final(self).contents == old(self).contents,
            final(self).events == old(self).events,
    {
        self.blocks.push(Block { id, data });
    }

    /// Loads a block by its id. What comes back hashes to the id asked
    /// for: the store only ever holds blocks under their own hash.
    pub fn load_block(&self, id: &HashCode) -> (r: Option<Vec<u8>>)
        requires
            self.wf(),
        ensures
            match r {
                Some(data) => crypto::hash_of(data@) == id@ && (exists|j: int|
                    0 <= j < self.blocks@.len() && (#[trigger] self.blocks@[j]).id@ == id@
                        && self.blocks@[j].data@ == data@),
                None => !has_block(self.blocks@, id@),
            },
    {
        let n = self.blocks.len();
        let mut i: usize = 0;
        while i < n
            invariant
                i <= n,
                self.wf(),
                n == self.blocks@.len(),
                forall|j: int| 0 <= j < i ==> (#[trigger] self.blocks@[j]).id@ != id@,
            decreases n - i,
        {
            if self.blocks[i].id.equals(id) {
                let data = codec::copy_range(&self.blocks[i].data, 0, self.blocks[i].data.len());
                proof {
                    assert(data@ =~= self.blocks@[i as int].data@);
                    assert(self.blocks@[i as int].id@ == id@);
                }
                return Some(data);
            }
            i = i + 1;
        }
        None
    }

    /// Stores a run of blocks under their ids; each id must be the hash of
    /// its block.
    pub fn store_blocks(&mut self, ids: &Vec<HashCode>, blocks: &Vec<Vec<u8>>)
        requires
            old(self).wf(),
            ids@.len() == blocks@.len(),
            forall|i: int|
                0 <= i < ids@.len() ==> (#[trigger] ids@[i]).wf() && ids@[i]@ == crypto::hash_of(
                    blocks@[i]@,
                ),
        ensures
            final(self).wf(),
            final(self).blocks@.len() == old(self).blocks@.len() + ids@.len(),
            forall|i: int|
                0 <= i < ids@.len() ==> (#[trigger] final(self).blocks@[old(self).blocks@.len()
                    + i]).id@ == ids@[i]@ && final(self).blocks@[old(self).blocks@.len()
                    + i].data@ == blocks@[i]@,
            final(self).blocks@.subrange(0, old(self).blocks@.len() as int) == old(self).blocks@,
            final(self).publisher == old(self).publisher,
            final(self).profile == old(self).profile,
            final(self).entries == old(self).entries,
            final(self).posts == old(self).posts,
            final(self).contents == old(self).contents,
            final(self).events == old(self).events,
    {
        let n = ids.len();
        let mut i: usize = 0;
        while i < n
            invariant
                i <= n,
                n == ids@.len() == blocks@.len(),
                self.wf(),
                self.publisher == old(self).publisher,
                self.profile == old(self).profile,
                self.entries == old(self).entries,
                self.posts == old(self).posts,
                self.contents == old(self).contents,
                self.events == old(self).events,
                forall|k: int|
                    0 <= k < ids@.len() ==> (#[trigger] ids@[k]).wf() && ids@[k]@
                        == crypto::hash_of(blocks@[k]@),
                self.blocks@.len() == old(self).blocks@.len() + i,
                forall|k: int|
                    0 <= k < i ==> (#[trigger] self.blocks@[old(self).blocks@.len() + k]).id@
                        == ids@[k]@ && self.blocks@[old(self).blocks@.len() + k].data@
                        == blocks@[k]@,
                self.blocks@.subrange(0, old(self).blocks@.len() as int) == old(self).blocks@,
            decreases n - i,
        {
            let id = ids[i].clone();
            let data = codec::copy_range(&blocks[i], 0, blocks[i].len());
            proof {
                assert(data@ =~= blocks@[i as int]@);
            }
            let ghost pre = self.blocks@;
            self.store_block(id, data);
            proof {
                assert(self.blocks@.subrange(0, old(self).blocks@.len() as int) =~= old(self).blocks@);
            }
            i = i + 1;
        }
    }

    /// Divides content into blocks of `block_len` bytes, hashes them and
    /// stores each under its hash; returns the hashes in order.
    pub fn store_data(&mut self, data: &Vec<u8>, block_len: usize) -> (r: Vec<HashCode>)
        requires
            old(self).wf(),
            block_len > 0,
        ensures
            final(self).wf(),
            r@.len() == spec_breakup(data@, block_len as int).len(),
            forall|i: int|
                0 <= i < r@.len() ==> (#[trigger] r@[i])@ == crypto::hash_of(
                    spec_breakup(data@, block_len as int)[i],
                ) && r@[i].wf(),
            final(self).publisher == old(self).publisher,
            final(self).profile == old(self).profile,
            final(self).entries == old(self).entries,
            final(self).posts == old(self).posts,
            final(self).contents == old(self).contents,
            final(self).events == old(self).events,
    {
        let blocks = breakup_data(data, block_len);
        let ids = hash_blocks(&blocks);
        proof {
            assert forall|i: int| 0 <= i < ids@.len() implies (#[trigger] ids@[i]).wf()
                && ids@[i]@ == crypto::hash_of(blocks@[i]@) by {}
        }
        self.store_blocks(&ids, &blocks);
        proof {
            assert forall|i: int| 0 <= i < ids@.len() implies (#[trigger] ids@[i])@
                == crypto::hash_of(spec_breakup(data@, block_len as int)[i]) by {
                assert(blocks@[i]@ == spec_blocks_view(blocks@)[i]);
            }
        }
        ids
    }
}

} // verus!

// ---------------------------------------------------------------------------
// Borrowing a timeline for mutation
// ---------------------------------------------------------------------------

verus! {

impl ChannelStore {
    /// A shared view of the timeline at `at`.
    pub fn timeline_at(&self, at: usize) -> (r: &Timeline)
        requires
            self.wf(),
            at < self.timelines@.len(),
        ensures
            r == self.timelines@[at as int],
            r.wf(),
    {
        &self.timelines[at]
    }

    /// Takes the timeline at `at` out of the store, to hand it to a
    /// mutating operation; `put_timeline` puts it back.
    pub fn take_timeline(&mut self, at: usize) -> (r: Timeline)
        requires
            old(self).wf(),
            at < old(self).timelines@.len(),
        ensures
            r == old(self).timelines@[at as int],
            r.wf(),
            final(self).wf(),
            final(self).timelines@ == old(self).timelines@.remove(at as int),
            final(self).address == old(self).address,
            final(self).profile == old(self).profile,
            final(self).events == old(self).events,
    {
        self.timelines.remove(at)
    }

    /// Puts a timeline back at `at`. Its publisher must not collide with
    /// any other timeline of the store.
    pub fn put_timeline(&mut self, at: usize, t: Timeline)
        requires
            old(self).wf(),
            at <= old(self).timelines@.len(),
            t.wf(),
            forall|k: int|
                0 <= k < old(self).timelines@.len() ==> (#[trigger] old(self).timelines@[k]).publisher@ != t.publisher@,
        ensures
            final(self).wf(),
            final(self).timelines@ == old(self).timelines@.insert(at as int, t),
            final(self).address == old(self).address,
            final(self).profile == old(self).profile,
            final(self).events == old(self).events,
    {
        self.timelines.insert(at, t);
        proof {
            assert forall|k: int, l: int|
                0 <= k < l < self.timelines@.len() implies (
            #[trigger] self.timelines@[k]).publisher@ != (#[trigger] self.timelines@[l]).publisher@
                by {
                let a = at as int;
                if k < a && l < a {
                    assert(self.timelines@[k] == old(self).timelines@[k]);
                    assert(self.timelines@[l] == old(self).timelines@[l]);
                } else if k < a && l == a {
                    assert(self.timelines@[k] == old(self).timelines@[k]);
                } else if k < a && l > a {
                    assert(self.timelines@[k] == old(self).timelines@[k]);
                    assert(self.timelines@[l] == old(self).timelines@[l - 1]);
                } else if k == a {
                    assert(self.timelines@[l] == old(self).timelines@[l - 1]);
                } else {
                    assert(self.timelines@[k] == old(self).timelines@[k - 1]);
                    assert(self.timelines@[l] == old(self).timelines@[l - 1]);
                }
            }
            assert forall|k: int| 0 <= k < self.timelines@.len() implies (
            #[trigger] self.timelines@[k]).wf() by {
                let a = at as int;
                if k < a {
                    assert(self.timelines@[k] == old(self).timelines@[k]);
                } else if k > a {
                    assert(self.timelines@[k] == old(self).timelines@[k - 1]);
                }
            }
        }
    }
}

} // verus!

// ---------------------------------------------------------------------------
// Applying publisher events to a timeline
// ---------------------------------------------------------------------------

verus! {

/// When a publisher-profile update applies: its envelope decodes, its hash
/// is the hash of the encoded profile, and its signature verifies under the
/// publisher's key.
pub open spec fn spec_apply_update_profile_ok(publisher: Seq<u8>, message: Seq<u8>, pos: int) -> bool {
    crate::message::spec_dec_update_profile(message.skip(pos)) matches Some((m, c)) && m.hash
        == crypto::hash_of(crate::message::spec_enc_profile(m.profile)) && crypto::sig_ok(
        m.signature,
        m.hash,
        publisher,
    )
}

/// When a post publication applies: hash and signature decode, the
/// signature verifies under the publisher's key, and the timeline can take
/// another post id.
pub open spec fn spec_apply_publish_post_ok(
    publisher: Seq<u8>,
    entries_len: nat,
    message: Seq<u8>,
    pos: int,
) -> bool {
    crate::event::spec_dec_publish_post(message.skip(pos)) matches Some((hash, c)) && (
    crypto::spec_dec_sig(message.skip(pos + c)) matches Some((sig, c2)) && crypto::sig_ok(
        sig,
        hash,
        publisher,
    ) && entries_len < u64::MAX)
}

/// When a post revision applies: payload and signature decode, the
/// signature verifies over the new hash, and the revised post id was
/// announced.
pub open spec fn spec_apply_revise_post_ok(
    publisher: Seq<u8>,
    entries_len: nat,
    message: Seq<u8>,
    pos: int,
) -> bool {
    crate::event::spec_dec_revise_post(message.skip(pos)) matches Some((d, c)) && (
    crypto::spec_dec_sig(message.skip(pos + c)) matches Some((sig, c2)) && crypto::sig_ok(
        sig,
        d.new_hash,
        publisher,
    ) && d.old_post_id < entries_len)
}

/// When a forget request applies: its post id decodes.
pub open spec fn spec_apply_forget_post_ok(message: Seq<u8>, pos: int) -> bool {
    codec::spec_dec_u64(message.skip(pos)) is Some
}

/// How a stored profile moves under an update carrying `p`: replaced when
/// none was stored or when `p` carries a higher revision, else unchanged.
pub open spec fn spec_profile_updated(
    old_profile: Option<Profile>,
    new_profile: Option<Profile>,
    p: crate::message::ProfileV,
) -> bool {
    match old_profile {
        None => new_profile matches Some(q) && q@ == p,
        Some(cur) => if p.revision > cur@.revision {
            new_profile matches Some(q) && q@ == p
        } else {
            new_profile == old_profile
        },
    }
}

/// Whether a publisher event's kind byte at `pos` applies to the timeline.
pub open spec fn spec_timeline_event_ok(t: Timeline, message: Seq<u8>, pos: int) -> bool {
    &&& 0 <= pos < message.len()
    &&& match crate::event::PublisherEventType::spec_from_byte(message[pos]) {
        Some(crate::event::PublisherEventType::UpdateProfile) => spec_apply_update_profile_ok(
            t.publisher@,
            message,
            pos + 1,
        ),
        Some(crate::event::PublisherEventType::PublishPost) => spec_apply_publish_post_ok(
            t.publisher@,
            t.entries@.len(),
            message,
            pos + 1,
        ),
        Some(crate::event::PublisherEventType::RevisePost) => spec_apply_revise_post_ok(
            t.publisher@,
            t.entries@.len(),
            message,
            pos + 1,
        ),
        Some(crate::event::PublisherEventType::ForgetPost) => spec_apply_forget_post_ok(
            message,
            pos + 1,
        ),
        None => false,
    }
}

/// How the timeline `t0` moves to `t1` under the publisher event whose
/// kind byte stands at `pos`.
pub open spec fn spec_timeline_applied(t0: Timeline, t1: Timeline, message: Seq<u8>, pos: int) -> bool {
    &&& t1.publisher == t0.publisher
    &&& 0 <= pos < message.len()
    &&& match crate::event::PublisherEventType::spec_from_byte(message[pos]) {
        Some(crate::event::PublisherEventType::UpdateProfile) => {
            &&& t1.entries == t0.entries
            &&& t1.posts == t0.posts
            &&& t1.contents == t0.contents
            &&& t1.blocks == t0.blocks
            &&& t1.events == t0.events
            &&& crate::message::spec_dec_update_profile(message.skip(pos + 1)) matches Some(
                (m, c),
            ) && spec_profile_updated(t0.profile, t1.profile, m.profile)
        },
        Some(crate::event::PublisherEventType::PublishPost) => {
            &&& t1.profile == t0.profile
            &&& t1.posts == t0.posts
            &&& t1.contents == t0.contents
            &&& t1.blocks == t0.blocks
            &&& t1.events == t0.events
            &&& crate::event::spec_dec_publish_post(message.skip(pos + 1)) matches Some(
                (hash, c),
            ) && (crypto::spec_dec_sig(message.skip(pos + 1 + c)) matches Some((sig, c2))
                && t1.entries@.len() == t0.entries@.len() + 1 && t1.entries@.subrange(
                0,
                t0.entries@.len() as int,
            ) == t0.entries@ && t1.entries@[t0.entries@.len() as int].post_id
                == t0.entries@.len() && t1.entries@[t0.entries@.len() as int].hash@ == hash
                && t1.entries@[t0.entries@.len() as int].signature@ == sig)
        },
        Some(crate::event::PublisherEventType::RevisePost) => {
            &&& t1.profile == t0.profile
            &&& t1.posts == t0.posts
            &&& t1.contents == t0.contents
            &&& t1.blocks == t0.blocks
            &&& t1.events == t0.events
            &&& crate::event::spec_dec_revise_post(message.skip(pos + 1)) matches Some((d, c))
                && (crypto::spec_dec_sig(message.skip(pos + 1 + c)) matches Some((sig, c2))
                && t1.entries@.len() == t0.entries@.len()
                && t1.entries@[d.old_post_id as int].hash@ == d.new_hash
                && t1.entries@[d.old_post_id as int].signature@ == sig && (forall|k: int|
                0 <= k < t0.entries@.len() && k != d.old_post_id ==> t1.entries@[k]
                    == t0.entries@[k]))
        },
        Some(crate::event::PublisherEventType::ForgetPost) => {
            &&& t1.profile == t0.profile
            &&& t1.entries == t0.entries
            &&& t1.posts == t0.posts
            &&& t1.blocks == t0.blocks
            &&& t1.events == t0.events
            &&& codec::spec_dec_u64(message.skip(pos + 1)) matches Some((id, c)) && (
            spec_content_of(t1.contents@, id) is None && (forall|other: u64|
                other != id ==> #[trigger] spec_content_of(t1.contents@, other)
                    == spec_content_of(t0.contents@, other)))
        },
        None => false,
    }
}

/// The timeline of the publisher with key `address`; by the store's
/// well-formedness there is at most one.
pub open spec fn spec_timeline_of(store: ChannelStore, address: Seq<u8>) -> Timeline
    recommends
        store.spec_has_timeline(address),
{
    store.timelines@[choose|i: int|
        0 <= i < store.timelines@.len() && (#[trigger] store.timelines@[i]).publisher@ == address]
}

/// The timeline at a known index is the timeline of its publisher.
pub proof fn lemma_timeline_of_at(store: ChannelStore, at: int)
    requires
        store.wf(),
        0 <= at < store.timelines@.len(),
    ensures
        spec_timeline_of(store, store.timelines@[at].publisher@) == store.timelines@[at],
{
    let address = store.timelines@[at].publisher@;
    assert(store.spec_has_timeline(address)) by {
        assert(store.timelines@[at].publisher@ == address);
    }
    let i = choose|i: int|
        0 <= i < store.timelines@.len() && (#[trigger] store.timelines@[i]).publisher@ == address;
    if i != at {
        assert(false);
    }
}

/// Whether the store buffers some raw event with the given id, on the
/// channel or on any timeline.
pub open spec fn spec_has_buffered(store: ChannelStore, id: u64) -> bool {
    (exists|i: int| 0 <= i < store.events@.len() && (#[trigger] store.events@[i]).id == id) || (
    exists|k: int, i: int|
        0 <= k < store.timelines@.len() && 0 <= i < store.timelines@[k].events@.len() && (
        #[trigger] store.timelines@[k].events@[i]).id == id)
}

impl Timeline {
    /// Applies a publisher-profile update: checks that the carried hash is
    /// the hash of the encoded profile and that the signature over it
    /// verifies under this publisher's key, then stores the profile if its
    /// revision is higher than the stored one's. An equal or lower
    /// revision is a valid no-op.
    pub fn apply_update_profile(&mut self, message: &Vec<u8>, pos: usize) -> (r: Result<
        (),
        Error,
    >)
        requires
            old(self).wf(),
            pos <= message@.len(),
        ensures
            final(self).wf(),
            final(self).publisher == old(self).publisher,
            final(self).entries == old(self).entries,
            final(self).posts == old(self).posts,
            final(self).contents == old(self).contents,
            final(self).blocks == old(self).blocks,
            final(self).events == old(self).events,
            r is Ok <==> spec_apply_update_profile_ok(old(self).publisher@, message@, pos as int),
            match r {
                Ok(()) => crate::message::spec_dec_update_profile(
                    message@.skip(pos as int),
                ) matches Some((m, c)) && spec_profile_updated(
                    old(self).profile,
                    final(self).profile,
                    m.profile,
                ),
                Err(e) => final(self).profile == old(self).profile && (e matches
                    Error::MessageMalformed(_)) && (e matches Error::MessageMalformed(
                    MessageMalformedError::InvalidHash(_),
                ) <==> (crate::message::spec_dec_update_profile(message@.skip(pos as int))
                    matches Some((m, c)) && m.hash != crypto::hash_of(
                    crate::message::spec_enc_profile(m.profile),
                ))) && (e matches Error::MessageMalformed(
                    MessageMalformedError::InvalidSignature(_),
                ) <==> (crate::message::spec_dec_update_profile(message@.skip(pos as int))
                    matches Some((m, c)) && m.hash == crypto::hash_of(
                    crate::message::spec_enc_profile(m.profile),
                ) && !crypto::sig_ok(m.signature, m.hash, old(self).publisher@))),
            },
    {
        let msg = match crate::message::dec_update_profile(message, pos) {
            Ok((m, _end)) => m,
            Err(e) => {
                return Err(Error::MessageMalformed(e));
            },
        };
        let mut enc: Vec<u8> = Vec::new();
        crate::message::enc_profile(&mut enc, &msg.profile);
        proof {
            assert(enc@ =~= crate::message::spec_enc_profile(msg.profile@));
        }
        let hash = HashCode::generate(&enc);
        if !hash.equals(&msg.hash) {
            return Err(
                Error::MessageMalformed(
                    MessageMalformedError::InvalidHash("publisher profile update".to_owned()),
                ),
            );
        }
        if !msg.signature.verify_hash(&msg.hash, &self.publisher) {
            return Err(
                Error::MessageMalformed(
                    MessageMalformedError::InvalidSignature("publisher profile update".to_owned()),
                ),
            );
        }
        let newer = match self.fetch_profile() {
            None => true,
            Some(cur) => msg.profile.revision > cur.revision,
        };
        if newer {
            self.store_profile(msg.profile);
        }
        Ok(())
    }

    /// Applies a post publication: the payload carries the post's content
    /// hash and the publisher's signature over it; the post is announced
    /// under the next post id.
    pub fn apply_publish_post(&mut self, message: &Vec<u8>, pos: usize) -> (r: Result<(), Error>)
        requires
            old(self).wf(),
            pos <= message@.len(),
        ensures
            final(self).wf(),
            final(self).publisher == old(self).publisher,
            final(self).profile == old(self).profile,
            final(self).posts == old(self).posts,
            final(self).contents == old(self).contents,
            final(self).blocks == old(self).blocks,
            final(self).events == old(self).events,
            r is Ok <==> spec_apply_publish_post_ok(
                old(self).publisher@,
                old(self).entries@.len(),
                message@,
                pos as int,
            ),
            match r {
                Ok(()) => crate::event::spec_dec_publish_post(message@.skip(pos as int)) matches
                    Some((hash, c)) && (crypto::spec_dec_sig(message@.skip(pos + c)) matches Some(
                    (sig, c2),
                ) && final(self).entries@.len() == old(self).entries@.len() + 1 && final(self).entries@.subrange(0, old(self).entries@.len() as int) == old(self).entries@
                    && final(self).entries@[old(self).entries@.len() as int].post_id == old(self).entries@.len() && final(self).entries@[old(self).entries@.len() as int].hash@
                    == hash && final(self).entries@[old(self).entries@.len() as int].signature@
                    == sig),
                Err(e) => final(self).entries == old(self).entries && (e matches
                    Error::MessageMalformed(_)),
            },
    {
        let (data, p1) = match crate::event::dec_publish_post(message, pos) {
            Ok(x) => x,
            Err(e) => {
                return Err(Error::MessageMalformed(e));
            },
        };
        let (signature, _p2) = match crypto::dec_sig(message, p1, "published post signature") {
            Ok(x) => x,
            Err(e) => {
                return Err(Error::MessageMalformed(e));
            },
        };
        if !signature.verify_hash(&data.hash, &self.publisher) {
            return Err(
                Error::MessageMalformed(
                    MessageMalformedError::InvalidSignature("published post".to_owned()),
                ),
            );
        }
        if self.entries.len() as u64 >= u64::MAX {
            return Err(
                Error::MessageMalformed(
                    MessageMalformedError::DeserializationIssue(
                        "the timeline cannot announce another post".to_owned(),
                    ),
                ),
            );
        }
        self.append_entry(data.hash, signature);
        Ok(())
    }

    /// Applies a post revision: the payload carries the revised post's id
    /// and new content hash, and the publisher's signature over that hash.
    pub fn apply_revise_post(&mut self, message: &Vec<u8>, pos: usize) -> (r: Result<(), Error>)
        requires
            old(self).wf(),
            pos <= message@.len(),
        ensures
            final(self).wf(),
            final(self).publisher == old(self).publisher,
            final(self).profile == old(self).profile,
            final(self).posts == old(self).posts,
            final(self).contents == old(self).contents,
            final(self).blocks == old(self).blocks,
            final(self).events == old(self).events,
            r is Ok <==> spec_apply_revise_post_ok(
                old(self).publisher@,
                old(self).entries@.len(),
                message@,
                pos as int,
            ),
            match r {
                Ok(()) => crate::event::spec_dec_revise_post(message@.skip(pos as int)) matches
                    Some((d, c)) && (crypto::spec_dec_sig(message@.skip(pos + c)) matches Some(
                    (sig, c2),
                ) && final(self).entries@.len() == old(self).entries@.len() && final(self).entries@[d.old_post_id as int].hash@ == d.new_hash && final(self).entries@[d.old_post_id as int].signature@ == sig && (forall|k: int|
                    0 <= k < old(self).entries@.len() && k != d.old_post_id ==> final(self).entries@[k] == old(self).entries@[k])),
                Err(e) => final(self).entries == old(self).entries && (e matches
                    Error::MessageMalformed(_)),
            },
    {
        let (data, p1) = match crate::event::dec_revise_post(message, pos) {
            Ok(x) => x,
            Err(e) => {
                return Err(Error::MessageMalformed(e));
            },
        };
        let (signature, _p2) = match crypto::dec_sig(message, p1, "revised post signature") {
            Ok(x) => x,
            Err(e) => {
                return Err(Error::MessageMalformed(e));
            },
        };
        if !signature.verify_hash(&data.new_hash, &self.publisher) {
            return Err(
                Error::MessageMalformed(
                    MessageMalformedError::InvalidSignature("revised post".to_owned()),
                ),
            );
        }
        let ghost pre = self.entries@;
        match self.revise_entry(data.old_post_id, data.new_hash, signature) {
            Ok(()) => {
                proof {
                    assert forall|k: int|
                        0 <= k < pre.len() && k != data.old_post_id implies (
                    #[trigger] self.entries@[k]) == pre[k] by {}
                }
                Ok(())
            },
            Err(e) => Err(Error::MessageMalformed(e)),
        }
    }

    /// Applies a request to forget a post: the payload carries the post
    /// id. This node complies by dropping the post's locally stored body
    /// text; the announcement and metadata stay, and the event is
    /// rebroadcast whether or not a node complies.
    pub fn apply_forget_post(&mut self, message: &Vec<u8>, pos: usize) -> (r: Result<(), Error>)
        requires
            old(self).wf(),
            pos <= message@.len(),
        ensures
            final(self).wf(),
            final(self).publisher == old(self).publisher,
            final(self).profile == old(self).profile,
            final(self).entries == old(self).entries,
            final(self).posts == old(self).posts,
            final(self).blocks == old(self).blocks,
            final(self).events == old(self).events,
            r is Ok <==> spec_apply_forget_post_ok(message@, pos as int),
            match r {
                Ok(()) => codec::spec_dec_u64(message@.skip(pos as int)) matches Some((id, c))
                    && spec_content_of(final(self).contents@, id) is None && (forall|other: u64|
                    other != id ==> #[trigger] spec_content_of(final(self).contents@, other)
                        == spec_content_of(old(self).contents@, other)),
                Err(e) => final(self).contents == old(self).contents && (e matches
                    Error::MessageMalformed(MessageMalformedError::MissingData(_))),
            },
    {
        let (post_id, _p1) = match codec::dec_u64(message, pos, "forgotten post id") {
            Ok(x) => x,
            Err(e) => {
                return Err(Error::MessageMalformed(e));
            },
        };
        self.forget_content(post_id);
        Ok(())
    }
}

impl ChannelStore {
    /// Buffers a raw publisher event on the timeline at `at`.
    pub fn store_timeline_event(&mut self, at: usize, id: u64, payload: Vec<u8>)
        requires
            old(self).wf(),
            at < old(self).timelines@.len(),
        ensures
            final(self).wf(),
            final(self).address == old(self).address,
            final(self).profile == old(self).profile,
            final(self).events == old(self).events,
            final(self).timelines@.len() == old(self).timelines@.len(),
            forall|k: int|
                0 <= k < old(self).timelines@.len() && k != at ==> final(self).timelines@[k]
                    == old(self).timelines@[k],
            final(self).timelines@[at as int].publisher == old(self).timelines@[at as int].publisher,
            final(self).timelines@[at as int].profile == old(self).timelines@[at as int].profile,
            final(self).timelines@[at as int].entries == old(self).timelines@[at as int].entries,
            final(self).timelines@[at as int].posts == old(self).timelines@[at as int].posts,
            final(self).timelines@[at as int].contents == old(self).timelines@[at as int].contents,
            final(self).timelines@[at as int].blocks == old(self).timelines@[at as int].blocks,
            final(self).timelines@[at as int].events@ == old(self).timelines@[at as int].events@.push(StoredEvent { id, payload }),
    {
        let ghost pool0 = self.timelines@;
        let mut t = self.take_timeline(at);
        proof {
            assert forall|k: int|
                0 <= k < self.timelines@.len() implies (#[trigger] self.timelines@[k]).publisher@
                != t.publisher@ by {
                if k < at {
                    assert(self.timelines@[k] == pool0[k]);
                } else {
                    assert(self.timelines@[k] == pool0[k + 1]);
                }
            }
        }
        t.store_event(id, payload);
        self.put_timeline(at, t);
        proof {
            assert forall|k: int|
                0 <= k < pool0.len() && k != at implies (#[trigger] self.timelines@[k]) == pool0[k]
                by {
                if k < at {
                    assert(self.timelines@[k] == pool0.remove(at as int)[k]);
                } else {
                    assert(self.timelines@[k] == pool0.remove(at as int)[k - 1]);
                }
            }
        }
    }
}

} // verus!

// ---------------------------------------------------------------------------
// Frame lemmas for the body-text store
// ---------------------------------------------------------------------------

verus! {

/// Removing one body leaves every other post's body as it was.
proof fn lemma_content_after_remove(pre: Seq<PostContent>, at: int, other: u64)
    requires
        0 <= at < pre.len(),
        forall|i: int, j: int|
            0 <= i < j < pre.len() ==> (#[trigger] pre[i]).post_id != (#[trigger] pre[j]).post_id,
        pre[at].post_id != other,
    ensures
        spec_content_of(pre.remove(at), other) == spec_content_of(pre, other),
{
    let post = pre.remove(at);
    if exists|j: int| 0 <= j < post.len() && (#[trigger] post[j]).post_id == other {
        let j = choose|j: int| 0 <= j < post.len() && (#[trigger] post[j]).post_id == other;
        if j < at {
            assert(post[j] == pre[j]);
        } else {
            assert(post[j] == pre[j + 1]);
        }
        let j2 = choose|j2: int| 0 <= j2 < pre.len() && (#[trigger] pre[j2]).post_id == other;
        if j2 < at {
            assert(post[j2] == pre[j2]);
        } else if j2 > at {
            assert(post[j2 - 1] == pre[j2]);
        }
    } else {
        if exists|j2: int| 0 <= j2 < pre.len() && (#[trigger] pre[j2]).post_id == other {
            let j2 = choose|j2: int| 0 <= j2 < pre.len() && (#[trigger] pre[j2]).post_id == other;
            if j2 < at {
                assert(post[j2] == pre[j2]);
            } else if j2 > at {
                assert(post[j2 - 1] == pre[j2]);
            }
        }
    }
}

/// Appending one body leaves every other post's body as it was.
proof fn lemma_content_after_push(pre: Seq<PostContent>, entry: PostContent, other: u64)
    requires
        forall|i: int, j: int|
            0 <= i < j < pre.len() ==> (#[trigger] pre[i]).post_id != (#[trigger] pre[j]).post_id,
        entry.post_id != other,
    ensures
        spec_content_of(pre.push(entry), other) == spec_content_of(pre, other),
{
    let post = pre.push(entry);
    if exists|j: int| 0 <= j < post.len() && (#[trigger] post[j]).post_id == other {
        let j = choose|j: int| 0 <= j < post.len() && (#[trigger] post[j]).post_id == other;
        assert(j < pre.len());
        assert(post[j] == pre[j]);
        let j2 = choose|j2: int| 0 <= j2 < pre.len() && (#[trigger] pre[j2]).post_id == other;
        assert(post[j2] == pre[j2]);
    } else {
        if exists|j2: int| 0 <= j2 < pre.len() && (#[trigger] pre[j2]).post_id == other {
            let j2 = choose|j2: int| 0 <= j2 < pre.len() && (#[trigger] pre[j2]).post_id == other;
            assert(post[j2] == pre[j2]);
        }
    }
}

} // verus!
