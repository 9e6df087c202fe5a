//! The network messages: wire enums, profiles and the signed event
//! envelopes.
//!
//! Every structure here has a specification-level encoding and decoding over
//! its view, executable encoders and decoders proved against them, and a
//! round-trip lemma. A profile is length-prefixed: the revision, a short
//! title, a description of up to 65535 bytes and an optional
//! profile-picture hash; a channel profile adds an optional stylesheet
//! hash. Event envelopes carry a hash of their payload and a signature over
//! that hash.

use vstd::prelude::*;

use crate::codec;
use crate::crypto;
use crate::crypto::{HashCode, PublicKey, Signature};
use crate::error::MessageMalformedError;

verus! {

/// The longest description, in bytes, that a profile is meant to carry.
pub const PROFILE_DESCRIPTION_MAX_LEN: u16 = 1024;

// ---------------------------------------------------------------------------
// Byte enums
// ---------------------------------------------------------------------------

/// The leading byte of every frame: which way the message flows.
#[derive(Clone, Copy, Debug, PartialEq, Eq, Structural)]
pub enum MessageDirectionType {
    /// An event that needs to be redistributed.
    Event,
    Request,
    Response,
}

impl MessageDirectionType {
    pub open spec fn spec_byte(self) -> u8 {
        match self {
            MessageDirectionType::Event => 0,
            MessageDirectionType::Request => 1,
            MessageDirectionType::Response => 2,
        }
    }

    pub open spec fn spec_from_byte(b: u8) -> Option<MessageDirectionType> {
        if b == 0 {
            Some(MessageDirectionType::Event)
        } else if b == 1 {
            Some(MessageDirectionType::Request)
        } else if b == 2 {
            Some(MessageDirectionType::Response)
        } else {
            None
        }
    }

    pub fn to_byte(self) -> (r: u8)
        ensures
            r == self.spec_byte(),
    {
        match self {
            MessageDirectionType::Event => 0,
            MessageDirectionType::Request => 1,
            MessageDirectionType::Response => 2,
        }
    }

    pub fn try_from_byte(b: u8) -> (r: Option<MessageDirectionType>)
        ensures
            r == MessageDirectionType::spec_from_byte(b),
    {
        if b == 0 {
            Some(MessageDirectionType::Event)
        } else if b == 1 {
            Some(MessageDirectionType::Request)
        } else if b == 2 {
            Some(MessageDirectionType::Response)
        } else {
            None
        }
    }
}

/// What an inbound request asks for.
#[derive(Clone, Copy, Debug, PartialEq, Eq, Structural)]
pub enum RequestType {
    /// Requests the meta data or content of a run of posts.
    Posts,
    /// Requests a number of files.
    Files,
    /// Requests blocks of a file.
    Blocks,
}

impl RequestType {
    pub open spec fn spec_byte(self) -> u8 {
        match self {
            RequestType::Posts => 0,
            RequestType::Files => 1,
            RequestType::Blocks => 2,
        }
    }

    pub open spec fn spec_from_byte(b: u8) -> Option<RequestType> {
        if b == 0 {
            Some(RequestType::Posts)
        } else if b == 1 {
            Some(RequestType::Files)
        } else if b == 2 {
            Some(RequestType::Blocks)
        } else {
            None
        }
    }

    pub fn to_byte(self) -> (r: u8)
        ensures
            r == self.spec_byte(),
    {
        match self {
            RequestType::Posts => 0,
            RequestType::Files => 1,
            RequestType::Blocks => 2,
        }
    }

    pub fn try_from_byte(b: u8) -> (r: Option<RequestType>)
        ensures
            r == RequestType::spec_from_byte(b),
    {
        if b == 0 {
            Some(RequestType::Posts)
        } else if b == 1 {
            Some(RequestType::Files)
        } else if b == 2 {
            Some(RequestType::Blocks)
        } else {
            None
        }
    }
}

/// How a response ended.
#[derive(Clone, Copy, Debug, PartialEq, Eq, Structural)]
pub enum ResponseResultType {
    Success,
    InternalError,
}

impl ResponseResultType {
    pub open spec fn spec_byte(self) -> u8 {
        match self {
            ResponseResultType::Success => 0,
            ResponseResultType::InternalError => 1,
        }
    }

    pub open spec fn spec_from_byte(b: u8) -> Option<ResponseResultType> {
        if b == 0 {
            Some(ResponseResultType::Success)
        } else if b == 1 {
            Some(ResponseResultType::InternalError)
        } else {
            None
        }
    }

    pub fn to_byte(self) -> (r: u8)
        ensures
            r == self.spec_byte(),
    {
        match self {
            ResponseResultType::Success => 0,
            ResponseResultType::InternalError => 1,
        }
    }

    pub fn try_from_byte(b: u8) -> (r: Option<ResponseResultType>)
        ensures
            r == ResponseResultType::spec_from_byte(b),
    {
        if b == 0 {
            Some(ResponseResultType::Success)
        } else if b == 1 {
            Some(ResponseResultType::InternalError)
        } else {
            None
        }
    }
}

// ---------------------------------------------------------------------------
// Lists of public keys
// ---------------------------------------------------------------------------

/// The views of a run of public keys.
pub open spec fn spec_keys_view(v: Seq<PublicKey>) -> Seq<Seq<u8>> {
    Seq::new(v.len(), |i: int| v[i]@)
}

/// Whether every key of a run has its full wire width.
pub open spec fn wf_keys(ks: Seq<Seq<u8>>) -> bool {
    forall|i: int| 0 <= i < ks.len() ==> (#[trigger] ks[i]).len() == crypto::PUBLIC_KEY_LENGTH
}

/// A run of keys, back to back.
pub open spec fn spec_enc_key_run(ks: Seq<Seq<u8>>) -> Seq<u8>
    decreases ks.len(),
{
    if ks.len() == 0 {
        Seq::empty()
    } else {
        ks[0] + spec_enc_key_run(ks.drop_first())
    }
}

/// A key list: a little-endian count, then the keys back to back.
pub open spec fn spec_enc_key_list(ks: Seq<Seq<u8>>) -> Seq<u8>
    recommends
        ks.len() <= u32::MAX,
{
    codec::spec_enc_u32(ks.len() as u32) + spec_enc_key_run(ks)
}

pub open spec fn spec_dec_key_run(s: Seq<u8>, n: nat) -> Option<(Seq<Seq<u8>>, int)>
    decreases n,
{
    if n == 0 {
        Some((Seq::empty(), 0int))
    } else {
        match crypto::spec_dec_key(s) {
            None => None,
            Some((k, c)) => match spec_dec_key_run(s.skip(c), (n - 1) as nat) {
                None => None,
                Some((ks, c2)) => Some((seq![k] + ks, c + c2)),
            },
        }
    }
}

pub open spec fn spec_dec_key_list(s: Seq<u8>) -> Option<(Seq<Seq<u8>>, int)> {
    match codec::spec_dec_u32(s) {
        None => None,
        Some((n, c0)) => match spec_dec_key_run(s.skip(c0), n as nat) {
            None => None,
            Some((ks, c)) => Some((ks, c0 + c)),
        },
    }
}

/// Appending one key to a run extends its encoding by that key.
pub proof fn lemma_enc_key_run_push(ks: Seq<Seq<u8>>, k: Seq<u8>)
    ensures
        spec_enc_key_run(ks + seq![k]) == spec_enc_key_run(ks) + k,
    decreases ks.len(),
{
    if ks.len() == 0 {
        assert(ks + seq![k] =~= seq![k]);
        assert(seq![k].drop_first() =~= Seq::<Seq<u8>>::empty());
        assert(spec_enc_key_run(Seq::<Seq<u8>>::empty()) =~= Seq::<u8>::empty());
        assert(spec_enc_key_run(ks + seq![k]) == k + Seq::<u8>::empty());
        assert(k + Seq::<u8>::empty() =~= k);
        assert(spec_enc_key_run(ks) + k =~= k);
    } else {
        assert((ks + seq![k])[0] == ks[0]);
        assert((ks + seq![k]).drop_first() =~= ks.drop_first() + seq![k]);
        lemma_enc_key_run_push(ks.drop_first(), k);
        assert(spec_enc_key_run(ks + seq![k]) == ks[0] + (spec_enc_key_run(ks.drop_first()) + k));
        assert(ks[0] + (spec_enc_key_run(ks.drop_first()) + k) =~= (ks[0] + spec_enc_key_run(
            ks.drop_first(),
        )) + k);
    }
}

pub proof fn lemma_dec_enc_key_run(ks: Seq<Seq<u8>>, rest: Seq<u8>)
    requires
        wf_keys(ks),
    ensures
        spec_dec_key_run(spec_enc_key_run(ks) + rest, ks.len()) == Some(
            (ks, spec_enc_key_run(ks).len() as int),
        ),
    decreases ks.len(),
{
    if ks.len() == 0 {
        assert(spec_enc_key_run(ks) + rest =~= rest);
        assert(ks =~= Seq::<Seq<u8>>::empty());
    } else {
        let s = spec_enc_key_run(ks) + rest;
        let k = ks[0];
        assert(s =~= k + (spec_enc_key_run(ks.drop_first()) + rest));
        crypto::lemma_dec_enc_key(k, spec_enc_key_run(ks.drop_first()) + rest);
        assert(s.skip(crypto::PUBLIC_KEY_LENGTH as int) =~= spec_enc_key_run(ks.drop_first())
            + rest);
        lemma_dec_enc_key_run(ks.drop_first(), rest);
        assert(seq![k] + ks.drop_first() =~= ks);
    }
}

pub proof fn lemma_dec_enc_key_list(ks: Seq<Seq<u8>>, rest: Seq<u8>)
    requires
        wf_keys(ks),
        ks.len() <= u32::MAX,
    ensures
        spec_dec_key_list(spec_enc_key_list(ks) + rest) == Some(
            (ks, spec_enc_key_list(ks).len() as int),
        ),
{
    let s = spec_enc_key_list(ks) + rest;
    codec::lemma_dec_enc_u32(ks.len() as u32, spec_enc_key_run(ks) + rest);
    assert(codec::spec_enc_u32(ks.len() as u32) + (spec_enc_key_run(ks) + rest) =~= s);
    assert(s.skip(4) =~= spec_enc_key_run(ks) + rest);
    lemma_dec_enc_key_run(ks, rest);
}

/// Appends a key list: a little-endian count, then the keys.
pub fn enc_key_list(out: &mut Vec<u8>, keys: &Vec<PublicKey>)
    requires
        wf_keys(spec_keys_view(keys@)),
        keys@.len() <= u32::MAX,
    ensures
        final(out)@ == old(out)@ + spec_enc_key_list(spec_keys_view(keys@)),
{
    let n = keys.len();
    codec::enc_u32(out, n as u32);
    let mut i: usize = 0;
    while i < n
        invariant
            i <= n,
            n == keys@.len() <= u32::MAX,
            wf_keys(spec_keys_view(keys@)),
            out@ == old(out)@ + codec::spec_enc_u32(n as u32) + spec_enc_key_run(
                spec_keys_view(keys@).subrange(0, i as int),
            ),
        decreases n - i,
    {
        assert(spec_keys_view(keys@)[i as int].len() == crypto::PUBLIC_KEY_LENGTH);
        crypto::enc_key(out, &keys[i]);
        proof {
            let kv = spec_keys_view(keys@);
            lemma_enc_key_run_push(kv.subrange(0, i as int), kv[i as int]);
            assert(kv.subrange(0, i as int) + seq![kv[i as int]] =~= kv.subrange(0, i + 1));
        }
        i = i + 1;
    }
    proof {
        assert(spec_keys_view(keys@).subrange(0, n as int) =~= spec_keys_view(keys@));
    }
}

/// Reads a key list.
pub fn dec_key_list(buf: &Vec<u8>, pos: usize, what: &str) -> (r: Result<
    (Vec<PublicKey>, usize),
    MessageMalformedError,
>)
    requires
        pos <= buf@.len(),
    ensures
        match r {
            Ok((keys, end)) => pos <= end <= buf@.len() && wf_keys(spec_keys_view(keys@))
                && keys@.len() <= u32::MAX && spec_dec_key_list(buf@.skip(pos as int)) == Some(
                (spec_keys_view(keys@), end - pos),
            ),
            Err(e) => spec_dec_key_list(buf@.skip(pos as int)) is None && e matches
                MessageMalformedError::MissingData(_),
        },
{
    let (n, start) = codec::dec_u32(buf, pos, what)?;
    proof {
        assert(buf@.skip(pos as int).skip(start - pos) =~= buf@.skip(start as int));
    }
    let mut keys: Vec<PublicKey> = Vec::new();
    let mut p = start;
    let mut i: u32 = 0;
    while i < n
        invariant
            i <= n,
            pos <= start <= p <= buf@.len(),
            keys@.len() == i,
            wf_keys(spec_keys_view(keys@)),
            codec::spec_dec_u32(buf@.skip(pos as int)) == Some((n, (start - pos) as int)),
            spec_dec_key_run(buf@.skip(start as int), n as nat) == (match spec_dec_key_run(
                buf@.skip(p as int),
                (n - i) as nat,
            ) {
                None => None::<(Seq<Seq<u8>>, int)>,
                Some((ks, c)) => Some((spec_keys_view(keys@) + ks, (p - start) + c)),
            }),
        decreases n - i,
    {
        let ghost p_old = p as int;
        let ghost keys_old = keys@;
        let k = match crypto::dec_key(buf, p, what) {
            Ok(kp) => kp,
            Err(e) => {
                proof {
                    assert(spec_dec_key_run(buf@.skip(p as int), (n - i) as nat) is None);
                    assert(buf@.skip(pos as int).skip(start - pos) =~= buf@.skip(start as int));
                }
                return Err(e);
            },
        };
        proof {
            assert(buf@.skip(p_old).skip(crypto::PUBLIC_KEY_LENGTH as int) =~= buf@.skip(
                p_old + crypto::PUBLIC_KEY_LENGTH,
            ));
        }
        p = k.1;
        keys.push(k.0);
        proof {
            assert(spec_keys_view(keys@) =~= spec_keys_view(keys_old) + seq![keys@[i as int]@]);
            assert(forall|ks: Seq<Seq<u8>>|
                spec_keys_view(keys_old) + (seq![keys@[i as int]@] + ks) =~= (spec_keys_view(
                    keys_old,
                ) + seq![keys@[i as int]@]) + ks);
        }
        i = i + 1;
    }
    proof {
        assert(spec_dec_key_run(buf@.skip(p as int), 0) == Some((Seq::<Seq<u8>>::empty(), 0int)));
        assert(spec_keys_view(keys@) + Seq::<Seq<u8>>::empty() =~= spec_keys_view(keys@));
        assert(buf@.skip(pos as int).skip(start - pos) =~= buf@.skip(start as int));
    }
    Ok((keys, p))
}

} // verus!

// ---------------------------------------------------------------------------
// Profiles
// ---------------------------------------------------------------------------

verus! {

/// The view of a profile: what its fields hold, as mathematical values.
pub struct ProfileV {
    pub revision: u64,
    pub title: Seq<char>,
    pub description: Seq<char>,
    pub profile_picture: Option<Seq<u8>>,
}

impl ProfileV {
    pub open spec fn wf(self) -> bool {
        codec::fits_str8(self.title) && codec::fits_str16(self.description)
            && (self.profile_picture matches Some(h) ==> h.len() == crypto::HASH_LENGTH)
    }
}

/// The profile of a channel or of a publisher: a revision, a title, a
/// description and an optional profile-picture hash.
#[derive(Debug, PartialEq, Eq)]
pub struct Profile {
    pub revision: u64,
    pub title: String,
    pub description: String,
    pub profile_picture: Option<HashCode>,
}

impl View for Profile {
    type V = ProfileV;

    open spec fn view(&self) -> ProfileV {
        ProfileV {
            revision: self.revision,
            title: self.title@,
            description: self.description@,
            profile_picture: crypto::spec_opt_hash_view(&self.profile_picture),
        }
    }
}

impl Clone for Profile {
    fn clone(&self) -> (r: Self)
        ensures
            r@ == self@,
    {
        Profile {
            revision: self.revision,
            title: self.title.as_str().to_owned(),
            description: self.description.as_str().to_owned(),
            profile_picture: match &self.profile_picture {
                None => None,
                Some(h) => Some(h.clone()),
            },
        }
    }
}

pub open spec fn spec_enc_profile(p: ProfileV) -> Seq<u8>
    recommends
        p.wf(),
{
    codec::spec_enc_u64(p.revision) + codec::spec_enc_str8(p.title) + codec::spec_enc_str16(
        p.description,
    ) + crypto::spec_enc_opt_hash(p.profile_picture)
}

pub open spec fn spec_dec_profile(s: Seq<u8>) -> Option<(ProfileV, int)> {
    match codec::spec_dec_u64(s) {
        None => None,
        Some((revision, c0)) => match codec::spec_dec_str8(s.skip(c0)) {
            None => None,
            Some((title, c1)) => match codec::spec_dec_str16(s.skip(c0 + c1)) {
                None => None,
                Some((description, c2)) => match crypto::spec_dec_opt_hash(
                    s.skip(c0 + c1 + c2),
                ) {
                    None => None,
                    Some((pic, c3)) => Some(
                        (
                            ProfileV {
                                revision,
                                title,
                                description,
                                profile_picture: pic,
                            },
                            c0 + c1 + c2 + c3,
                        ),
                    ),
                },
            },
        },
    }
}

pub proof fn lemma_dec_enc_profile(p: ProfileV, rest: Seq<u8>)
    requires
        p.wf(),
    ensures
        spec_dec_profile(spec_enc_profile(p) + rest) == Some(
            (p, spec_enc_profile(p).len() as int),
        ),
{
    let e1 = codec::spec_enc_str8(p.title);
    let e2 = codec::spec_enc_str16(p.description);
    let e3 = crypto::spec_enc_opt_hash(p.profile_picture);
    let s = spec_enc_profile(p) + rest;
    assert(s =~= codec::spec_enc_u64(p.revision) + (e1 + (e2 + (e3 + rest))));
    codec::lemma_dec_enc_u64(p.revision, e1 + (e2 + (e3 + rest)));
    assert(s.skip(8) =~= e1 + (e2 + (e3 + rest)));
    codec::lemma_dec_enc_str8(p.title, e2 + (e3 + rest));
    assert(s.skip(8 + e1.len() as int) =~= e2 + (e3 + rest));
    codec::lemma_dec_enc_str16(p.description, e3 + rest);
    assert(s.skip(8 + e1.len() as int + e2.len() as int) =~= e3 + rest);
    crypto::lemma_dec_enc_opt_hash(p.profile_picture, rest);
}

/// Appends a profile: revision, title, description, optional picture hash.
pub fn enc_profile(out: &mut Vec<u8>, p: &Profile)
    requires
        p@.wf(),
    ensures
        final(out)@ == old(out)@ + spec_enc_profile(p@),
{
    codec::enc_u64(out, p.revision);
    codec::enc_str8(out, p.title.as_str());
    codec::enc_str16(out, p.description.as_str());
    crypto::enc_opt_hash(out, &p.profile_picture);
    assert(out@ =~= old(out)@ + spec_enc_profile(p@));
}

/// Reads a profile.
pub fn dec_profile(buf: &Vec<u8>, pos: usize) -> (r: Result<
    (Profile, usize),
    MessageMalformedError,
>)
    requires
        pos <= buf@.len(),
    ensures
        match r {
            Ok((p, end)) => pos <= end <= buf@.len() && p@.wf() && spec_dec_profile(
                buf@.skip(pos as int),
            ) == Some((p@, end - pos)),
            Err(e) => spec_dec_profile(buf@.skip(pos as int)) is None && (e matches
                MessageMalformedError::MissingData(_) || e matches
                MessageMalformedError::InvalidUtf8(_) || e matches
                MessageMalformedError::InvalidBoolean(_, _)),
        },
{
    let (revision, p1) = codec::dec_u64(buf, pos, "profile revision")?;
    proof {
        assert(buf@.skip(pos as int).skip(p1 - pos) =~= buf@.skip(p1 as int));
    }
    let (title, p2) = codec::dec_str8(buf, p1, "profile title")?;
    proof {
        assert(buf@.skip(pos as int).skip(p2 - pos) =~= buf@.skip(p2 as int));
    }
    let (description, p3) = codec::dec_str16(buf, p2, "profile description")?;
    proof {
        assert(buf@.skip(pos as int).skip(p3 - pos) =~= buf@.skip(p3 as int));
    }
    let (profile_picture, end) = crypto::dec_opt_hash(buf, p3, "profile picture hash")?;
    Ok((Profile { revision, title, description, profile_picture }, end))
}

/// The view of a channel profile.
pub struct ChannelProfileV {
    pub base: ProfileV,
    pub stylesheet: Option<Seq<u8>>,
}

impl ChannelProfileV {
    pub open spec fn wf(self) -> bool {
        self.base.wf() && (self.stylesheet matches Some(h) ==> h.len() == crypto::HASH_LENGTH)
    }
}

/// The profile of a channel: a profile, and an optional stylesheet hash.
#[derive(Debug, PartialEq, Eq)]
pub struct ChannelProfile {
    pub base: Profile,
    pub stylesheet: Option<HashCode>,
}

impl View for ChannelProfile {
    type V = ChannelProfileV;

    open spec fn view(&self) -> ChannelProfileV {
        ChannelProfileV {
            base: self.base@,
            stylesheet: crypto::spec_opt_hash_view(&self.stylesheet),
        }
    }
}

impl Clone for ChannelProfile {
    fn clone(&self) -> (r: Self)
        ensures
            r@ == self@,
    {
        ChannelProfile {
            base: self.base.clone(),
            stylesheet: match &self.stylesheet {
                None => None,
                Some(h) => Some(h.clone()),
            },
        }
    }
}

pub open spec fn spec_enc_channel_profile(p: ChannelProfileV) -> Seq<u8>
    recommends
        p.wf(),
{
    spec_enc_profile(p.base) + crypto::spec_enc_opt_hash(p.stylesheet)
}

pub open spec fn spec_dec_channel_profile(s: Seq<u8>) -> Option<(ChannelProfileV, int)> {
    match spec_dec_profile(s) {
        None => None,
        Some((base, c0)) => match crypto::spec_dec_opt_hash(s.skip(c0)) {
            None => None,
            Some((stylesheet, c1)) => Some((ChannelProfileV { base, stylesheet }, c0 + c1)),
        },
    }
}

pub proof fn lemma_dec_enc_channel_profile(p: ChannelProfileV, rest: Seq<u8>)
    requires
        p.wf(),
    ensures
        spec_dec_channel_profile(spec_enc_channel_profile(p) + rest) == Some(
            (p, spec_enc_channel_profile(p).len() as int),
        ),
{
    let e0 = spec_enc_profile(p.base);
    let e1 = crypto::spec_enc_opt_hash(p.stylesheet);
    let s = spec_enc_channel_profile(p) + rest;
    assert(s =~= e0 + (e1 + rest));
    lemma_dec_enc_profile(p.base, e1 + rest);
    assert(s.skip(e0.len() as int) =~= e1 + rest);
    crypto::lemma_dec_enc_opt_hash(p.stylesheet, rest);
}

/// Appends a channel profile.
pub fn enc_channel_profile(out: &mut Vec<u8>, p: &ChannelProfile)
    requires
        p@.wf(),
    ensures
        final(out)@ == old(out)@ + spec_enc_channel_profile(p@),
{
    enc_profile(out, &p.base);
    crypto::enc_opt_hash(out, &p.stylesheet);
    assert(out@ =~= old(out)@ + spec_enc_channel_profile(p@));
}

/// Reads a channel profile.
pub fn dec_channel_profile(buf: &Vec<u8>, pos: usize) -> (r: Result<
    (ChannelProfile, usize),
    MessageMalformedError,
>)
    requires
        pos <= buf@.len(),
    ensures
        match r {
            Ok((p, end)) => pos <= end <= buf@.len() && p@.wf() && spec_dec_channel_profile(
                buf@.skip(pos as int),
            ) == Some((p@, end - pos)),
            Err(e) => spec_dec_channel_profile(buf@.skip(pos as int)) is None && (e matches
                MessageMalformedError::MissingData(_) || e matches
                MessageMalformedError::InvalidUtf8(_) || e matches
                MessageMalformedError::InvalidBoolean(_, _)),
        },
{
    let (base, p1) = dec_profile(buf, pos)?;
    proof {
        assert(buf@.skip(pos as int).skip(p1 - pos) =~= buf@.skip(p1 as int));
    }
    let (stylesheet, end) = crypto::dec_opt_hash(buf, p1, "stylesheet hash")?;
    Ok((ChannelProfile { base, stylesheet }, end))
}

} // verus!

// ---------------------------------------------------------------------------
// Signed event envelopes
// ---------------------------------------------------------------------------

verus! {

/// The view of a channel-profile update: the payload hash, the owner's
/// signature over it, and the new profile.
pub struct UpdateChannelProfileEventMessageV {
    pub hash: Seq<u8>,
    pub signature: Seq<u8>,
    pub profile: ChannelProfileV,
}

impl UpdateChannelProfileEventMessageV {
    pub open spec fn wf(self) -> bool {
        self.hash.len() == crypto::HASH_LENGTH && self.signature.len()
            == crypto::SIGNATURE_LENGTH && self.profile.wf()
    }
}

/// The message that notifies the channel swarm of new profile information.
#[derive(Debug, PartialEq, Eq)]
pub struct UpdateChannelProfileEventMessage {
    pub hash: HashCode,
    pub signature: Signature,
    pub profile: ChannelProfile,
}

impl View for UpdateChannelProfileEventMessage {
    type V = UpdateChannelProfileEventMessageV;

    open spec fn view(&self) -> UpdateChannelProfileEventMessageV {
        UpdateChannelProfileEventMessageV {
            hash: self.hash@,
            signature: self.signature@,
            profile: self.profile@,
        }
    }
}

pub open spec fn spec_enc_update_channel_profile(m: UpdateChannelProfileEventMessageV) -> Seq<
    u8,
>
    recommends
        m.wf(),
{
    m.hash + m.signature + spec_enc_channel_profile(m.profile)
}

pub open spec fn spec_dec_update_channel_profile(s: Seq<u8>) -> Option<
    (UpdateChannelProfileEventMessageV, int),
> {
    match crypto::spec_dec_hash(s) {
        None => None,
        Some((hash, c0)) => match crypto::spec_dec_sig(s.skip(c0)) {
            None => None,
            Some((signature, c1)) => match spec_dec_channel_profile(s.skip(c0 + c1)) {
                None => None,
                Some((profile, c2)) => Some(
                    (UpdateChannelProfileEventMessageV { hash, signature, profile }, c0 + c1 + c2),
                ),
            },
        },
    }
}

pub proof fn lemma_dec_enc_update_channel_profile(
    m: UpdateChannelProfileEventMessageV,
    rest: Seq<u8>,
)
    requires
        m.wf(),
    ensures
        spec_dec_update_channel_profile(spec_enc_update_channel_profile(m) + rest) == Some(
            (m, spec_enc_update_channel_profile(m).len() as int),
        ),
{
    let e2 = spec_enc_channel_profile(m.profile);
    let s = spec_enc_update_channel_profile(m) + rest;
    assert(s =~= m.hash + (m.signature + (e2 + rest)));
    crypto::lemma_dec_enc_hash(m.hash, m.signature + (e2 + rest));
    assert(s.skip(crypto::HASH_LENGTH as int) =~= m.signature + (e2 + rest));
    crypto::lemma_dec_enc_sig(m.signature, e2 + rest);
    assert(s.skip(crypto::HASH_LENGTH as int + crypto::SIGNATURE_LENGTH as int) =~= e2 + rest);
    lemma_dec_enc_channel_profile(m.profile, rest);
}

/// Appends a channel-profile update: hash, signature, profile.
pub fn enc_update_channel_profile(out: &mut Vec<u8>, m: &UpdateChannelProfileEventMessage)
    requires
        m@.wf(),
    ensures
        final(out)@ == old(out)@ + spec_enc_update_channel_profile(m@),
{
    crypto::enc_hash(out, &m.hash);
    crypto::enc_sig(out, &m.signature);
    enc_channel_profile(out, &m.profile);
    assert(out@ =~= old(out)@ + spec_enc_update_channel_profile(m@));
}

/// Reads a channel-profile update.
pub fn dec_update_channel_profile(buf: &Vec<u8>, pos: usize) -> (r: Result<
    (UpdateChannelProfileEventMessage, usize),
    MessageMalformedError,
>)
    requires
        pos <= buf@.len(),
    ensures
        match r {
            Ok((m, end)) => pos <= end <= buf@.len() && m@.wf()
                && spec_dec_update_channel_profile(buf@.skip(pos as int)) == Some(
                (m@, end - pos),
            ),
            Err(e) => spec_dec_update_channel_profile(buf@.skip(pos as int)) is None && (e matches
                MessageMalformedError::MissingData(_) || e matches
                MessageMalformedError::InvalidUtf8(_) || e matches
                MessageMalformedError::InvalidBoolean(_, _)),
        },
{
    let (hash, p1) = crypto::dec_hash(buf, pos, "profile update hash")?;
    proof {
        assert(buf@.skip(pos as int).skip(p1 - pos) =~= buf@.skip(p1 as int));
    }
    let (signature, p2) = crypto::dec_sig(buf, p1, "profile update signature")?;
    proof {
        assert(buf@.skip(pos as int).skip(p2 - pos) =~= buf@.skip(p2 as int));
    }
    let (profile, end) = dec_channel_profile(buf, p2)?;
    Ok((UpdateChannelProfileEventMessage { hash, signature, profile }, end))
}

/// The view of a publisher-list update.
pub struct UpdatePublisherListEventMessageV {
    pub hash: Seq<u8>,
    pub signature: Seq<u8>,
    pub publishers: Seq<Seq<u8>>,
}

impl UpdatePublisherListEventMessageV {
    pub open spec fn wf(self) -> bool {
        self.hash.len() == crypto::HASH_LENGTH && self.signature.len()
            == crypto::SIGNATURE_LENGTH && wf_keys(self.publishers) && self.publishers.len()
            <= u32::MAX
    }
}

/// The message that replaces the channel's publisher list. It carries the
/// same signed envelope as a profile update: the hash of the encoded list,
/// and the owner's signature over that hash.
#[derive(Debug, PartialEq, Eq)]
pub struct UpdatePublisherListEventMessage {
    pub hash: HashCode,
    pub signature: Signature,
    pub publishers: Vec<PublicKey>,
}

impl View for UpdatePublisherListEventMessage {
    type V = UpdatePublisherListEventMessageV;

    open spec fn view(&self) -> UpdatePublisherListEventMessageV {
        UpdatePublisherListEventMessageV {
            hash: self.hash@,
            signature: self.signature@,
            publishers: spec_keys_view(self.publishers@),
        }
    }
}

pub open spec fn spec_enc_update_publisher_list(m: UpdatePublisherListEventMessageV) -> Seq<u8>
    recommends
        m.wf(),
{
    m.hash + m.signature + spec_enc_key_list(m.publishers)
}

pub open spec fn spec_dec_update_publisher_list(s: Seq<u8>) -> Option<
    (UpdatePublisherListEventMessageV, int),
> {
    match crypto::spec_dec_hash(s) {
        None => None,
        Some((hash, c0)) => match crypto::spec_dec_sig(s.skip(c0)) {
            None => None,
            Some((signature, c1)) => match spec_dec_key_list(s.skip(c0 + c1)) {
                None => None,
                Some((publishers, c2)) => Some(
                    (UpdatePublisherListEventMessageV { hash, signature, publishers }, c0 + c1 + c2),
                ),
            },
        },
    }
}

pub proof fn lemma_dec_enc_update_publisher_list(
    m: UpdatePublisherListEventMessageV,
    rest: Seq<u8>,
)
    requires
        m.wf(),
    ensures
        spec_dec_update_publisher_list(spec_enc_update_publisher_list(m) + rest) == Some(
            (m, spec_enc_update_publisher_list(m).len() as int),
        ),
{
    let e2 = spec_enc_key_list(m.publishers);
    let s = spec_enc_update_publisher_list(m) + rest;
    assert(s =~= m.hash + (m.signature + (e2 + rest)));
    crypto::lemma_dec_enc_hash(m.hash, m.signature + (e2 + rest));
    assert(s.skip(crypto::HASH_LENGTH as int) =~= m.signature + (e2 + rest));
    crypto::lemma_dec_enc_sig(m.signature, e2 + rest);
    assert(s.skip(crypto::HASH_LENGTH as int + crypto::SIGNATURE_LENGTH as int) =~= e2 + rest);
    lemma_dec_enc_key_list(m.publishers, rest);
}

/// Appends a publisher-list update: hash, signature, key list.
pub fn enc_update_publisher_list(out: &mut Vec<u8>, m: &UpdatePublisherListEventMessage)
    requires
        m@.wf(),
    ensures
        final(out)@ == old(out)@ + spec_enc_update_publisher_list(m@),
{
    crypto::enc_hash(out, &m.hash);
    crypto::enc_sig(out, &m.signature);
    enc_key_list(out, &m.publishers);
    assert(out@ =~= old(out)@ + spec_enc_update_publisher_list(m@));
}

/// Reads a publisher-list update.
pub fn dec_update_publisher_list(buf: &Vec<u8>, pos: usize) -> (r: Result<
    (UpdatePublisherListEventMessage, usize),
    MessageMalformedError,
>)
    requires
        pos <= buf@.len(),
    ensures
        match r {
            Ok((m, end)) => pos <= end <= buf@.len() && m@.wf()
                && spec_dec_update_publisher_list(buf@.skip(pos as int)) == Some(
                (m@, end - pos),
            ),
            Err(e) => spec_dec_update_publisher_list(buf@.skip(pos as int)) is None && e matches
                MessageMalformedError::MissingData(_),
        },
{
    let (hash, p1) = crypto::dec_hash(buf, pos, "publisher list hash")?;
    proof {
        assert(buf@.skip(pos as int).skip(p1 - pos) =~= buf@.skip(p1 as int));
    }
    let (signature, p2) = crypto::dec_sig(buf, p1, "publisher list signature")?;
    proof {
        assert(buf@.skip(pos as int).skip(p2 - pos) =~= buf@.skip(p2 as int));
    }
    let (publishers, end) = dec_key_list(buf, p2, "publisher list")?;
    Ok((UpdatePublisherListEventMessage { hash, signature, publishers }, end))
}

/// The view of a publisher-profile update.
pub struct UpdateProfileEventMessageV {
    pub hash: Seq<u8>,
    pub signature: Seq<u8>,
    pub profile: ProfileV,
}

impl UpdateProfileEventMessageV {
    pub open spec fn wf(self) -> bool {
        self.hash.len() == crypto::HASH_LENGTH && self.signature.len()
            == crypto::SIGNATURE_LENGTH && self.profile.wf()
    }
}

/// The message that updates a publisher's own profile, under the same
/// signed envelope as a channel-profile update.
#[derive(Debug, PartialEq, Eq)]
pub struct UpdateProfileEventMessage {
    pub hash: HashCode,
    pub signature: Signature,
    pub profile: Profile,
}

impl View for UpdateProfileEventMessage {
    type V = UpdateProfileEventMessageV;

    open spec fn view(&self) -> UpdateProfileEventMessageV {
        UpdateProfileEventMessageV {
            hash: self.hash@,
            signature: self.signature@,
            profile: self.profile@,
        }
    }
}

pub open spec fn spec_enc_update_profile(m: UpdateProfileEventMessageV) -> Seq<u8>
    recommends
        m.wf(),
{
    m.hash + m.signature + spec_enc_profile(m.profile)
}

pub open spec fn spec_dec_update_profile(s: Seq<u8>) -> Option<(UpdateProfileEventMessageV, int)> {
    match crypto::spec_dec_hash(s) {
        None => None,
        Some((hash, c0)) => match crypto::spec_dec_sig(s.skip(c0)) {
            None => None,
            Some((signature, c1)) => match spec_dec_profile(s.skip(c0 + c1)) {
                None => None,
                Some((profile, c2)) => Some(
                    (UpdateProfileEventMessageV { hash, signature, profile }, c0 + c1 + c2),
                ),
            },
        },
    }
}

pub proof fn lemma_dec_enc_update_profile(m: UpdateProfileEventMessageV, rest: Seq<u8>)
    requires
        m.wf(),
    ensures
        spec_dec_update_profile(spec_enc_update_profile(m) + rest) == Some(
            (m, spec_enc_update_profile(m).len() as int),
        ),
{
    let e2 = spec_enc_profile(m.profile);
    let s = spec_enc_update_profile(m) + rest;
    assert(s =~= m.hash + (m.signature + (e2 + rest)));
    crypto::lemma_dec_enc_hash(m.hash, m.signature + (e2 + rest));
    assert(s.skip(crypto::HASH_LENGTH as int) =~= m.signature + (e2 + rest));
    crypto::lemma_dec_enc_sig(m.signature, e2 + rest);
    assert(s.skip(crypto::HASH_LENGTH as int + crypto::SIGNATURE_LENGTH as int) =~= e2 + rest);
    lemma_dec_enc_profile(m.profile, rest);
}

/// Appends a publisher-profile update: hash, signature, profile.
pub fn enc_update_profile(out: &mut Vec<u8>, m: &UpdateProfileEventMessage)
    requires
        m@.wf(),
    ensures
        final(out)@ == old(out)@ + spec_enc_update_profile(m@),
{
    crypto::enc_hash(out, &m.hash);
    crypto::enc_sig(out, &m.signature);
    enc_profile(out, &m.profile);
    assert(out@ =~= old(out)@ + spec_enc_update_profile(m@));
}

/// Reads a publisher-profile update.
pub fn dec_update_profile(buf: &Vec<u8>, pos: usize) -> (r: Result<
    (UpdateProfileEventMessage, usize),
    MessageMalformedError,
>)
    requires
        pos <= buf@.len(),
    ensures
        match r {
            Ok((m, end)) => pos <= end <= buf@.len() && m@.wf() && spec_dec_update_profile(
                buf@.skip(pos as int),
            ) == Some((m@, end - pos)),
            Err(e) => spec_dec_update_profile(buf@.skip(pos as int)) is None && (e matches
                MessageMalformedError::MissingData(_) || e matches
                MessageMalformedError::InvalidUtf8(_) || e matches
                MessageMalformedError::InvalidBoolean(_, _)),
        },
{
    let (hash, p1) = crypto::dec_hash(buf, pos, "profile update hash")?;
    proof {
        assert(buf@.skip(pos as int).skip(p1 - pos) =~= buf@.skip(p1 as int));
    }
    let (signature, p2) = crypto::dec_sig(buf, p1, "profile update signature")?;
    proof {
        assert(buf@.skip(pos as int).skip(p2 - pos) =~= buf@.skip(p2 as int));
    }
    let (profile, end) = dec_profile(buf, p2)?;
    Ok((UpdateProfileEventMessage { hash, signature, profile }, end))
}

} // verus!
