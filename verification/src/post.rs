//! Posts and their metadata.
//!
//! A post is identified within a timeline by its `post_id` and across the
//! network by its hash: the hash of its serialized metadata. The metadata
//! names the content hash, the attachment hashes, the publish timestamp and
//! the tags. The signature over the post hash is made by the publisher (or
//! the owner) under the fixed purpose tag.

use vstd::prelude::*;

use crate::codec;
use crate::crypto;
use crate::crypto::{HashCode, Signature};
use crate::error::MessageMalformedError;

verus! {

// ---------------------------------------------------------------------------
// Lists of tags and of hashes
// ---------------------------------------------------------------------------

/// The views of a vector of tag strings.
pub open spec fn spec_tags_view(v: Seq<String>) -> Seq<Seq<char>> {
    Seq::new(v.len(), |i: int| v[i]@)
}

/// Whether every tag fits behind a one-byte length prefix.
pub open spec fn wf_tags(ts: Seq<Seq<char>>) -> bool {
    ts.len() <= u32::MAX && forall|i: int|
        0 <= i < ts.len() ==> codec::fits_str8(#[trigger] ts[i])
}

pub open spec fn spec_enc_tag_run(ts: Seq<Seq<char>>) -> Seq<u8>
    decreases ts.len(),
{
    if ts.len() == 0 {
        Seq::empty()
    } else {
        codec::spec_enc_str8(ts[0]) + spec_enc_tag_run(ts.drop_first())
    }
}

/// A tag list: a little-endian count, then each tag as a short string.
pub open spec fn spec_enc_tag_list(ts: Seq<Seq<char>>) -> Seq<u8>
    recommends
        wf_tags(ts),
{
    codec::spec_enc_u32(ts.len() as u32) + spec_enc_tag_run(ts)
}

pub open spec fn spec_dec_tag_run(s: Seq<u8>, n: nat) -> Option<(Seq<Seq<char>>, int)>
    decreases n,
{
    if n == 0 {
        Some((Seq::empty(), 0int))
    } else {
        match codec::spec_dec_str8(s) {
            None => None,
            Some((t, c)) => match spec_dec_tag_run(s.skip(c), (n - 1) as nat) {
                None => None,
                Some((ts, c2)) => Some((seq![t] + ts, c + c2)),
            },
        }
    }
}

pub open spec fn spec_dec_tag_list(s: Seq<u8>) -> Option<(Seq<Seq<char>>, int)> {
    match codec::spec_dec_u32(s) {
        None => None,
        Some((n, c0)) => match spec_dec_tag_run(s.skip(c0), n as nat) {
            None => None,
            Some((ts, c)) => Some((ts, c0 + c)),
        },
    }
}

pub proof fn lemma_enc_tag_run_push(ts: Seq<Seq<char>>, t: Seq<char>)
    ensures
        spec_enc_tag_run(ts + seq![t]) == spec_enc_tag_run(ts) + codec::spec_enc_str8(t),
    decreases ts.len(),
{
    let e = codec::spec_enc_str8(t);
    if ts.len() == 0 {
        assert(ts + seq![t] =~= seq![t]);
        assert(seq![t].drop_first() =~= Seq::<Seq<char>>::empty());
        assert(spec_enc_tag_run(Seq::<Seq<char>>::empty()) =~= Seq::<u8>::empty());
        assert(spec_enc_tag_run(ts + seq![t]) == e + Seq::<u8>::empty());
        assert(e + Seq::<u8>::empty() =~= e);
        assert(spec_enc_tag_run(ts) + e =~= e);
    } else {
        assert((ts + seq![t])[0] == ts[0]);
        assert((ts + seq![t]).drop_first() =~= ts.drop_first() + seq![t]);
        lemma_enc_tag_run_push(ts.drop_first(), t);
        assert(spec_enc_tag_run(ts + seq![t]) == codec::spec_enc_str8(ts[0]) + (spec_enc_tag_run(
            ts.drop_first(),
        ) + e));
        assert(codec::spec_enc_str8(ts[0]) + (spec_enc_tag_run(ts.drop_first()) + e) =~= (
        codec::spec_enc_str8(ts[0]) + spec_enc_tag_run(ts.drop_first())) + e);
    }
}

pub proof fn lemma_dec_enc_tag_run(ts: Seq<Seq<char>>, rest: Seq<u8>)
    requires
        forall|i: int| 0 <= i < ts.len() ==> codec::fits_str8(#[trigger] ts[i]),
    ensures
        spec_dec_tag_run(spec_enc_tag_run(ts) + rest, ts.len()) == Some(
            (ts, spec_enc_tag_run(ts).len() as int),
        ),
    decreases ts.len(),
{
    if ts.len() == 0 {
        assert(spec_enc_tag_run(ts) + rest =~= rest);
        assert(ts =~= Seq::<Seq<char>>::empty());
    } else {
        let s = spec_enc_tag_run(ts) + rest;
        let t = ts[0];
        let e = codec::spec_enc_str8(t);
        assert(s =~= e + (spec_enc_tag_run(ts.drop_first()) + rest));
        codec::lemma_dec_enc_str8(t, spec_enc_tag_run(ts.drop_first()) + rest);
        assert(s.skip(e.len() as int) =~= spec_enc_tag_run(ts.drop_first()) + rest);
        lemma_dec_enc_tag_run(ts.drop_first(), rest);
        assert(seq![t] + ts.drop_first() =~= ts);
    }
}

pub proof fn lemma_dec_enc_tag_list(ts: Seq<Seq<char>>, rest: Seq<u8>)
    requires
        wf_tags(ts),
    ensures
        spec_dec_tag_list(spec_enc_tag_list(ts) + rest) == Some(
            (ts, spec_enc_tag_list(ts).len() as int),
        ),
{
    let s = spec_enc_tag_list(ts) + rest;
    codec::lemma_dec_enc_u32(ts.len() as u32, spec_enc_tag_run(ts) + rest);
    assert(codec::spec_enc_u32(ts.len() as u32) + (spec_enc_tag_run(ts) + rest) =~= s);
    assert(s.skip(4) =~= spec_enc_tag_run(ts) + rest);
    lemma_dec_enc_tag_run(ts, rest);
}

/// Appends a tag list.
pub fn enc_tag_list(out: &mut Vec<u8>, tags: &Vec<String>)
    requires
        wf_tags(spec_tags_view(tags@)),
    ensures
        final(out)@ == old(out)@ + spec_enc_tag_list(spec_tags_view(tags@)),
{
    let n = tags.len();
    codec::enc_u32(out, n as u32);
    let mut i: usize = 0;
    while i < n
        invariant
            i <= n,
            n == tags@.len(),
            wf_tags(spec_tags_view(tags@)),
            out@ == old(out)@ + codec::spec_enc_u32(n as u32) + spec_enc_tag_run(
                spec_tags_view(tags@).subrange(0, i as int),
            ),
        decreases n - i,
    {
        assert(codec::fits_str8(spec_tags_view(tags@)[i as int]));
        codec::enc_str8(out, tags[i].as_str());
        proof {
            let tv = spec_tags_view(tags@);
            lemma_enc_tag_run_push(tv.subrange(0, i as int), tv[i as int]);
            assert(tv.subrange(0, i as int) + seq![tv[i as int]] =~= tv.subrange(0, i + 1));
        }
        i = i + 1;
    }
    proof {
        assert(spec_tags_view(tags@).subrange(0, n as int) =~= spec_tags_view(tags@));
    }
}

/// Reads a tag list.
pub fn dec_tag_list(buf: &Vec<u8>, pos: usize, what: &str) -> (r: Result<
    (Vec<String>, usize),
    MessageMalformedError,
>)
    requires
        pos <= buf@.len(),
    ensures
        match r {
            Ok((tags, end)) => pos <= end <= buf@.len() && wf_tags(spec_tags_view(tags@))
                && spec_dec_tag_list(buf@.skip(pos as int)) == Some(
                (spec_tags_view(tags@), end - pos),
            ),
            Err(e) => spec_dec_tag_list(buf@.skip(pos as int)) is None && (e matches
                MessageMalformedError::MissingData(_) || e matches
                MessageMalformedError::InvalidUtf8(_)),
        },
{
    let (n, start) = codec::dec_u32(buf, pos, what)?;
    proof {
        assert(buf@.skip(pos as int).skip(start - pos) =~= buf@.skip(start as int));
    }
    let mut tags: Vec<String> = Vec::new();
    let mut p = start;
    let mut i: u32 = 0;
    while i < n
        invariant
            i <= n,
            pos <= start <= p <= buf@.len(),
            tags@.len() == i,
            wf_tags(spec_tags_view(tags@)),
            codec::spec_dec_u32(buf@.skip(pos as int)) == Some((n, (start - pos) as int)),
            spec_dec_tag_run(buf@.skip(start as int), n as nat) == (match spec_dec_tag_run(
                buf@.skip(p as int),
                (n - i) as nat,
            ) {
                None => None::<(Seq<Seq<char>>, int)>,
                Some((ts, c)) => Some((spec_tags_view(tags@) + ts, (p - start) + c)),
            }),
        decreases n - i,
    {
        let ghost p_old = p as int;
        let ghost tags_old = tags@;
        let t = match codec::dec_str8(buf, p, what) {
            Ok(tp) => tp,
            Err(e) => {
                proof {
                    assert(spec_dec_tag_run(buf@.skip(p as int), (n - i) as nat) is None);
                    assert(buf@.skip(pos as int).skip(start - pos) =~= buf@.skip(start as int));
                }
                return Err(e);
            },
        };
        proof {
            assert(buf@.skip(p_old).skip(t.1 - p_old) =~= buf@.skip(t.1 as int));
        }
        p = t.1;
        tags.push(t.0);
        proof {
            assert(spec_tags_view(tags@) =~= spec_tags_view(tags_old) + seq![tags@[i as int]@]);
            assert(forall|ts: Seq<Seq<char>>|
                spec_tags_view(tags_old) + (seq![tags@[i as int]@] + ts) =~= (spec_tags_view(
                    tags_old,
                ) + seq![tags@[i as int]@]) + ts);
        }
        i = i + 1;
    }
    proof {
        assert(spec_dec_tag_run(buf@.skip(p as int), 0) == Some((Seq::<Seq<char>>::empty(), 0int)));
        assert(spec_tags_view(tags@) + Seq::<Seq<char>>::empty() =~= spec_tags_view(tags@));
        assert(buf@.skip(pos as int).skip(start - pos) =~= buf@.skip(start as int));
    }
    Ok((tags, p))
}

/// The views of a vector of hashes.
pub open spec fn spec_hashes_view(v: Seq<HashCode>) -> Seq<Seq<u8>> {
    Seq::new(v.len(), |i: int| v[i]@)
}

/// Whether every hash of a run has its full wire width.
pub open spec fn wf_hashes(hs: Seq<Seq<u8>>) -> bool {
    hs.len() <= u32::MAX && forall|i: int|
        0 <= i < hs.len() ==> (#[trigger] hs[i]).len() == crypto::HASH_LENGTH
}

pub open spec fn spec_enc_hash_run(hs: Seq<Seq<u8>>) -> Seq<u8>
    decreases hs.len(),
{
    if hs.len() == 0 {
        Seq::empty()
    } else {
        hs[0] + spec_enc_hash_run(hs.drop_first())
    }
}

/// A hash list: a little-endian count, then the hashes back to back.
pub open spec fn spec_enc_hash_list(hs: Seq<Seq<u8>>) -> Seq<u8>
    recommends
        wf_hashes(hs),
{
    codec::spec_enc_u32(hs.len() as u32) + spec_enc_hash_run(hs)
}

pub open spec fn spec_dec_hash_run(s: Seq<u8>, n: nat) -> Option<(Seq<Seq<u8>>, int)>
    decreases n,
{
    if n == 0 {
        Some((Seq::empty(), 0int))
    } else {
        match crypto::spec_dec_hash(s) {
            None => None,
            Some((h, c)) => match spec_dec_hash_run(s.skip(c), (n - 1) as nat) {
                None => None,
                Some((hs, c2)) => Some((seq![h] + hs, c + c2)),
            },
        }
    }
}

pub open spec fn spec_dec_hash_list(s: Seq<u8>) -> Option<(Seq<Seq<u8>>, int)> {
    match codec::spec_dec_u32(s) {
        None => None,
        Some((n, c0)) => match spec_dec_hash_run(s.skip(c0), n as nat) {
            None => None,
            Some((hs, c)) => Some((hs, c0 + c)),
        },
    }
}

pub proof fn lemma_enc_hash_run_push(hs: Seq<Seq<u8>>, h: Seq<u8>)
    ensures
        spec_enc_hash_run(hs + seq![h]) == spec_enc_hash_run(hs) + h,
    decreases hs.len(),
{
    if hs.len() == 0 {
        assert(hs + seq![h] =~= seq![h]);
        assert(seq![h].drop_first() =~= Seq::<Seq<u8>>::empty());
        assert(spec_enc_hash_run(Seq::<Seq<u8>>::empty()) =~= Seq::<u8>::empty());
        assert(spec_enc_hash_run(hs + seq![h]) == h + Seq::<u8>::empty());
        assert(h + Seq::<u8>::empty() =~= h);
        assert(spec_enc_hash_run(hs) + h =~= h);
    } else {
        assert((hs + seq![h])[0] == hs[0]);
        assert((hs + seq![h]).drop_first() =~= hs.drop_first() + seq![h]);
        lemma_enc_hash_run_push(hs.drop_first(), h);
        assert(spec_enc_hash_run(hs + seq![h]) == hs[0] + (spec_enc_hash_run(hs.drop_first())
            + h));
        assert(hs[0] + (spec_enc_hash_run(hs.drop_first()) + h) =~= (hs[0] + spec_enc_hash_run(
            hs.drop_first(),
        )) + h);
    }
}

pub proof fn lemma_dec_enc_hash_run(hs: Seq<Seq<u8>>, rest: Seq<u8>)
    requires
        forall|i: int| 0 <= i < hs.len() ==> (#[trigger] hs[i]).len() == crypto::HASH_LENGTH,
    ensures
        spec_dec_hash_run(spec_enc_hash_run(hs) + rest, hs.len()) == Some(
            (hs, spec_enc_hash_run(hs).len() as int),
        ),
    decreases hs.len(),
{
    if hs.len() == 0 {
        assert(spec_enc_hash_run(hs) + rest =~= rest);
        assert(hs =~= Seq::<Seq<u8>>::empty());
    } else {
        let s = spec_enc_hash_run(hs) + rest;
        let h = hs[0];
        assert(s =~= h + (spec_enc_hash_run(hs.drop_first()) + rest));
        crypto::lemma_dec_enc_hash(h, spec_enc_hash_run(hs.drop_first()) + rest);
        assert(s.skip(crypto::HASH_LENGTH as int) =~= spec_enc_hash_run(hs.drop_first()) + rest);
        lemma_dec_enc_hash_run(hs.drop_first(), rest);
        assert(seq![h] + hs.drop_first() =~= hs);
    }
}

pub proof fn lemma_dec_enc_hash_list(hs: Seq<Seq<u8>>, rest: Seq<u8>)
    requires
        wf_hashes(hs),
    ensures
        spec_dec_hash_list(spec_enc_hash_list(hs) + rest) == Some(
            (hs, spec_enc_hash_list(hs).len() as int),
        ),
{
    let s = spec_enc_hash_list(hs) + rest;
    codec::lemma_dec_enc_u32(hs.len() as u32, spec_enc_hash_run(hs) + rest);
    assert(codec::spec_enc_u32(hs.len() as u32) + (spec_enc_hash_run(hs) + rest) =~= s);
    assert(s.skip(4) =~= spec_enc_hash_run(hs) + rest);
    lemma_dec_enc_hash_run(hs, rest);
}

/// Appends a hash list.
pub fn enc_hash_list(out: &mut Vec<u8>, hashes: &Vec<HashCode>)
    requires
        wf_hashes(spec_hashes_view(hashes@)),
    ensures
        final(out)@ == old(out)@ + spec_enc_hash_list(spec_hashes_view(hashes@)),
{
    let n = hashes.len();
    codec::enc_u32(out, n as u32);
    let mut i: usize = 0;
    while i < n
        invariant
            i <= n,
            n == hashes@.len(),
            wf_hashes(spec_hashes_view(hashes@)),
            out@ == old(out)@ + codec::spec_enc_u32(n as u32) + spec_enc_hash_run(
                spec_hashes_view(hashes@).subrange(0, i as int),
            ),
        decreases n - i,
    {
        assert(spec_hashes_view(hashes@)[i as int].len() == crypto::HASH_LENGTH);
        crypto::enc_hash(out, &hashes[i]);
        proof {
            let hv = spec_hashes_view(hashes@);
            lemma_enc_hash_run_push(hv.subrange(0, i as int), hv[i as int]);
            assert(hv.subrange(0, i as int) + seq![hv[i as int]] =~= hv.subrange(0, i + 1));
        }
        i = i + 1;
    }
    proof {
        assert(spec_hashes_view(hashes@).subrange(0, n as int) =~= spec_hashes_view(hashes@));
    }
}

/// Reads a hash list.
pub fn dec_hash_list(buf: &Vec<u8>, pos: usize, what: &str) -> (r: Result<
    (Vec<HashCode>, usize),
    MessageMalformedError,
>)
    requires
        pos <= buf@.len(),
    ensures
        match r {
            Ok((hashes, end)) => pos <= end <= buf@.len() && wf_hashes(
                spec_hashes_view(hashes@),
            ) && spec_dec_hash_list(buf@.skip(pos as int)) == Some(
                (spec_hashes_view(hashes@), end - pos),
            ),
            Err(e) => spec_dec_hash_list(buf@.skip(pos as int)) is None && e matches
                MessageMalformedError::MissingData(_),
        },
{
    let (n, start) = codec::dec_u32(buf, pos, what)?;
    proof {
        assert(buf@.skip(pos as int).skip(start - pos) =~= buf@.skip(start as int));
    }
    let mut hashes: Vec<HashCode> = Vec::new();
    let mut p = start;
    let mut i: u32 = 0;
    while i < n
        invariant
            i <= n,
            pos <= start <= p <= buf@.len(),
            hashes@.len() == i,
            wf_hashes(spec_hashes_view(hashes@)),
            codec::spec_dec_u32(buf@.skip(pos as int)) == Some((n, (start - pos) as int)),
            spec_dec_hash_run(buf@.skip(start as int), n as nat) == (match spec_dec_hash_run(
                buf@.skip(p as int),
                (n - i) as nat,
            ) {
                None => None::<(Seq<Seq<u8>>, int)>,
                Some((hs, c)) => Some((spec_hashes_view(hashes@) + hs, (p - start) + c)),
            }),
        decreases n - i,
    {
        let ghost p_old = p as int;
        let ghost hashes_old = hashes@;
        let h = match crypto::dec_hash(buf, p, what) {
            Ok(hp) => hp,
            Err(e) => {
                proof {
                    assert(spec_dec_hash_run(buf@.skip(p as int), (n - i) as nat) is None);
                    assert(buf@.skip(pos as int).skip(start - pos) =~= buf@.skip(start as int));
                }
                return Err(e);
            },
        };
        proof {
            assert(buf@.skip(p_old).skip(crypto::HASH_LENGTH as int) =~= buf@.skip(
                p_old + crypto::HASH_LENGTH,
            ));
        }
        p = h.1;
        hashes.push(h.0);
        proof {
            assert(spec_hashes_view(hashes@) =~= spec_hashes_view(hashes_old) + seq![
                hashes@[i as int]@,
            ]);
            assert(forall|hs: Seq<Seq<u8>>|
                spec_hashes_view(hashes_old) + (seq![hashes@[i as int]@] + hs) =~= (
                spec_hashes_view(hashes_old) + seq![hashes@[i as int]@]) + hs);
        }
        i = i + 1;
    }
    proof {
        assert(spec_dec_hash_run(buf@.skip(p as int), 0) == Some((Seq::<Seq<u8>>::empty(), 0int)));
        assert(spec_hashes_view(hashes@) + Seq::<Seq<u8>>::empty() =~= spec_hashes_view(hashes@));
        assert(buf@.skip(pos as int).skip(start - pos) =~= buf@.skip(start as int));
    }
    Ok((hashes, p))
}

} // verus!

// ---------------------------------------------------------------------------
// Post structures
// ---------------------------------------------------------------------------

verus! {

/// The view of the extra information of a post.
pub struct PostInfoV {
    pub publish_timestamp: u64,
    pub tags: Seq<Seq<char>>,
}

impl PostInfoV {
    pub open spec fn wf(self) -> bool {
        wf_tags(self.tags)
    }
}

/// Some extra information about a post: when it was published
/// (milliseconds since the epoch) and its tags.
#[derive(Debug, PartialEq, Eq)]
pub struct PostInfo {
    pub publish_timestamp: u64,
    pub tags: Vec<String>,
}

impl View for PostInfo {
    type V = PostInfoV;

    open spec fn view(&self) -> PostInfoV {
        PostInfoV { publish_timestamp: self.publish_timestamp, tags: spec_tags_view(self.tags@) }
    }
}

impl Clone for PostInfo {
    fn clone(&self) -> (r: Self)
        ensures
            r@ == self@,
    {
        let mut tags: Vec<String> = Vec::new();
        let n = self.tags.len();
        let mut i: usize = 0;
        while i < n
            invariant
                i <= n,
                n == self.tags@.len(),
                tags@.len() == i,
                spec_tags_view(tags@) == spec_tags_view(self.tags@).subrange(0, i as int),
            decreases n - i,
        {
            let ghost tags_old = tags@;
            let t = self.tags[i].as_str().to_owned();
            assert(t@ == self.tags@[i as int]@);
            tags.push(t);
            proof {
                assert(tags@ == tags_old.push(t));
                assert(tags@[i as int] == t);
                assert forall|j: int| 0 <= j <= i as int implies spec_tags_view(tags@)[j]
                    == spec_tags_view(self.tags@)[j] by {
                    if j < i as int {
                        assert(spec_tags_view(tags_old)[j] == spec_tags_view(
                            self.tags@,
                        ).subrange(0, i as int)[j]);
                    }
                }
                assert(spec_tags_view(tags@) =~= spec_tags_view(self.tags@).subrange(
                    0,
                    i as int + 1,
                ));
            }
            i = i + 1;
        }
        assert(spec_tags_view(tags@) =~= spec_tags_view(self.tags@));
        PostInfo { publish_timestamp: self.publish_timestamp, tags }
    }
}

pub open spec fn spec_enc_post_info(v: PostInfoV) -> Seq<u8>
    recommends
        v.wf(),
{
    codec::spec_enc_u64(v.publish_timestamp) + spec_enc_tag_list(v.tags)
}

pub open spec fn spec_dec_post_info(s: Seq<u8>) -> Option<(PostInfoV, int)> {
    match codec::spec_dec_u64(s) {
        None => None,
        Some((ts, c0)) => match spec_dec_tag_list(s.skip(c0)) {
            None => None,
            Some((tags, c1)) => Some(
                (PostInfoV { publish_timestamp: ts, tags }, c0 + c1),
            ),
        },
    }
}

pub proof fn lemma_dec_enc_post_info(v: PostInfoV, rest: Seq<u8>)
    requires
        v.wf(),
    ensures
        spec_dec_post_info(spec_enc_post_info(v) + rest) == Some(
            (v, spec_enc_post_info(v).len() as int),
        ),
{
    let e1 = spec_enc_tag_list(v.tags);
    let s = spec_enc_post_info(v) + rest;
    assert(s =~= codec::spec_enc_u64(v.publish_timestamp) + (e1 + rest));
    codec::lemma_dec_enc_u64(v.publish_timestamp, e1 + rest);
    assert(s.skip(8) =~= e1 + rest);
    lemma_dec_enc_tag_list(v.tags, rest);
}

/// Appends a post's extra information.
pub fn enc_post_info(out: &mut Vec<u8>, v: &PostInfo)
    requires
        v@.wf(),
    ensures
        final(out)@ == old(out)@ + spec_enc_post_info(v@),
{
    codec::enc_u64(out, v.publish_timestamp);
    enc_tag_list(out, &v.tags);
    assert(out@ =~= old(out)@ + spec_enc_post_info(v@));
}

/// Reads a post's extra information.
pub fn dec_post_info(buf: &Vec<u8>, pos: usize) -> (r: Result<
    (PostInfo, usize),
    MessageMalformedError,
>)
    requires
        pos <= buf@.len(),
    ensures
        match r {
            Ok((v, end)) => pos <= end <= buf@.len() && v@.wf() && spec_dec_post_info(
                buf@.skip(pos as int),
            ) == Some((v@, end - pos)),
            Err(e) => spec_dec_post_info(buf@.skip(pos as int)) is None && (e matches
                MessageMalformedError::MissingData(_) || e matches
                MessageMalformedError::InvalidUtf8(_)),
        },
{
    let (publish_timestamp, p1) = codec::dec_u64(buf, pos, "publish timestamp")?;
    proof {
        assert(buf@.skip(pos as int).skip(p1 - pos) =~= buf@.skip(p1 as int));
    }
    let (tags, end) = dec_tag_list(buf, p1, "post tags")?;
    Ok((PostInfo { publish_timestamp, tags }, end))
}

/// The view of a post's metadata.
pub struct PostMetaV {
    pub info: PostInfoV,
    pub content_hash: Seq<u8>,
    pub attachment_ids: Seq<Seq<u8>>,
}

impl PostMetaV {
    pub open spec fn wf(self) -> bool {
        self.info.wf() && self.content_hash.len() == crypto::HASH_LENGTH && wf_hashes(
            self.attachment_ids,
        )
    }
}

/// The metadata of a post: its extra information, the hash of its content,
/// and the hashes of the files it holds as attachments.
#[derive(Debug, PartialEq, Eq)]
pub struct PostMeta {
    /// Some extra information about the post.
    pub info: PostInfo,
    /// The hash of the post's content.
    pub content_hash: HashCode,
    /// The ids of the files this post holds as attachments.
    pub attachment_ids: Vec<HashCode>,
}

impl View for PostMeta {
    type V = PostMetaV;

    open spec fn view(&self) -> PostMetaV {
        PostMetaV {
            info: self.info@,
            content_hash: self.content_hash@,
            attachment_ids: spec_hashes_view(self.attachment_ids@),
        }
    }
}

impl Clone for PostMeta {
    fn clone(&self) -> (r: Self)
        ensures
            r@ == self@,
    {
        let mut attachment_ids: Vec<HashCode> = Vec::new();
        let n = self.attachment_ids.len();
        let mut i: usize = 0;
        while i < n
            invariant
                i <= n,
                n == self.attachment_ids@.len(),
                attachment_ids@.len() == i,
                spec_hashes_view(attachment_ids@) == spec_hashes_view(
                    self.attachment_ids@,
                ).subrange(0, i as int),
            decreases n - i,
        {
            let ghost ids_old = attachment_ids@;
            attachment_ids.push(self.attachment_ids[i].clone());
            proof {
                assert forall|j: int| 0 <= j <= i as int implies spec_hashes_view(
                    attachment_ids@,
                )[j] == spec_hashes_view(self.attachment_ids@)[j] by {
                    if j < i as int {
                        assert(spec_hashes_view(ids_old)[j] == spec_hashes_view(
                            self.attachment_ids@,
                        ).subrange(0, i as int)[j]);
                    }
                }
                assert(spec_hashes_view(attachment_ids@) =~= spec_hashes_view(
                    self.attachment_ids@,
                ).subrange(0, i as int + 1));
            }
            i = i + 1;
        }
        assert(spec_hashes_view(attachment_ids@) =~= spec_hashes_view(self.attachment_ids@));
        PostMeta {
            info: self.info.clone(),
            content_hash: self.content_hash.clone(),
            attachment_ids,
        }
    }
}

pub open spec fn spec_enc_post_meta(v: PostMetaV) -> Seq<u8>
    recommends
        v.wf(),
{
    spec_enc_post_info(v.info) + v.content_hash + spec_enc_hash_list(v.attachment_ids)
}

pub open spec fn spec_dec_post_meta(s: Seq<u8>) -> Option<(PostMetaV, int)> {
    match spec_dec_post_info(s) {
        None => None,
        Some((info, c0)) => match crypto::spec_dec_hash(s.skip(c0)) {
            None => None,
            Some((content_hash, c1)) => match spec_dec_hash_list(s.skip(c0 + c1)) {
                None => None,
                Some((ids, c2)) => Some(
                    (PostMetaV { info, content_hash, attachment_ids: ids }, c0 + c1 + c2),
                ),
            },
        },
    }
}

pub proof fn lemma_dec_enc_post_meta(v: PostMetaV, rest: Seq<u8>)
    requires
        v.wf(),
    ensures
        spec_dec_post_meta(spec_enc_post_meta(v) + rest) == Some(
            (v, spec_enc_post_meta(v).len() as int),
        ),
{
    let e0 = spec_enc_post_info(v.info);
    let e2 = spec_enc_hash_list(v.attachment_ids);
    let s = spec_enc_post_meta(v) + rest;
    assert(s =~= e0 + (v.content_hash + (e2 + rest)));
    lemma_dec_enc_post_info(v.info, v.content_hash + (e2 + rest));
    assert(s.skip(e0.len() as int) =~= v.content_hash + (e2 + rest));
    crypto::lemma_dec_enc_hash(v.content_hash, e2 + rest);
    assert(s.skip(e0.len() as int + crypto::HASH_LENGTH as int) =~= e2 + rest);
    lemma_dec_enc_hash_list(v.attachment_ids, rest);
}

/// Appends a post's metadata.
pub fn enc_post_meta(out: &mut Vec<u8>, v: &PostMeta)
    requires
        v@.wf(),
    ensures
        final(out)@ == old(out)@ + spec_enc_post_meta(v@),
{
    enc_post_info(out, &v.info);
    crypto::enc_hash(out, &v.content_hash);
    enc_hash_list(out, &v.attachment_ids);
    assert(out@ =~= old(out)@ + spec_enc_post_meta(v@));
}

/// Reads a post's metadata.
pub fn dec_post_meta(buf: &Vec<u8>, pos: usize) -> (r: Result<
    (PostMeta, usize),
    MessageMalformedError,
>)
    requires
        pos <= buf@.len(),
    ensures
        match r {
            Ok((v, end)) => pos <= end <= buf@.len() && v@.wf() && spec_dec_post_meta(
                buf@.skip(pos as int),
            ) == Some((v@, end - pos)),
            Err(e) => spec_dec_post_meta(buf@.skip(pos as int)) is None && (e matches
                MessageMalformedError::MissingData(_) || e matches
                MessageMalformedError::InvalidUtf8(_)),
        },
{
    let (info, p1) = dec_post_info(buf, pos)?;
    proof {
        assert(buf@.skip(pos as int).skip(p1 - pos) =~= buf@.skip(p1 as int));
    }
    let (content_hash, p2) = crypto::dec_hash(buf, p1, "post content hash")?;
    proof {
        assert(buf@.skip(pos as int).skip(p2 - pos) =~= buf@.skip(p2 as int));
    }
    let (attachment_ids, end) = dec_hash_list(buf, p2, "attachment ids")?;
    Ok((PostMeta { info, content_hash, attachment_ids }, end))
}

/// The view of a post.
pub struct PostV {
    pub id: u64,
    pub hash: Seq<u8>,
    pub signature: Seq<u8>,
    pub meta: PostMetaV,
}

impl PostV {
    pub open spec fn wf(self) -> bool {
        self.hash.len() == crypto::HASH_LENGTH && self.signature.len()
            == crypto::SIGNATURE_LENGTH && self.meta.wf()
    }
}

/// Whether a post is internally sound: its hash is the hash of its
/// serialized metadata, and its signature over that hash verifies under
/// the given publisher key.
pub open spec fn post_valid(p: PostV, publisher_key: Seq<u8>) -> bool {
    p.hash == crypto::hash_of(spec_enc_post_meta(p.meta)) && crypto::sig_ok(
        p.signature,
        p.hash,
        publisher_key,
    )
}

/// A post: its timeline-local id, its hash, the signature over that hash,
/// and its metadata.
#[derive(Debug, PartialEq, Eq)]
pub struct Post {
    pub id: u64,
    /// The hash of the serialized `meta`.
    pub hash: HashCode,
    pub signature: Signature,
    pub meta: PostMeta,
}

impl View for Post {
    type V = PostV;

    open spec fn view(&self) -> PostV {
        PostV { id: self.id, hash: self.hash@, signature: self.signature@, meta: self.meta@ }
    }
}

impl Clone for Post {
    fn clone(&self) -> (r: Self)
        ensures
            r@ == self@,
    {
        Post {
            id: self.id,
            hash: self.hash.clone(),
            signature: self.signature.clone(),
            meta: self.meta.clone(),
        }
    }
}

pub open spec fn spec_enc_post(v: PostV) -> Seq<u8>
    recommends
        v.wf(),
{
    codec::spec_enc_u64(v.id) + v.hash + v.signature + spec_enc_post_meta(v.meta)
}

pub open spec fn spec_dec_post(s: Seq<u8>) -> Option<(PostV, int)> {
    match codec::spec_dec_u64(s) {
        None => None,
        Some((id, c0)) => match crypto::spec_dec_hash(s.skip(c0)) {
            None => None,
            Some((hash, c1)) => match crypto::spec_dec_sig(s.skip(c0 + c1)) {
                None => None,
                Some((signature, c2)) => match spec_dec_post_meta(s.skip(c0 + c1 + c2)) {
                    None => None,
                    Some((meta, c3)) => Some(
                        (PostV { id, hash, signature, meta }, c0 + c1 + c2 + c3),
                    ),
                },
            },
        },
    }
}

pub proof fn lemma_dec_enc_post(v: PostV, rest: Seq<u8>)
    requires
        v.wf(),
    ensures
        spec_dec_post(spec_enc_post(v) + rest) == Some((v, spec_enc_post(v).len() as int)),
{
    let e3 = spec_enc_post_meta(v.meta);
    let s = spec_enc_post(v) + rest;
    assert(s =~= codec::spec_enc_u64(v.id) + (v.hash + (v.signature + (e3 + rest))));
    codec::lemma_dec_enc_u64(v.id, v.hash + (v.signature + (e3 + rest)));
    assert(s.skip(8) =~= v.hash + (v.signature + (e3 + rest)));
    crypto::lemma_dec_enc_hash(v.hash, v.signature + (e3 + rest));
    assert(s.skip(8 + crypto::HASH_LENGTH as int) =~= v.signature + (e3 + rest));
    crypto::lemma_dec_enc_sig(v.signature, e3 + rest);
    assert(s.skip(8 + crypto::HASH_LENGTH as int + crypto::SIGNATURE_LENGTH as int) =~= e3
        + rest);
    lemma_dec_enc_post_meta(v.meta, rest);
}

/// Appends a post.
pub fn enc_post(out: &mut Vec<u8>, v: &Post)
    requires
        v@.wf(),
    ensures
        final(out)@ == old(out)@ + spec_enc_post(v@),
{
    codec::enc_u64(out, v.id);
    crypto::enc_hash(out, &v.hash);
    crypto::enc_sig(out, &v.signature);
    enc_post_meta(out, &v.meta);
    assert(out@ =~= old(out)@ + spec_enc_post(v@));
}

/// Reads a post.
pub fn dec_post(buf: &Vec<u8>, pos: usize) -> (r: Result<(Post, usize), MessageMalformedError>)
    requires
        pos <= buf@.len(),
    ensures
        match r {
            Ok((v, end)) => pos <= end <= buf@.len() && v@.wf() && spec_dec_post(
                buf@.skip(pos as int),
            ) == Some((v@, end - pos)),
            Err(e) => spec_dec_post(buf@.skip(pos as int)) is None && (e matches
                MessageMalformedError::MissingData(_) || e matches
                MessageMalformedError::InvalidUtf8(_)),
        },
{
    let (id, p1) = codec::dec_u64(buf, pos, "post id")?;
    proof {
        assert(buf@.skip(pos as int).skip(p1 - pos) =~= buf@.skip(p1 as int));
    }
    let (hash, p2) = crypto::dec_hash(buf, p1, "post hash")?;
    proof {
        assert(buf@.skip(pos as int).skip(p2 - pos) =~= buf@.skip(p2 as int));
    }
    let (signature, p3) = crypto::dec_sig(buf, p2, "post signature")?;
    proof {
        assert(buf@.skip(pos as int).skip(p3 - pos) =~= buf@.skip(p3 as int));
    }
    let (meta, end) = dec_post_meta(buf, p3)?;
    Ok((Post { id, hash, signature, meta }, end))
}

} // verus!
