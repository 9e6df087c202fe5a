//! Request and response payloads.
//!
//! A `Posts` request names a publisher's timeline, a starting post id, a
//! count, and a bitmask of the ids the requester wants; bit `i`, LSB-first
//! inside each byte, stands for `post_id_start + i`. The response repeats a
//! bitmask of the ids the responder holds and carries those posts, in
//! ascending id order. `Blocks` payloads address a post and the blocks of
//! its files by hash.

use vstd::prelude::*;

use crate::codec;
use crate::crypto;
use crate::crypto::{HashCode, PublicKey};
use crate::error::MessageMalformedError;
use crate::post;
use crate::post::{Post, PostV};

verus! {

// ---------------------------------------------------------------------------
// Bitmasks
// ---------------------------------------------------------------------------

/// How many bytes a mask of `count` bits takes.
pub open spec fn spec_mask_len(count: u16) -> int {
    (count + 7) / 8
}

/// Bit `index` of a mask, LSB-first inside each byte.
pub open spec fn spec_bit(mask: Seq<u8>, index: int) -> bool
    recommends
        0 <= index,
        index / 8 < mask.len(),
{
    mask[index / 8] & (1u8 << (index % 8) as u8) != 0
}

/// Reads bit `index` of the mask.
pub fn get_bit(mask: &Vec<u8>, index: u16) -> (r: bool)
    requires
        (index / 8) < mask@.len(),
    ensures
        r == spec_bit(mask@, index as int),
{
    let byte = mask[(index / 8) as usize];
    let bit: u8 = (index % 8) as u8;
    (byte & (1u8 << bit)) != 0
}

/// Sets bit `index` of the mask, leaving every other bit as it was.
pub fn set_bit(mask: &mut Vec<u8>, index: u16)
    requires
        (index / 8) < old(mask)@.len(),
    ensures
        final(mask)@.len() == old(mask)@.len(),
        forall|j: int|
            0 <= j && j / 8 < old(mask)@.len() ==> #[trigger] spec_bit(final(mask)@, j) == (j
                == index || spec_bit(old(mask)@, j)),
{
    let at = (index / 8) as usize;
    let bit: u8 = (index % 8) as u8;
    let byte = mask[at];
    mask.set(at, byte | (1u8 << bit));
    proof {
        assert forall|j: int| 0 <= j && j / 8 < old(mask)@.len() implies #[trigger] spec_bit(
            mask@,
            j,
        ) == (j == index || spec_bit(old(mask)@, j)) by {
            let bj = (j % 8) as u8;
            let bi = (index as int % 8) as u8;
            if j / 8 == index as int / 8 {
                assert(bj < 8 && bi < 8 ==> ((byte | (1u8 << bi)) & (1u8 << bj) != 0) == (bi
                    == bj || byte & (1u8 << bj) != 0)) by (bit_vector);
                if j != index {
                    assert(bi != bj || j / 8 != index as int / 8 || j == index);
                }
            }
        }
    }
}

/// How many of the first `count` bits of the mask are set, from `i` on.
pub open spec fn spec_count_bits(mask: Seq<u8>, i: int, count: int) -> nat
    decreases count - i,
{
    if i >= count {
        0
    } else {
        (if spec_bit(mask, i) {
            1nat
        } else {
            0nat
        }) + spec_count_bits(mask, i + 1, count)
    }
}

// ---------------------------------------------------------------------------
// Posts request
// ---------------------------------------------------------------------------

/// The view of a posts request.
pub struct PostsRequestV {
    pub timeline_id: Seq<u8>,
    pub post_id_start: u64,
    pub post_id_count: u16,
    pub mask: Seq<u8>,
}

impl PostsRequestV {
    pub open spec fn wf(self) -> bool {
        self.timeline_id.len() == crypto::PUBLIC_KEY_LENGTH && self.mask.len() == spec_mask_len(
            self.post_id_count,
        )
    }
}

/// A request for a run of posts of one publisher's timeline.
#[derive(Debug, PartialEq, Eq)]
pub struct PostsRequest {
    /// The publisher whose timeline is asked.
    pub timeline_id: PublicKey,
    /// The first post id of the requested range.
    pub post_id_start: u64,
    /// How many ids the range covers.
    pub post_id_count: u16,
    /// Which ids of the range are wanted; bit `i` stands for
    /// `post_id_start + i`.
    pub mask: Vec<u8>,
}

impl View for PostsRequest {
    type V = PostsRequestV;

    open spec fn view(&self) -> PostsRequestV {
        PostsRequestV {
            timeline_id: self.timeline_id@,
            post_id_start: self.post_id_start,
            post_id_count: self.post_id_count,
            mask: self.mask@,
        }
    }
}

pub open spec fn spec_enc_posts_request(m: PostsRequestV) -> Seq<u8>
    recommends
        m.wf(),
{
    m.timeline_id + codec::spec_enc_u64(m.post_id_start) + codec::spec_enc_u16(m.post_id_count)
        + m.mask
}

pub open spec fn spec_dec_posts_request(s: Seq<u8>) -> Option<(PostsRequestV, int)> {
    match crypto::spec_dec_key(s) {
        None => None,
        Some((timeline_id, c0)) => match codec::spec_dec_u64(s.skip(c0)) {
            None => None,
            Some((start, c1)) => match codec::spec_dec_u16(s.skip(c0 + c1)) {
                None => None,
                Some((count, c2)) => match codec::spec_dec_bytes(
                    s.skip(c0 + c1 + c2),
                    spec_mask_len(count),
                ) {
                    None => None,
                    Some((mask, c3)) => Some(
                        (
                            PostsRequestV {
                                timeline_id,
                                post_id_start: start,
                                post_id_count: count,
                                mask,
                            },
                            c0 + c1 + c2 + c3,
                        ),
                    ),
                },
            },
        },
    }
}

pub proof fn lemma_dec_enc_posts_request(m: PostsRequestV, rest: Seq<u8>)
    requires
        m.wf(),
    ensures
        spec_dec_posts_request(spec_enc_posts_request(m) + rest) == Some(
            (m, spec_enc_posts_request(m).len() as int),
        ),
{
    let s = spec_enc_posts_request(m) + rest;
    assert(s =~= m.timeline_id + (codec::spec_enc_u64(m.post_id_start) + (codec::spec_enc_u16(
        m.post_id_count,
    ) + (m.mask + rest))));
    crypto::lemma_dec_enc_key(
        m.timeline_id,
        codec::spec_enc_u64(m.post_id_start) + (codec::spec_enc_u16(m.post_id_count) + (m.mask
            + rest)),
    );
    assert(s.skip(crypto::PUBLIC_KEY_LENGTH as int) =~= codec::spec_enc_u64(m.post_id_start) + (
    codec::spec_enc_u16(m.post_id_count) + (m.mask + rest)));
    codec::lemma_dec_enc_u64(
        m.post_id_start,
        codec::spec_enc_u16(m.post_id_count) + (m.mask + rest),
    );
    assert(s.skip(crypto::PUBLIC_KEY_LENGTH + 8) =~= codec::spec_enc_u16(m.post_id_count) + (
    m.mask + rest));
    codec::lemma_dec_enc_u16(m.post_id_count, m.mask + rest);
    assert(s.skip(crypto::PUBLIC_KEY_LENGTH + 10) =~= m.mask + rest);
    codec::lemma_dec_enc_bytes(m.mask, rest);
}

/// Appends a posts request.
pub fn enc_posts_request(out: &mut Vec<u8>, m: &PostsRequest)
    requires
        m@.wf(),
    ensures
        final(out)@ == old(out)@ + spec_enc_posts_request(m@),
{
    crypto::enc_key(out, &m.timeline_id);
    codec::enc_u64(out, m.post_id_start);
    codec::enc_u16(out, m.post_id_count);
    codec::push_bytes(out, &m.mask);
    assert(out@ =~= old(out)@ + spec_enc_posts_request(m@));
}

/// Reads a posts request.
pub fn dec_posts_request(buf: &Vec<u8>, pos: usize) -> (r: Result<
    (PostsRequest, usize),
    MessageMalformedError,
>)
    requires
        pos <= buf@.len(),
    ensures
        match r {
            Ok((m, end)) => pos <= end <= buf@.len() && m@.wf() && spec_dec_posts_request(
                buf@.skip(pos as int),
            ) == Some((m@, end - pos)),
            Err(e) => spec_dec_posts_request(buf@.skip(pos as int)) is None && e matches
                MessageMalformedError::MissingData(_),
        },
{
    let (timeline_id, p1) = crypto::dec_key(buf, pos, "posts request timeline")?;
    proof {
        assert(buf@.skip(pos as int).skip(p1 - pos) =~= buf@.skip(p1 as int));
    }
    let (post_id_start, p2) = codec::dec_u64(buf, p1, "posts request start")?;
    proof {
        assert(buf@.skip(pos as int).skip(p2 - pos) =~= buf@.skip(p2 as int));
    }
    let (post_id_count, p3) = codec::dec_u16(buf, p2, "posts request count")?;
    proof {
        assert(buf@.skip(pos as int).skip(p3 - pos) =~= buf@.skip(p3 as int));
    }
    let mask_len: usize = (post_id_count as usize + 7) / 8;
    let (mask, end) = codec::dec_bytes(buf, p3, mask_len, "posts request mask")?;
    Ok((PostsRequest { timeline_id, post_id_start, post_id_count, mask }, end))
}

} // verus!

// ---------------------------------------------------------------------------
// Posts response
// ---------------------------------------------------------------------------

verus! {

/// The views of a vector of posts.
pub open spec fn spec_posts_view(v: Seq<Post>) -> Seq<PostV> {
    Seq::new(v.len(), |i: int| v[i]@)
}

pub open spec fn spec_enc_posts_run(ps: Seq<PostV>) -> Seq<u8>
    decreases ps.len(),
{
    if ps.len() == 0 {
        Seq::empty()
    } else {
        post::spec_enc_post(ps[0]) + spec_enc_posts_run(ps.drop_first())
    }
}

/// The view of a posts response: the mask of the ids the responder holds,
/// and those posts back to back.
pub struct PostsResponseV {
    pub mask: Seq<u8>,
    pub posts: Seq<PostV>,
}

/// The payload of a successful posts response. Its width depends on the
/// request's `post_id_count`: the mask covers that many bits, and one post
/// follows for each set bit, in ascending id order.
#[derive(Debug, PartialEq, Eq)]
pub struct PostsResponse {
    /// Which requested ids the responder holds.
    pub mask: Vec<u8>,
    /// The posts for the set bits, in ascending id order.
    pub posts: Vec<Post>,
}

impl View for PostsResponse {
    type V = PostsResponseV;

    open spec fn view(&self) -> PostsResponseV {
        PostsResponseV { mask: self.mask@, posts: spec_posts_view(self.posts@) }
    }
}

pub open spec fn spec_enc_posts_response(m: PostsResponseV) -> Seq<u8> {
    m.mask + spec_enc_posts_run(m.posts)
}

pub open spec fn spec_dec_posts_run(s: Seq<u8>, mask: Seq<u8>, i: int, count: int) -> Option<
    (Seq<PostV>, int),
>
    decreases count - i,
{
    if i >= count {
        Some((Seq::empty(), 0int))
    } else if spec_bit(mask, i) {
        match post::spec_dec_post(s) {
            None => None,
            Some((p, c)) => match spec_dec_posts_run(s.skip(c), mask, i + 1, count) {
                None => None,
                Some((ps, c2)) => Some((seq![p] + ps, c + c2)),
            },
        }
    } else {
        spec_dec_posts_run(s, mask, i + 1, count)
    }
}

pub open spec fn spec_dec_posts_response(s: Seq<u8>, count: u16) -> Option<
    (PostsResponseV, int),
> {
    match codec::spec_dec_bytes(s, spec_mask_len(count)) {
        None => None,
        Some((mask, c0)) => match spec_dec_posts_run(s.skip(c0), mask, 0, count as int) {
            None => None,
            Some((ps, c)) => Some((PostsResponseV { mask, posts: ps }, c0 + c)),
        },
    }
}

pub proof fn lemma_enc_posts_run_push(ps: Seq<PostV>, p: PostV)
    ensures
        spec_enc_posts_run(ps + seq![p]) == spec_enc_posts_run(ps) + post::spec_enc_post(p),
    decreases ps.len(),
{
    let e = post::spec_enc_post(p);
    if ps.len() == 0 {
        assert(ps + seq![p] =~= seq![p]);
        assert(seq![p].drop_first() =~= Seq::<PostV>::empty());
        assert(spec_enc_posts_run(Seq::<PostV>::empty()) =~= Seq::<u8>::empty());
        assert(spec_enc_posts_run(ps + seq![p]) == e + Seq::<u8>::empty());
        assert(e + Seq::<u8>::empty() =~= e);
        assert(spec_enc_posts_run(ps) + e =~= e);
    } else {
        assert((ps + seq![p])[0] == ps[0]);
        assert((ps + seq![p]).drop_first() =~= ps.drop_first() + seq![p]);
        lemma_enc_posts_run_push(ps.drop_first(), p);
        assert(spec_enc_posts_run(ps + seq![p]) == post::spec_enc_post(ps[0]) + (
        spec_enc_posts_run(ps.drop_first()) + e));
        assert(post::spec_enc_post(ps[0]) + (spec_enc_posts_run(ps.drop_first()) + e) =~= (
        post::spec_enc_post(ps[0]) + spec_enc_posts_run(ps.drop_first())) + e);
    }
}

pub proof fn lemma_dec_enc_posts_run(
    ps: Seq<PostV>,
    mask: Seq<u8>,
    i: int,
    count: int,
    rest: Seq<u8>,
)
    requires
        0 <= i <= count,
        ps.len() == spec_count_bits(mask, i, count),
        forall|j: int| 0 <= j < ps.len() ==> (#[trigger] ps[j]).wf(),
    ensures
        spec_dec_posts_run(spec_enc_posts_run(ps) + rest, mask, i, count) == Some(
            (ps, spec_enc_posts_run(ps).len() as int),
        ),
    decreases count - i,
{
    if i >= count {
        assert(ps =~= Seq::<PostV>::empty());
        assert(spec_enc_posts_run(ps) + rest =~= rest);
    } else if spec_bit(mask, i) {
        assert(ps.len() >= 1);
        let s = spec_enc_posts_run(ps) + rest;
        let p = ps[0];
        let e = post::spec_enc_post(p);
        assert(s =~= e + (spec_enc_posts_run(ps.drop_first()) + rest));
        post::lemma_dec_enc_post(p, spec_enc_posts_run(ps.drop_first()) + rest);
        assert(s.skip(e.len() as int) =~= spec_enc_posts_run(ps.drop_first()) + rest);
        lemma_dec_enc_posts_run(ps.drop_first(), mask, i + 1, count, rest);
        assert(seq![p] + ps.drop_first() =~= ps);
    } else {
        lemma_dec_enc_posts_run(ps, mask, i + 1, count, rest);
    }
}

pub proof fn lemma_dec_enc_posts_response(m: PostsResponseV, count: u16, rest: Seq<u8>)
    requires
        m.mask.len() == spec_mask_len(count),
        m.posts.len() == spec_count_bits(m.mask, 0, count as int),
        forall|j: int| 0 <= j < m.posts.len() ==> (#[trigger] m.posts[j]).wf(),
    ensures
        spec_dec_posts_response(spec_enc_posts_response(m) + rest, count) == Some(
            (m, spec_enc_posts_response(m).len() as int),
        ),
{
    let s = spec_enc_posts_response(m) + rest;
    assert(s =~= m.mask + (spec_enc_posts_run(m.posts) + rest));
    codec::lemma_dec_enc_bytes(m.mask, spec_enc_posts_run(m.posts) + rest);
    assert(s.skip(m.mask.len() as int) =~= spec_enc_posts_run(m.posts) + rest);
    lemma_dec_enc_posts_run(m.posts, m.mask, 0, count as int, rest);
}

/// Appends a posts response: the found mask, then the posts.
pub fn enc_posts_response(out: &mut Vec<u8>, m: &PostsResponse)
    requires
        forall|j: int| 0 <= j < m.posts@.len() ==> (#[trigger] m.posts@[j]@).wf(),
    ensures
        final(out)@ == old(out)@ + spec_enc_posts_response(m@),
{
    codec::push_bytes(out, &m.mask);
    let n = m.posts.len();
    let mut i: usize = 0;
    while i < n
        invariant
            i <= n,
            n == m.posts@.len(),
            forall|j: int| 0 <= j < m.posts@.len() ==> (#[trigger] m.posts@[j]@).wf(),
            out@ == old(out)@ + m.mask@ + spec_enc_posts_run(
                spec_posts_view(m.posts@).subrange(0, i as int),
            ),
        decreases n - i,
    {
        assert(spec_posts_view(m.posts@)[i as int].wf());
        post::enc_post(out, &m.posts[i]);
        proof {
            let pv = spec_posts_view(m.posts@);
            lemma_enc_posts_run_push(pv.subrange(0, i as int), pv[i as int]);
            assert(pv.subrange(0, i as int) + seq![pv[i as int]] =~= pv.subrange(0, i + 1));
        }
        i = i + 1;
    }
    proof {
        assert(spec_posts_view(m.posts@).subrange(0, n as int) =~= spec_posts_view(m.posts@));
        assert(out@ =~= old(out)@ + spec_enc_posts_response(m@));
    }
}

/// Reads a posts response, whose width the request's count determines.
pub fn dec_posts_response(buf: &Vec<u8>, pos: usize, count: u16) -> (r: Result<
    (PostsResponse, usize),
    MessageMalformedError,
>)
    requires
        pos <= buf@.len(),
    ensures
        match r {
            Ok((m, end)) => pos <= end <= buf@.len() && m.mask@.len() == spec_mask_len(count)
                && (forall|j: int| 0 <= j < m.posts@.len() ==> (#[trigger] m.posts@[j]@).wf())
                && spec_dec_posts_response(buf@.skip(pos as int), count) == Some(
                (m@, end - pos),
            ),
            Err(e) => spec_dec_posts_response(buf@.skip(pos as int), count) is None && (e matches
                MessageMalformedError::MissingData(_) || e matches
                MessageMalformedError::InvalidUtf8(_)),
        },
{
    let mask_len: usize = (count as usize + 7) / 8;
    let (mask, start) = codec::dec_bytes(buf, pos, mask_len, "posts response mask")?;
    proof {
        assert(buf@.skip(pos as int).skip(start - pos) =~= buf@.skip(start as int));
    }
    let mut posts: Vec<Post> = Vec::new();
    let mut p = start;
    let mut i: u16 = 0;
    while i < count
        invariant
            i <= count,
            pos <= start <= p <= buf@.len(),
            mask@.len() == spec_mask_len(count),
            forall|j: int| 0 <= j < posts@.len() ==> (#[trigger] posts@[j]@).wf(),
            codec::spec_dec_bytes(buf@.skip(pos as int), spec_mask_len(count)) == Some(
                (mask@, (start - pos) as int),
            ),
            spec_dec_posts_run(buf@.skip(start as int), mask@, 0, count as int) == (match
                spec_dec_posts_run(buf@.skip(p as int), mask@, i as int, count as int) {
                None => None::<(Seq<PostV>, int)>,
                Some((ps, c)) => Some((spec_posts_view(posts@) + ps, (p - start) + c)),
            }),
        decreases count - i,
    {
        let ghost p_old = p as int;
        let ghost posts_old = posts@;
        if get_bit(&mask, i) {
            let d = match post::dec_post(buf, p) {
                Ok(dp) => dp,
                Err(e) => {
                    proof {
                        assert(spec_dec_posts_run(
                            buf@.skip(p as int),
                            mask@,
                            i as int,
                            count as int,
                        ) is None);
                        assert(buf@.skip(pos as int).skip(start - pos) =~= buf@.skip(
                            start as int,
                        ));
                    }
                    return Err(e);
                },
            };
            proof {
                assert(buf@.skip(p_old).skip(d.1 - p_old) =~= buf@.skip(d.1 as int));
            }
            p = d.1;
            posts.push(d.0);
            proof {
                let last = posts@[posts@.len() - 1]@;
                assert(spec_posts_view(posts@) =~= spec_posts_view(posts_old) + seq![last]);
                assert(forall|ps: Seq<PostV>| #![trigger seq![last] + ps]
                    spec_posts_view(posts_old) + (seq![last] + ps) =~= (spec_posts_view(
                        posts_old,
                    ) + seq![last]) + ps);
            }
        }
        i = i + 1;
    }
    proof {
        assert(spec_dec_posts_run(buf@.skip(p as int), mask@, count as int, count as int) == Some(
            (Seq::<PostV>::empty(), 0int),
        ));
        assert(spec_posts_view(posts@) + Seq::<PostV>::empty() =~= spec_posts_view(posts@));
        assert(buf@.skip(pos as int).skip(start - pos) =~= buf@.skip(start as int));
    }
    Ok((PostsResponse { mask, posts }, p))
}

// ---------------------------------------------------------------------------
// Blocks request and response
// ---------------------------------------------------------------------------

/// The view of a blocks request.
pub struct BlocksRequestV {
    pub post_id: Seq<u8>,
    pub block_ids: Seq<Seq<u8>>,
}

impl BlocksRequestV {
    pub open spec fn wf(self) -> bool {
        self.post_id.len() == crypto::HASH_LENGTH && post::wf_hashes(self.block_ids)
    }
}

/// A request for the data of blocks of a post.
#[derive(Debug, PartialEq, Eq)]
pub struct BlocksRequest {
    pub post_id: HashCode,
    pub block_ids: Vec<HashCode>,
}

impl View for BlocksRequest {
    type V = BlocksRequestV;

    open spec fn view(&self) -> BlocksRequestV {
        BlocksRequestV {
            post_id: self.post_id@,
            block_ids: post::spec_hashes_view(self.block_ids@),
        }
    }
}

pub open spec fn spec_enc_blocks_request(m: BlocksRequestV) -> Seq<u8>
    recommends
        m.wf(),
{
    m.post_id + post::spec_enc_hash_list(m.block_ids)
}

pub open spec fn spec_dec_blocks_request(s: Seq<u8>) -> Option<(BlocksRequestV, int)> {
    match crypto::spec_dec_hash(s) {
        None => None,
        Some((post_id, c0)) => match post::spec_dec_hash_list(s.skip(c0)) {
            None => None,
            Some((ids, c1)) => Some((BlocksRequestV { post_id, block_ids: ids }, c0 + c1)),
        },
    }
}

pub proof fn lemma_dec_enc_blocks_request(m: BlocksRequestV, rest: Seq<u8>)
    requires
        m.wf(),
    ensures
        spec_dec_blocks_request(spec_enc_blocks_request(m) + rest) == Some(
            (m, spec_enc_blocks_request(m).len() as int),
        ),
{
    let e1 = post::spec_enc_hash_list(m.block_ids);
    let s = spec_enc_blocks_request(m) + rest;
    assert(s =~= m.post_id + (e1 + rest));
    crypto::lemma_dec_enc_hash(m.post_id, e1 + rest);
    assert(s.skip(crypto::HASH_LENGTH as int) =~= e1 + rest);
    post::lemma_dec_enc_hash_list(m.block_ids, rest);
}

/// Appends a blocks request.
pub fn enc_blocks_request(out: &mut Vec<u8>, m: &BlocksRequest)
    requires
        m@.wf(),
    ensures
        final(out)@ == old(out)@ + spec_enc_blocks_request(m@),
{
    crypto::enc_hash(out, &m.post_id);
    post::enc_hash_list(out, &m.block_ids);
    assert(out@ =~= old(out)@ + spec_enc_blocks_request(m@));
}

/// Reads a blocks request.
pub fn dec_blocks_request(buf: &Vec<u8>, pos: usize) -> (r: Result<
    (BlocksRequest, usize),
    MessageMalformedError,
>)
    requires
        pos <= buf@.len(),
    ensures
        match r {
            Ok((m, end)) => pos <= end <= buf@.len() && m@.wf() && spec_dec_blocks_request(
                buf@.skip(pos as int),
            ) == Some((m@, end - pos)),
            Err(e) => spec_dec_blocks_request(buf@.skip(pos as int)) is None && e matches
                MessageMalformedError::MissingData(_),
        },
{
    let (post_id, p1) = crypto::dec_hash(buf, pos, "blocks request post")?;
    proof {
        assert(buf@.skip(pos as int).skip(p1 - pos) =~= buf@.skip(p1 as int));
    }
    let (block_ids, end) = post::dec_hash_list(buf, p1, "blocks request ids")?;
    Ok((BlocksRequest { post_id, block_ids }, end))
}

} // verus!

// ---------------------------------------------------------------------------
// Counting mask bits
// ---------------------------------------------------------------------------

verus! {

/// Counting one more bit adds that bit.
pub proof fn lemma_count_bits_snoc(mask: Seq<u8>, a: int, c: int)
    requires
        a <= c,
    ensures
        spec_count_bits(mask, a, c + 1) == spec_count_bits(mask, a, c) + (if spec_bit(mask, c) {
            1nat
        } else {
            0nat
        }),
    decreases c - a,
{
    if a < c {
        lemma_count_bits_snoc(mask, a + 1, c);
    } else {
        assert(spec_count_bits(mask, a, a) == 0);
        assert(spec_count_bits(mask, a + 1, a + 1) == 0);
    }
}

/// Two masks that agree on a range of bits count the same over it.
pub proof fn lemma_count_bits_congruent(m1: Seq<u8>, m2: Seq<u8>, a: int, c: int)
    requires
        forall|j: int| a <= j < c ==> #[trigger] spec_bit(m1, j) == spec_bit(m2, j),
    ensures
        spec_count_bits(m1, a, c) == spec_count_bits(m2, a, c),
    decreases c - a,
{
    if a < c {
        lemma_count_bits_congruent(m1, m2, a + 1, c);
    }
}

} // verus!

// ---------------------------------------------------------------------------
// Blocks response
// ---------------------------------------------------------------------------

verus! {

/// Whether a run of raw chunks fits behind little-endian length words.
pub open spec fn wf_chunks(bs: Seq<Seq<u8>>) -> bool {
    bs.len() <= u32::MAX && forall|i: int|
        0 <= i < bs.len() ==> (#[trigger] bs[i]).len() <= u32::MAX
}

/// One chunk of raw bytes: a little-endian length word, then the bytes.
pub open spec fn spec_enc_chunk(b: Seq<u8>) -> Seq<u8>
    recommends
        b.len() <= u32::MAX,
{
    codec::spec_enc_u32(b.len() as u32) + b
}

pub open spec fn spec_dec_chunk(s: Seq<u8>) -> Option<(Seq<u8>, int)> {
    match codec::spec_dec_u32(s) {
        None => None,
        Some((n, c0)) => match codec::spec_dec_bytes(s.skip(c0), n as int) {
            None => None,
            Some((b, c)) => Some((b, c0 + c)),
        },
    }
}

pub open spec fn spec_enc_chunk_run(bs: Seq<Seq<u8>>) -> Seq<u8>
    decreases bs.len(),
{
    if bs.len() == 0 {
        Seq::empty()
    } else {
        spec_enc_chunk(bs[0]) + spec_enc_chunk_run(bs.drop_first())
    }
}

/// A chunk list: a little-endian count, then the chunks.
pub open spec fn spec_enc_chunk_list(bs: Seq<Seq<u8>>) -> Seq<u8>
    recommends
        wf_chunks(bs),
{
    codec::spec_enc_u32(bs.len() as u32) + spec_enc_chunk_run(bs)
}

pub open spec fn spec_dec_chunk_run(s: Seq<u8>, n: nat) -> Option<(Seq<Seq<u8>>, int)>
    decreases n,
{
    if n == 0 {
        Some((Seq::empty(), 0int))
    } else {
        match spec_dec_chunk(s) {
            None => None,
            Some((b, c)) => match spec_dec_chunk_run(s.skip(c), (n - 1) as nat) {
                None => None,
                Some((bs, c2)) => Some((seq![b] + bs, c + c2)),
            },
        }
    }
}

pub open spec fn spec_dec_chunk_list(s: Seq<u8>) -> Option<(Seq<Seq<u8>>, int)> {
    match codec::spec_dec_u32(s) {
        None => None,
        Some((n, c0)) => match spec_dec_chunk_run(s.skip(c0), n as nat) {
            None => None,
            Some((bs, c)) => Some((bs, c0 + c)),
        },
    }
}

pub proof fn lemma_dec_enc_chunk(b: Seq<u8>, rest: Seq<u8>)
    requires
        b.len() <= u32::MAX,
    ensures
        spec_dec_chunk(spec_enc_chunk(b) + rest) == Some((b, spec_enc_chunk(b).len() as int)),
{
    let s = spec_enc_chunk(b) + rest;
    codec::lemma_dec_enc_u32(b.len() as u32, b + rest);
    assert(codec::spec_enc_u32(b.len() as u32) + (b + rest) =~= s);
    assert(s.skip(4) =~= b + rest);
    codec::lemma_dec_enc_bytes(b, rest);
}

pub proof fn lemma_enc_chunk_run_push(bs: Seq<Seq<u8>>, b: Seq<u8>)
    ensures
        spec_enc_chunk_run(bs + seq![b]) == spec_enc_chunk_run(bs) + spec_enc_chunk(b),
    decreases bs.len(),
{
    let e = spec_enc_chunk(b);
    if bs.len() == 0 {
        assert(bs + seq![b] =~= seq![b]);
        assert(seq![b].drop_first() =~= Seq::<Seq<u8>>::empty());
        assert(spec_enc_chunk_run(Seq::<Seq<u8>>::empty()) =~= Seq::<u8>::empty());
        assert(spec_enc_chunk_run(bs + seq![b]) == e + Seq::<u8>::empty());
        assert(e + Seq::<u8>::empty() =~= e);
        assert(spec_enc_chunk_run(bs) + e =~= e);
    } else {
        assert((bs + seq![b])[0] == bs[0]);
        assert((bs + seq![b]).drop_first() =~= bs.drop_first() + seq![b]);
        lemma_enc_chunk_run_push(bs.drop_first(), b);
        assert(spec_enc_chunk_run(bs + seq![b]) == spec_enc_chunk(bs[0]) + (spec_enc_chunk_run(
            bs.drop_first(),
        ) + e));
        assert(spec_enc_chunk(bs[0]) + (spec_enc_chunk_run(bs.drop_first()) + e) =~= (
        spec_enc_chunk(bs[0]) + spec_enc_chunk_run(bs.drop_first())) + e);
    }
}

pub proof fn lemma_dec_enc_chunk_run(bs: Seq<Seq<u8>>, rest: Seq<u8>)
    requires
        forall|i: int| 0 <= i < bs.len() ==> (#[trigger] bs[i]).len() <= u32::MAX,
    ensures
        spec_dec_chunk_run(spec_enc_chunk_run(bs) + rest, bs.len()) == Some(
            (bs, spec_enc_chunk_run(bs).len() as int),
        ),
    decreases bs.len(),
{
    if bs.len() == 0 {
        assert(spec_enc_chunk_run(bs) + rest =~= rest);
        assert(bs =~= Seq::<Seq<u8>>::empty());
    } else {
        let s = spec_enc_chunk_run(bs) + rest;
        let b = bs[0];
        let e = spec_enc_chunk(b);
        assert(s =~= e + (spec_enc_chunk_run(bs.drop_first()) + rest));
        lemma_dec_enc_chunk(b, spec_enc_chunk_run(bs.drop_first()) + rest);
        assert(s.skip(e.len() as int) =~= spec_enc_chunk_run(bs.drop_first()) + rest);
        lemma_dec_enc_chunk_run(bs.drop_first(), rest);
        assert(seq![b] + bs.drop_first() =~= bs);
    }
}

pub proof fn lemma_dec_enc_chunk_list(bs: Seq<Seq<u8>>, rest: Seq<u8>)
    requires
        wf_chunks(bs),
    ensures
        spec_dec_chunk_list(spec_enc_chunk_list(bs) + rest) == Some(
            (bs, spec_enc_chunk_list(bs).len() as int),
        ),
{
    let s = spec_enc_chunk_list(bs) + rest;
    codec::lemma_dec_enc_u32(bs.len() as u32, spec_enc_chunk_run(bs) + rest);
    assert(codec::spec_enc_u32(bs.len() as u32) + (spec_enc_chunk_run(bs) + rest) =~= s);
    assert(s.skip(4) =~= spec_enc_chunk_run(bs) + rest);
    lemma_dec_enc_chunk_run(bs, rest);
}

/// A response to a blocks request: the data of the blocks asked for.
#[derive(Debug, PartialEq, Eq)]
pub struct BlocksResponse {
    pub data: Vec<Vec<u8>>,
}

impl View for BlocksResponse {
    type V = Seq<Seq<u8>>;

    open spec fn view(&self) -> Seq<Seq<u8>> {
        crate::store::spec_blocks_view(self.data@)
    }
}

/// Appends a blocks response: a chunk per block.
pub fn enc_blocks_response(out: &mut Vec<u8>, m: &BlocksResponse)
    requires
        wf_chunks(m@),
    ensures
        final(out)@ == old(out)@ + spec_enc_chunk_list(m@),
{
    let n = m.data.len();
    codec::enc_u32(out, n as u32);
    let mut i: usize = 0;
    while i < n
        invariant
            i <= n,
            n == m.data@.len(),
            wf_chunks(m@),
            out@ == old(out)@ + codec::spec_enc_u32(n as u32) + spec_enc_chunk_run(
                m@.subrange(0, i as int),
            ),
        decreases n - i,
    {
        assert(m@[i as int].len() <= u32::MAX);
        codec::enc_u32(out, m.data[i].len() as u32);
        codec::push_bytes(out, &m.data[i]);
        proof {
            lemma_enc_chunk_run_push(m@.subrange(0, i as int), m@[i as int]);
            assert(m@.subrange(0, i as int) + seq![m@[i as int]] =~= m@.subrange(0, i + 1));
            assert(out@ =~= old(out)@ + codec::spec_enc_u32(n as u32) + spec_enc_chunk_run(
                m@.subrange(0, i + 1),
            ));
        }
        i = i + 1;
    }
    proof {
        assert(m@.subrange(0, n as int) =~= m@);
    }
}

/// Reads a blocks response.
pub fn dec_blocks_response(buf: &Vec<u8>, pos: usize) -> (r: Result<
    (BlocksResponse, usize),
    MessageMalformedError,
>)
    requires
        pos <= buf@.len(),
    ensures
        match r {
            Ok((m, end)) => pos <= end <= buf@.len() && wf_chunks(m@) && spec_dec_chunk_list(
                buf@.skip(pos as int),
            ) == Some((m@, end - pos)),
            Err(e) => spec_dec_chunk_list(buf@.skip(pos as int)) is None && e matches
                MessageMalformedError::MissingData(_),
        },
{
    let (n, start) = codec::dec_u32(buf, pos, "blocks response count")?;
    proof {
        assert(buf@.skip(pos as int).skip(start - pos) =~= buf@.skip(start as int));
    }
    let mut data: Vec<Vec<u8>> = Vec::new();
    let mut p = start;
    let mut i: u32 = 0;
    while i < n
        invariant
            i <= n,
            pos <= start <= p <= buf@.len(),
            data@.len() == i,
            wf_chunks(crate::store::spec_blocks_view(data@)),
            codec::spec_dec_u32(buf@.skip(pos as int)) == Some((n, (start - pos) as int)),
            spec_dec_chunk_run(buf@.skip(start as int), n as nat) == (match spec_dec_chunk_run(
                buf@.skip(p as int),
                (n - i) as nat,
            ) {
                None => None::<(Seq<Seq<u8>>, int)>,
                Some((bs, c)) => Some(
                    (crate::store::spec_blocks_view(data@) + bs, (p - start) + c),
                ),
            }),
        decreases n - i,
    {
        let ghost p_old = p as int;
        let ghost data_old = data@;
        let chunk = match codec::dec_u32(buf, p, "block length") {
            Ok((len, p1)) => {
                proof {
                    assert(buf@.skip(p_old).skip(p1 - p) =~= buf@.skip(p1 as int));
                }
                match codec::dec_bytes(buf, p1, len as usize, "block data") {
                    Ok(x) => x,
                    Err(e) => {
                        proof {
                            assert(spec_dec_chunk_run(
                                buf@.skip(p as int),
                                (n - i) as nat,
                            ) is None);
                            assert(buf@.skip(pos as int).skip(start - pos) =~= buf@.skip(
                                start as int,
                            ));
                        }
                        return Err(e);
                    },
                }
            },
            Err(e) => {
                proof {
                    assert(spec_dec_chunk_run(buf@.skip(p as int), (n - i) as nat) is None);
                    assert(buf@.skip(pos as int).skip(start - pos) =~= buf@.skip(start as int));
                }
                return Err(e);
            },
        };
        proof {
            assert(buf@.skip(p_old).skip(chunk.1 - p_old) =~= buf@.skip(chunk.1 as int));
        }
        p = chunk.1;
        data.push(chunk.0);
        proof {
            let last = data@[data@.len() - 1]@;
            assert(crate::store::spec_blocks_view(data@) =~= crate::store::spec_blocks_view(
                data_old,
            ) + seq![last]);
            assert(forall|bs: Seq<Seq<u8>>| #![trigger seq![last] + bs]
                crate::store::spec_blocks_view(data_old) + (seq![last] + bs) =~= (
                crate::store::spec_blocks_view(data_old) + seq![last]) + bs);
        }
        i = i + 1;
    }
    proof {
        assert(spec_dec_chunk_run(buf@.skip(p as int), 0) == Some((Seq::<Seq<u8>>::empty(), 0int)));
        assert(crate::store::spec_blocks_view(data@) + Seq::<Seq<u8>>::empty()
            =~= crate::store::spec_blocks_view(data@));
        assert(buf@.skip(pos as int).skip(start - pos) =~= buf@.skip(start as int));
    }
    Ok((BlocksResponse { data }, p))
}

} // verus!
