//! Primitives of the wire codec.
//!
//! Every number crosses the wire little-endian and fixed-width. Each
//! primitive has a specification-level encoding (`spec_enc_*`), a
//! specification-level decoding (`spec_dec_*`) that names the value and the
//! bytes consumed, executable encoders and decoders proved against those, and
//! a round-trip lemma: decoding bytes that begin with an encoding yields
//! exactly the encoded value.

use vstd::prelude::*;
use vstd::string::StrSliceExecFns;
use vstd::utf8::{decode_utf8, encode_utf8, valid_utf8};

use crate::error::MessageMalformedError;

verus! {

// ---------------------------------------------------------------------------
// Specification-level encodings
// ---------------------------------------------------------------------------

pub open spec fn spec_enc_u8(v: u8) -> Seq<u8> {
    seq![v]
}

pub open spec fn spec_enc_u16(v: u16) -> Seq<u8> {
    seq![(v & 0xff) as u8, ((v >> 8) & 0xff) as u8]
}

pub open spec fn spec_enc_u32(v: u32) -> Seq<u8> {
    seq![
        (v & 0xff) as u8,
        ((v >> 8) & 0xff) as u8,
        ((v >> 16) & 0xff) as u8,
        ((v >> 24) & 0xff) as u8,
    ]
}

pub open spec fn spec_enc_u64(v: u64) -> Seq<u8> {
    seq![
        (v & 0xff) as u8,
        ((v >> 8) & 0xff) as u8,
        ((v >> 16) & 0xff) as u8,
        ((v >> 24) & 0xff) as u8,
        ((v >> 32) & 0xff) as u8,
        ((v >> 40) & 0xff) as u8,
        ((v >> 48) & 0xff) as u8,
        ((v >> 56) & 0xff) as u8,
    ]
}

// ---------------------------------------------------------------------------
// Specification-level decodings
// ---------------------------------------------------------------------------

pub open spec fn spec_u16_of(b0: u8, b1: u8) -> u16 {
    (b0 as u16) | ((b1 as u16) << 8)
}

pub open spec fn spec_u32_of(b0: u8, b1: u8, b2: u8, b3: u8) -> u32 {
    (b0 as u32) | ((b1 as u32) << 8) | ((b2 as u32) << 16) | ((b3 as u32) << 24)
}

#[verifier::opaque]
pub open spec fn spec_u64_of(s: Seq<u8>) -> u64
    recommends
        s.len() == 8,
{
    (s[0] as u64) | ((s[1] as u64) << 8) | ((s[2] as u64) << 16) | ((s[3] as u64) << 24)
        | ((s[4] as u64) << 32) | ((s[5] as u64) << 40) | ((s[6] as u64) << 48)
        | ((s[7] as u64) << 56)
}

/// A decoding names the decoded value and how many bytes it consumed;
/// `None` stands for any failure.
pub open spec fn spec_dec_u8(s: Seq<u8>) -> Option<(u8, int)> {
    if s.len() >= 1 {
        Some((s[0], 1int))
    } else {
        None
    }
}

pub open spec fn spec_dec_u16(s: Seq<u8>) -> Option<(u16, int)> {
    if s.len() >= 2 {
        Some((spec_u16_of(s[0], s[1]), 2int))
    } else {
        None
    }
}

pub open spec fn spec_dec_u32(s: Seq<u8>) -> Option<(u32, int)> {
    if s.len() >= 4 {
        Some((spec_u32_of(s[0], s[1], s[2], s[3]), 4int))
    } else {
        None
    }
}

pub open spec fn spec_dec_u64(s: Seq<u8>) -> Option<(u64, int)> {
    if s.len() >= 8 {
        Some((spec_u64_of(s.subrange(0, 8)), 8int))
    } else {
        None
    }
}

/// Decoding of a fixed-width run of `n` raw bytes.
pub open spec fn spec_dec_bytes(s: Seq<u8>, n: int) -> Option<(Seq<u8>, int)> {
    if s.len() >= n >= 0 {
        Some((s.subrange(0, n), n))
    } else {
        None
    }
}

// ---------------------------------------------------------------------------
// Round-trip lemmas
// ---------------------------------------------------------------------------

pub proof fn lemma_dec_enc_u8(v: u8, rest: Seq<u8>)
    ensures
        spec_dec_u8(spec_enc_u8(v) + rest) == Some((v, 1int)),
{
    assert((spec_enc_u8(v) + rest)[0] == v);
}

pub proof fn lemma_dec_enc_u16(v: u16, rest: Seq<u8>)
    ensures
        spec_dec_u16(spec_enc_u16(v) + rest) == Some((v, 2int)),
{
    let s = spec_enc_u16(v) + rest;
    assert(s[0] == (v & 0xff) as u8 && s[1] == ((v >> 8) & 0xff) as u8);
    assert(((v & 0xff) as u8 as u16) | (((v >> 8) & 0xff) as u8 as u16) << 8 == v)
        by (bit_vector);
}

pub proof fn lemma_dec_enc_u32(v: u32, rest: Seq<u8>)
    ensures
        spec_dec_u32(spec_enc_u32(v) + rest) == Some((v, 4int)),
{
    let s = spec_enc_u32(v) + rest;
    assert(s[0] == (v & 0xff) as u8 && s[1] == ((v >> 8) & 0xff) as u8 && s[2] == ((v >> 16)
        & 0xff) as u8 && s[3] == ((v >> 24) & 0xff) as u8);
    assert(((v & 0xff) as u8 as u32) | (((v >> 8) & 0xff) as u8 as u32) << 8 | (((v >> 16)
        & 0xff) as u8 as u32) << 16 | (((v >> 24) & 0xff) as u8 as u32) << 24 == v)
        by (bit_vector);
}

pub proof fn lemma_dec_enc_u64(v: u64, rest: Seq<u8>)
    ensures
        spec_dec_u64(spec_enc_u64(v) + rest) == Some((v, 8int)),
{
    let s = spec_enc_u64(v) + rest;
    assert(s.subrange(0, 8) =~= spec_enc_u64(v));
    lemma_u64_of_enc(v);
}

pub proof fn lemma_u64_of_enc(v: u64)
    ensures
        spec_u64_of(spec_enc_u64(v)) == v,
{
    reveal(spec_u64_of);
    let s = spec_enc_u64(v);
    assert(((v & 0xff) as u8 as u64) | (((v >> 8) & 0xff) as u8 as u64) << 8 | (((v >> 16)
        & 0xff) as u8 as u64) << 16 | (((v >> 24) & 0xff) as u8 as u64) << 24 | (((v >> 32)
        & 0xff) as u8 as u64) << 32 | (((v >> 40) & 0xff) as u8 as u64) << 40 | (((v >> 48)
        & 0xff) as u8 as u64) << 48 | (((v >> 56) & 0xff) as u8 as u64) << 56 == v)
        by (bit_vector);
}

pub proof fn lemma_dec_enc_bytes(b: Seq<u8>, rest: Seq<u8>)
    ensures
        spec_dec_bytes(b + rest, b.len() as int) == Some((b, b.len() as int)),
{
    assert((b + rest).subrange(0, b.len() as int) =~= b);
}

// ---------------------------------------------------------------------------
// Executable encoders
// ---------------------------------------------------------------------------

pub fn enc_u8(out: &mut Vec<u8>, v: u8)
    ensures
        final(out)@ == old(out)@ + spec_enc_u8(v),
{
    out.push(v);
    assert(out@ =~= old(out)@ + spec_enc_u8(v));
}

pub fn enc_u16(out: &mut Vec<u8>, v: u16)
    ensures
        final(out)@ == old(out)@ + spec_enc_u16(v),
{
    out.push((v & 0xff) as u8);
    out.push(((v >> 8) & 0xff) as u8);
    assert(out@ =~= old(out)@ + spec_enc_u16(v));
}

pub fn enc_u32(out: &mut Vec<u8>, v: u32)
    ensures
        final(out)@ == old(out)@ + spec_enc_u32(v),
{
    out.push((v & 0xff) as u8);
    out.push(((v >> 8) & 0xff) as u8);
    out.push(((v >> 16) & 0xff) as u8);
    out.push(((v >> 24) & 0xff) as u8);
    assert(out@ =~= old(out)@ + spec_enc_u32(v));
}

pub fn enc_u64(out: &mut Vec<u8>, v: u64)
    ensures
        final(out)@ == old(out)@ + spec_enc_u64(v),
{
    out.push((v & 0xff) as u8);
    out.push(((v >> 8) & 0xff) as u8);
    out.push(((v >> 16) & 0xff) as u8);
    out.push(((v >> 24) & 0xff) as u8);
    out.push(((v >> 32) & 0xff) as u8);
    out.push(((v >> 40) & 0xff) as u8);
    out.push(((v >> 48) & 0xff) as u8);
    out.push(((v >> 56) & 0xff) as u8);
    assert(out@ =~= old(out)@ + spec_enc_u64(v));
}

/// Appends all of `data` to `out`.
pub fn push_bytes(out: &mut Vec<u8>, data: &Vec<u8>)
    ensures
        final(out)@ == old(out)@ + data@,
{
    let n = data.len();
    let mut i: usize = 0;
    while i < n
        invariant
            i <= n,
            n == data@.len(),
            out@ == old(out)@ + data@.subrange(0, i as int),
        decreases n - i,
    {
        out.push(data[i]);
        assert(out@ =~= old(out)@ + data@.subrange(0, i + 1 as int));
        i = i + 1;
    }
    assert(out@ =~= old(out)@ + data@);
}

// ---------------------------------------------------------------------------
// Executable decoders
// ---------------------------------------------------------------------------

pub fn dec_u8(buf: &Vec<u8>, pos: usize, what: &str) -> (r: Result<
    (u8, usize),
    MessageMalformedError,
>)
    requires
        pos <= buf@.len(),
    ensures
        match r {
            Ok((v, end)) => end <= buf@.len() && spec_dec_u8(buf@.skip(pos as int))
                == Some((v, end - pos)),
            Err(e) => spec_dec_u8(buf@.skip(pos as int)) is None && e matches
                MessageMalformedError::MissingData(_),
        },
{
    if buf.len() - pos < 1 {
        return Err(MessageMalformedError::MissingData(what.to_owned()));
    }
    Ok((buf[pos], pos + 1))
}

pub fn dec_u16(buf: &Vec<u8>, pos: usize, what: &str) -> (r: Result<
    (u16, usize),
    MessageMalformedError,
>)
    requires
        pos <= buf@.len(),
    ensures
        match r {
            Ok((v, end)) => end <= buf@.len() && spec_dec_u16(buf@.skip(pos as int))
                == Some((v, end - pos)),
            Err(e) => spec_dec_u16(buf@.skip(pos as int)) is None && e matches
                MessageMalformedError::MissingData(_),
        },
{
    if buf.len() - pos < 2 {
        return Err(MessageMalformedError::MissingData(what.to_owned()));
    }
    let b0 = buf[pos];
    let b1 = buf[pos + 1];
    Ok(((b0 as u16) | ((b1 as u16) << 8), pos + 2))
}

pub fn dec_u32(buf: &Vec<u8>, pos: usize, what: &str) -> (r: Result<
    (u32, usize),
    MessageMalformedError,
>)
    requires
        pos <= buf@.len(),
    ensures
        match r {
            Ok((v, end)) => end <= buf@.len() && spec_dec_u32(buf@.skip(pos as int))
                == Some((v, end - pos)),
            Err(e) => spec_dec_u32(buf@.skip(pos as int)) is None && e matches
                MessageMalformedError::MissingData(_),
        },
{
    if buf.len() - pos < 4 {
        return Err(MessageMalformedError::MissingData(what.to_owned()));
    }
    let b0 = buf[pos];
    let b1 = buf[pos + 1];
    let b2 = buf[pos + 2];
    let b3 = buf[pos + 3];
    Ok(((b0 as u32) | ((b1 as u32) << 8) | ((b2 as u32) << 16) | ((b3 as u32) << 24), pos + 4))
}

pub fn dec_u64(buf: &Vec<u8>, pos: usize, what: &str) -> (r: Result<
    (u64, usize),
    MessageMalformedError,
>)
    requires
        pos <= buf@.len(),
    ensures
        match r {
            Ok((v, end)) => end <= buf@.len() && spec_dec_u64(buf@.skip(pos as int))
                == Some((v, end - pos)),
            Err(e) => spec_dec_u64(buf@.skip(pos as int)) is None && e matches
                MessageMalformedError::MissingData(_),
        },
{
    if buf.len() - pos < 8 {
        return Err(MessageMalformedError::MissingData(what.to_owned()));
    }
    let b0 = buf[pos];
    let b1 = buf[pos + 1];
    let b2 = buf[pos + 2];
    let b3 = buf[pos + 3];
    let b4 = buf[pos + 4];
    let b5 = buf[pos + 5];
    let b6 = buf[pos + 6];
    let b7 = buf[pos + 7];
    let v = (b0 as u64) | ((b1 as u64) << 8) | ((b2 as u64) << 16) | ((b3 as u64) << 24) | ((
    b4 as u64) << 32) | ((b5 as u64) << 40) | ((b6 as u64) << 48) | ((b7 as u64) << 56);
    proof {
        reveal(spec_u64_of);
        let s = buf@.skip(pos as int);
        assert(s.subrange(0, 8)[0] == b0 && s.subrange(0, 8)[1] == b1 && s.subrange(0, 8)[2] == b2
            && s.subrange(0, 8)[3] == b3 && s.subrange(0, 8)[4] == b4 && s.subrange(0, 8)[5] == b5
            && s.subrange(0, 8)[6] == b6 && s.subrange(0, 8)[7] == b7);
    }
    Ok((v, pos + 8))
}

/// Reads `n` raw bytes into a vector of their own.
pub fn dec_bytes(buf: &Vec<u8>, pos: usize, n: usize, what: &str) -> (r: Result<
    (Vec<u8>, usize),
    MessageMalformedError,
>)
    requires
        pos <= buf@.len(),
    ensures
        match r {
            Ok((v, end)) => end <= buf@.len() && end == pos + n && v@ == buf@.subrange(
                pos as int,
                end as int,
            ) && spec_dec_bytes(buf@.skip(pos as int), n as int) == Some((v@, n as int)),
            Err(e) => spec_dec_bytes(buf@.skip(pos as int), n as int) is None && e matches
                MessageMalformedError::MissingData(_),
        },
{
    if buf.len() - pos < n {
        return Err(MessageMalformedError::MissingData(what.to_owned()));
    }
    let mut v: Vec<u8> = Vec::new();
    let mut i: usize = 0;
    while i < n
        invariant
            i <= n,
            pos + n <= buf@.len(),
            buf@.len() <= usize::MAX,
            v@ == buf@.subrange(pos as int, pos + i),
        decreases n - i,
    {
        v.push(buf[pos + i]);
        assert(v@ =~= buf@.subrange(pos as int, pos + i + 1));
        i = i + 1;
    }
    proof {
        assert(buf@.skip(pos as int).subrange(0, n as int) =~= buf@.subrange(
            pos as int,
            pos + n,
        ));
    }
    Ok((v, pos + n))
}

/// Whether two byte vectors hold the same bytes.
pub fn eq_bytes(a: &Vec<u8>, b: &Vec<u8>) -> (r: bool)
    ensures
        r == (a@ == b@),
{
    if a.len() != b.len() {
        return false;
    }
    let n = a.len();
    let mut i: usize = 0;
    while i < n
        invariant
            i <= n,
            n == a@.len() == b@.len(),
            forall|j: int| 0 <= j < i ==> a@[j] == b@[j],
        decreases n - i,
    {
        if a[i] != b[i] {
            return false;
        }
        i = i + 1;
    }
    proof {
        assert(a@ =~= b@);
    }
    true
}

} // verus!

// ---------------------------------------------------------------------------
// Length-prefixed strings
// ---------------------------------------------------------------------------

verus! {

/// Whether a character sequence fits behind a one-byte length prefix.
pub open spec fn fits_str8(t: Seq<char>) -> bool {
    encode_utf8(t).len() <= 255
}

/// Whether a character sequence fits behind a two-byte length prefix.
pub open spec fn fits_str16(t: Seq<char>) -> bool {
    encode_utf8(t).len() <= 65535
}

/// A short string: one length byte, then the UTF-8 bytes.
pub open spec fn spec_enc_str8(t: Seq<char>) -> Seq<u8>
    recommends
        fits_str8(t),
{
    seq![encode_utf8(t).len() as u8] + encode_utf8(t)
}

/// A string of up to 65535 bytes: a little-endian length word, then the
/// UTF-8 bytes.
pub open spec fn spec_enc_str16(t: Seq<char>) -> Seq<u8>
    recommends
        fits_str16(t),
{
    spec_enc_u16(encode_utf8(t).len() as u16) + encode_utf8(t)
}

pub open spec fn spec_dec_str8(s: Seq<u8>) -> Option<(Seq<char>, int)> {
    if s.len() < 1 {
        None
    } else {
        let n = s[0] as int;
        if s.len() < 1 + n {
            None
        } else {
            let bs = s.subrange(1, 1 + n);
            if valid_utf8(bs) {
                Some((decode_utf8(bs), 1 + n))
            } else {
                None
            }
        }
    }
}

pub open spec fn spec_dec_str16(s: Seq<u8>) -> Option<(Seq<char>, int)> {
    match spec_dec_u16(s) {
        None => None,
        Some((len, n0)) => {
            let n = len as int;
            if s.len() < n0 + n {
                None
            } else {
                let bs = s.subrange(n0, n0 + n);
                if valid_utf8(bs) {
                    Some((decode_utf8(bs), n0 + n))
                } else {
                    None
                }
            }
        },
    }
}

pub proof fn lemma_dec_enc_str8(t: Seq<char>, rest: Seq<u8>)
    requires
        fits_str8(t),
    ensures
        spec_dec_str8(spec_enc_str8(t) + rest) == Some((t, 1 + encode_utf8(t).len() as int)),
{
    let bs = encode_utf8(t);
    let s = spec_enc_str8(t) + rest;
    assert(s[0] == bs.len() as u8);
    assert(s.subrange(1, 1 + bs.len() as int) =~= bs);
    vstd::utf8::encode_utf8_valid_utf8(t);
    vstd::utf8::encode_utf8_decode_utf8(t);
}

pub proof fn lemma_dec_enc_str16(t: Seq<char>, rest: Seq<u8>)
    requires
        fits_str16(t),
    ensures
        spec_dec_str16(spec_enc_str16(t) + rest) == Some((t, 2 + encode_utf8(t).len() as int)),
{
    let bs = encode_utf8(t);
    let s = spec_enc_str16(t) + rest;
    lemma_dec_enc_u16(bs.len() as u16, bs + rest);
    assert(spec_enc_u16(bs.len() as u16) + (bs + rest) =~= s);
    assert(s.subrange(2, 2 + bs.len() as int) =~= bs);
    vstd::utf8::encode_utf8_valid_utf8(t);
    vstd::utf8::encode_utf8_decode_utf8(t);
}

/// Relies on `String::from_utf8`: it succeeds exactly on valid UTF-8 input
/// and returns the string of the decoded characters.
#[verifier::external_body]
fn bytes_to_string(v: Vec<u8>) -> (r: Option<String>)
    ensures
        r is Some <==> valid_utf8(v@),
        r matches Some(s) ==> s@ == decode_utf8(v@),
{
    match String::from_utf8(v) {
        Ok(s) => Some(s),
        Err(_) => None,
    }
}

/// Appends a short string: its length as one byte, then its UTF-8 bytes.
pub fn enc_str8(out: &mut Vec<u8>, t: &str)
    requires
        fits_str8(t@),
    ensures
        final(out)@ == old(out)@ + spec_enc_str8(t@),
{
    let bytes = t.as_bytes_vec();
    out.push(bytes.len() as u8);
    push_bytes(out, &bytes);
    assert(out@ =~= old(out)@ + spec_enc_str8(t@));
}

/// Appends a string of up to 65535 bytes: its length as a little-endian
/// word, then its UTF-8 bytes.
pub fn enc_str16(out: &mut Vec<u8>, t: &str)
    requires
        fits_str16(t@),
    ensures
        final(out)@ == old(out)@ + spec_enc_str16(t@),
{
    let bytes = t.as_bytes_vec();
    enc_u16(out, bytes.len() as u16);
    push_bytes(out, &bytes);
    assert(out@ =~= old(out)@ + spec_enc_str16(t@));
}

pub fn dec_str8(buf: &Vec<u8>, pos: usize, what: &str) -> (r: Result<
    (String, usize),
    MessageMalformedError,
>)
    requires
        pos <= buf@.len(),
    ensures
        match r {
            Ok((t, end)) => end <= buf@.len() && spec_dec_str8(buf@.skip(pos as int))
                == Some((t@, end - pos)) && fits_str8(t@),
            Err(e) => spec_dec_str8(buf@.skip(pos as int)) is None && (e matches
                MessageMalformedError::MissingData(_) || e matches
                MessageMalformedError::InvalidUtf8(_)),
        },
{
    let (len, p1) = dec_u8(buf, pos, what)?;
    let (bytes, end) = dec_bytes(buf, p1, len as usize, what)?;
    let ghost s = buf@.skip(pos as int);
    proof {
        assert(s[0] == len);
        assert(s.subrange(1, 1 + len as int) =~= buf@.subrange(p1 as int, end as int));
    }
    match bytes_to_string(bytes) {
        None => Err(MessageMalformedError::InvalidUtf8(what.to_owned())),
        Some(t) => {
            proof {
                vstd::utf8::decode_utf8_encode_utf8(buf@.subrange(p1 as int, end as int));
            }
            Ok((t, end))
        },
    }
}

pub fn dec_str16(buf: &Vec<u8>, pos: usize, what: &str) -> (r: Result<
    (String, usize),
    MessageMalformedError,
>)
    requires
        pos <= buf@.len(),
    ensures
        match r {
            Ok((t, end)) => end <= buf@.len() && spec_dec_str16(buf@.skip(pos as int))
                == Some((t@, end - pos)) && fits_str16(t@),
            Err(e) => spec_dec_str16(buf@.skip(pos as int)) is None && (e matches
                MessageMalformedError::MissingData(_) || e matches
                MessageMalformedError::InvalidUtf8(_)),
        },
{
    let (len, p1) = dec_u16(buf, pos, what)?;
    let (bytes, end) = dec_bytes(buf, p1, len as usize, what)?;
    let ghost s = buf@.skip(pos as int);
    proof {
        assert(s.subrange(2, 2 + len as int) =~= buf@.subrange(p1 as int, end as int));
    }
    match bytes_to_string(bytes) {
        None => Err(MessageMalformedError::InvalidUtf8(what.to_owned())),
        Some(t) => {
            proof {
                vstd::utf8::decode_utf8_encode_utf8(buf@.subrange(p1 as int, end as int));
            }
            Ok((t, end))
        },
    }
}

} // verus!

// ---------------------------------------------------------------------------
// Raw byte copies
// ---------------------------------------------------------------------------

verus! {

/// Copies `n` bytes of `buf`, from `pos` on, into a vector of their own.
pub fn copy_range(buf: &Vec<u8>, pos: usize, n: usize) -> (r: Vec<u8>)
    requires
        pos + n <= buf@.len(),
    ensures
        r@ == buf@.subrange(pos as int, pos + n),
{
    let total = buf.len();
    let mut v: Vec<u8> = Vec::new();
    let mut i: usize = 0;
    while i < n
        invariant
            i <= n,
            pos + n <= buf@.len(),
            buf@.len() == total,
            v@ == buf@.subrange(pos as int, pos + i),
        decreases n - i,
    {
        v.push(buf[pos + i]);
        assert(v@ =~= buf@.subrange(pos as int, pos + i + 1));
        i = i + 1;
    }
    v
}

} // verus!
