//! Hashes, keys and signatures.
//!
//! Content is addressed by its SHA-512 digest. Every signature in the system
//! is an Ed25519 signature over a fixed 32-bit purpose tag followed by the
//! signed hash; the tag binds the domain of the signature. A public key
//! carries a leading key-type byte before the 32 raw key bytes. The digest
//! and the signature scheme come from outside crates behind trusted
//! wrappers; everything said about them is said through the named results
//! below.

use vstd::prelude::*;
use vstd::string::StrSliceExecFns;

use sha2::Digest;

use crate::codec;

verus! {

/// Length in bytes of a content hash (a SHA-512 digest).
pub const HASH_LENGTH: usize = 64;

/// Length in bytes of a public key: one key-type byte, then the raw key.
pub const PUBLIC_KEY_LENGTH: usize = 33;

/// Length in bytes of a signature.
pub const SIGNATURE_LENGTH: usize = 64;

/// The key-type byte of an Ed25519 key.
pub const KEY_TYPE_EDDSA: u8 = 1;

/// The purpose tag bound into every signature of this system.
pub const POST_SIGNATURE_PURPOSE: u32 = 777;

/// The SHA-512 digest of `data`: a function of the input bytes alone.
pub uninterp spec fn hash_of(data: Seq<u8>) -> Seq<u8>;

/// Whether Ed25519 verification of `sig` over `msg` under the 32-byte raw
/// key `key` accepts.
pub uninterp spec fn eddsa_verifies(key: Seq<u8>, msg: Seq<u8>, sig: Seq<u8>) -> bool;

/// The Ed25519 signature of `msg` under the 32-byte secret key `secret`
/// (Ed25519 signing is deterministic).
pub uninterp spec fn eddsa_signature(secret: Seq<u8>, msg: Seq<u8>) -> Seq<u8>;

/// The 32-byte raw public key belonging to the 32-byte secret key `secret`.
pub uninterp spec fn eddsa_public_of(secret: Seq<u8>) -> Seq<u8>;

/// Relies on `sha2::Sha512::digest`: the digest is 64 bytes and is a
/// function of the input bytes alone.
#[verifier::external_body]
fn sha512(data: &Vec<u8>) -> (r: Vec<u8>)
    ensures
        r@ == hash_of(data@),
        r@.len() == 64,
{
    sha2::Sha512::digest(data.as_slice()).to_vec()
}

/// Relies on `ed25519_dalek::VerifyingKey::from_bytes` (rejects bytes that
/// are no curve point) and `Verifier::verify`: acceptance is a function of
/// the key, message and signature bytes alone.
#[verifier::external_body]
fn eddsa_verify(key: &Vec<u8>, msg: &Vec<u8>, sig: &Vec<u8>) -> (r: bool)
    requires
        key@.len() == 32,
        sig@.len() == 64,
    ensures
        r == eddsa_verifies(key@, msg@, sig@),
{
    let key_arr: [u8; 32] = match key.as_slice().try_into() {
        Ok(a) => a,
        Err(_) => return false,
    };
    let sig_arr: [u8; 64] = match sig.as_slice().try_into() {
        Ok(a) => a,
        Err(_) => return false,
    };
    match ed25519_dalek::VerifyingKey::from_bytes(&key_arr) {
        Err(_) => false,
        Ok(vk) => ed25519_dalek::Verifier::verify(&vk, msg.as_slice(), &ed25519_dalek::Signature::from_bytes(&sig_arr)).is_ok(),
    }
}

/// Relies on `ed25519_dalek::SigningKey::from_bytes` and `Signer::sign`:
/// signing is deterministic, yields 64 bytes, and what a key signs its own
/// verifier accepts.
#[verifier::external_body]
fn eddsa_sign(secret: &Vec<u8>, msg: &Vec<u8>) -> (r: Vec<u8>)
    requires
        secret@.len() == 32,
    ensures
        r@ == eddsa_signature(secret@, msg@),
        r@.len() == 64,
        eddsa_verifies(eddsa_public_of(secret@), msg@, r@),
{
    let arr: [u8; 32] = secret.as_slice().try_into().unwrap();
    let sk = ed25519_dalek::SigningKey::from_bytes(&arr);
    ed25519_dalek::Signer::sign(&sk, msg.as_slice()).to_bytes().to_vec()
}

/// Relies on `ed25519_dalek::SigningKey::verifying_key`: the public key is
/// 32 bytes and a function of the secret key alone.
#[verifier::external_body]
fn eddsa_derive_public(secret: &Vec<u8>) -> (r: Vec<u8>)
    requires
        secret@.len() == 32,
    ensures
        r@ == eddsa_public_of(secret@),
        r@.len() == 32,
{
    let arr: [u8; 32] = secret.as_slice().try_into().unwrap();
    ed25519_dalek::SigningKey::from_bytes(&arr).verifying_key().to_bytes().to_vec()
}

/// The bytes a signature over `hash` is made of: the purpose tag, then the
/// hash itself.
pub open spec fn signed_payload(hash: Seq<u8>) -> Seq<u8> {
    codec::spec_enc_u32(POST_SIGNATURE_PURPOSE) + hash
}

/// Whether `sig` is a valid signature over `hash` under `key` (a full
/// public key with its leading key-type byte), bound to the purpose tag.
pub open spec fn sig_ok(sig: Seq<u8>, hash: Seq<u8>, key: Seq<u8>) -> bool {
    eddsa_verifies(key.skip(1), signed_payload(hash), sig)
}

/// A content hash: the SHA-512 digest of some bytes.
#[derive(Debug, PartialEq, Eq)]
pub struct HashCode {
    bytes: Vec<u8>,
}

impl View for HashCode {
    type V = Seq<u8>;

    closed spec fn view(&self) -> Seq<u8> {
        self.bytes@
    }
}

impl HashCode {
    pub open spec fn wf(&self) -> bool {
        self@.len() == HASH_LENGTH
    }

    /// Builds a hash code from its 64 raw bytes.
    pub fn from_bytes(bytes: Vec<u8>) -> (r: Self)
        requires
            bytes@.len() == HASH_LENGTH,
        ensures
            r@ == bytes@,
            r.wf(),
    {
        HashCode { bytes }
    }

    /// Hashes `data`.
    pub fn generate(data: &Vec<u8>) -> (r: Self)
        ensures
            r@ == hash_of(data@),
            r.wf(),
    {
        HashCode { bytes: sha512(data) }
    }

    pub fn as_bytes(&self) -> (r: &Vec<u8>)
        ensures
            r@ == self@,
    {
        &self.bytes
    }

    pub fn equals(&self, other: &HashCode) -> (r: bool)
        ensures
            r == (self@ == other@),
    {
        codec::eq_bytes(&self.bytes, &other.bytes)
    }
}

impl Clone for HashCode {
    fn clone(&self) -> (r: Self)
        ensures
            r@ == self@,
    {
        let mut bytes: Vec<u8> = Vec::new();
        codec::push_bytes(&mut bytes, &self.bytes);
        HashCode { bytes }
    }
}

/// A public key: one key-type byte, then the 32 raw key bytes.
#[derive(Debug, PartialEq, Eq)]
pub struct PublicKey {
    bytes: Vec<u8>,
}

impl View for PublicKey {
    type V = Seq<u8>;

    closed spec fn view(&self) -> Seq<u8> {
        self.bytes@
    }
}

impl PublicKey {
    pub open spec fn wf(&self) -> bool {
        self@.len() == PUBLIC_KEY_LENGTH
    }

    /// Builds a public key from its 33 raw bytes.
    pub fn from_bytes(bytes: Vec<u8>) -> (r: Self)
        requires
            bytes@.len() == PUBLIC_KEY_LENGTH,
        ensures
            r@ == bytes@,
            r.wf(),
    {
        PublicKey { bytes }
    }

    pub fn as_bytes(&self) -> (r: &Vec<u8>)
        ensures
            r@ == self@,
    {
        &self.bytes
    }

    pub fn equals(&self, other: &PublicKey) -> (r: bool)
        ensures
            r == (self@ == other@),
    {
        codec::eq_bytes(&self.bytes, &other.bytes)
    }
}

impl Clone for PublicKey {
    fn clone(&self) -> (r: Self)
        ensures
            r@ == self@,
    {
        let mut bytes: Vec<u8> = Vec::new();
        codec::push_bytes(&mut bytes, &self.bytes);
        PublicKey { bytes }
    }
}

/// A signature over a hash, under the fixed purpose tag.
#[derive(Debug, PartialEq, Eq)]
pub struct Signature {
    bytes: Vec<u8>,
}

impl View for Signature {
    type V = Seq<u8>;

    closed spec fn view(&self) -> Seq<u8> {
        self.bytes@
    }
}

impl Signature {
    pub open spec fn wf(&self) -> bool {
        self@.len() == SIGNATURE_LENGTH
    }

    /// Builds a signature from its 64 raw bytes.
    pub fn from_bytes(bytes: Vec<u8>) -> (r: Self)
        requires
            bytes@.len() == SIGNATURE_LENGTH,
        ensures
            r@ == bytes@,
            r.wf(),
    {
        Signature { bytes }
    }

    pub fn as_bytes(&self) -> (r: &Vec<u8>)
        ensures
            r@ == self@,
    {
        &self.bytes
    }

    /// Verifies this signature over `hash` under `public_key` and the fixed
    /// purpose tag.
    pub fn verify_hash(&self, hash: &HashCode, public_key: &PublicKey) -> (r: bool)
        requires
            self.wf(),
            public_key.wf(),
        ensures
            r == sig_ok(self@, hash@, public_key@),
    {
        let mut msg: Vec<u8> = Vec::new();
        codec::enc_u32(&mut msg, POST_SIGNATURE_PURPOSE);
        codec::push_bytes(&mut msg, &hash.bytes);
        let mut key_tail: Vec<u8> = Vec::new();
        let n = public_key.bytes.len();
        let mut i: usize = 1;
        while i < n
            invariant
                1 <= i <= n,
                n == public_key@.len(),
                key_tail@ == public_key@.subrange(1, i as int),
            decreases n - i,
        {
            key_tail.push(public_key.bytes[i]);
            assert(key_tail@ =~= public_key@.subrange(1, i + 1));
            i = i + 1;
        }
        proof {
            assert(key_tail@ =~= public_key@.skip(1));
            assert(msg@ =~= signed_payload(hash@));
        }
        eddsa_verify(&key_tail, &msg, &self.bytes)
    }
}

impl Clone for Signature {
    fn clone(&self) -> (r: Self)
        ensures
            r@ == self@,
    {
        let mut bytes: Vec<u8> = Vec::new();
        codec::push_bytes(&mut bytes, &self.bytes);
        Signature { bytes }
    }
}

/// A private key: the 32-byte Ed25519 secret.
#[derive(Debug, PartialEq, Eq)]
pub struct PrivateKey {
    bytes: Vec<u8>,
}

impl View for PrivateKey {
    type V = Seq<u8>;

    closed spec fn view(&self) -> Seq<u8> {
        self.bytes@
    }
}

impl PrivateKey {
    pub open spec fn wf(&self) -> bool {
        self@.len() == 32
    }

    /// Builds a private key from its 32 raw bytes.
    pub fn from_bytes(bytes: Vec<u8>) -> (r: Self)
        requires
            bytes@.len() == 32,
        ensures
            r@ == bytes@,
            r.wf(),
    {
        PrivateKey { bytes }
    }

    /// The full public key belonging to this private key, with its leading
    /// key-type byte.
    pub fn extract_public(&self) -> (r: PublicKey)
        requires
            self.wf(),
        ensures
            r@ == seq![KEY_TYPE_EDDSA] + eddsa_public_of(self@),
            r.wf(),
    {
        let raw = eddsa_derive_public(&self.bytes);
        let mut bytes: Vec<u8> = Vec::new();
        bytes.push(KEY_TYPE_EDDSA);
        codec::push_bytes(&mut bytes, &raw);
        proof {
            assert(bytes@ =~= seq![KEY_TYPE_EDDSA] + eddsa_public_of(self@));
        }
        PublicKey { bytes }
    }

    /// Signs `hash` under the fixed purpose tag. The produced signature
    /// verifies under this key's public key.
    pub fn sign_hash(&self, hash: &HashCode) -> (r: Signature)
        requires
            self.wf(),
    ensures
            r.wf(),
            r@ == eddsa_signature(self@, signed_payload(hash@)),
            sig_ok(r@, hash@, seq![KEY_TYPE_EDDSA] + eddsa_public_of(self@)),
    {
        let mut msg: Vec<u8> = Vec::new();
        codec::enc_u32(&mut msg, POST_SIGNATURE_PURPOSE);
        codec::push_bytes(&mut msg, &hash.bytes);
        proof {
            assert(msg@ =~= signed_payload(hash@));
            assert((seq![KEY_TYPE_EDDSA] + eddsa_public_of(self@)).skip(1) =~= eddsa_public_of(
                self@,
            ));
        }
        let bytes = eddsa_sign(&self.bytes, &msg);
        Signature { bytes }
    }
}

/// The port on which every swarm peer of this network accepts connections.
pub fn quartz_port() -> (r: HashCode)
    ensures
        r@ == hash_of(vstd::utf8::encode_utf8("QuartzNet"@)),
        r.wf(),
{
    let name = ("QuartzNet").as_bytes_vec();
    HashCode::generate(&name)
}

} // verus!

// ---------------------------------------------------------------------------
// Wire form of hashes, keys and signatures
// ---------------------------------------------------------------------------

verus! {

pub open spec fn spec_dec_hash(s: Seq<u8>) -> Option<(Seq<u8>, int)> {
    codec::spec_dec_bytes(s, HASH_LENGTH as int)
}

pub open spec fn spec_dec_key(s: Seq<u8>) -> Option<(Seq<u8>, int)> {
    codec::spec_dec_bytes(s, PUBLIC_KEY_LENGTH as int)
}

pub open spec fn spec_dec_sig(s: Seq<u8>) -> Option<(Seq<u8>, int)> {
    codec::spec_dec_bytes(s, SIGNATURE_LENGTH as int)
}

/// An optional hash: a tag byte, then the hash when the tag is 1.
pub open spec fn spec_enc_opt_hash(o: Option<Seq<u8>>) -> Seq<u8> {
    match o {
        None => seq![0u8],
        Some(h) => seq![1u8] + h,
    }
}

pub open spec fn spec_dec_opt_hash(s: Seq<u8>) -> Option<(Option<Seq<u8>>, int)> {
    if s.len() < 1 {
        None
    } else if s[0] == 0 {
        Some((None, 1int))
    } else if s[0] == 1 {
        match spec_dec_hash(s.skip(1)) {
            None => None,
            Some((h, n)) => Some((Some(h), 1 + n)),
        }
    } else {
        None
    }
}

pub proof fn lemma_dec_enc_hash(h: Seq<u8>, rest: Seq<u8>)
    requires
        h.len() == HASH_LENGTH,
    ensures
        spec_dec_hash(h + rest) == Some((h, HASH_LENGTH as int)),
{
    codec::lemma_dec_enc_bytes(h, rest);
}

pub proof fn lemma_dec_enc_key(k: Seq<u8>, rest: Seq<u8>)
    requires
        k.len() == PUBLIC_KEY_LENGTH,
    ensures
        spec_dec_key(k + rest) == Some((k, PUBLIC_KEY_LENGTH as int)),
{
    codec::lemma_dec_enc_bytes(k, rest);
}

pub proof fn lemma_dec_enc_sig(g: Seq<u8>, rest: Seq<u8>)
    requires
        g.len() == SIGNATURE_LENGTH,
    ensures
        spec_dec_sig(g + rest) == Some((g, SIGNATURE_LENGTH as int)),
{
    codec::lemma_dec_enc_bytes(g, rest);
}

pub proof fn lemma_dec_enc_opt_hash(o: Option<Seq<u8>>, rest: Seq<u8>)
    requires
        o matches Some(h) ==> h.len() == HASH_LENGTH,
    ensures
        spec_dec_opt_hash(spec_enc_opt_hash(o) + rest) == Some(
            (o, spec_enc_opt_hash(o).len() as int),
        ),
{
    let s = spec_enc_opt_hash(o) + rest;
    match o {
        None => {
            assert(s[0] == 0);
        },
        Some(h) => {
            assert(s[0] == 1);
            assert(s.skip(1) =~= h + rest);
            lemma_dec_enc_hash(h, rest);
        },
    }
}

/// Appends the 64 raw bytes of a hash.
pub fn enc_hash(out: &mut Vec<u8>, h: &HashCode)
    requires
        h.wf(),
    ensures
        final(out)@ == old(out)@ + h@,
{
    codec::push_bytes(out, h.as_bytes());
}

/// Appends the 33 raw bytes of a public key.
pub fn enc_key(out: &mut Vec<u8>, k: &PublicKey)
    requires
        k.wf(),
    ensures
        final(out)@ == old(out)@ + k@,
{
    codec::push_bytes(out, k.as_bytes());
}

/// Appends the 64 raw bytes of a signature.
pub fn enc_sig(out: &mut Vec<u8>, g: &Signature)
    requires
        g.wf(),
    ensures
        final(out)@ == old(out)@ + g@,
{
    codec::push_bytes(out, g.as_bytes());
}

/// Appends an optional hash: a tag byte, then the hash when present.
pub fn enc_opt_hash(out: &mut Vec<u8>, o: &Option<HashCode>)
    requires
        o matches Some(h) ==> h.wf(),
    ensures
        final(out)@ == old(out)@ + spec_enc_opt_hash(spec_opt_hash_view(o)),
{
    match o {
        None => {
            out.push(0u8);
            assert(out@ =~= old(out)@ + spec_enc_opt_hash(None));
        },
        Some(h) => {
            out.push(1u8);
            codec::push_bytes(out, h.as_bytes());
            assert(out@ =~= old(out)@ + spec_enc_opt_hash(Some(h@)));
        },
    }
}

/// The view of an optional hash.
pub open spec fn spec_opt_hash_view(o: &Option<HashCode>) -> Option<Seq<u8>> {
    match o {
        None => None,
        Some(h) => Some(h@),
    }
}

pub fn dec_hash(buf: &Vec<u8>, pos: usize, what: &str) -> (r: Result<
    (HashCode, usize),
    crate::error::MessageMalformedError,
>)
    requires
        pos <= buf@.len(),
    ensures
        match r {
            Ok((h, end)) => end <= buf@.len() && h.wf() && spec_dec_hash(buf@.skip(pos as int))
                == Some((h@, end - pos)),
            Err(e) => spec_dec_hash(buf@.skip(pos as int)) is None && e matches
                crate::error::MessageMalformedError::MissingData(_),
        },
{
    let (bytes, end) = codec::dec_bytes(buf, pos, HASH_LENGTH, what)?;
    Ok((HashCode::from_bytes(bytes), end))
}

pub fn dec_key(buf: &Vec<u8>, pos: usize, what: &str) -> (r: Result<
    (PublicKey, usize),
    crate::error::MessageMalformedError,
>)
    requires
        pos <= buf@.len(),
    ensures
        match r {
            Ok((k, end)) => end <= buf@.len() && k.wf() && spec_dec_key(buf@.skip(pos as int))
                == Some((k@, end - pos)),
            Err(e) => spec_dec_key(buf@.skip(pos as int)) is None && e matches
                crate::error::MessageMalformedError::MissingData(_),
        },
{
    let (bytes, end) = codec::dec_bytes(buf, pos, PUBLIC_KEY_LENGTH, what)?;
    Ok((PublicKey::from_bytes(bytes), end))
}

pub fn dec_sig(buf: &Vec<u8>, pos: usize, what: &str) -> (r: Result<
    (Signature, usize),
    crate::error::MessageMalformedError,
>)
    requires
        pos <= buf@.len(),
    ensures
        match r {
            Ok((g, end)) => end <= buf@.len() && g.wf() && spec_dec_sig(buf@.skip(pos as int))
                == Some((g@, end - pos)),
            Err(e) => spec_dec_sig(buf@.skip(pos as int)) is None && e matches
                crate::error::MessageMalformedError::MissingData(_),
        },
{
    let (bytes, end) = codec::dec_bytes(buf, pos, SIGNATURE_LENGTH, what)?;
    Ok((Signature::from_bytes(bytes), end))
}

pub fn dec_opt_hash(buf: &Vec<u8>, pos: usize, what: &str) -> (r: Result<
    (Option<HashCode>, usize),
    crate::error::MessageMalformedError,
>)
    requires
        pos <= buf@.len(),
    ensures
        match r {
            Ok((o, end)) => end <= buf@.len() && (o matches Some(h) ==> h.wf())
                && spec_dec_opt_hash(buf@.skip(pos as int)) == Some(
                (spec_opt_hash_view(&o), end - pos),
            ),
            Err(e) => spec_dec_opt_hash(buf@.skip(pos as int)) is None && (e matches
                crate::error::MessageMalformedError::MissingData(_) || e matches
                crate::error::MessageMalformedError::InvalidBoolean(_, _)),
        },
{
    let (tag, p1) = codec::dec_u8(buf, pos, what)?;
    if tag == 0 {
        Ok((None, p1))
    } else if tag == 1 {
        proof {
            assert(buf@.skip(pos as int).skip(1) =~= buf@.skip(p1 as int));
        }
        let (h, end) = dec_hash(buf, p1, what)?;
        Ok((Some(h), end))
    } else {
        Err(crate::error::MessageMalformedError::InvalidBoolean(tag, what.to_owned()))
    }
}

} // verus!
