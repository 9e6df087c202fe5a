//! The error taxonomy of the swarm node.
//!
//! `MessageMalformed` covers every fault attributable to the sending peer:
//! byte-level decoding faults, hash and signature mismatches, and semantic
//! violations such as an implausibly new event id. The reaction to such an
//! error is to ban the peer and drop its socket. The remaining kinds carry a
//! description for the layers around the library: transport faults are
//! retried or logged, persistence and internal faults bubble up.

use vstd::prelude::*;

verus! {

/// A fault in a peer's message, attributable to that peer.
#[derive(Debug, PartialEq, Eq)]
pub enum MessageMalformedError {
    /// A structure could not be decoded from the bytes given.
    DeserializationIssue(String),
    /// A tag byte that must be 0 or 1 held something else.
    InvalidBoolean(u8, String),
    /// A carried hash does not match the hash of the carried content.
    InvalidHash(String),
    /// A signature did not verify against the carried hash and key.
    InvalidSignature(String),
    /// A type tag byte uses an unknown id.
    InvalidTypeId(u8, String),
    /// A length-prefixed string is not valid UTF-8.
    InvalidUtf8(String),
    /// An event id too far ahead of the locally known latest id.
    InvalidEventId(u64),
    /// The message ended before the data it should contain.
    MissingData(String),
    /// A publisher key that the channel does not list.
    UnknownPublisher(crate::crypto::PublicKey),
}

/// The error of the node as a whole.
#[derive(Debug, PartialEq, Eq)]
pub enum Error {
    /// A fault of the sending peer; the peer is banned.
    MessageMalformed(MessageMalformedError),
    /// A fault of the underlying transport; the operation may be retried.
    Transport(String),
    /// A fault of the persistent store; surfaced to the caller.
    Persistence(String),
    /// An invariant violation; surfaced to the caller.
    Internal(String),
}

/// Wraps a malformed-data fault as a node error, for the layers that read
/// and write raw data and need one error type for invalid bytes.
pub fn into_io_data_error(error: MessageMalformedError) -> (r: Error)
    ensures
        r == Error::MessageMalformed(error),
{
    Error::MessageMalformed(error)
}

} // verus!
