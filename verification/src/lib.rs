//! Verified core of a peer-to-peer channel-publishing swarm node.
//!
//! A channel is a stream of signed posts owned by one identity and relayed by
//! a swarm of subscriber peers. This crate holds the node's logic: the binary
//! wire codec, the hash and signature checks, the event-ordering state
//! machine, the in-memory channel store, the request/response handlers and
//! the session bookkeeping. Transport, persistence-to-disk and the async
//! runtime live outside; they hand frames and plain values in and carry
//! frames back out.

pub mod codec;
pub mod crypto;
pub mod error;
pub mod event;
pub mod message;
pub mod node;
pub mod post;
pub mod request;
pub mod session;
pub mod store;
pub mod subscription;
