//! A minimal peer-to-peer overlay node, as a verified library.
//!
//! The node keeps a registry of live peer connections, exchanges tagged
//! messages over a length-prefixed framing, and propagates membership
//! information between peers.  This crate holds the decision logic: the
//! peer registry, the wire codec, and the event-dispatch rules.  The I/O
//! layer around it owns the sockets, performs the reads, writes and dials
//! that the dispatch rules ask for, and feeds the observed facts back in
//! as events.

pub mod codec;
pub mod context;
pub mod event;
pub mod message;
pub mod peer;
pub mod server;
