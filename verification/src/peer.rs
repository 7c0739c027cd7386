use vstd::prelude::*;

verus! {

/// Network endpoint of a peer: an IPv4 address and a TCP port, held as
/// plain integers so that registry keys can be compared in contracts.
#[derive(Clone, Copy, Debug, PartialEq, Eq, Structural)]
pub struct PeerAddress {
    pub ip: u32,
    pub port: u16,
}

/// Metadata a peer announces about itself during the handshake:
/// the port on which it accepts inbound connections.
#[derive(Clone, Copy, Debug, PartialEq, Eq, Structural)]
pub struct Info {
    pub port: u16,
}

/// One registry entry.  `handle` is the token under which the I/O layer
/// holds the connection's write half; the registry owns the token, so a
/// connection can only be written to through the registry's operations.
/// `info` stays `None` until the peer's handshake completes.
#[derive(Clone, Copy, Debug, PartialEq, Eq)]
pub struct Peer {
    pub handle: u64,
    pub info: Option<Info>,
}

} // verus!
