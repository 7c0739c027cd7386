use vstd::prelude::*;

use crate::message::ConnectionInfo;
use crate::message::Message;
use crate::message::NetworkState;
use crate::message::NewConnection;
use crate::message::Text;
use crate::peer::PeerAddress;

verus! {

/// One unit of work for the dispatch loop: an outbound intent or an
/// inbound fact.  Events are queued and consumed exactly once, in FIFO
/// order, by the single dispatch loop.
#[derive(Debug, PartialEq, Eq)]
pub enum Event {
    /// Send `msg` to every registered peer, if there is any.
    BroadcastMessage(Message),
    /// Send `msg` to every registered peer but `exclude`.
    BroadcastWithExcludeMessage { exclude: PeerAddress, msg: Message },
    /// Send `msg` to the peer at `to` alone.
    SendMessage { to: PeerAddress, msg: Message },
    /// A peer sent an application payload.
    RecvText { from: PeerAddress, msg: Text },
    /// A peer completed its handshake.
    RecvConnectionInfo { from: PeerAddress, msg: ConnectionInfo },
    /// Write the announced metadata of the peer at `addr` into the registry.
    UpdatePeerInfo { addr: PeerAddress, msg: ConnectionInfo },
    /// A peer asked this node to dial a new address.
    RecvNewConnection(NewConnection),
    /// A peer shared its view of the network.
    RecvNetworkState(NetworkState),
    /// The listener accepted an inbound connection; the I/O layer holds
    /// its write half under `handle`.
    AcceptConnection { handle: u64, addr: PeerAddress },
    /// Dial `addr` and take the node there as a peer.
    Connect(PeerAddress),
    /// Drop the peer at `addr` from the registry.
    Disconnect(PeerAddress),
}

} // verus!
