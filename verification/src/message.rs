use vstd::prelude::*;

use crate::peer::Info;
use crate::peer::PeerAddress;

verus! {

/// A wire payload: exactly one variant per frame, self-describing
/// through its tag.
#[derive(Debug, Clone, PartialEq, Eq)]
pub enum Message {
    ConnectionInfo(ConnectionInfo),
    NewConnection(NewConnection),
    NetworkState(NetworkState),
    Text(Text),
}

/// Mathematical value of a [`Message`]: the same variants, with the
/// collection-valued fields replaced by their views.
#[verifier::ext_equal]
pub enum MessageV {
    ConnectionInfo { port: u16 },
    NewConnection { addr: PeerAddress },
    NetworkState { peers: Seq<(PeerAddress, Info)> },
    Text { text: Seq<char> },
}

impl View for Message {
    type V = MessageV;

    open spec fn view(&self) -> MessageV {
        match self {
            Message::ConnectionInfo(m) => MessageV::ConnectionInfo { port: m.port },
            Message::NewConnection(m) => MessageV::NewConnection { addr: m.addr },
            Message::NetworkState(m) => MessageV::NetworkState { peers: m.peers@ },
            Message::Text(m) => MessageV::Text { text: m.text@ },
        }
    }
}

/// Asks the recipient to dial `addr` and take the node there as a peer.
#[derive(Debug, Clone, Copy, PartialEq, Eq, Structural)]
pub struct NewConnection {
    pub addr: PeerAddress,
}

impl NewConnection {
    pub fn new(addr: PeerAddress) -> (r: NewConnection)
        ensures
            r.addr == addr,
    {
        NewConnection { addr }
    }
}

/// The handshake message: the sender announces the port on which it
/// listens for inbound connections.
#[derive(Debug, Clone, Copy, PartialEq, Eq, Structural)]
pub struct ConnectionInfo {
    pub port: u16,
}

impl ConnectionInfo {
    pub fn new(port: u16) -> (r: ConnectionInfo)
        ensures
            r.port == port,
    {
        ConnectionInfo { port }
    }
}

/// A snapshot of the sender's peer table: every peer that has completed
/// its handshake, with the metadata it announced.
#[derive(Debug, Clone, PartialEq, Eq)]
pub struct NetworkState {
    pub peers: Vec<(PeerAddress, Info)>,
}

impl NetworkState {
    pub fn new(peers: Vec<(PeerAddress, Info)>) -> (r: NetworkState)
        ensures
            r.peers@ == peers@,
    {
        NetworkState { peers }
    }
}

/// An application payload carried through the overlay unchanged.
#[derive(Debug, Clone, PartialEq, Eq)]
pub struct Text {
    pub text: String,
}

/// Holds of every character the random payload generator emits:
/// an ASCII digit or letter.
pub open spec fn is_alphanumeric_char(c: char) -> bool {
    ('0' <= c && c <= '9') || ('a' <= c && c <= 'z') || ('A' <= c && c <= 'Z')
}

/// Relies on rand's `Alphanumeric.sample_string`, which appends exactly
/// `len` bytes drawn from the ASCII set `A-Z a-z 0-9` to a fresh string.
#[verifier::external_body]
fn random_alphanumeric(len: usize) -> (r: String)
    ensures
        r@.len() == len,
        forall|i: int| 0 <= i < r@.len() ==> is_alphanumeric_char(#[trigger] r@[i]),
{
    rand::distr::SampleString::sample_string(&rand::distr::Alphanumeric, &mut rand::rng(), len)
}

impl Text {
    pub fn new(text: String) -> (r: Text)
        ensures
            r.text@ == text@,
    {
        Text { text }
    }

    /// A payload of thirty random alphanumeric characters, as the
    /// periodic broadcaster sends.
    pub fn with_random_text() -> (r: Text)
        ensures
            r.text@.len() == 30,
            forall|i: int| 0 <= i < r.text@.len() ==> is_alphanumeric_char(#[trigger] r.text@[i]),
    {
        Text { text: random_alphanumeric(30) }
    }
}

} // verus!
