use vstd::prelude::*;

use crate::context::Context;
use crate::context::announced;
use crate::context::addr_index;
use crate::context::bcast_excl_targets;
use crate::context::bcast_targets;
use crate::context::contains_addr;
use crate::context::peer_at;
use crate::event::Event;
use crate::message::ConnectionInfo;
use crate::message::Message;
use crate::message::NetworkState;
use crate::peer::Info;
use crate::peer::Peer;
use crate::peer::PeerAddress;

verus! {

/// A side effect the dispatch loop asks the I/O layer to perform.
/// Effects are carried out in the order they are returned.
#[derive(Debug, PartialEq, Eq)]
pub enum Effect {
    /// Write one frame of `msg` to the connection held under `handle`.
    /// A transport failure is logged and surfaced to no one.
    Write { handle: u64, msg: Message },
    /// Write one frame of `msg` to each handle, in order.  A failure on
    /// one connection is logged and never aborts the rest.
    WriteAll { handles: Vec<u64>, msg: Message },
    /// Push `event` onto the back of the event queue.
    Emit(Event),
    /// Dial `addr`; on success, register the connection under a fresh
    /// handle with metadata `info` via `add_peer`, and start its read
    /// loop.  A dial or registration failure is logged, unless `fatal`
    /// holds: then the node treats the network as unreachable and
    /// shuts down.
    Dial { addr: PeerAddress, info: Option<Info>, fatal: bool },
}

/// The `Connect` events that receiving a network-state snapshot raises:
/// one per entry, dialing the entry's address at its announced port.
pub open spec fn connect_effects(entries: Seq<(PeerAddress, Info)>) -> Seq<Effect> {
    Seq::new(
        entries.len(),
        |i: int|
            Effect::Emit(
                Event::Connect(
                    PeerAddress { ip: entries[i].0.ip, port: entries[i].1.port },
                ),
            ),
    )
}

/// The peer table after the registry mutation that `event` asks for.
pub open spec fn table_after(s: Seq<(PeerAddress, Peer)>, event: Event) -> Seq<
    (PeerAddress, Peer),
> {
    match event {
        Event::UpdatePeerInfo { addr, msg } => if contains_addr(s, addr) {
            s.update(
                addr_index(s, addr),
                (addr, Peer { handle: peer_at(s, addr).handle, info: Some(Info { port: msg.port }) }),
            )
        } else {
            s
        },
        Event::AcceptConnection { handle, addr } => if contains_addr(s, addr) {
            s
        } else {
            s.push((addr, Peer { handle, info: None }))
        },
        Event::Disconnect(addr) => if contains_addr(s, addr) {
            s.remove(addr_index(s, addr))
        } else {
            s
        },
        _ => s,
    }
}

/// Interprets one event: mutates the registry as the event demands and
/// returns the I/O work that follows from it, in order.  This function
/// is the single point where control decisions are made; the loop that
/// feeds it processes events strictly one at a time, in arrival order.
pub fn handle_event(ctx: &mut Context, event: Event) -> (fx: Vec<Effect>)
    requires
        old(ctx).wf(),
    ensures
        final(ctx).wf(),
        final(ctx).port_spec() == old(ctx).port_spec(),
        final(ctx).sleep_secs_spec() == old(ctx).sleep_secs_spec(),
        final(ctx)@ == table_after(old(ctx)@, event),
        event matches Event::BroadcastMessage(msg) ==> (if old(ctx)@.len() == 0 {
            fx@.len() == 0
        } else {
            fx@.len() == 1 && (fx@[0] matches Effect::WriteAll { handles, msg: m } && handles@
                == bcast_targets(old(ctx)@) && m == msg)
        }),
        event matches Event::BroadcastWithExcludeMessage { exclude, msg } ==> (if old(
            ctx,
        )@.len() == 0 {
            fx@.len() == 0
        } else {
            fx@.len() == 1 && (fx@[0] matches Effect::WriteAll { handles, msg: m } && handles@
                == bcast_excl_targets(old(ctx)@, exclude) && m == msg)
        }),
        event matches Event::SendMessage { to, msg } ==> (if contains_addr(old(ctx)@, to) {
            fx@.len() == 1 && (fx@[0] matches Effect::Write { handle, msg: m } && handle == peer_at(
                old(ctx)@,
                to,
            ).handle && m == msg)
        } else {
            fx@.len() == 0
        }),
        event matches Event::RecvText { from, msg } ==> fx@.len() == 0,
        event matches Event::RecvConnectionInfo { from, msg } ==> (fx@.len() == 2 && (fx@[0]
            matches Effect::Emit(Event::SendMessage { to, msg: m }) && to == from && (m matches
        Message::NetworkState(ns) && ns.peers@ == announced(old(ctx)@))) && (fx@[1] matches
        Effect::Emit(Event::UpdatePeerInfo { addr, msg: m2 }) && addr == from && m2 == msg)),
        event matches Event::UpdatePeerInfo { addr, msg } ==> fx@.len() == 0,
        event matches Event::RecvNewConnection(nc) ==> (fx@.len() == 1 && (fx@[0] matches
        Effect::Dial { addr, info, fatal } && addr == nc.addr && info is None && !fatal)),
        event matches Event::RecvNetworkState(ns) ==> fx@ == connect_effects(ns.peers@),
        event matches Event::AcceptConnection { handle, addr } ==> fx@.len() == 0,
        event matches Event::Connect(addr) ==> (fx@.len() == 1 && (fx@[0] matches Effect::Dial {
            addr: a,
            info,
            fatal,
        } && a == addr && info == Some(Info { port: addr.port }) && fatal)),
        event matches Event::Disconnect(addr) ==> fx@.len() == 0,
{
    let mut fx: Vec<Effect> = Vec::new();
    match event {
        Event::BroadcastMessage(msg) => {
            if ctx.has_peers() {
                let handles = ctx.broadcast();
                fx.push(Effect::WriteAll { handles, msg });
            }
        },
        Event::BroadcastWithExcludeMessage { exclude, msg } => {
            if ctx.has_peers() {
                let handles = ctx.broadcast_with_exclude(exclude);
                fx.push(Effect::WriteAll { handles, msg });
            }
        },
        Event::SendMessage { to, msg } => {
            match ctx.send(to) {
                Ok(handle) => {
                    fx.push(Effect::Write { handle, msg });
                },
                Err(_) => {
                    // A missing peer is logged by the I/O layer and the
                    // loop goes on: per-event isolation of failures.
                },
            }
        },
        Event::RecvText { from: _, msg: _ } => {
            // Observability only: the I/O layer logs the payload.
        },
        Event::RecvConnectionInfo { from, msg } => {
            let state = ctx.network_state();
            fx.push(
                Effect::Emit(
                    Event::SendMessage {
                        to: from,
                        msg: Message::NetworkState(NetworkState { peers: state }),
                    },
                ),
            );
            fx.push(Effect::Emit(Event::UpdatePeerInfo { addr: from, msg }));
        },
        Event::UpdatePeerInfo { addr, msg } => {
            let _ = ctx.update_peer_info(addr, Some(Info { port: msg.port }));
        },
        Event::RecvNewConnection(nc) => {
            fx.push(Effect::Dial { addr: nc.addr, info: None, fatal: false });
        },
        Event::RecvNetworkState(ns) => {
            let n = ns.peers.len();
            let ghost target = connect_effects(ns.peers@);
            for i in 0..n
                invariant
                    n == ns.peers@.len(),
                    target == connect_effects(ns.peers@),
                    fx@.len() == i,
                    forall|k: int| 0 <= k < i ==> fx@[k] == target[k],
            {
                let (addr, info) = ns.peers[i];
                fx.push(
                    Effect::Emit(Event::Connect(PeerAddress { ip: addr.ip, port: info.port })),
                );
            }
            proof {
                assert(fx@ =~= target);
            }
        },
        Event::AcceptConnection { handle, addr } => {
            let _ = ctx.add_peer(addr, Peer { handle, info: None });
        },
        Event::Connect(addr) => {
            fx.push(Effect::Dial { addr, info: Some(Info { port: addr.port }), fatal: true });
        },
        Event::Disconnect(addr) => {
            // Read-task loss reaches the loop as this event; dropping
            // the entry keeps the registry free of dead peers.  An
            // absent address is a no-op, as a peer may already be gone.
            let _ = ctx.disconnect(addr);
        },
    }
    fx
}

/// Maps a decoded wire message from the connection at `from` to the
/// event the dispatch loop consumes for it.
pub fn event_for_message(from: PeerAddress, msg: Message) -> (e: Event)
    ensures
        msg matches Message::Text(t) ==> (e matches Event::RecvText { from: f, msg: m } && f
            == from && m == t),
        msg matches Message::NetworkState(ns) ==> (e matches Event::RecvNetworkState(m) && m == ns),
        msg matches Message::NewConnection(nc) ==> (e matches Event::RecvNewConnection(m) && m
            == nc),
        msg matches Message::ConnectionInfo(ci) ==> (e matches Event::RecvConnectionInfo {
            from: f,
            msg: m,
        } && f == from && m == ci),
{
    match msg {
        Message::Text(t) => Event::RecvText { from, msg: t },
        Message::NetworkState(ns) => Event::RecvNetworkState(ns),
        Message::NewConnection(nc) => Event::RecvNewConnection(nc),
        Message::ConnectionInfo(ci) => Event::RecvConnectionInfo { from, msg: ci },
    }
}

/// The events the bootstrap sequence enqueues: with a seed peer, dial
/// it and announce this node's own listening port to it; with none,
/// start a fresh network and wait.
pub fn initial_events(port: u16, connect: Option<PeerAddress>) -> (r: Vec<Event>)
    ensures
        connect is None ==> r@.len() == 0,
        connect matches Some(a) ==> (r@.len() == 2 && (r@[0] matches Event::Connect(a0) && a0 == a)
            && (r@[1] matches Event::SendMessage { to, msg } && to == a && (msg matches
        Message::ConnectionInfo(ci) && ci.port == port))),
{
    let mut r: Vec<Event> = Vec::new();
    if let Some(addr) = connect {
        r.push(Event::Connect(addr));
        r.push(
            Event::SendMessage { to: addr, msg: Message::ConnectionInfo(ConnectionInfo { port }) },
        );
    }
    r
}

} // verus!
