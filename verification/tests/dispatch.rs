use overlay_node::context::Context;
use overlay_node::event::Event;
use overlay_node::message::ConnectionInfo;
use overlay_node::message::Message;
use overlay_node::message::NetworkState;
use overlay_node::message::NewConnection;
use overlay_node::message::Text;
use overlay_node::peer::Info;
use overlay_node::peer::Peer;
use overlay_node::peer::PeerAddress;
use overlay_node::server::handle_event;
use overlay_node::server::event_for_message;
use overlay_node::server::initial_events;
use overlay_node::server::Effect;

fn addr(last: u8, port: u16) -> PeerAddress {
    PeerAddress { ip: 0x0a000000 + last as u32, port }
}

fn text(s: &str) -> Message {
    Message::Text(Text { text: s.to_string() })
}

#[test]
fn effects_follow_event_order() {
    // Feeding [SendMessage, BroadcastMessage, SendMessage] from one
    // producer executes the effects in that exact order.
    let mut ctx = Context::new(9000, 10);
    let a = addr(1, 7001);
    let b = addr(2, 7002);
    ctx.add_peer(a, Peer { handle: 11, info: None }).unwrap();
    ctx.add_peer(b, Peer { handle: 22, info: None }).unwrap();

    let mut effects = Vec::new();
    effects.extend(handle_event(&mut ctx, Event::SendMessage { to: a, msg: text("one") }));
    effects.extend(handle_event(&mut ctx, Event::BroadcastMessage(text("two"))));
    effects.extend(handle_event(&mut ctx, Event::SendMessage { to: b, msg: text("three") }));

    assert_eq!(
        effects,
        vec![
            Effect::Write { handle: 11, msg: text("one") },
            Effect::WriteAll { handles: vec![11, 22], msg: text("two") },
            Effect::Write { handle: 22, msg: text("three") },
        ]
    );
}

#[test]
fn broadcast_event_without_peers_does_nothing() {
    let mut ctx = Context::new(9000, 10);
    let fx = handle_event(&mut ctx, Event::BroadcastMessage(text("quiet")));
    assert_eq!(fx, vec![]);
}

#[test]
fn broadcast_with_exclude_event_skips_excluded() {
    let mut ctx = Context::new(9000, 10);
    let a = addr(1, 7001);
    let b = addr(2, 7002);
    ctx.add_peer(a, Peer { handle: 11, info: None }).unwrap();
    ctx.add_peer(b, Peer { handle: 22, info: None }).unwrap();
    let fx = handle_event(
        &mut ctx,
        Event::BroadcastWithExcludeMessage { exclude: a, msg: text("m") },
    );
    assert_eq!(fx, vec![Effect::WriteAll { handles: vec![22], msg: text("m") }]);
}

#[test]
fn send_to_missing_peer_is_logged_and_dropped() {
    let mut ctx = Context::new(9000, 10);
    let fx = handle_event(&mut ctx, Event::SendMessage { to: addr(9, 7009), msg: text("m") });
    assert_eq!(fx, vec![]);
}

#[test]
fn network_state_event_emits_one_connect_per_entry() {
    // Receiving NetworkState{A: infoA, B: infoB} emits exactly one
    // Connect per entry, each at (entry ip, announced port).
    let mut ctx = Context::new(9000, 10);
    let a = addr(1, 7001);
    let b = addr(2, 7002);
    let msg = NetworkState::new(vec![(a, Info { port: 8001 }), (b, Info { port: 8002 })]);
    let fx = handle_event(&mut ctx, Event::RecvNetworkState(msg));
    assert_eq!(
        fx,
        vec![
            Effect::Emit(Event::Connect(PeerAddress { ip: a.ip, port: 8001 })),
            Effect::Emit(Event::Connect(PeerAddress { ip: b.ip, port: 8002 })),
        ]
    );
}

#[test]
fn connection_info_event_replies_with_state_then_updates() {
    let mut ctx = Context::new(9000, 10);
    let a = addr(1, 7001);
    let b = addr(2, 7002);
    ctx.add_peer(a, Peer { handle: 11, info: Some(Info { port: 8001 }) }).unwrap();
    ctx.add_peer(b, Peer { handle: 22, info: None }).unwrap();
    let ci = ConnectionInfo { port: 8002 };
    let fx = handle_event(&mut ctx, Event::RecvConnectionInfo { from: b, msg: ci });
    assert_eq!(
        fx,
        vec![
            Effect::Emit(Event::SendMessage {
                to: b,
                msg: Message::NetworkState(NetworkState {
                    peers: vec![(a, Info { port: 8001 })],
                }),
            }),
            Effect::Emit(Event::UpdatePeerInfo { addr: b, msg: ci }),
        ]
    );
}

#[test]
fn accept_and_update_and_disconnect_mutate_registry() {
    let mut ctx = Context::new(9000, 10);
    let a = addr(1, 7001);
    assert_eq!(handle_event(&mut ctx, Event::AcceptConnection { handle: 5, addr: a }), vec![]);
    assert!(ctx.has_peers());
    assert_eq!(ctx.network_state(), vec![]);
    assert_eq!(
        handle_event(&mut ctx, Event::UpdatePeerInfo { addr: a, msg: ConnectionInfo { port: 8001 } }),
        vec![]
    );
    assert_eq!(ctx.network_state(), vec![(a, Info { port: 8001 })]);
    assert_eq!(handle_event(&mut ctx, Event::Disconnect(a)), vec![]);
    assert!(!ctx.has_peers());
}

#[test]
fn connect_event_dials_fatally_with_synthesized_info() {
    let mut ctx = Context::new(9000, 10);
    let a = addr(1, 7001);
    let fx = handle_event(&mut ctx, Event::Connect(a));
    assert_eq!(
        fx,
        vec![Effect::Dial { addr: a, info: Some(Info { port: 7001 }), fatal: true }]
    );
}

#[test]
fn new_connection_event_dials_nonfatally_without_info() {
    let mut ctx = Context::new(9000, 10);
    let a = addr(1, 7001);
    let fx = handle_event(&mut ctx, Event::RecvNewConnection(NewConnection { addr: a }));
    assert_eq!(fx, vec![Effect::Dial { addr: a, info: None, fatal: false }]);
}

#[test]
fn recv_text_changes_nothing() {
    let mut ctx = Context::new(9000, 10);
    let fx = handle_event(
        &mut ctx,
        Event::RecvText { from: addr(1, 7001), msg: Text { text: "hello".to_string() } },
    );
    assert_eq!(fx, vec![]);
    assert!(!ctx.has_peers());
}

#[test]
fn messages_map_to_their_events() {
    let a = addr(1, 7001);
    assert_eq!(
        event_for_message(a, text("hi")),
        Event::RecvText { from: a, msg: Text { text: "hi".to_string() } }
    );
    assert_eq!(
        event_for_message(a, Message::ConnectionInfo(ConnectionInfo { port: 8001 })),
        Event::RecvConnectionInfo { from: a, msg: ConnectionInfo { port: 8001 } }
    );
    assert_eq!(
        event_for_message(a, Message::NewConnection(NewConnection { addr: addr(2, 7002) })),
        Event::RecvNewConnection(NewConnection { addr: addr(2, 7002) })
    );
    assert_eq!(
        event_for_message(a, Message::NetworkState(NetworkState { peers: vec![] })),
        Event::RecvNetworkState(NetworkState { peers: vec![] })
    );
}

#[test]
fn bootstrap_with_seed_connects_then_announces() {
    let seed = addr(1, 9001);
    assert_eq!(
        initial_events(9002, Some(seed)),
        vec![
            Event::Connect(seed),
            Event::SendMessage {
                to: seed,
                msg: Message::ConnectionInfo(ConnectionInfo { port: 9002 }),
            },
        ]
    );
    assert_eq!(initial_events(9001, None), vec![]);
}

#[test]
fn two_node_handshake_at_the_event_level() {
    // Node 1 listens on 9001 with no seed; node 2 dials it and sends
    // ConnectionInfo{port: 9002}.  After node 1 processes the accept and
    // the handshake, its registry holds node 2 with Info{port: 9002},
    // and it has written back a NetworkState with its (empty) view.
    let mut node1 = Context::new(9001, 10);
    let node2_addr = addr(2, 50123);

    // The listener accepts node 2's connection under handle 7.
    handle_event(&mut node1, Event::AcceptConnection { handle: 7, addr: node2_addr });

    // Node 2's ConnectionInfo arrives and becomes an event.
    let ev = event_for_message(node2_addr, Message::ConnectionInfo(ConnectionInfo { port: 9002 }));
    let fx = handle_event(&mut node1, ev);

    // The two emitted events are processed in order.
    let mut writes = Vec::new();
    for effect in fx {
        match effect {
            Effect::Emit(e) => writes.extend(handle_event(&mut node1, e)),
            other => panic!("unexpected effect: {:?}", other),
        }
    }
    assert_eq!(
        writes,
        vec![Effect::Write {
            handle: 7,
            msg: Message::NetworkState(NetworkState { peers: vec![] }),
        }]
    );
    assert_eq!(node1.network_state(), vec![(node2_addr, Info { port: 9002 })]);
}
