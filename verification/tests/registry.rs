use overlay_node::context::Context;
use overlay_node::context::RegistryError;
use overlay_node::peer::Info;
use overlay_node::peer::Peer;
use overlay_node::peer::PeerAddress;

fn addr(last: u8, port: u16) -> PeerAddress {
    PeerAddress { ip: 0x0a000000 + last as u32, port }
}

#[test]
fn add_peer_rejects_duplicate_and_keeps_original() {
    let mut ctx = Context::new(9000, 10);
    let a = addr(1, 7001);
    assert_eq!(ctx.add_peer(a, Peer { handle: 11, info: None }), Ok(()));
    assert_eq!(
        ctx.add_peer(a, Peer { handle: 22, info: Some(Info { port: 7001 }) }),
        Err(RegistryError::DuplicatePeer)
    );
    // The original entry is untouched: the unicast still goes to handle 11.
    assert_eq!(ctx.send(a), Ok(11));
    assert_eq!(ctx.broadcast(), vec![11]);
}

#[test]
fn remove_absent_is_error_and_noop() {
    let mut ctx = Context::new(9000, 10);
    let a = addr(1, 7001);
    let b = addr(2, 7002);
    ctx.add_peer(a, Peer { handle: 11, info: None }).unwrap();
    assert_eq!(ctx.disconnect(b), Err(RegistryError::PeerNotFound));
    assert!(ctx.has_peers());
    assert_eq!(ctx.broadcast(), vec![11]);
}

#[test]
fn update_absent_is_error_and_noop() {
    let mut ctx = Context::new(9000, 10);
    let a = addr(1, 7001);
    let b = addr(2, 7002);
    ctx.add_peer(a, Peer { handle: 11, info: None }).unwrap();
    assert_eq!(
        ctx.update_peer_info(b, Some(Info { port: 7002 })),
        Err(RegistryError::PeerNotFound)
    );
    // The table is unchanged: still no announced peer.
    assert_eq!(ctx.network_state(), vec![]);
}

#[test]
fn update_present_overwrites_info() {
    let mut ctx = Context::new(9000, 10);
    let a = addr(1, 7001);
    ctx.add_peer(a, Peer { handle: 11, info: None }).unwrap();
    assert_eq!(ctx.update_peer_info(a, Some(Info { port: 7001 })), Ok(()));
    assert_eq!(ctx.network_state(), vec![(a, Info { port: 7001 })]);
}

#[test]
fn broadcast_plan_covers_every_peer() {
    // Three registered peers, one of whose write handles will fail at
    // the transport: the plan still names all three, in order, and the
    // call reports no error to the caller (it has no error channel), so
    // a failing write never hides the other two.
    let mut ctx = Context::new(9000, 10);
    ctx.add_peer(addr(1, 7001), Peer { handle: 11, info: None }).unwrap();
    ctx.add_peer(addr(2, 7002), Peer { handle: 22, info: None }).unwrap();
    ctx.add_peer(addr(3, 7003), Peer { handle: 33, info: None }).unwrap();
    let plan = ctx.broadcast();
    assert_eq!(plan, vec![11, 22, 33]);
}

#[test]
fn broadcast_with_exclude_skips_one_address() {
    let mut ctx = Context::new(9000, 10);
    ctx.add_peer(addr(1, 7001), Peer { handle: 11, info: None }).unwrap();
    ctx.add_peer(addr(2, 7002), Peer { handle: 22, info: None }).unwrap();
    assert_eq!(ctx.broadcast_with_exclude(addr(1, 7001)), vec![22]);
}

#[test]
fn broadcast_with_excludes_targets_announced_unexcluded_only() {
    // A has info and is excluded; B has info; C has none: only B is reached.
    let mut ctx = Context::new(9000, 10);
    let a = addr(1, 7001);
    let b = addr(2, 7002);
    let c = addr(3, 7003);
    ctx.add_peer(a, Peer { handle: 11, info: Some(Info { port: 7001 }) }).unwrap();
    ctx.add_peer(b, Peer { handle: 22, info: Some(Info { port: 7002 }) }).unwrap();
    ctx.add_peer(c, Peer { handle: 33, info: None }).unwrap();
    let excludes = vec![a];
    assert_eq!(ctx.broadcast_with_excludes(&excludes), vec![22]);
}

#[test]
fn send_to_absent_peer_fails() {
    let ctx = Context::new(9000, 10);
    assert_eq!(ctx.send(addr(9, 7009)), Err(RegistryError::PeerNotFound));
}

#[test]
fn disconnect_removes_entry() {
    let mut ctx = Context::new(9000, 10);
    let a = addr(1, 7001);
    ctx.add_peer(a, Peer { handle: 11, info: None }).unwrap();
    assert_eq!(ctx.disconnect(a), Ok(()));
    assert!(!ctx.has_peers());
    assert_eq!(ctx.send(a), Err(RegistryError::PeerNotFound));
}

#[test]
fn getters_report_configuration() {
    let ctx = Context::new(9123, 42);
    assert_eq!(ctx.port(), 9123);
    assert_eq!(ctx.sleep_duration(), 42);
    assert!(!ctx.has_peers());
}
