use tcp_multiclient::accept::{accept_step, plan_accept_loops, AcceptAction, AcceptEvent, StartError};
use tcp_multiclient::registry::{Address, Entry, Registry};
use tcp_multiclient::session::{
    broadcast_targets, fanout_deliveries, on_read, session_broadcasts, state_after_fanout,
    ReadEvent, SessionAction, SessionState,
};

fn addr(ip: u128, port: u16) -> Address {
    Address { ip, port }
}

#[test]
fn registry_insert_and_lookup() {
    let mut reg = Registry::new();
    let a = addr(1, 4000);
    let b = addr(2, 4001);
    assert!(!reg.contains(a));
    reg.insert(a, 10);
    reg.insert(b, 11);
    assert!(reg.contains(a));
    assert!(reg.contains(b));
    assert!(!reg.contains(addr(3, 4002)));
}

#[test]
fn registry_remove_deregisters() {
    let mut reg = Registry::new();
    let a = addr(1, 4000);
    reg.insert(a, 10);
    reg.remove(a);
    assert!(!reg.contains(a));
    assert!(reg.broadcast_snapshot().is_empty());
}

#[test]
fn registry_remove_absent_is_noop() {
    // Removing an address that was never present must not panic and
    // must change nothing.
    let mut reg = Registry::new();
    let a = addr(1, 4000);
    let b = addr(2, 4001);
    reg.insert(a, 10);
    reg.remove(b);
    assert!(reg.contains(a));
    assert_eq!(reg.broadcast_snapshot().len(), 1);
}

#[test]
fn registry_remove_is_idempotent() {
    // Two racing disconnect paths for the same peer: the second removal
    // finds the address already gone and is a no-op.
    let mut reg = Registry::new();
    let a = addr(1, 4000);
    let b = addr(2, 4001);
    reg.insert(a, 10);
    reg.insert(b, 11);
    reg.remove(a);
    reg.remove(a);
    assert!(!reg.contains(a));
    assert!(reg.contains(b));
    let snap = reg.broadcast_snapshot();
    assert_eq!(snap.len(), 1);
    assert_eq!(snap[0], Entry { addr: b, handle: 11 });
}

#[test]
fn snapshot_lists_every_live_peer() {
    let mut reg = Registry::new();
    let a = addr(1, 4000);
    let b = addr(2, 4001);
    let c = addr(3, 4002);
    reg.insert(a, 10);
    reg.insert(b, 11);
    reg.insert(c, 12);
    let snap = reg.broadcast_snapshot();
    assert_eq!(snap.len(), 3);
    assert!(snap.contains(&Entry { addr: a, handle: 10 }));
    assert!(snap.contains(&Entry { addr: b, handle: 11 }));
    assert!(snap.contains(&Entry { addr: c, handle: 12 }));
}

#[test]
fn targets_exclude_sender_and_reach_all_others() {
    // Three connected peers: a chunk sent by A is offered to B and C,
    // never to A itself.
    let a = Entry { addr: addr(1, 4000), handle: 10 };
    let b = Entry { addr: addr(2, 4001), handle: 11 };
    let c = Entry { addr: addr(3, 4002), handle: 12 };
    let snap = vec![a, b, c];
    let targets = broadcast_targets(&snap, a.addr);
    assert_eq!(targets, vec![b, c]);
}

#[test]
fn lone_peer_has_no_targets() {
    // A single peer with no other connections: the target set is empty,
    // so no write is ever attempted.
    let a = Entry { addr: addr(1, 4000), handle: 10 };
    let snap = vec![a];
    let targets = broadcast_targets(&snap, a.addr);
    assert!(targets.is_empty());
    // ... and the sender's own loop continues normally afterwards.
    assert_eq!(state_after_fanout(&Vec::new()), SessionState::Reading);
    let (st, _) = on_read(ReadEvent::Data(vec![1, 2, 3]));
    assert_eq!(st, SessionState::Reading);
}

#[test]
fn on_read_relays_chunk_verbatim() {
    let (st, act) = on_read(ReadEvent::Data(vec![0x00, 0x01, 0x02]));
    assert_eq!(st, SessionState::Reading);
    match act {
        SessionAction::Broadcast(p) => assert_eq!(p, vec![0x00, 0x01, 0x02]),
        SessionAction::Deregister => panic!("a non-empty chunk must be broadcast"),
    }
}

#[test]
fn on_read_zero_bytes_ends_session() {
    let (st, act) = on_read(ReadEvent::Data(Vec::new()));
    assert_eq!(st, SessionState::Terminated);
    assert!(matches!(act, SessionAction::Deregister));
}

#[test]
fn on_read_failure_ends_session() {
    let (st, act) = on_read(ReadEvent::Failed);
    assert_eq!(st, SessionState::Terminated);
    assert!(matches!(act, SessionAction::Deregister));
}

#[test]
fn chunks_are_relayed_in_order() {
    // Two chunks sent one after the other leave the session in that
    // same order, never reordered.
    let events = vec![
        ReadEvent::Data(vec![1]),
        ReadEvent::Data(vec![2, 3]),
        ReadEvent::Data(vec![4]),
    ];
    let (chunks, st) = session_broadcasts(events);
    assert_eq!(chunks, vec![vec![1], vec![2, 3], vec![4]]);
    assert_eq!(st, SessionState::Reading);
}

#[test]
fn relay_stops_at_read_failure() {
    let events = vec![
        ReadEvent::Data(vec![1]),
        ReadEvent::Failed,
        ReadEvent::Data(vec![2]),
    ];
    let (chunks, st) = session_broadcasts(events);
    assert_eq!(chunks, vec![vec![1]]);
    assert_eq!(st, SessionState::Terminated);
}

#[test]
fn relay_stops_at_orderly_close() {
    let events = vec![ReadEvent::Data(vec![9]), ReadEvent::Data(Vec::new())];
    let (chunks, st) = session_broadcasts(events);
    assert_eq!(chunks, vec![vec![9]]);
    assert_eq!(st, SessionState::Terminated);
}

#[test]
fn write_failure_does_not_block_other_targets() {
    // A failed write to X in one fan-out: Y still receives the chunk,
    // and the sender's session keeps reading.
    let x = Entry { addr: addr(2, 4001), handle: 11 };
    let y = Entry { addr: addr(3, 4002), handle: 12 };
    let targets = vec![x, y];
    let write_ok = vec![false, true];
    let delivered = fanout_deliveries(&targets, &write_ok);
    assert_eq!(delivered, vec![y]);
    assert_eq!(state_after_fanout(&write_ok), SessionState::Reading);
}

#[test]
fn disconnect_removes_peer_from_later_fanouts() {
    // After B disconnects, a snapshot taken for A's next chunk no
    // longer targets B.
    let a = addr(1, 4000);
    let b = addr(2, 4001);
    let c = addr(3, 4002);
    let mut reg = Registry::new();
    reg.insert(a, 10);
    reg.insert(b, 11);
    reg.insert(c, 12);
    reg.remove(b);
    let snap = reg.broadcast_snapshot();
    let targets = broadcast_targets(&snap, a);
    assert_eq!(targets, vec![Entry { addr: c, handle: 12 }]);
    assert!(targets.iter().all(|e| e.addr != b));
}

#[test]
fn accept_registers_and_spawns() {
    let mut reg = Registry::new();
    let a = addr(7, 5000);
    assert!(!reg.contains(a));
    let action = accept_step(&mut reg, AcceptEvent::Accepted(a, 42));
    assert_eq!(action, AcceptAction::RunSession(a));
    assert!(reg.contains(a));
}

#[test]
fn accept_failure_keeps_listening() {
    let mut reg = Registry::new();
    reg.insert(addr(7, 5000), 42);
    let action = accept_step(&mut reg, AcceptEvent::Failed);
    assert_eq!(action, AcceptAction::KeepListening);
    assert_eq!(reg.broadcast_snapshot().len(), 1);
}

#[test]
fn no_listeners_refuses_to_start() {
    assert_eq!(plan_accept_loops(0), Err(StartError::NoListeners));
    assert_eq!(plan_accept_loops(2), Ok(2));
}

#[test]
fn two_listeners_cross_delivery() {
    // Two listeners, one client on each: X (accepted on the first
    // port) sends "hello"; Y is the only target and is offered exactly
    // those bytes; X is offered nothing from its own send.
    assert_eq!(plan_accept_loops(2), Ok(2));
    let mut reg = Registry::new();
    let x = addr(10, 9001);
    let y = addr(11, 9002);
    accept_step(&mut reg, AcceptEvent::Accepted(x, 1));
    accept_step(&mut reg, AcceptEvent::Accepted(y, 2));
    let (st, act) = on_read(ReadEvent::Data(b"hello".to_vec()));
    assert_eq!(st, SessionState::Reading);
    let payload = match act {
        SessionAction::Broadcast(p) => p,
        SessionAction::Deregister => panic!("a non-empty chunk must be broadcast"),
    };
    assert_eq!(payload, b"hello".to_vec());
    let targets = broadcast_targets(&reg.broadcast_snapshot(), x);
    assert_eq!(targets, vec![Entry { addr: y, handle: 2 }]);
}

#[test]
fn three_clients_then_one_disconnects() {
    // A, B, C connected; A sends 0x00 0x01 0x02: both B and C are
    // offered exactly those 3 bytes.  Then B disconnects; A sends
    // "ping": only C is targeted.
    let a = addr(1, 4000);
    let b = addr(2, 4001);
    let c = addr(3, 4002);
    let mut reg = Registry::new();
    reg.insert(a, 1);
    reg.insert(b, 2);
    reg.insert(c, 3);

    let (_, act) = on_read(ReadEvent::Data(vec![0x00, 0x01, 0x02]));
    let payload = match act {
        SessionAction::Broadcast(p) => p,
        SessionAction::Deregister => panic!("a non-empty chunk must be broadcast"),
    };
    assert_eq!(payload.len(), 3);
    assert_eq!(payload, vec![0x00, 0x01, 0x02]);
    let targets = broadcast_targets(&reg.broadcast_snapshot(), a);
    assert_eq!(
        targets,
        vec![Entry { addr: b, handle: 2 }, Entry { addr: c, handle: 3 }]
    );

    reg.remove(b);
    let (_, act) = on_read(ReadEvent::Data(b"ping".to_vec()));
    let payload = match act {
        SessionAction::Broadcast(p) => p,
        SessionAction::Deregister => panic!("a non-empty chunk must be broadcast"),
    };
    assert_eq!(payload, b"ping".to_vec());
    let targets = broadcast_targets(&reg.broadcast_snapshot(), a);
    assert_eq!(targets, vec![Entry { addr: c, handle: 3 }]);
}
