use peerland::discovery::{Discovery, StaticDiscovery};
use peerland::lamport::LamportClockUnit;
use peerland::node::{retry_after_failure, NodeCore, ProcessOutcome, ReadErrorKind, GOSSIP_FANOUT};
use peerland::peers::{ConnectionTable, PeerAddr};
use peerland::proto::{Lt, MessageKind, NodeMessage, ProtoUuid};
use peerland::task::Task;
use peerland::time::{Millis, SystemTimeProvider};
use rand::rngs::StdRng;
use rand::{Rng, SeedableRng};
use std::collections::VecDeque;

struct FixedTime(u128);

impl SystemTimeProvider for FixedTime {
    fn now_millis(&self) -> Millis {
        Millis(self.0)
    }
}

fn peer(i: u32) -> PeerAddr {
    PeerAddr::V4 { ip: 0x0a00_0000 + i, port: 9000 }
}

fn message(id: u128, kind: Option<MessageKind>, payload: &[u8]) -> NodeMessage {
    NodeMessage {
        id: Some(ProtoUuid::from_uuid(id)),
        message_kind: kind,
        ts: None,
        lt: None,
        payload: payload.to_vec(),
    }
}

fn lt_of(m: &NodeMessage) -> LamportClockUnit {
    match m.lt {
        Some(Lt::LamportClock(u)) => LamportClockUnit((u.lt, u.proc_id)),
        None => panic!("message without logical time"),
    }
}

#[test]
fn table_insert_get_remove() {
    let mut t: ConnectionTable<&str> = ConnectionTable::new();
    assert_eq!(t.len(), 0);
    t.insert(peer(1), "a");
    t.insert(peer(2), "b");
    assert_eq!(t.get(&peer(1)), Some(&"a"));
    t.insert(peer(1), "c");
    assert_eq!(t.get(&peer(1)), Some(&"c"));
    assert_eq!(t.len(), 2);
    assert!(t.contains(&peer(2)));
    let mut ks = t.keys();
    ks.sort_by_key(|p| format!("{:?}", p));
    assert_eq!(ks, vec![peer(1), peer(2)]);
    t.remove(&peer(1));
    assert_eq!(t.get(&peer(1)), None);
    assert!(!t.contains(&peer(1)));
    assert_eq!(t.len(), 1);
    t.remove(&peer(7));
    assert_eq!(t.len(), 1);
}

#[test]
fn bad_ids_are_skipped() {
    let mut rng = StdRng::seed_from_u64(1);
    let mut n: NodeCore<u32> = NodeCore::new(0);
    let mut m = message(1, Some(MessageKind::Broadcast(1)), b"x");
    m.id = None;
    assert!(matches!(n.process_message(&mut rng, m), ProcessOutcome::BadId));
    let mut m = message(1, Some(MessageKind::Broadcast(1)), b"x");
    m.id = Some(ProtoUuid { value: vec![1, 2, 3] });
    assert!(matches!(n.process_message(&mut rng, m), ProcessOutcome::BadId));
    assert_eq!(n.storage().len(), 0);
    assert_eq!(n.processed_count(), 0);
}

#[test]
fn message_is_stored_once() {
    let mut rng = StdRng::seed_from_u64(1);
    let mut n: NodeCore<u32> = NodeCore::new(0);
    let out = n.process_message(&mut rng, message(5, Some(MessageKind::Addressed(0)), b"hi"));
    assert!(matches!(out, ProcessOutcome::Addressed));
    let out = n.process_message(&mut rng, message(5, Some(MessageKind::Addressed(0)), b"hi"));
    assert!(matches!(out, ProcessOutcome::AlreadyProcessed));
    assert_eq!(n.storage(), &vec![b"hi".to_vec()]);
    assert_eq!(n.processed_count(), 1);
}

#[test]
fn message_without_kind_is_stored() {
    let mut rng = StdRng::seed_from_u64(1);
    let mut n: NodeCore<u32> = NodeCore::new(0);
    assert!(matches!(n.process_message(&mut rng, message(5, None, b"a")), ProcessOutcome::NoKind));
    assert_eq!(n.storage().len(), 1);
}

#[test]
fn unknown_broadcast_type_is_reported_after_storing() {
    let mut rng = StdRng::seed_from_u64(1);
    let mut n: NodeCore<u32> = NodeCore::new(0);
    let out = n.process_message(&mut rng, message(5, Some(MessageKind::Broadcast(7)), b"a"));
    assert!(matches!(out, ProcessOutcome::UnknownBroadcastType(7)));
    assert_eq!(n.storage().len(), 1);
    assert_eq!(n.processed_count(), 1);
}

#[test]
fn reliable_broadcast_goes_to_every_peer() {
    let mut rng = StdRng::seed_from_u64(1);
    let mut n: NodeCore<u32> = NodeCore::new(0);
    for i in 1..=5 {
        n.register_connection(peer(i), i);
    }
    match n.process_message(&mut rng, message(5, Some(MessageKind::Broadcast(1)), b"a")) {
        ProcessOutcome::Broadcast { message, mut targets, skip_failed } => {
            assert!(!skip_failed);
            assert_eq!(message.payload, b"a".to_vec());
            targets.sort_by_key(|p| format!("{:?}", p));
            let mut all: Vec<PeerAddr> = (1..=5).map(peer).collect();
            all.sort_by_key(|p| format!("{:?}", p));
            assert_eq!(targets, all);
        }
        _ => panic!("expected a broadcast"),
    }
}

#[test]
fn gossip_goes_to_a_few_distinct_peers() {
    let mut rng = StdRng::seed_from_u64(1);
    let mut n: NodeCore<u32> = NodeCore::new(0);
    for i in 1..=6 {
        n.register_connection(peer(i), i);
    }
    match n.process_message(&mut rng, message(5, Some(MessageKind::Broadcast(0)), b"a")) {
        ProcessOutcome::Broadcast { targets, skip_failed, .. } => {
            assert!(skip_failed);
            assert_eq!(targets.len(), GOSSIP_FANOUT);
            for t in &targets {
                assert!(n.connection(t).is_some());
            }
            let mut dedup = targets.clone();
            dedup.sort_by_key(|p| format!("{:?}", p));
            dedup.dedup();
            assert_eq!(dedup.len(), targets.len());
        }
        _ => panic!("expected a broadcast"),
    }
}

#[test]
fn gossip_with_few_peers_goes_to_all() {
    let mut rng = StdRng::seed_from_u64(1);
    let mut n: NodeCore<u32> = NodeCore::new(0);
    n.register_connection(peer(1), 1);
    match n.process_message(&mut rng, message(5, Some(MessageKind::Broadcast(0)), b"a")) {
        ProcessOutcome::Broadcast { targets, .. } => assert_eq!(targets, vec![peer(1)]),
        _ => panic!("expected a broadcast"),
    }
}

#[test]
fn receive_restamps_message() {
    let mut rng = StdRng::seed_from_u64(1);
    let mut n: NodeCore<u32> = NodeCore::new(4);
    let mut m = message(5, Some(MessageKind::Broadcast(1)), b"a");
    m.lt = Some(Lt::LamportClock(peerland::proto::ProtoLamportClockUnit { lt: 30, proc_id: 1 }));
    match n.receive(&mut rng, m) {
        ProcessOutcome::Broadcast { message, .. } => {
            assert_eq!(lt_of(&message), LamportClockUnit((30, 4)))
        }
        _ => panic!("expected a broadcast"),
    }
}

#[test]
fn created_message_carries_everything() {
    let mut n: NodeCore<u32> = NodeCore::new(4);
    let m = n.create_node_message(&FixedTime(5_250), b"data", MessageKind::Broadcast(1));
    assert_eq!(m.payload, b"data".to_vec());
    assert!(matches!(m.message_kind, Some(MessageKind::Broadcast(1))));
    let ts = m.ts.unwrap();
    assert_eq!((ts.seconds, ts.nanos), (5, 250_000_000));
    assert_eq!(lt_of(&m), LamportClockUnit((0, 4)));
    let id = m.id.unwrap().to_uuid().unwrap();
    assert_eq!(((id >> 76) & 0xf, (id >> 62) & 3), (4, 2));
    let m2 = n.create_addressed_message(&FixedTime(0), b"x");
    assert!(matches!(m2.message_kind, Some(MessageKind::Addressed(0))));
    assert_eq!(lt_of(&m2), LamportClockUnit((1, 4)));
}

#[test]
fn originated_broadcast_is_stored_locally() {
    let mut rng = StdRng::seed_from_u64(3);
    let mut n: NodeCore<u32> = NodeCore::new(4);
    n.register_connection(peer(1), 1);
    let out = n.broadcast_reliably(&FixedTime(0), &mut rng, b"hello");
    assert!(matches!(out, ProcessOutcome::Broadcast { skip_failed: false, .. }));
    let out = n.gossip(&FixedTime(0), &mut rng, b"again");
    assert!(matches!(out, ProcessOutcome::Broadcast { skip_failed: true, .. }));
    assert_eq!(n.storage(), &vec![b"hello".to_vec(), b"again".to_vec()]);
}

#[test]
fn send_needs_a_connection() {
    let mut n: NodeCore<&str> = NodeCore::new(0);
    match n.send_serialized_message(&[9, 9], &peer(1)) {
        Err(e) => assert_eq!(e.0, peer(1)),
        Ok(_) => panic!("peer should be unknown"),
    }
    n.register_connection(peer(1), "conn");
    let (c, bytes) = n.send_serialized_message(&[9, 9], &peer(1)).unwrap();
    assert_eq!(*c, "conn");
    assert_eq!(bytes, vec![2, 0, 0, 0, 0, 0, 0, 0, 9, 9]);
}

#[test]
fn read_errors_that_close_the_connection() {
    let mut n: NodeCore<u32> = NodeCore::new(0);
    n.register_connection(peer(1), 1);
    assert!(!n.handle_read_error(&peer(1), ReadErrorKind::Other));
    assert!(n.connection(&peer(1)).is_some());
    assert!(n.handle_read_error(&peer(1), ReadErrorKind::ConnectionReset));
    assert!(n.connection(&peer(1)).is_none());
    n.register_connection(peer(1), 1);
    assert!(n.handle_read_error(&peer(1), ReadErrorKind::ConnectionAborted));
    n.register_connection(peer(1), 1);
    assert!(n.handle_read_error(&peer(1), ReadErrorKind::ConnectionRefused));
    assert_eq!(n.peer_addrs().len(), 0);
}

#[test]
fn retry_unless_failed_peers_are_skipped() {
    assert!(retry_after_failure(None));
    assert!(retry_after_failure(Some(false)));
    assert!(!retry_after_failure(Some(true)));
}

#[test]
fn static_discovery_lists_and_picks() {
    let mut d = StaticDiscovery::new(vec![peer(1), peer(2)], StdRng::seed_from_u64(5));
    d.add_node(peer(3));
    assert_eq!(d.list_known_nodes(), vec![peer(1), peer(2), peer(3)]);
    let picked = d.pick_random_nodes(2);
    assert_eq!(picked.len(), 2);
    assert_ne!(picked[0], picked[1]);
    assert_eq!(d.pick_random_nodes(10).len(), 3);
    let mut rng = StdRng::seed_from_u64(8);
    let picked = Discovery::get_random_nodes(&d, 1, &mut rng);
    assert_eq!(picked.len(), 1);
    assert!(d.list_known_nodes().contains(&picked[0]));
}

#[test]
fn task_holds_its_future() {
    let t = Task { fut: async { 3 } };
    let _ = t.fut;
}

/// An in-memory network of nodes: every node is connected to every other,
/// and messages in flight are delivered in an order drawn from `rng`.
struct Mesh {
    nodes: Vec<NodeCore<usize>>,
    in_flight: VecDeque<(usize, NodeMessage)>,
    last_stamp: Vec<Option<LamportClockUnit>>,
}

impl Mesh {
    fn new(n: usize) -> Mesh {
        let mut nodes = Vec::new();
        for i in 0..n {
            let mut node = NodeCore::new(i as u32);
            for j in 0..n {
                if j != i {
                    node.register_connection(peer(j as u32), j);
                }
            }
            nodes.push(node);
        }
        Mesh { nodes, in_flight: VecDeque::new(), last_stamp: vec![None; n] }
    }

    fn stamp(&mut self, node: usize, m: &NodeMessage) {
        let u = lt_of(m);
        if let Some(prev) = self.last_stamp[node] {
            assert!(prev.is_before(&u), "logical time reverted: last: {:?}, current: {:?}", prev, u);
        }
        self.last_stamp[node] = Some(u);
    }

    fn forward(&mut self, from: usize, out: ProcessOutcome) {
        if let ProcessOutcome::Broadcast { message, targets, .. } = out {
            self.stamp(from, &message);
            for t in targets {
                let to = *self.nodes[from].connection(&t).unwrap();
                self.in_flight.push_back((to, message.clone()));
            }
        }
    }

    fn deliver_all(&mut self, rng: &mut StdRng) {
        while !self.in_flight.is_empty() {
            let k = rng.gen_range(0..self.in_flight.len());
            let (to, msg) = self.in_flight.remove(k).unwrap();
            let out = self.nodes[to].receive(rng, msg);
            self.forward(to, out);
        }
    }
}

#[test]
fn reliable_broadcast() {
    for _ in 0..10 {
        let seed = rand::random();
        let mut rng = StdRng::seed_from_u64(seed);
        let mut mesh = Mesh::new(10);
        for i in 0..10 {
            for node_idx in 0..mesh.nodes.len() {
                let msg = format!("hello from {}: {i}", node_idx);
                let out = mesh.nodes[node_idx].broadcast_reliably(&FixedTime(0), &mut rng, msg.as_bytes());
                mesh.forward(node_idx, out);
                if rng.gen::<u64>() % 15 == 0 {
                    mesh.deliver_all(&mut rng);
                }
            }
        }
        mesh.deliver_all(&mut rng);
        let mut storages = Vec::new();
        for n in &mesh.nodes {
            let mut s = n.storage().clone();
            assert_eq!(s.len(), 100);
            s.sort();
            storages.push(s);
        }
        for i in 1..storages.len() {
            assert_eq!(storages[i - 1], storages[i]);
        }
    }
}

#[test]
fn clocks_lt_doesnt_go_backwards() {
    for _ in 0..10 {
        let seed = rand::random();
        let mut rng = StdRng::seed_from_u64(seed);
        let mut mesh = Mesh::new(5);
        for i in 0..100 {
            for node_idx in 0..mesh.nodes.len() {
                let msg = format!("hello from {}: {i}", node_idx);
                let out = mesh.nodes[node_idx].gossip(&FixedTime(0), &mut rng, msg.as_bytes());
                mesh.forward(node_idx, out);
                if rng.gen::<u64>() % 15 == 0 {
                    mesh.deliver_all(&mut rng);
                }
            }
        }
        mesh.deliver_all(&mut rng);
    }
}

#[test]
fn one_node_broadcast() {
    let mut rng = StdRng::seed_from_u64(rand::random());
    let mut mesh = Mesh::new(2);
    for i in 0..10 {
        let msg = format!("hello from 0: {i}");
        let out = mesh.nodes[0].broadcast_reliably(&FixedTime(0), &mut rng, msg.as_bytes());
        mesh.forward(0, out);
    }
    mesh.deliver_all(&mut rng);
    assert_eq!(mesh.nodes[1].processed_count(), 10);
    for i in 0..10 {
        let msg = format!("hello from 1: {i}");
        let out = mesh.nodes[1].broadcast_reliably(&FixedTime(0), &mut rng, msg.as_bytes());
        mesh.forward(1, out);
    }
    mesh.deliver_all(&mut rng);
    assert_eq!(mesh.nodes[0].processed_count(), 20);
    assert_eq!(mesh.nodes[1].processed_count(), 20);
}
