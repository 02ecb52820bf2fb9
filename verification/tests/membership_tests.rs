use rustchain::bootstrap::BootstrapRegistry;
use rustchain::events::RustchainEvent;
use rustchain::membership::MembershipTable;
use rustchain::peer::{Heartbeat, Peer};

fn peer(id: u64) -> Peer {
    Peer { id, ip: String::new(), port: 0 }
}

fn ids(peers: &[Peer]) -> Vec<u64> {
    peers.iter().map(|p| p.id).collect()
}

#[test]
fn test_rebalance_below_max_size() {
    let mut table = MembershipTable::new(5);
    for i in (0..5u64).rev() {
        table.add_peer(peer(i * 2));
    }
    table.rebalance();
    assert_eq!(vec![0, 2, 4, 6, 8], ids(&table.get_peers()));
}

#[test]
fn test_rebalance_above_max_size() {
    let mut table = MembershipTable::new(13);
    for i in (0..32u64).rev() {
        table.add_peer(peer(i * 2));
    }
    let mut expected: Vec<u64> = (0..32u64).map(|i| i * 2).collect();
    expected.sort();
    table.rebalance();
    assert_eq!(expected, ids(&table.get_peers()));
}

#[test]
fn test_rebalance_above_max_size_cyclical() {
    let mut table = MembershipTable::new(53);
    for i in (0..33u64).rev() {
        table.add_peer(peer(i * 2));
    }
    // The 32 ring-nearest ids to 53: every inserted id except 20.
    let mut expected: Vec<u64> = (0..10u64).map(|i| i * 2).chain((11..33u64).map(|i| i * 2)).collect();
    expected.sort();
    table.rebalance();
    assert_eq!(expected, ids(&table.get_peers()));
}

// For any input, the rebalanced set has size min(input, 32), is sorted and
// holds only peers that were present.
#[test]
fn rebalance_size_subset_sorted() {
    let mut table = MembershipTable::new(41);
    for i in 0..40u64 {
        table.add_peer(peer(i * 3));
    }
    let before = ids(&table.get_peers());
    table.rebalance();
    let after = ids(&table.get_peers());
    assert_eq!(32, after.len());
    let mut sorted_after = after.clone();
    sorted_after.sort();
    assert_eq!(sorted_after, after);
    for id in &after {
        assert!(before.contains(id));
    }
}

// Heartbeat ingestion is an idempotent, self-excluding union.
#[test]
fn heartbeat_ingestion_union() {
    let mut table = MembershipTable::new(7);
    let hb = Heartbeat { sender: peer(3), known_peers: vec![peer(1), peer(7), peer(3), peer(1)] };
    table.on_heartbeat(&hb);
    assert_eq!(vec![1, 3], ids(&table.get_peers()));
    table.on_heartbeat(&hb);
    assert_eq!(vec![1, 3], ids(&table.get_peers()));
}

#[test]
fn bootstrap_node_test_registration() {
    let mut registry = BootstrapRegistry::new();
    let candidate = Peer { id: 0, ip: String::from("127.0.0.1"), port: 7989 };
    let (registered, peers) = registry.register(candidate);
    assert_eq!(1, peers.len());
    assert_eq!(1, registered.id);
    assert_eq!(1, peers[0].id);
    assert_eq!("127.0.0.1", peers[0].ip);
    assert_eq!(7989, peers[0].port);
}

#[test]
fn bootstrap_node_test_register_multiple_clients() {
    let mut registry = BootstrapRegistry::new();
    let mut peer_lists: Vec<Vec<Peer>> = vec![];
    for _ in 0..10 {
        let candidate = Peer { id: 0, ip: String::from("127.0.0.1"), port: 7989 };
        let (_registered, peers) = registry.register(candidate);
        peer_lists.push(peers);
    }
    for i in 0..peer_lists.len() {
        let len = peer_lists[i].len();
        assert_eq!(i + 1, len);
        for j in 0..len - 1 {
            assert_eq!((j + 1) as u64, peer_lists[i][j].id);
        }
    }
}

// Ten registrations yield ids exactly 1 through 10, no gaps, no repeats.
#[test]
fn bootstrap_ids_sequential_no_gaps() {
    let mut registry = BootstrapRegistry::new();
    let mut seen: Vec<u64> = vec![];
    for _ in 0..10 {
        let (registered, _) = registry.register(peer(0));
        seen.push(registered.id);
    }
    assert_eq!((1..=10u64).collect::<Vec<u64>>(), seen);
}

// The event dispatcher ingests heartbeats and peer lists and ignores the
// rest.
#[test]
fn membership_event_dispatch() {
    let mut table = MembershipTable::new(9);
    table.on_event(&RustchainEvent::NewPeers(vec![peer(1), peer(9)]));
    assert_eq!(vec![1], ids(&table.get_peers()));
    let hb = Heartbeat { sender: peer(4), known_peers: vec![peer(2)] };
    table.on_event(&RustchainEvent::NewHeartbeat(hb));
    assert_eq!(vec![1, 2, 4], ids(&table.get_peers()));
}
