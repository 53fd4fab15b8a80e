use peer_persistence::connections::{ConnectionTracker, DUMP_INTERVAL, FIRST_DUMP_DELAY};
use peer_persistence::peer_id::PeerId;

fn peer_text(n: u8) -> String {
    let mut bytes = vec![0u8, 32u8];
    bytes.extend([n; 32]);
    libp2p_identity::PeerId::from_bytes(&bytes).unwrap().to_base58()
}

fn peer(n: u8) -> PeerId {
    PeerId::parse(&peer_text(n)).unwrap()
}

#[test]
fn connect_and_disconnect_follow_the_connections_of_a_peer() {
    let (c1, c2, c3) = (1usize, 2usize, 3usize);
    let (p, q) = (peer(1), peer(2));
    let mut tracker = ConnectionTracker::new(0);

    tracker.on_connected(c1, &p, "/ip4/10.0.0.1/tcp/30333");
    assert!(tracker.is_connected(c1, &p));
    tracker.on_connected(c2, &p, "/ip4/10.0.0.1/tcp/30333");
    assert!(tracker.on_disconnected(c1, &p));

    let inventory = tracker.inventory();
    assert_eq!(inventory.len(), 1);
    assert_eq!(inventory[0].peer_id, peer_text(1));
    assert_eq!(inventory[0].connections, vec![c2]);

    assert!(tracker.on_disconnected(c2, &p));
    assert!(tracker.inventory().is_empty());
    assert!(!tracker.is_connected(c2, &p));

    assert!(!tracker.on_disconnected(c3, &q));
    assert!(tracker.inventory().is_empty());
}

#[test]
fn second_connect_of_the_same_pair_is_seen_before_it_is_made() {
    let p = peer(1);
    let mut tracker = ConnectionTracker::new(0);
    assert!(!tracker.is_connected(7, &p));
    tracker.on_connected(7, &p, "/ip4/10.0.0.1/tcp/30333");
    assert!(tracker.is_connected(7, &p));
    assert!(!tracker.is_connected(8, &p));
    assert!(!tracker.is_connected(7, &peer(2)));
}

#[test]
fn same_connection_identifier_under_two_peers_is_two_connections() {
    let mut tracker = ConnectionTracker::new(0);
    tracker.on_connected(1, &peer(1), "/ip4/10.0.0.1/tcp/30333");
    tracker.on_connected(1, &peer(2), "/ip4/10.0.0.1/tcp/30333");
    assert!(tracker.on_disconnected(1, &peer(1)));
    assert!(!tracker.is_connected(1, &peer(1)));
    assert!(tracker.is_connected(1, &peer(2)));
}

#[test]
fn closing_an_unknown_connection_of_a_known_peer_changes_nothing() {
    let mut tracker = ConnectionTracker::new(0);
    tracker.on_connected(1, &peer(1), "/ip4/10.0.0.1/tcp/30333");
    assert!(tracker.on_disconnected(2, &peer(1)));
    assert!(tracker.is_connected(1, &peer(1)));
    assert_eq!(tracker.inventory().len(), 1);
}

#[test]
fn connection_can_be_reopened_after_it_was_closed() {
    let mut tracker = ConnectionTracker::new(0);
    tracker.on_connected(1, &peer(1), "/ip4/10.0.0.1/tcp/30333");
    assert!(tracker.on_disconnected(1, &peer(1)));
    tracker.on_connected(1, &peer(1), "/ip4/10.0.0.1/tcp/30333");
    assert!(tracker.is_connected(1, &peer(1)));
}

#[test]
fn inventory_lists_every_peer_once() {
    let mut tracker = ConnectionTracker::new(0);
    for n in 0..20u8 {
        tracker.on_connected(n as usize, &peer(n), "/ip4/10.0.0.1/tcp/30333");
        tracker.on_connected(100 + n as usize, &peer(n), "/ip4/10.0.0.1/tcp/30333");
    }
    for n in 0..10u8 {
        assert!(tracker.on_disconnected(n as usize, &peer(n)));
        assert!(tracker.on_disconnected(100 + n as usize, &peer(n)));
    }
    let inventory = tracker.inventory();
    assert_eq!(inventory.len(), 10);
    for n in 10..20u8 {
        let row = inventory.iter().find(|row| row.peer_id == peer_text(n)).unwrap();
        assert_eq!(row.connections, vec![n as usize, 100 + n as usize]);
    }
}

#[test]
fn first_dump_waits_for_the_first_delay() {
    assert!(FIRST_DUMP_DELAY > DUMP_INTERVAL);
    let mut tracker = ConnectionTracker::new(1_000);
    tracker.on_connected(1, &peer(1), "/ip4/10.0.0.1/tcp/30333");
    assert!(tracker.poll(1_000).is_none());
    assert!(tracker.poll(1_000 + FIRST_DUMP_DELAY - 1).is_none());
    let dump = tracker.poll(1_000 + FIRST_DUMP_DELAY).unwrap();
    assert_eq!(dump.len(), 1);
    assert_eq!(dump[0].peer_id, peer_text(1));
    assert_eq!(dump[0].connections, vec![1]);
}

#[test]
fn later_dumps_follow_at_the_interval() {
    let mut tracker = ConnectionTracker::new(0);
    assert!(tracker.poll(FIRST_DUMP_DELAY + 3).is_some());
    assert!(tracker.poll(FIRST_DUMP_DELAY + 3 + DUMP_INTERVAL - 1).is_none());
    assert!(tracker.poll(FIRST_DUMP_DELAY + 3 + DUMP_INTERVAL).is_some());
    assert!(tracker.poll(FIRST_DUMP_DELAY + 4 + DUMP_INTERVAL).is_none());
}

#[test]
fn dump_near_the_end_of_the_clock_does_not_overflow() {
    let mut tracker = ConnectionTracker::new(u64::MAX - 5);
    assert!(tracker.poll(u64::MAX - 1).is_none());
    assert!(tracker.poll(u64::MAX).is_some());
    assert!(tracker.poll(u64::MAX).is_some());
}

#[test]
fn inventory_keeps_the_order_of_connecting() {
    let mut tracker = ConnectionTracker::new(0);
    tracker.on_connected(5, &peer(2), "/ip4/10.0.0.2/tcp/1");
    tracker.on_connected(9, &peer(1), "/ip4/10.0.0.1/tcp/1");
    tracker.on_connected(3, &peer(2), "/ip4/10.0.0.2/tcp/2");
    tracker.on_connected(7, &peer(3), "/ip4/10.0.0.3/tcp/1");
    assert!(tracker.on_disconnected(9, &peer(1)));
    tracker.on_connected(4, &peer(2), "/ip4/10.0.0.2/tcp/3");
    assert!(tracker.on_disconnected(3, &peer(2)));
    let inventory = tracker.inventory();
    assert_eq!(inventory.len(), 2);
    assert_eq!(inventory[0].peer_id, peer_text(2));
    assert_eq!(inventory[0].connections, vec![5, 4]);
    assert_eq!(inventory[1].peer_id, peer_text(3));
    assert_eq!(inventory[1].connections, vec![7]);
}
