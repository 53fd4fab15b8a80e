use peer_persistence::file_store::ReadError;
use peer_persistence::peer_id::PeerId;
use peer_persistence::peersets::{
    dumped, known_peers, load, parse_infos, peer_infos, restore, PeerInfo, PersistError,
    PersistPeersets, PEERSETS_INTERVAL,
};

fn peer_text(n: u8) -> String {
    let mut bytes = vec![0u8, 32u8];
    bytes.extend([n; 32]);
    libp2p_identity::PeerId::from_bytes(&bytes).unwrap().to_base58()
}

fn peer(n: u8) -> PeerId {
    PeerId::parse(&peer_text(n)).unwrap()
}

fn info(text: &str, reputation: i32, sets: &[usize]) -> PeerInfo {
    PeerInfo { peer_id: text.to_string(), reputation, sets: sets.to_vec() }
}

#[test]
fn records_carry_identity_reputation_and_sets() {
    let infos = peer_infos(&vec![(peer(1), -20, vec![0, 2]), (peer(2), i32::MAX, vec![])]);
    assert_eq!(infos.len(), 2);
    assert_eq!(infos[0].peer_id, peer_text(1));
    assert_eq!(infos[0].reputation, -20);
    assert_eq!(infos[0].sets, vec![0, 2]);
    assert_eq!(infos[1].peer_id, peer_text(2));
    assert_eq!(infos[1].reputation, i32::MAX);
    assert!(infos[1].sets.is_empty());
}

#[test]
fn closed_channel_writes_nothing() {
    assert_eq!(dumped(Err(())).unwrap_err(), PersistError::BrokenPipe);
    let records = dumped(Ok(vec![(peer(9), 5, vec![1])])).unwrap();
    assert_eq!(records.len(), 1);
    assert_eq!(records[0].peer_id, peer_text(9));
}

#[test]
fn missing_file_gives_no_peers() {
    assert!(load(Err(ReadError::NotFound)).unwrap().is_empty());
}

#[test]
fn broken_file_is_an_error() {
    assert_eq!(load(Err(ReadError::Malformed)).unwrap_err(), ReadError::Malformed);
    assert_eq!(load(Err(ReadError::Unreadable)).unwrap_err(), ReadError::Unreadable);
}

#[test]
fn record_with_unparsable_identity_is_dropped() {
    let peers = load(Ok(vec![
        info(&peer_text(1), 10, &[0]),
        info("???", 11, &[1]),
        info(&peer_text(3), -12, &[0, 1]),
    ]))
    .unwrap();
    assert_eq!(peers.len(), 2);
    assert!(peers[0].0.same_as(&peer(1)));
    assert_eq!((peers[0].1, peers[0].2.clone()), (10, vec![0]));
    assert!(peers[1].0.same_as(&peer(3)));
    assert_eq!((peers[1].1, peers[1].2.clone()), (-12, vec![0, 1]));
}

#[test]
fn written_records_restore_the_same_peers() {
    let peers = vec![(peer(1), 1, vec![0]), (peer(2), -2, vec![1, 2]), (peer(1), 3, vec![])];
    let back = restore(&peer_infos(&peers));
    assert_eq!(back.len(), 3);
    for (a, b) in peers.iter().zip(back.iter()) {
        assert!(a.0.same_as(&b.0));
        assert_eq!(a.1, b.1);
        assert_eq!(a.2, b.2);
    }
}

#[test]
fn first_cycle_is_due_at_once() {
    let mut task = PersistPeersets::new("/var/net", 1_000);
    assert_eq!(task.files().path, "/var/net/peer-sets.json");
    assert_eq!(task.files().tmp_path, "/var/net/peer-sets.tmp");
    assert!(task.poll(1_000, false));
}

#[test]
fn cycles_follow_at_the_interval() {
    let mut task = PersistPeersets::new("/var/net", 1_000);
    assert_eq!(PEERSETS_INTERVAL, 5_000);
    assert!(task.poll(1_000, false));
    assert!(!task.poll(1_010, true));
    assert!(!task.poll(5_999, false));
    assert!(task.poll(6_000, false));
    assert!(!task.poll(6_001, true));
    assert!(task.poll(11_000, false));
}

#[test]
fn no_cycle_starts_while_one_runs() {
    let mut task = PersistPeersets::new("/var/net", 0);
    assert!(task.poll(0, false));
    assert!(!task.poll(5_000, false));
    assert!(!task.poll(10_000, false));
    assert!(task.poll(10_001, true));
}

#[test]
fn missed_ticks_are_coalesced() {
    let mut task = PersistPeersets::new("/var/net", 1_000);
    assert!(task.poll(1_000, false));
    assert!(!task.poll(17_299, false));
    assert!(task.poll(17_300, true));
    assert!(!task.poll(17_301, true));
    assert!(!task.poll(20_999, false));
    assert!(task.poll(21_000, false));
    assert!(!task.poll(25_999, true));
    assert!(task.poll(26_000, false));
}

#[test]
fn time_near_the_end_of_the_clock_does_not_overflow() {
    let mut task = PersistPeersets::new("/var/net", u64::MAX - 10);
    assert!(task.poll(u64::MAX - 5, false));
    assert!(!task.poll(u64::MAX - 1, true));
    assert!(task.poll(u64::MAX, false));
}

#[test]
fn records_are_read_one_by_one() {
    let records = parse_infos(&vec![info("nobody", 1, &[3]), info(&peer_text(5), 2, &[4, 5])]);
    assert_eq!(records.len(), 2);
    assert!(records[0].0.is_none());
    assert_eq!((records[0].1, records[0].2.clone()), (1, vec![3]));
    assert!(records[1].0.as_ref().unwrap().same_as(&peer(5)));
    assert_eq!((records[1].1, records[1].2.clone()), (2, vec![4, 5]));
    let peers = known_peers(&records);
    assert_eq!(peers.len(), 1);
    assert!(peers[0].0.same_as(&peer(5)));
    assert_eq!((peers[0].1, peers[0].2.clone()), (2, vec![4, 5]));
}
