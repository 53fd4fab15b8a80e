use peer_persistence::address_book::{
    parse_entries, restore_cache, PersistPeerAddrs, FLUSH_INTERVAL, PEER_ADDRS_CACHE_SIZE,
};
use peer_persistence::file_store::ReadError;
use peer_persistence::paths::Paths;
use peer_persistence::peer_id::PeerId;
use peer_persistence::scheduler::WriteOutcome;
use peer_persistence::snapshot::{same_snapshot, PeerEntry, ProtocolEntries};

fn peer_text(n: u8) -> String {
    let mut bytes = vec![0u8, 32u8];
    bytes.extend([n; 32]);
    libp2p_identity::PeerId::from_bytes(&bytes).unwrap().to_base58()
}

fn peer(n: u8) -> PeerId {
    PeerId::parse(&peer_text(n)).unwrap()
}

fn empty_book() -> PersistPeerAddrs {
    PersistPeerAddrs::load("/tmp", Err(ReadError::NotFound), 0)
}

fn wanted(protocols: &[&str]) -> Vec<String> {
    protocols.iter().map(|p| p.to_string()).collect()
}

fn entry(n: u8, addrs: &[&str]) -> PeerEntry {
    PeerEntry { peer_id: peer_text(n), addrs: addrs.iter().map(|a| a.to_string()).collect() }
}

#[test]
fn reported_address_is_returned() {
    let mut book = empty_book();
    book.report_peer_addr(&peer(1), "/dot/kad", "/ip4/10.0.0.1/tcp/30333");
    assert_eq!(book.peer_addrs(&peer(1), &wanted(&["/dot/kad"])), vec!["/ip4/10.0.0.1/tcp/30333"]);
}

#[test]
fn unreported_address_is_never_returned() {
    let mut book = empty_book();
    book.report_peer_addr(&peer(1), "/dot/kad", "/ip4/10.0.0.1/tcp/30333");
    assert!(book.peer_addrs(&peer(2), &wanted(&["/dot/kad"])).is_empty());
    assert!(book.peer_addrs(&peer(1), &wanted(&["/ksm/kad"])).is_empty());
    assert!(book.peer_addrs(&peer(1), &wanted(&[])).is_empty());
}

#[test]
fn report_is_idempotent() {
    let mut book = empty_book();
    book.report_peer_addr(&peer(1), "/dot/kad", "/ip4/10.0.0.1/tcp/30333");
    book.report_peer_addr(&peer(1), "/dot/kad", "/ip4/10.0.0.1/tcp/30333");
    assert_eq!(book.peer_addrs(&peer(1), &wanted(&["/dot/kad"])).len(), 1);
    let snapshot = book.to_snapshot();
    assert_eq!(snapshot.len(), 1);
    assert_eq!(snapshot[0].entries.len(), 1);
}

#[test]
fn addresses_of_one_peer_accumulate_in_order_of_report() {
    let mut book = empty_book();
    book.report_peer_addr(&peer(1), "/dot/kad", "/ip4/10.0.0.1/tcp/1");
    book.report_peer_addr(&peer(1), "/dot/kad", "/ip4/10.0.0.2/tcp/2");
    book.report_peer_addr(&peer(1), "/dot/kad", "/ip4/10.0.0.1/tcp/1");
    assert_eq!(
        book.peer_addrs(&peer(1), &wanted(&["/dot/kad"])),
        vec!["/ip4/10.0.0.1/tcp/1", "/ip4/10.0.0.2/tcp/2"]
    );
}

#[test]
fn lookup_is_restricted_to_the_wanted_protocols() {
    let mut book = empty_book();
    book.report_peer_addr(&peer(1), "a", "/ip4/1.1.1.1/tcp/1");
    book.report_peer_addr(&peer(1), "b", "/ip4/2.2.2.2/tcp/2");
    book.report_peer_addr(&peer(1), "c", "/ip4/3.3.3.3/tcp/3");
    assert_eq!(book.peer_addrs(&peer(1), &wanted(&["b"])), vec!["/ip4/2.2.2.2/tcp/2"]);
    assert_eq!(
        book.peer_addrs(&peer(1), &wanted(&["c", "a"])),
        vec!["/ip4/1.1.1.1/tcp/1", "/ip4/3.3.3.3/tcp/3"]
    );
}

#[test]
fn the_same_address_under_two_protocols_is_returned_for_each() {
    let mut book = empty_book();
    book.report_peer_addr(&peer(1), "a", "/ip4/1.1.1.1/tcp/1");
    book.report_peer_addr(&peer(1), "b", "/ip4/1.1.1.1/tcp/1");
    assert_eq!(
        book.peer_addrs(&peer(1), &wanted(&["a", "b"])),
        vec!["/ip4/1.1.1.1/tcp/1", "/ip4/1.1.1.1/tcp/1"]
    );
}

#[test]
fn one_peer_more_than_the_capacity_evicts_the_first() {
    let mut book = empty_book();
    assert_eq!(PEER_ADDRS_CACHE_SIZE, 100);
    for n in 0..=100u8 {
        book.report_peer_addr(&peer(n), "/dot/kad", &format!("/ip4/10.0.0.{}/tcp/30333", n));
    }
    assert!(book.peer_addrs(&peer(0), &wanted(&["/dot/kad"])).is_empty());
    for n in 1..=100u8 {
        assert_eq!(
            book.peer_addrs(&peer(n), &wanted(&["/dot/kad"])),
            vec![format!("/ip4/10.0.0.{}/tcp/30333", n)]
        );
    }
    assert_eq!(book.to_snapshot()[0].entries.len(), 100);
}

#[test]
fn capacity_is_counted_for_each_protocol_alone() {
    let mut book = empty_book();
    for n in 0..100u8 {
        book.report_peer_addr(&peer(n), "a", "/ip4/10.0.0.1/tcp/1");
    }
    book.report_peer_addr(&peer(200), "b", "/ip4/10.0.0.1/tcp/1");
    assert_eq!(book.peer_addrs(&peer(0), &wanted(&["a"])).len(), 1);
    assert_eq!(book.peer_addrs(&peer(200), &wanted(&["b"])).len(), 1);
}

#[test]
fn lookup_does_not_count_as_use() {
    let mut book = empty_book();
    for n in 0..100u8 {
        book.report_peer_addr(&peer(n), "a", "/ip4/10.0.0.1/tcp/1");
    }
    assert_eq!(book.peer_addrs(&peer(0), &wanted(&["a"])).len(), 1);
    book.report_peer_addr(&peer(100), "a", "/ip4/10.0.0.1/tcp/1");
    assert!(book.peer_addrs(&peer(0), &wanted(&["a"])).is_empty());
    assert_eq!(book.peer_addrs(&peer(1), &wanted(&["a"])).len(), 1);
}

#[test]
fn report_counts_as_use() {
    let mut book = empty_book();
    for n in 0..100u8 {
        book.report_peer_addr(&peer(n), "a", "/ip4/10.0.0.1/tcp/1");
    }
    book.report_peer_addr(&peer(0), "a", "/ip4/10.0.0.2/tcp/2");
    book.report_peer_addr(&peer(100), "a", "/ip4/10.0.0.1/tcp/1");
    assert_eq!(book.peer_addrs(&peer(0), &wanted(&["a"])).len(), 2);
    assert!(book.peer_addrs(&peer(1), &wanted(&["a"])).is_empty());
}

#[test]
fn snapshot_lists_most_recently_used_first() {
    let mut book = empty_book();
    book.report_peer_addr(&peer(1), "a", "/ip4/1.1.1.1/tcp/1");
    book.report_peer_addr(&peer(2), "a", "/ip4/2.2.2.2/tcp/2");
    book.report_peer_addr(&peer(3), "b", "/ip4/3.3.3.3/tcp/3");
    book.report_peer_addr(&peer(1), "a", "/ip4/1.1.1.2/tcp/1");
    let snapshot = book.to_snapshot();
    assert_eq!(snapshot.len(), 2);
    assert_eq!(snapshot[0].protocol, "a");
    assert_eq!(snapshot[1].protocol, "b");
    assert_eq!(snapshot[0].entries[0].peer_id, peer_text(1));
    assert_eq!(snapshot[0].entries[0].addrs, vec!["/ip4/1.1.1.1/tcp/1", "/ip4/1.1.1.2/tcp/1"]);
    assert_eq!(snapshot[0].entries[1].peer_id, peer_text(2));
    assert_eq!(snapshot[1].entries[0].peer_id, peer_text(3));
}

#[test]
fn book_restored_from_its_snapshot_is_the_same_book() {
    let mut book = empty_book();
    for n in 0..40u8 {
        book.report_peer_addr(&peer(n), "a", &format!("/ip4/10.0.0.{}/tcp/1", n));
        book.report_peer_addr(&peer(n), "b", &format!("/ip4/10.0.1.{}/tcp/1", n));
        book.report_peer_addr(&peer(n / 2), "a", &format!("/ip4/10.0.2.{}/tcp/1", n));
    }
    let snapshot = book.to_snapshot();
    let restored =
        PersistPeerAddrs::load_from_snapshot(Paths::new("/tmp", "peer-addrs"), &snapshot, 7);
    assert!(same_snapshot(&restored.to_snapshot(), &snapshot));
    for n in 0..40u8 {
        let mut before = book.peer_addrs(&peer(n), &wanted(&["a", "b"]));
        let mut after = restored.peer_addrs(&peer(n), &wanted(&["a", "b"]));
        before.sort();
        after.sort();
        assert_eq!(before, after);
        assert!(!after.is_empty());
    }
}

#[test]
fn restored_book_evicts_in_the_order_of_the_previous_session() {
    let mut book = empty_book();
    for n in 0..100u8 {
        book.report_peer_addr(&peer(n), "a", "/ip4/10.0.0.1/tcp/1");
    }
    let mut restored = PersistPeerAddrs::load("/tmp", Ok(book.to_snapshot()), 0);
    restored.report_peer_addr(&peer(100), "a", "/ip4/10.0.0.1/tcp/1");
    assert!(restored.peer_addrs(&peer(0), &wanted(&["a"])).is_empty());
    assert_eq!(restored.peer_addrs(&peer(1), &wanted(&["a"])).len(), 1);
    assert_eq!(restored.peer_addrs(&peer(99), &wanted(&["a"])).len(), 1);
}

#[test]
fn entry_with_unparsable_identity_is_dropped_and_the_rest_loads() {
    let snapshot = vec![ProtocolEntries {
        protocol: "/dot/kad".to_string(),
        entries: vec![
            PeerEntry {
                peer_id: "not a peer identity".to_string(),
                addrs: vec!["/ip4/10.0.0.1/tcp/1".to_string()],
            },
            entry(7, &["/ip4/10.0.0.7/tcp/7"]),
        ],
    }];
    let book = PersistPeerAddrs::load("/tmp", Ok(snapshot), 0);
    let restored = book.to_snapshot();
    assert_eq!(restored.len(), 1);
    assert_eq!(restored[0].entries.len(), 1);
    assert_eq!(restored[0].entries[0].peer_id, peer_text(7));
    assert_eq!(book.peer_addrs(&peer(7), &wanted(&["/dot/kad"])), vec!["/ip4/10.0.0.7/tcp/7"]);
}

#[test]
fn missing_or_broken_file_gives_an_empty_book() {
    for error in [ReadError::NotFound, ReadError::Unreadable, ReadError::Malformed] {
        let book = PersistPeerAddrs::load("/tmp", Err(error), 0);
        assert!(book.to_snapshot().is_empty());
    }
}

#[test]
fn repeated_addresses_and_protocols_in_a_file_collapse() {
    let snapshot = vec![
        ProtocolEntries {
            protocol: "a".to_string(),
            entries: vec![entry(1, &["/ip4/1.1.1.1/tcp/1", "/ip4/1.1.1.1/tcp/1", "/ip4/2.2.2.2/tcp/2"])],
        },
        ProtocolEntries { protocol: "a".to_string(), entries: vec![entry(2, &["/ip4/3.3.3.3/tcp/3"])] },
    ];
    let book = PersistPeerAddrs::load("/tmp", Ok(snapshot), 0);
    let restored = book.to_snapshot();
    assert_eq!(restored.len(), 1);
    assert_eq!(restored[0].entries.len(), 1);
    assert_eq!(restored[0].entries[0].addrs, vec!["/ip4/1.1.1.1/tcp/1", "/ip4/2.2.2.2/tcp/2"]);
    assert!(book.peer_addrs(&peer(2), &wanted(&["a"])).is_empty());
}

#[test]
fn file_with_more_entries_than_the_capacity_keeps_the_first_hundred() {
    let entries: Vec<PeerEntry> = (0..120u8).map(|n| entry(n, &["/ip4/1.1.1.1/tcp/1"])).collect();
    let book = PersistPeerAddrs::load(
        "/tmp",
        Ok(vec![ProtocolEntries { protocol: "a".to_string(), entries }]),
        0,
    );
    let restored = book.to_snapshot();
    assert_eq!(restored[0].entries.len(), 100);
    assert_eq!(restored[0].entries[0].peer_id, peer_text(0));
    assert_eq!(restored[0].entries[99].peer_id, peer_text(99));
}

#[test]
fn nothing_is_written_before_the_cooldown_has_passed() {
    let mut book = PersistPeerAddrs::load("/tmp", Err(ReadError::NotFound), 1_000);
    book.report_peer_addr(&peer(1), "a", "/ip4/1.1.1.1/tcp/1");
    assert!(book.poll(1_000, None).is_none());
    assert!(book.poll(1_000 + FLUSH_INTERVAL, None).is_none());
    let write = book.poll(1_001 + FLUSH_INTERVAL, None).unwrap();
    assert!(same_snapshot(&write, &book.to_snapshot()));
}

#[test]
fn unchanged_book_is_not_written_again() {
    let mut book = PersistPeerAddrs::load("/tmp", Err(ReadError::NotFound), 0);
    assert!(book.poll(1_000_000, None).is_none());
    book.report_peer_addr(&peer(1), "a", "/ip4/1.1.1.1/tcp/1");
    assert!(book.poll(1_000_001, None).is_some());
    assert!(book.poll(1_000_002, Some(WriteOutcome::Done)).is_none());
    assert!(book.poll(2_000_000, None).is_none());
    book.report_peer_addr(&peer(1), "a", "/ip4/1.1.1.1/tcp/1");
    assert!(book.poll(3_000_000, None).is_none());
}

#[test]
fn restored_book_counts_as_written() {
    let mut first = empty_book();
    first.report_peer_addr(&peer(1), "a", "/ip4/1.1.1.1/tcp/1");
    let mut book = PersistPeerAddrs::load("/tmp", Ok(first.to_snapshot()), 0);
    assert!(book.poll(1_000_000, None).is_none());
}

#[test]
fn only_one_write_is_in_flight() {
    let mut book = empty_book();
    book.report_peer_addr(&peer(1), "a", "/ip4/1.1.1.1/tcp/1");
    assert!(book.poll(10_000, None).is_some());
    book.report_peer_addr(&peer(2), "a", "/ip4/2.2.2.2/tcp/2");
    assert!(book.poll(20_000, None).is_none());
    assert!(book.poll(30_000, None).is_none());
    assert!(book.poll(40_000, Some(WriteOutcome::Done)).is_none());
    assert!(book.poll(40_000 + FLUSH_INTERVAL, None).is_none());
    let write = book.poll(40_001 + FLUSH_INTERVAL, None).unwrap();
    assert_eq!(write[0].entries.len(), 2);
}

#[test]
fn a_thousand_rapid_changes_give_one_write_in_a_cooldown_window() {
    let mut book = empty_book();
    let mut started = 0;
    let mut finished = 0;
    let mut in_flight = false;
    let start = FLUSH_INTERVAL + 1;
    for step in 0..1000u64 {
        let now = start + step * (FLUSH_INTERVAL / 1000);
        book.report_peer_addr(&peer((step % 50) as u8), "a", &format!("/ip4/10.0.0.1/tcp/{}", step));
        let done = if in_flight && step % 3 == 0 { Some(WriteOutcome::Done) } else { None };
        if done.is_some() {
            finished += 1;
            in_flight = false;
        }
        if book.poll(now, done).is_some() {
            started += 1;
            in_flight = true;
        }
    }
    assert_eq!(started, 1);
    assert!(finished <= 1);
}

#[test]
fn failed_write_is_not_retried_until_the_book_changes() {
    let mut book = empty_book();
    book.report_peer_addr(&peer(1), "a", "/ip4/1.1.1.1/tcp/1");
    assert!(book.poll(10_000, None).is_some());
    assert!(book.poll(10_500, Some(WriteOutcome::Failed)).is_none());
    assert!(book.poll(1_000_000, None).is_none());
    book.report_peer_addr(&peer(1), "a", "/ip4/1.1.1.1/tcp/2");
    assert!(book.poll(1_000_001, None).is_some());
}

#[test]
fn clock_that_runs_backwards_starts_no_write() {
    let mut book = PersistPeerAddrs::load("/tmp", Err(ReadError::NotFound), 50_000);
    book.report_peer_addr(&peer(1), "a", "/ip4/1.1.1.1/tcp/1");
    assert!(book.poll(10, None).is_none());
}

#[test]
fn text_that_is_no_identity_is_refused() {
    assert!(PeerId::parse("").is_none());
    assert!(PeerId::parse("not a peer identity").is_none());
    assert!(PeerId::parse("0OIl").is_none());
    let text = peer_text(3);
    assert_eq!(PeerId::parse(&text).unwrap().to_base58(), text);
    assert!(PeerId::parse(&text).unwrap().same_as(&peer(3)));
    assert!(!PeerId::parse(&text).unwrap().same_as(&peer(4)));
}

#[test]
fn restored_cache_holds_the_first_entry_as_most_recently_used() {
    let parsed = parse_entries(&vec![
        entry(1, &["/ip4/1.1.1.1/tcp/1"]),
        PeerEntry { peer_id: "nobody".to_string(), addrs: vec![] },
        entry(2, &["/ip4/2.2.2.2/tcp/2", "/ip4/2.2.2.2/tcp/2"]),
        entry(1, &["/ip4/1.1.1.1/tcp/9"]),
    ]);
    assert_eq!(parsed.len(), 4);
    assert!(parsed[0].peer.as_ref().unwrap().same_as(&peer(1)));
    assert!(parsed[1].peer.is_none());
    assert_eq!(parsed[2].addrs, vec!["/ip4/2.2.2.2/tcp/2", "/ip4/2.2.2.2/tcp/2"]);

    let cache = restore_cache(&parsed);
    assert_eq!(cache.cap(), 100);
    let held: Vec<(String, Vec<String>)> =
        cache.iter().map(|(peer, addrs)| (peer.clone(), addrs.clone())).collect();
    assert_eq!(
        held,
        vec![
            (peer_text(1), vec!["/ip4/1.1.1.1/tcp/1".to_string()]),
            (peer_text(2), vec!["/ip4/2.2.2.2/tcp/2".to_string()]),
        ]
    );
}

#[test]
fn identity_text_of_the_network_is_canonical() {
    for text in [
        "12D3KooWEyoppNCUx8Yx66oV9fJnriXwCcXwDDUA2kj6vnc6iDEp",
        "QmYyQSo1c1Ym7orWxLYvCrM2EmxFTANf8wXmmE7DWjhx5N",
    ] {
        let peer = PeerId::parse(text).unwrap();
        assert_eq!(peer.to_base58(), text);
        assert_eq!(PeerId::parse(&peer.to_base58()).unwrap().to_base58(), text);
    }
}
