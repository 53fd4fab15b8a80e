//! The live connections of each peer.
//!
//! A peer can be connected several times at once. The tracker knows, for
//! each peer that is connected at all, the identifiers of its connections;
//! a peer without connections is not in it.

use vstd::prelude::*;
use crate::keyed::{
    has_key, keys_distinct, lemma_lookup_appended, lemma_lookup_removed, lemma_lookup_updated,
    lemma_position_is, lemma_position_of, lookup, position_of,
};
use crate::peer_id::PeerId;

verus! {

/// The time, in milliseconds, from the making of a tracker to its first
/// dump: longer than the time between later dumps, so that the churn of a
/// start is not dumped.
pub const FIRST_DUMP_DELAY: u64 = 30000;

/// The time, in milliseconds, from one dump to the next.
pub const DUMP_INTERVAL: u64 = 10000;

/// The identifier of one connection.
pub type ConnectionId = usize;

/// One peer with its connections, as mathematics.
pub type ConnectedModel = (Seq<char>, Seq<ConnectionId>);

/// One connected peer with its connections.
#[derive(Debug)]
pub struct Connected {
    /// The peer's identity in its textual encoding.
    pub peer_id: String,
    pub connections: Vec<ConnectionId>,
}

struct PeerConnections {
    peer: PeerId,
    connections: Vec<ConnectionId>,
}

/// The connections of each connected peer, and when they are dumped next.
pub struct ConnectionTracker {
    peers: Vec<PeerConnections>,
    next_dump: u64,
}

/// The members of `connections`, as a set.
pub open spec fn members(connections: Seq<ConnectionId>) -> Set<ConnectionId> {
    Set::new(|connection: ConnectionId| connections.contains(connection))
}

/// The peers of `rows`, each with the set of its connections.
pub open spec fn connected_map(rows: Seq<ConnectedModel>) -> Map<Seq<char>, Set<ConnectionId>> {
    Map::new(
        |peer: Seq<char>| lookup(rows, peer) is Some,
        |peer: Seq<char>| members(lookup(rows, peer).unwrap()),
    )
}

/// The rows after `peer` has opened `connection`: the connection is added
/// after the others of the peer, and a peer that had none is added after
/// the other peers.
pub open spec fn opened(rows: Seq<ConnectedModel>, peer: Seq<char>, connection: ConnectionId) -> Seq<
    ConnectedModel,
> {
    let at = position_of(rows, peer);
    if at < rows.len() {
        rows.update(at, (peer, rows[at].1.push(connection)))
    } else {
        rows.push((peer, seq![connection]))
    }
}

/// `connections` without `connection`.
pub open spec fn without(connections: Seq<ConnectionId>, connection: ConnectionId) -> Seq<
    ConnectionId,
> {
    if connections.contains(connection) {
        connections.remove(choose|i: int| 0 <= i < connections.len() && connections[i] == connection)
    } else {
        connections
    }
}

/// The rows after `peer` has closed `connection`: the connection leaves
/// the peer's row, and the row leaves where it was the peer's last.
pub open spec fn shut(rows: Seq<ConnectedModel>, peer: Seq<char>, connection: ConnectionId) -> Seq<
    ConnectedModel,
> {
    let at = position_of(rows, peer);
    if at >= rows.len() {
        rows
    } else if without(rows[at].1, connection).len() == 0 {
        rows.remove(at)
    } else {
        rows.update(at, (peer, without(rows[at].1, connection)))
    }
}

/// The model of each peer of `peers`, in order.
pub open spec fn connected_models(peers: Seq<Connected>) -> Seq<ConnectedModel> {
    peers.map_values(|peer: Connected| (peer.peer_id@, peer.connections@))
}

/// Whether `peers` lists the connected peers of `connected`: each of them
/// once, with exactly its connections, each of those once.
pub open spec fn is_inventory(peers: Seq<Connected>, connected: Map<Seq<char>, Set<ConnectionId>>) -> bool {
    &&& peers.len() == connected.dom().len()
    &&& forall|i: int|
        0 <= i < peers.len() ==> connected.dom().contains((#[trigger] peers[i]).peer_id@)
            && members(peers[i].connections@) == connected[peers[i].peer_id@]
            && peers[i].connections@.no_duplicates()
    &&& forall|i: int, j: int| 0 <= i < j < peers.len() ==> peers[i].peer_id@ != peers[j].peer_id@
    &&& forall|peer: Seq<char>|
        connected.dom().contains(peer) ==> exists|i: int|
            0 <= i < peers.len() && (#[trigger] peers[i]).peer_id@ == peer
}

/// `time` and `delay` added; the largest time there is where the sum is
/// out of range.
pub open spec fn later(time: u64, delay: u64) -> u64 {
    if time + delay > u64::MAX {
        u64::MAX
    } else {
        (time + delay) as u64
    }
}

/// `time` and `delay` added: see `later`.
fn add_delay(time: u64, delay: u64) -> (sum: u64)
    ensures
        sum == later(time, delay),
{
    match time.checked_add(delay) {
        Some(sum) => sum,
        None => u64::MAX,
    }
}

impl ConnectionTracker {
    /// The connected peers in the order in which they became connected,
    /// each with its connections in the order in which they were opened.
    pub closed spec fn rows(&self) -> Seq<ConnectedModel> {
        self.peers@.map_values(|row: PeerConnections| (row.peer@, row.connections@))
    }

    /// Whether the tracker is as its operations keep it.
    pub closed spec fn wf(&self) -> bool {
        &&& keys_distinct(self.rows())
        &&& forall|i: int|
            0 <= i < self.rows().len() ==> (#[trigger] self.rows()[i]).1.no_duplicates()
                && self.rows()[i].1.len() > 0
    }

    /// The connected peers, each with the set of its connections.
    pub open spec fn view(&self) -> Map<Seq<char>, Set<ConnectionId>> {
        connected_map(self.rows())
    }

    /// The moment at which the connections are dumped next.
    pub closed spec fn next_dump(&self) -> u64 {
        self.next_dump
    }

    /// The connections of `peer`; none where it is not connected.
    pub open spec fn connections_of(&self, peer: Seq<char>) -> Set<ConnectionId> {
        if self@.dom().contains(peer) {
            self@[peer]
        } else {
            Set::empty()
        }
    }

    /// No peer is tracked without a connection.
    pub proof fn lemma_no_peer_without_connection(&self, peer: Seq<char>)
        requires
            self.wf(),
            self@.dom().contains(peer),
        ensures
            exists|connection: ConnectionId| self@[peer].contains(connection),
    {
        let at = position_of(self.rows(), peer);
        lemma_position_of(self.rows(), peer);
        let held = self.rows()[at].1;
        assert(held.contains(held[0]));
        assert(self@[peer].contains(held[0]));
    }

    /// A tracker without peers, its first dump due after the first delay.
    pub fn new(now: u64) -> (tracker: ConnectionTracker)
        ensures
            tracker.wf(),
            tracker.rows() == Seq::<ConnectedModel>::empty(),
            tracker@ == Map::<Seq<char>, Set<ConnectionId>>::empty(),
            tracker.next_dump() == later(now, FIRST_DUMP_DELAY),
    {
        let tracker = ConnectionTracker { peers: Vec::new(), next_dump: add_delay(now, FIRST_DUMP_DELAY) };
        assert(tracker.rows() =~= Seq::<ConnectedModel>::empty());
        assert(tracker@ =~= Map::<Seq<char>, Set<ConnectionId>>::empty());
        tracker
    }

    /// The position of `peer` among the rows, or their number where it is
    /// not among them.
    fn find(&self, peer: &PeerId) -> (at: usize)
        ensures
            at == position_of(self.rows(), peer@),
            at <= self.peers@.len(),
    {
        let mut at: usize = 0;
        while at < self.peers.len()
            invariant
                at <= self.peers@.len(),
                forall|j: int| 0 <= j < at ==> self.rows()[j].0 != peer@,
            decreases self.peers@.len() - at,
        {
            if self.peers[at].peer.same_as(peer) {
                proof {
                    assert(self.rows()[at as int].0 == peer@);
                    lemma_position_is(self.rows(), peer@, at as int);
                }
                return at;
            }
            at += 1;
        }
        proof {
            lemma_position_is(self.rows(), peer@, at as int);
        }
        at
    }

    /// Whether `peer` has the connection `connection`.
    pub fn is_connected(&self, connection: ConnectionId, peer: &PeerId) -> (connected: bool)
        ensures
            connected == self.connections_of(peer@).contains(connection),
    {
        let at = self.find(peer);
        if at == self.peers.len() {
            return false;
        }
        let held = &self.peers[at].connections;
        assert(self.rows()[at as int].1 == held@);
        proof {
            lemma_position_of(self.rows(), peer@);
        }
        let mut i: usize = 0;
        while i < held.len()
            invariant
                i <= held.len(),
                forall|j: int| 0 <= j < i ==> held@[j] != connection,
                self.connections_of(peer@) == members(held@),
            decreases held.len() - i,
        {
            if held[i] == connection {
                return true;
            }
            i += 1;
        }
        false
    }

    /// Notes that `peer` has the new connection `connection`, made at the
    /// address `addr`; the address is not kept. The same connection of the
    /// same peer is not opened twice without having been closed in
    /// between: the caller that cannot rule it out asks `is_connected`
    /// first.
    pub fn on_connected(&mut self, connection: ConnectionId, peer: &PeerId, addr: &str)
        requires
            old(self).wf(),
            !old(self).connections_of(peer@).contains(connection),
        ensures
            final(self).wf(),
            final(self).rows() == opened(old(self).rows(), peer@, connection),
            final(self)@ == old(self)@.insert(
                peer@,
                old(self).connections_of(peer@).insert(connection),
            ),
            final(self).next_dump() == old(self).next_dump(),
    {
        let at = self.find(peer);
        let ghost before = self.rows();
        proof {
            lemma_position_of(before, peer@);
        }
        if at == self.peers.len() {
            let mut connections: Vec<ConnectionId> = Vec::new();
            connections.push(connection);
            self.peers.push(PeerConnections { peer: peer.duplicate(), connections });
            proof {
                let held = seq![connection];
                assert(self.rows() == before.push((peer@, held)));
                assert forall|key: Seq<char>|
                    #![auto]
                    lookup(self.rows(), key) == (if key == peer@ {
                        Some(held)
                    } else {
                        lookup(before, key)
                    }) by {
                    lemma_lookup_appended(before, peer@, held, key);
                }
                assert(held[0] == connection);
                assert(members(held) =~= Set::<ConnectionId>::empty().insert(connection));
                assert(self@ =~= old(self)@.insert(
                    peer@,
                    old(self).connections_of(peer@).insert(connection),
                ));
            }
        } else {
            let ghost held = before[at as int].1;
            assert(!held.contains(connection)) by {
                assert(old(self)@[peer@] == members(held));
            }
            self.peers[at].connections.push(connection);
            proof {
                assert(self.rows() == before.update(at as int, (peer@, held.push(connection))));
                assert forall|key: Seq<char>|
                    #![auto]
                    lookup(self.rows(), key) == (if key == peer@ {
                        Some(held.push(connection))
                    } else {
                        lookup(before, key)
                    }) by {
                    lemma_lookup_updated(before, at as int, held.push(connection), key);
                }
                assert(members(held.push(connection)) =~= members(held).insert(connection)) by {
                    assert forall|c: ConnectionId| held.push(connection).contains(c) implies held.contains(c)
                        || c == connection by {
                        let i = choose|i: int| 0 <= i < held.len() + 1 && held.push(connection)[i] == c;
                        if i < held.len() {
                            assert(held[i] == c);
                        }
                    }
                    assert forall|c: ConnectionId| held.contains(c) || c == connection implies held.push(
                        connection,
                    ).contains(c) by {
                        if held.contains(c) {
                            let i = choose|i: int| 0 <= i < held.len() && held[i] == c;
                            assert(held.push(connection)[i] == c);
                        } else {
                            assert(held.push(connection)[held.len() as int] == c);
                        }
                    }
                }
                assert(self@ =~= old(self)@.insert(
                    peer@,
                    old(self).connections_of(peer@).insert(connection),
                ));
            }
        }
    }

    /// Notes that the connection `connection` of `peer` is closed. Returns
    /// whether the peer was tracked: where it was not, the event is a
    /// stray one and nothing changes. A peer whose last connection is
    /// closed is no longer tracked.
    pub fn on_disconnected(&mut self, connection: ConnectionId, peer: &PeerId) -> (known: bool)
        requires
            old(self).wf(),
        ensures
            final(self).wf(),
            known == old(self)@.dom().contains(peer@),
            final(self).rows() == shut(old(self).rows(), peer@, connection),
            final(self)@ == (if !known {
                old(self)@
            } else if old(self)@[peer@].remove(connection) == Set::<ConnectionId>::empty() {
                old(self)@.remove(peer@)
            } else {
                old(self)@.insert(peer@, old(self)@[peer@].remove(connection))
            }),
            final(self).next_dump() == old(self).next_dump(),
    {
        let at = self.find(peer);
        let ghost before = self.rows();
        proof {
            lemma_position_of(before, peer@);
        }
        if at == self.peers.len() {
            return false;
        }
        let ghost held = before[at as int].1;
        let mut i: usize = 0;
        while i < self.peers[at].connections.len() && self.peers[at].connections[i] != connection
            invariant
                at < self.peers@.len(),
                self.peers@[at as int].connections@ == held,
                i <= held.len(),
                forall|j: int| 0 <= j < i ==> held[j] != connection,
            decreases held.len() - i,
        {
            i += 1;
        }
        let ghost rest = if i < held.len() {
            held.remove(i as int)
        } else {
            held
        };
        proof {
            if i < held.len() {
                assert(held.contains(connection));
                let chosen = choose|j: int| 0 <= j < held.len() && held[j] == connection;
                assert(chosen == i);
            } else {
                assert(!held.contains(connection));
            }
            assert(rest == without(held, connection));
            if i < held.len() {
                assert(forall|j: int| 0 <= j < rest.len() ==> rest[j] == (if j < i {
                    held[j]
                } else {
                    held[j + 1]
                }));
            }
            assert(rest.no_duplicates());
            assert(members(rest) =~= members(held).remove(connection)) by {
                assert forall|c: ConnectionId| rest.contains(c) implies held.contains(c) && c
                    != connection by {
                    let j = choose|j: int| 0 <= j < rest.len() && rest[j] == c;
                    if i < held.len() && j >= i {
                        assert(held[j + 1] == c);
                    } else {
                        assert(held[j] == c);
                    }
                }
                assert forall|c: ConnectionId| held.contains(c) && c != connection implies rest.contains(
                    c,
                ) by {
                    let j = choose|j: int| 0 <= j < held.len() && held[j] == c;
                    if i < held.len() && j > i {
                        assert(rest[j - 1] == c);
                    } else {
                        assert(rest[j] == c);
                    }
                }
            }
            if rest.len() > 0 {
                assert(rest.contains(rest[0]));
                assert(members(rest).contains(rest[0]));
            } else {
                assert(members(rest) =~= Set::<ConnectionId>::empty());
            }
        }
        if i < self.peers[at].connections.len() {
            self.peers[at].connections.remove(i);
        }
        assert(self.rows() == before.update(at as int, (peer@, rest)));
        if self.peers[at].connections.len() == 0 {
            self.peers.remove(at);
            proof {
                assert(self.rows() == before.remove(at as int));
                assert forall|key: Seq<char>|
                    #![auto]
                    lookup(self.rows(), key) == (if key == peer@ {
                        None
                    } else {
                        lookup(before, key)
                    }) by {
                    lemma_lookup_removed(before, at as int, key);
                }
                lemma_lookup_removed(before, at as int, peer@);
                assert forall|k: int| 0 <= k < self.rows().len() implies (#[trigger] self.rows()[k]).1.no_duplicates()
                    && self.rows()[k].1.len() > 0 by {
                    if k < at {
                        assert(self.rows()[k] == before[k]);
                    } else {
                        assert(self.rows()[k] == before[k + 1]);
                    }
                }
                assert(self@ =~= old(self)@.remove(peer@));
            }
        } else {
            proof {
                assert forall|key: Seq<char>|
                    #![auto]
                    lookup(self.rows(), key) == (if key == peer@ {
                        Some(rest)
                    } else {
                        lookup(before, key)
                    }) by {
                    lemma_lookup_updated(before, at as int, rest, key);
                }
                assert(self@ =~= old(self)@.insert(peer@, old(self)@[peer@].remove(connection)));
            }
        }
        true
    }

    /// The connected peers, each with its connections.
    pub fn inventory(&self) -> (peers: Vec<Connected>)
        requires
            self.wf(),
        ensures
            connected_models(peers@) == self.rows(),
            is_inventory(peers@, self@),
    {
        let mut peers: Vec<Connected> = Vec::new();
        let mut i: usize = 0;
        while i < self.peers.len()
            invariant
                i <= self.peers@.len(),
                peers@.len() == i,
                forall|j: int|
                    0 <= j < i ==> (#[trigger] peers@[j]).peer_id@ == self.rows()[j].0
                        && peers@[j].connections@ == self.rows()[j].1,
            decreases self.peers@.len() - i,
        {
            let mut connections: Vec<ConnectionId> = Vec::new();
            let mut k: usize = 0;
            while k < self.peers[i as usize].connections.len()
                invariant
                    i < self.peers@.len(),
                    k <= self.peers@[i as int].connections@.len(),
                    connections@ == self.peers@[i as int].connections@.take(k as int),
                decreases self.peers@[i as int].connections@.len() - k,
            {
                connections.push(self.peers[i].connections[k]);
                assert(self.peers@[i as int].connections@.take(k + 1) == self.peers@[i as int].connections@.take(
                    k as int,
                ).push(self.peers@[i as int].connections@[k as int]));
                k += 1;
            }
            assert(self.peers@[i as int].connections@.take(k as int) == self.peers@[i as int].connections@);
            peers.push(Connected { peer_id: self.peers[i].peer.to_base58(), connections });
            i += 1;
        }
        proof {
            let rows = self.rows();
            assert(connected_models(peers@) =~= rows);
            assert forall|j: int| 0 <= j < peers@.len() implies self@.dom().contains(
                (#[trigger] peers@[j]).peer_id@,
            ) && members(peers@[j].connections@) == self@[peers@[j].peer_id@]
                && peers@[j].connections@.no_duplicates() by {
                lemma_position_is(rows, rows[j].0, j);
                assert(rows[j].1.no_duplicates());
            }
            assert forall|peer: Seq<char>| self@.dom().contains(peer) implies exists|j: int|
                0 <= j < peers@.len() && (#[trigger] peers@[j]).peer_id@ == peer by {
                lemma_position_of(rows, peer);
                assert(peers@[position_of(rows, peer)].peer_id@ == peer);
            }
            self.lemma_peer_count();
        }
        peers
    }

    /// There are as many tracked peers as rows.
    proof fn lemma_peer_count(&self)
        requires
            self.wf(),
        ensures
            self@.dom().finite(),
            self@.dom().len() == self.rows().len(),
    {
        lemma_key_count(self.rows());
        assert(self@.dom() =~= Set::new(|peer: Seq<char>| has_key(self.rows(), peer)));
    }

    /// One poll at `now`: the inventory to dump, where a dump is due. The
    /// first is due once the first delay has passed since the tracker was
    /// made, each later one an interval after the one before.
    pub fn poll(&mut self, now: u64) -> (dump: Option<Vec<Connected>>)
        requires
            old(self).wf(),
        ensures
            final(self).wf(),
            final(self)@ == old(self)@,
            dump is Some == (now >= old(self).next_dump()),
            final(self).next_dump() == (if dump is Some {
                later(now, DUMP_INTERVAL)
            } else {
                old(self).next_dump()
            }),
            final(self).rows() == old(self).rows(),
            dump matches Some(peers) ==> connected_models(peers@) == old(self).rows()
                && is_inventory(peers@, old(self)@),
    {
        if now < self.next_dump {
            return None;
        }
        let peers = self.inventory();
        self.next_dump = add_delay(now, DUMP_INTERVAL);
        Some(peers)
    }
}

/// The keys of rows with distinct keys are as many as the rows.
proof fn lemma_key_count(rows: Seq<ConnectedModel>)
    requires
        keys_distinct(rows),
    ensures
        Set::new(|peer: Seq<char>| has_key(rows, peer)).finite(),
        Set::new(|peer: Seq<char>| has_key(rows, peer)).len() == rows.len(),
    decreases rows.len(),
{
    let keys = Set::new(|peer: Seq<char>| has_key(rows, peer));
    if rows.len() == 0 {
        assert(keys =~= Set::<Seq<char>>::empty());
    } else {
        let earlier = rows.drop_last();
        let last = rows.last();
        let earlier_keys = Set::new(|peer: Seq<char>| has_key(earlier, peer));
        assert(forall|i: int| 0 <= i < earlier.len() ==> earlier[i] == rows[i]);
        lemma_key_count(earlier);
        assert forall|peer: Seq<char>| keys.contains(peer) == earlier_keys.insert(last.0).contains(
            peer,
        ) by {
            lemma_position_of(earlier, peer);
            lemma_position_of(rows, peer);
            if has_key(earlier, peer) {
                lemma_position_is(rows, peer, position_of(earlier, peer));
            } else if peer == last.0 {
                lemma_position_is(rows, peer, earlier.len() as int);
            } else {
                lemma_position_is(rows, peer, rows.len() as int);
            }
        }
        assert(keys =~= earlier_keys.insert(last.0));
        assert(!earlier_keys.contains(last.0)) by {
            lemma_position_of(earlier, last.0);
            if has_key(earlier, last.0) {
                assert(rows[position_of(earlier, last.0)].0 == rows[rows.len() - 1].0);
            }
        }
    }
}

} // verus!
