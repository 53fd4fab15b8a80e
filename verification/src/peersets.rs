//! The membership and reputation of peers in peer sets, as it is queried
//! from the peer-set handle at fixed intervals and written to disk.

use vstd::prelude::*;
use crate::file_store::{missing_is_empty, ReadError};
use crate::paths::{joined, json_extension, tmp_extension, Paths};
use crate::peer_id::{canonical_peer_text, is_peer_text, PeerId};

verus! {

/// The time, in milliseconds, from one query of the peer sets to the next.
pub const PEERSETS_INTERVAL: u64 = 5000;

/// What is written to disk of one peer.
#[derive(Debug)]
pub struct PeerInfo {
    /// The peer's identity in its textual encoding.
    pub peer_id: String,
    pub reputation: i32,
    /// The indices of the sets that the peer is a member of.
    pub sets: Vec<usize>,
}

/// One peer with its reputation and its sets, as mathematics.
pub type PeerModel = (Seq<char>, i32, Seq<usize>);

/// One peer as the peer-set handle gives it out.
pub type PeerState = (PeerId, i32, Vec<usize>);

impl View for PeerInfo {
    type V = PeerModel;

    open spec fn view(&self) -> PeerModel {
        (self.peer_id@, self.reputation, self.sets@)
    }
}

/// The model of each record of `infos`, in order.
pub open spec fn info_models(infos: Seq<PeerInfo>) -> Seq<PeerModel> {
    infos.map_values(|info: PeerInfo| info@)
}

/// The model of each peer of `peers`, in order.
pub open spec fn peer_models(peers: Seq<PeerState>) -> Seq<PeerModel> {
    peers.map_values(|peer: PeerState| (peer.0@, peer.1, peer.2@))
}

/// One persisted record after its identity text was read: the canonical
/// text of the identity, or `None` where the text denotes none, the
/// reputation and the sets.
pub type ParsedModel = (Option<Seq<char>>, i32, Seq<usize>);

/// One persisted record after its identity text was read.
pub type ParsedPeer = (Option<PeerId>, i32, Vec<usize>);

/// The persisted records `infos`, each with its identity text read.
pub open spec fn parsed(infos: Seq<PeerModel>) -> Seq<ParsedModel> {
    infos.map_values(|info: PeerModel| (canonical_peer_text(info.0), info.1, info.2))
}

/// The model of one record.
pub open spec fn parsed_model(record: ParsedPeer) -> ParsedModel {
    (
        match record.0 {
            Some(peer) => Some(peer@),
            None => None,
        },
        record.1,
        record.2@,
    )
}

/// The model of each record of `records`, in order.
pub open spec fn parsed_models(records: Seq<ParsedPeer>) -> Seq<ParsedModel> {
    records.map_values(|record: ParsedPeer| parsed_model(record))
}

/// The records that have an identity, in order, each with its identity.
pub open spec fn kept_peers(records: Seq<ParsedModel>) -> Seq<PeerModel>
    decreases records.len(),
{
    if records.len() == 0 {
        Seq::empty()
    } else {
        let earlier = kept_peers(records.drop_last());
        match records.last().0 {
            Some(peer) => earlier.push((peer, records.last().1, records.last().2)),
            None => earlier,
        }
    }
}

/// The peers that persisted records restore: each record in its place with
/// the identity that its text denotes, but for the records whose text
/// denotes none, which are left out.
pub open spec fn restored_peers(infos: Seq<PeerModel>) -> Seq<PeerModel> {
    kept_peers(parsed(infos))
}

/// Why a cycle wrote nothing.
#[derive(Clone, Copy, Debug, PartialEq, Eq)]
pub enum PersistError {
    /// The peer-set handle did not answer: its channel is closed.
    BrokenPipe,
}

/// A copy of `sets`.
fn clone_sets(sets: &Vec<usize>) -> (copy: Vec<usize>)
    ensures
        copy@ == sets@,
{
    let mut copy: Vec<usize> = Vec::new();
    let mut i: usize = 0;
    while i < sets.len()
        invariant
            i <= sets.len(),
            copy@ == sets@.take(i as int),
        decreases sets.len() - i,
    {
        copy.push(sets[i]);
        assert(sets@.take(i + 1) == sets@.take(i as int).push(sets@[i as int]));
        i += 1;
    }
    assert(sets@.take(sets.len() as int) == sets@);
    copy
}

/// The records to write for what the peer-set handle gave out: one for
/// each peer, in order, with the peer's identity as text.
pub fn peer_infos(peers: &Vec<PeerState>) -> (infos: Vec<PeerInfo>)
    ensures
        info_models(infos@) == peer_models(peers@),
{
    let mut infos: Vec<PeerInfo> = Vec::new();
    let mut i: usize = 0;
    while i < peers.len()
        invariant
            i <= peers.len(),
            infos.len() == i,
            forall|j: int| 0 <= j < i ==> infos@[j]@ == peer_models(peers@)[j],
        decreases peers.len() - i,
    {
        infos.push(
            PeerInfo {
                peer_id: peers[i].0.to_base58(),
                reputation: peers[i].1,
                sets: clone_sets(&peers[i].2),
            },
        );
        i += 1;
    }
    assert(info_models(infos@) =~= peer_models(peers@));
    infos
}

/// What one cycle writes, given the answer of the peer-set handle: the
/// records of the peers it gave out, or nothing where it did not answer.
pub fn dumped(answer: Result<Vec<PeerState>, ()>) -> (records: Result<Vec<PeerInfo>, PersistError>)
    ensures
        answer matches Ok(peers) ==> (records matches Ok(infos) && info_models(infos@)
            == peer_models(peers@)),
        answer is Err ==> records == Err::<Vec<PeerInfo>, PersistError>(PersistError::BrokenPipe),
{
    match answer {
        Ok(peers) => Ok(peer_infos(&peers)),
        Err(_) => Err(PersistError::BrokenPipe),
    }
}

/// The persisted records `infos`, each with its identity text read.
pub fn parse_infos(infos: &Vec<PeerInfo>) -> (records: Vec<ParsedPeer>)
    ensures
        parsed_models(records@) == parsed(info_models(infos@)),
{
    let mut records: Vec<ParsedPeer> = Vec::new();
    let mut i: usize = 0;
    while i < infos.len()
        invariant
            i <= infos.len(),
            records.len() == i,
            forall|j: int|
                0 <= j < i ==> parsed_model(#[trigger] records@[j]) == parsed(info_models(infos@))[j],
        decreases infos.len() - i,
    {
        let peer = PeerId::parse(infos[i].peer_id.as_str());
        records.push((peer, infos[i].reputation, clone_sets(&infos[i].sets)));
        i += 1;
    }
    assert(parsed_models(records@) =~= parsed(info_models(infos@)));
    records
}

/// The peers among `records`: those that have an identity, in order.
pub fn known_peers(records: &Vec<ParsedPeer>) -> (peers: Vec<PeerState>)
    ensures
        peer_models(peers@) == kept_peers(parsed_models(records@)),
{
    let mut peers: Vec<PeerState> = Vec::new();
    let mut i: usize = 0;
    assert(parsed_models(records@).take(0) =~= Seq::<ParsedModel>::empty());
    assert(peer_models(peers@) =~= Seq::<PeerModel>::empty());
    while i < records.len()
        invariant
            i <= records.len(),
            peer_models(peers@) == kept_peers(parsed_models(records@).take(i as int)),
        decreases records.len() - i,
    {
        let ghost before = peer_models(peers@);
        let ghost prefix = parsed_models(records@).take(i + 1);
        proof {
            assert(prefix.drop_last() == parsed_models(records@).take(i as int));
            assert(prefix.last() == parsed_models(records@)[i as int]);
        }
        match &records[i].0 {
            Some(peer) => {
                peers.push((peer.duplicate(), records[i].1, clone_sets(&records[i].2)));
                assert(peer_models(peers@) =~= before.push(
                    (peer@, records@[i as int].1, records@[i as int].2@),
                ));
            },
            None => {},
        }
        i += 1;
    }
    assert(parsed_models(records@).take(records.len() as int) == parsed_models(records@));
    peers
}

/// The peers of the persisted records `infos`: see `restored_peers`.
pub fn restore(infos: &Vec<PeerInfo>) -> (peers: Vec<PeerState>)
    ensures
        peer_models(peers@) == restored_peers(info_models(infos@)),
{
    known_peers(&parse_infos(infos))
}

/// The peers to start with, given what was read from the file of the peer
/// sets. No file means no peers. A file that could not be read or decoded
/// is an error, which the caller is to report before it goes on without
/// peers. A record whose identity text denotes no identity is left out.
pub fn load(read: Result<Vec<PeerInfo>, ReadError>) -> (peers: Result<Vec<PeerState>, ReadError>)
    ensures
        match read {
            Ok(infos) => peers matches Ok(found) && peer_models(found@) == restored_peers(
                info_models(infos@),
            ),
            Err(ReadError::NotFound) => peers matches Ok(found) && found@.len() == 0,
            Err(error) => peers == Err::<Vec<PeerState>, ReadError>(error),
        },
{
    match missing_is_empty(read, Vec::new()) {
        Ok(infos) => {
            let found = restore(&infos);
            proof {
                if read is Err {
                    assert(info_models(infos@) =~= Seq::<PeerModel>::empty());
                    assert(peer_models(found@).len() == found@.len());
                }
            }
            Ok(found)
        },
        Err(error) => Err(error),
    }
}

/// Round trip: the records written for peers restore those peers, each
/// with its reputation and its sets, in the same order.
pub proof fn lemma_peers_round_trip(peers: Seq<PeerModel>)
    requires
        forall|i: int| 0 <= i < peers.len() ==> is_peer_text((#[trigger] peers[i]).0),
    ensures
        restored_peers(peers) == peers,
    decreases peers.len(),
{
    if peers.len() > 0 {
        let earlier = peers.drop_last();
        assert(forall|i: int| 0 <= i < earlier.len() ==> earlier[i] == peers[i]);
        lemma_peers_round_trip(earlier);
        assert(parsed(peers).drop_last() == parsed(earlier));
        assert(parsed(peers).last() == (Some(peers.last().0), peers.last().1, peers.last().2));
        assert(earlier.push(peers.last()) == peers);
    }
}

/// A record without identity changes nothing of what the records before
/// and after it restore.
pub proof fn lemma_record_without_identity_is_dropped(
    before: Seq<ParsedModel>,
    reputation: i32,
    sets: Seq<usize>,
    after: Seq<ParsedModel>,
)
    ensures
        kept_peers(before.push((None, reputation, sets)) + after) == kept_peers(before + after),
    decreases after.len(),
{
    let bad: ParsedModel = (None, reputation, sets);
    if after.len() == 0 {
        assert(before.push(bad) + after == before.push(bad));
        assert(before + after == before);
        assert(before.push(bad).drop_last() == before);
    } else {
        let whole = before.push(bad) + after;
        let without = before + after;
        assert(whole.drop_last() == before.push(bad) + after.drop_last());
        assert(without.drop_last() == before + after.drop_last());
        assert(whole.last() == after.last());
        assert(without.last() == after.last());
        lemma_record_without_identity_is_dropped(before, reputation, sets, after.drop_last());
    }
}

/// Load tolerance: a record whose text denotes no identity changes nothing
/// of what the records before and after it restore.
pub proof fn lemma_unparsable_record_is_dropped(before: Seq<PeerModel>, bad: PeerModel, after: Seq<PeerModel>)
    requires
        canonical_peer_text(bad.0) is None,
    ensures
        restored_peers(before.push(bad) + after) == restored_peers(before + after),
{
    assert(parsed(before.push(bad) + after) == parsed(before).push((None, bad.1, bad.2)) + parsed(
        after,
    ));
    assert(parsed(before + after) == parsed(before) + parsed(after));
    lemma_record_without_identity_is_dropped(parsed(before), bad.1, bad.2, parsed(after));
}

/// When the peer sets are queried: at `start` and at every multiple of the
/// interval after it. A cycle that runs past one or more of these moments
/// is followed by one cycle at once, not by one for each moment missed.
#[derive(Debug)]
pub struct PersistPeersets {
    paths: Paths,
    next_tick: u64,
    running: bool,
}

/// The first moment after `now` that lies a whole number of intervals
/// after `next_tick`; the largest time there is where that is out of range.
pub open spec fn tick_after(next_tick: u64, now: u64) -> u64 {
    let next = now + (PEERSETS_INTERVAL - (now - next_tick) % (PEERSETS_INTERVAL as int));
    if next > u64::MAX {
        u64::MAX
    } else {
        next as u64
    }
}

impl PersistPeersets {
    /// The files that the peer sets are written to.
    pub closed spec fn paths(&self) -> Paths {
        self.paths
    }

    /// The moment at which the next cycle is due.
    pub closed spec fn next_tick(&self) -> u64 {
        self.next_tick
    }

    /// Whether a cycle is running.
    pub closed spec fn running(&self) -> bool {
        self.running
    }

    /// Whether `after` is what one poll at `now` makes of `self`, where
    /// `cycle_finished` says whether the running cycle has ended and
    /// `start` whether the poll starts a cycle.
    pub open spec fn polled(self, after: PersistPeersets, now: u64, cycle_finished: bool, start: bool) -> bool {
        let idle = !self.running() || cycle_finished;
        &&& after.paths() == self.paths()
        &&& start == (idle && now >= self.next_tick())
        &&& after.running() == (start || !idle)
        &&& after.next_tick() == (if start {
            tick_after(self.next_tick(), now)
        } else {
            self.next_tick()
        })
    }

    /// The task for the directory `dir`, its first cycle due at `now`.
    pub fn new(dir: &str, now: u64) -> (task: PersistPeersets)
        ensures
            task.paths().path@ == joined(dir@, "peer-sets"@) + json_extension(),
            task.paths().tmp_path@ == joined(dir@, "peer-sets"@) + tmp_extension(),
            task.next_tick() == now,
            !task.running(),
    {
        PersistPeersets { paths: Paths::new(dir, "peer-sets"), next_tick: now, running: false }
    }

    /// The files that the peer sets are written to.
    pub fn files(&self) -> (paths: &Paths)
        ensures
            *paths == self.paths(),
    {
        &self.paths
    }

    /// One poll at `now`. `cycle_finished` says whether the running cycle,
    /// if there is one, has ended, however it ended. Returns whether a
    /// cycle is to be started now: the peer sets queried and, where the
    /// handle answers, the records of `dumped` written.
    pub fn poll(&mut self, now: u64, cycle_finished: bool) -> (start: bool)
        ensures
            old(self).polled(*final(self), now, cycle_finished, start),
    {
        if self.running {
            if !cycle_finished {
                return false;
            }
            self.running = false;
        }
        if now < self.next_tick {
            return false;
        }
        let late = now - self.next_tick;
        let step = PEERSETS_INTERVAL - late % PEERSETS_INTERVAL;
        self.next_tick = match now.checked_add(step) {
            Some(next) => next,
            None => u64::MAX,
        };
        self.running = true;
        true
    }
}

/// Coalescing: after a cycle has started, the next is due later than now,
/// at most one interval later, and a whole number of intervals after the
/// moment at which the started one was due.
pub proof fn lemma_ticks_are_coalesced(next_tick: u64, now: u64)
    requires
        now >= next_tick,
        now + PEERSETS_INTERVAL <= u64::MAX,
    ensures
        now < tick_after(next_tick, now) <= now + PEERSETS_INTERVAL,
        (tick_after(next_tick, now) - next_tick) % (PEERSETS_INTERVAL as int) == 0,
{
    let late = now - next_tick;
    let period = PEERSETS_INTERVAL as int;
    assert(late == period * (late / period) + late % period) by (nonlinear_arith)
        requires
            period > 0,
    ;
    assert((period * (late / period + 1)) % period == 0) by (nonlinear_arith)
        requires
            period > 0,
    ;
    assert(late + (period - late % period) == period * (late / period + 1)) by (nonlinear_arith)
        requires
            late == period * (late / period) + late % period,
    ;
}

} // verus!
