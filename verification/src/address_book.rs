//! The address book: for each protocol a bounded cache from a peer to the
//! set of addresses seen for it.

use vstd::prelude::*;
use vstd::string::*;
use crate::cache::{
    cache_capacity, cache_entries, cache_items, cache_new, cache_peek, cache_push, lemma_pushed,
    pushed, PeerCache,
};
use crate::keyed::{keys_distinct, lemma_position_of, lookup};
use crate::file_store::ReadError;
use crate::paths::{joined, json_extension, tmp_extension, Paths};
use crate::peer_id::{canonical_peer_text, is_peer_text, PeerId};
use crate::scheduler::{Scheduler, Tick, WriteOutcome};
use crate::snapshot::{
    clone_snapshot, clone_strings, contains_string, entry_models, protocol_models, same_snapshot,
    texts, EntryModel, PeerEntry, ProtocolEntries, ProtocolModel,
};

verus! {

/// The number of peers that the book remembers for one protocol.
pub const PEER_ADDRS_CACHE_SIZE: usize = 100;

/// The time, in milliseconds, that must have passed since the last write
/// ended before the next one starts.
pub const FLUSH_INTERVAL: u64 = 5000;

/// The position of the first protocol of `model` named `protocol`, or the
/// length of `model` where there is none.
pub open spec fn protocol_index(model: Seq<ProtocolModel>, protocol: Seq<char>) -> int
    decreases model.len(),
{
    if model.len() == 0 {
        0
    } else if model[0].0 == protocol {
        0
    } else {
        1 + protocol_index(model.drop_first(), protocol)
    }
}

/// The entries that `model` holds for `protocol`, most recently used first.
pub open spec fn entries_of(model: Seq<ProtocolModel>, protocol: Seq<char>) -> Seq<EntryModel> {
    if protocol_index(model, protocol) < model.len() {
        model[protocol_index(model, protocol)].1
    } else {
        Seq::empty()
    }
}

/// The addresses that `entries` holds for `peer`; none where the peer is
/// not among them.
pub open spec fn addrs_in(entries: Seq<EntryModel>, peer: Seq<char>) -> Seq<Seq<char>> {
    match lookup(entries, peer) {
        Some(addrs) => addrs,
        None => Seq::empty(),
    }
}

/// The addresses that `model` holds for `peer` under `protocol`.
pub open spec fn addrs_of(model: Seq<ProtocolModel>, protocol: Seq<char>, peer: Seq<char>) -> Seq<
    Seq<char>,
> {
    addrs_in(entries_of(model, protocol), peer)
}

/// `addrs` with `addr` among them: appended where it was missing.
pub open spec fn with_addr(addrs: Seq<Seq<char>>, addr: Seq<char>) -> Seq<Seq<char>> {
    if addrs.contains(addr) {
        addrs
    } else {
        addrs.push(addr)
    }
}

/// The entries of one protocol after `addr` was reported for `peer`.
pub open spec fn reported_entries(entries: Seq<EntryModel>, peer: Seq<char>, addr: Seq<char>) -> Seq<
    EntryModel,
> {
    pushed(entries, PEER_ADDRS_CACHE_SIZE as nat, peer, with_addr(addrs_in(entries, peer), addr))
}

/// The book after `addr` was reported for `peer` under `protocol`: the
/// protocol is added at the end where it was unknown, the peer becomes the
/// protocol's most recently used entry, and `addr` joins its addresses.
pub open spec fn reported(
    model: Seq<ProtocolModel>,
    peer: Seq<char>,
    protocol: Seq<char>,
    addr: Seq<char>,
) -> Seq<ProtocolModel> {
    let at = protocol_index(model, protocol);
    if at < model.len() {
        model.update(at, (protocol, reported_entries(model[at].1, peer, addr)))
    } else {
        model.push((protocol, reported_entries(Seq::empty(), peer, addr)))
    }
}

/// Whether the entries of one protocol are as the book keeps them: no peer
/// twice, no more peers than the cache holds, every key the canonical text
/// of an identity, and no address twice under one peer.
pub open spec fn entries_wf(entries: Seq<EntryModel>) -> bool {
    &&& keys_distinct(entries)
    &&& entries.len() <= PEER_ADDRS_CACHE_SIZE
    &&& forall|i: int|
        0 <= i < entries.len() ==> is_peer_text((#[trigger] entries[i]).0)
            && entries[i].1.no_duplicates()
}

/// Whether `model` is as the book keeps it: no protocol twice, and the
/// entries of each protocol well formed.
pub open spec fn model_wf(model: Seq<ProtocolModel>) -> bool {
    &&& forall|i: int, j: int| 0 <= i < j < model.len() ==> model[i].0 != model[j].0
    &&& forall|i: int| 0 <= i < model.len() ==> entries_wf((#[trigger] model[i]).1)
}

/// `protocol_index` finds the first protocol with the name, and only that.
pub proof fn lemma_protocol_index(model: Seq<ProtocolModel>, protocol: Seq<char>)
    ensures
        0 <= protocol_index(model, protocol) <= model.len(),
        protocol_index(model, protocol) < model.len() ==> model[protocol_index(
            model,
            protocol,
        )].0 == protocol,
        forall|j: int| 0 <= j < protocol_index(model, protocol) ==> model[j].0 != protocol,
    decreases model.len(),
{
    if model.len() != 0 && model[0].0 != protocol {
        let rest = model.drop_first();
        lemma_protocol_index(rest, protocol);
        assert forall|j: int| 0 <= j < protocol_index(model, protocol) implies model[j].0
            != protocol by {
            if j > 0 {
                assert(rest[j - 1] == model[j]);
            }
        }
    }
}

/// The first position that holds the name is what `protocol_index`
/// returns.
pub proof fn lemma_protocol_index_is(model: Seq<ProtocolModel>, protocol: Seq<char>, at: int)
    requires
        0 <= at <= model.len(),
        forall|j: int| 0 <= j < at ==> model[j].0 != protocol,
        at < model.len() ==> model[at].0 == protocol,
    ensures
        protocol_index(model, protocol) == at,
{
    lemma_protocol_index(model, protocol);
}

/// Adding an address keeps a list free of duplicates so.
pub proof fn lemma_with_addr(addrs: Seq<Seq<char>>, addr: Seq<char>)
    requires
        addrs.no_duplicates(),
    ensures
        with_addr(addrs, addr).no_duplicates(),
        with_addr(addrs, addr).contains(addr),
        forall|a: Seq<char>| addrs.contains(a) ==> with_addr(addrs, addr).contains(a),
        forall|a: Seq<char>| with_addr(addrs, addr).contains(a) ==> addrs.contains(a) || a == addr,
{
    let after = with_addr(addrs, addr);
    if !addrs.contains(addr) {
        assert(after[addrs.len() as int] == addr);
        assert forall|a: Seq<char>| addrs.contains(a) implies after.contains(a) by {
            let i = choose|i: int| 0 <= i < addrs.len() && addrs[i] == a;
            assert(after[i] == a);
        }
    }
}

/// Pushing a peer with addresses free of duplicates keeps the entries of a
/// protocol well formed.
pub proof fn lemma_pushed_wf(entries: Seq<EntryModel>, peer: Seq<char>, addrs: Seq<Seq<char>>)
    requires
        entries_wf(entries),
        is_peer_text(peer),
        addrs.no_duplicates(),
    ensures
        entries_wf(pushed(entries, PEER_ADDRS_CACHE_SIZE as nat, peer, addrs)),
{
    let after = pushed(entries, PEER_ADDRS_CACHE_SIZE as nat, peer, addrs);
    lemma_pushed(entries, PEER_ADDRS_CACHE_SIZE as nat, peer, addrs);
    assert forall|i: int| 0 <= i < after.len() implies is_peer_text((#[trigger] after[i]).0)
        && after[i].1.no_duplicates() by {
        if i > 0 {
            assert(entries.contains(after[i]));
        }
    }
}

/// Reporting an address keeps the entries of a protocol well formed.
pub proof fn lemma_reported_entries_wf(entries: Seq<EntryModel>, peer: Seq<char>, addr: Seq<char>)
    requires
        entries_wf(entries),
        is_peer_text(peer),
    ensures
        entries_wf(reported_entries(entries, peer, addr)),
{
    lemma_position_of(entries, peer);
    assert(addrs_in(entries, peer).no_duplicates());
    lemma_with_addr(addrs_in(entries, peer), addr);
    lemma_pushed_wf(entries, peer, with_addr(addrs_in(entries, peer), addr));
}

/// `addrs` without the later copies of an address that occurs twice.
pub open spec fn deduped(addrs: Seq<Seq<char>>) -> Seq<Seq<char>>
    decreases addrs.len(),
{
    if addrs.len() == 0 {
        Seq::empty()
    } else {
        with_addr(deduped(addrs.drop_last()), addrs.last())
    }
}

/// One persisted entry after its identity text was read: the canonical
/// text of the identity, or `None` where the text denotes none, and the
/// addresses.
pub type ParsedModel = (Option<Seq<char>>, Seq<Seq<char>>);

/// The persisted entries `entries`, each with its identity text read.
pub open spec fn parsed(entries: Seq<EntryModel>) -> Seq<ParsedModel> {
    entries.map_values(|entry: EntryModel| (canonical_peer_text(entry.0), entry.1))
}

/// The cache that the entries of one protocol are restored to, once their
/// identity texts were read: the entries are pushed into an empty cache
/// from the last to the first, so that the first is the most recently used
/// again. An entry without identity is left out, and an address that occurs
/// twice under one peer is taken once.
pub open spec fn replayed_parsed(entries: Seq<ParsedModel>) -> Seq<EntryModel>
    decreases entries.len(),
{
    if entries.len() == 0 {
        Seq::empty()
    } else {
        let rest = replayed_parsed(entries.drop_first());
        match entries[0].0 {
            Some(peer) => pushed(rest, PEER_ADDRS_CACHE_SIZE as nat, peer, deduped(entries[0].1)),
            None => rest,
        }
    }
}

/// The cache that the persisted entries of one protocol are restored to:
/// see `replayed_parsed`.
pub open spec fn replayed(entries: Seq<EntryModel>) -> Seq<EntryModel> {
    replayed_parsed(parsed(entries))
}

/// The book that a snapshot is restored to. Where a protocol occurs twice
/// in the snapshot, its first occurrence counts.
pub open spec fn loaded(snapshot: Seq<ProtocolModel>) -> Seq<ProtocolModel>
    decreases snapshot.len(),
{
    if snapshot.len() == 0 {
        Seq::empty()
    } else {
        let before = loaded(snapshot.drop_last());
        if protocol_index(before, snapshot.last().0) < before.len() {
            before
        } else {
            before.push((snapshot.last().0, replayed(snapshot.last().1)))
        }
    }
}

/// The addresses that the book gives out for `peer` when asked for the
/// protocols `wanted`: those of each wanted protocol, in the order of the
/// book.
pub open spec fn known_addrs(model: Seq<ProtocolModel>, peer: Seq<char>, wanted: Seq<Seq<char>>) -> Seq<
    Seq<char>,
>
    decreases model.len(),
{
    if model.len() == 0 {
        Seq::empty()
    } else {
        known_addrs(model.drop_last(), peer, wanted) + (if wanted.contains(model.last().0) {
            addrs_in(model.last().1, peer)
        } else {
            Seq::empty()
        })
    }
}

/// One protocol of the book with its cache.
pub struct ProtocolCache {
    protocol: String,
    cache: PeerCache,
}

impl View for ProtocolCache {
    type V = ProtocolModel;

    closed spec fn view(&self) -> ProtocolModel {
        (self.protocol@, cache_entries(self.cache))
    }
}

/// The model of each protocol of `protocols`, in order.
pub open spec fn cache_models(protocols: Seq<ProtocolCache>) -> Seq<ProtocolModel> {
    protocols.map_values(|p: ProtocolCache| p@)
}

/// Whether every cache of `protocols` was made with the book's capacity.
pub closed spec fn capacities_fixed(protocols: Seq<ProtocolCache>) -> bool {
    forall|i: int|
        0 <= i < protocols.len() ==> cache_capacity((#[trigger] protocols[i]).cache)
            == PEER_ADDRS_CACHE_SIZE
}

/// The position of `protocol` among `protocols`, or their number where it
/// is not among them.
fn find_protocol(protocols: &Vec<ProtocolCache>, protocol: &String) -> (at: usize)
    ensures
        at == protocol_index(cache_models(protocols@), protocol@),
        at <= protocols@.len(),
{
    let mut at: usize = 0;
    while at < protocols.len()
        invariant
            at <= protocols@.len(),
            forall|j: int| 0 <= j < at ==> cache_models(protocols@)[j].0 != protocol@,
        decreases protocols@.len() - at,
    {
        if protocols[at].protocol == *protocol {
            proof {
                assert(cache_models(protocols@)[at as int].0 == protocol@);
                lemma_protocol_index_is(cache_models(protocols@), protocol@, at as int);
            }
            return at;
        }
        at += 1;
    }
    proof {
        lemma_protocol_index_is(cache_models(protocols@), protocol@, at as int);
    }
    at
}

/// The entries of every cache, copied out in the order of the book.
fn snapshot_of(protocols: &Vec<ProtocolCache>) -> (snapshot: Vec<ProtocolEntries>)
    ensures
        protocol_models(snapshot@) == cache_models(protocols@),
{
    let mut snapshot: Vec<ProtocolEntries> = Vec::new();
    let mut i: usize = 0;
    while i < protocols.len()
        invariant
            i <= protocols@.len(),
            snapshot.len() == i,
            forall|j: int| 0 <= j < i ==> snapshot@[j]@ == cache_models(protocols@)[j],
        decreases protocols@.len() - i,
    {
        let entries = cache_items(&protocols[i].cache);
        snapshot.push(ProtocolEntries { protocol: protocols[i].protocol.clone(), entries });
        i += 1;
    }
    assert(protocol_models(snapshot@) =~= cache_models(protocols@));
    snapshot
}

/// A copy of `addrs` without the later copies of an address that occurs
/// twice.
fn dedup_strings(addrs: &Vec<String>) -> (unique: Vec<String>)
    ensures
        texts(unique@) == deduped(texts(addrs@)),
        texts(unique@).no_duplicates(),
{
    let mut unique: Vec<String> = Vec::new();
    let mut i: usize = 0;
    assert(texts(addrs@).take(0) =~= Seq::<Seq<char>>::empty());
    assert(texts(unique@) =~= Seq::<Seq<char>>::empty());
    while i < addrs.len()
        invariant
            i <= addrs.len(),
            texts(unique@) == deduped(texts(addrs@).take(i as int)),
            texts(unique@).no_duplicates(),
        decreases addrs.len() - i,
    {
        let ghost before = texts(unique@);
        let ghost prefix = texts(addrs@).take(i + 1);
        proof {
            assert(prefix.drop_last() == texts(addrs@).take(i as int));
            assert(prefix.last() == addrs@[i as int]@);
            lemma_with_addr(before, addrs@[i as int]@);
        }
        if !contains_string(&unique, &addrs[i]) {
            unique.push(addrs[i].clone());
            assert(texts(unique@) == before.push(addrs@[i as int]@));
        }
        i += 1;
    }
    assert(texts(addrs@).take(addrs.len() as int) == texts(addrs@));
    unique
}

/// A persisted entry after its identity text was read.
#[derive(Debug)]
pub struct ParsedEntry {
    /// The identity that the text denotes, if it denotes one.
    pub peer: Option<PeerId>,
    pub addrs: Vec<String>,
}

impl View for ParsedEntry {
    type V = ParsedModel;

    open spec fn view(&self) -> ParsedModel {
        (
            match self.peer {
                Some(peer) => Some(peer@),
                None => None,
            },
            texts(self.addrs@),
        )
    }
}

/// The model of each entry of `entries`, in order.
pub open spec fn parsed_models(entries: Seq<ParsedEntry>) -> Seq<ParsedModel> {
    entries.map_values(|entry: ParsedEntry| entry@)
}

/// The persisted entries `entries`, each with its identity text read.
pub fn parse_entries(entries: &Vec<PeerEntry>) -> (found: Vec<ParsedEntry>)
    ensures
        parsed_models(found@) == parsed(entry_models(entries@)),
{
    let mut found: Vec<ParsedEntry> = Vec::new();
    let mut i: usize = 0;
    while i < entries.len()
        invariant
            i <= entries.len(),
            found.len() == i,
            forall|j: int| 0 <= j < i ==> found@[j]@ == parsed(entry_models(entries@))[j],
        decreases entries.len() - i,
    {
        let peer = PeerId::parse(entries[i].peer_id.as_str());
        found.push(ParsedEntry { peer, addrs: clone_strings(&entries[i].addrs) });
        i += 1;
    }
    assert(parsed_models(found@) =~= parsed(entry_models(entries@)));
    found
}

/// The cache that the entries of one protocol are restored to, once their
/// identity texts were read: see `replayed_parsed`.
pub fn restore_cache(entries: &Vec<ParsedEntry>) -> (cache: PeerCache)
    ensures
        cache_entries(cache) == replayed_parsed(parsed_models(entries@)),
        cache_capacity(cache) == PEER_ADDRS_CACHE_SIZE,
        entries_wf(cache_entries(cache)),
{
    let mut cache = cache_new(PEER_ADDRS_CACHE_SIZE);
    let mut i: usize = entries.len();
    assert(parsed_models(entries@).skip(i as int) =~= Seq::<ParsedModel>::empty());
    while i > 0
        invariant
            i <= entries.len(),
            cache_entries(cache) == replayed_parsed(parsed_models(entries@).skip(i as int)),
            cache_capacity(cache) == PEER_ADDRS_CACHE_SIZE,
            entries_wf(cache_entries(cache)),
        decreases i,
    {
        i -= 1;
        let ghost suffix = parsed_models(entries@).skip(i as int);
        proof {
            assert(suffix.drop_first() == parsed_models(entries@).skip(i + 1));
            assert(suffix[0] == entries@[i as int]@);
        }
        match &entries[i].peer {
            Some(peer) => {
                let addrs = dedup_strings(&entries[i].addrs);
                let key = peer.to_base58();
                proof {
                    lemma_pushed_wf(cache_entries(cache), key@, texts(addrs@));
                }
                cache_push(&mut cache, key, addrs);
            },
            None => {},
        }
    }
    assert(parsed_models(entries@).skip(0) == parsed_models(entries@));
    cache
}

/// The address book with the state of its writer.
pub struct PersistPeerAddrs {
    paths: Paths,
    scheduler: Scheduler,
    protocols: Vec<ProtocolCache>,
    last_attempted: Vec<ProtocolEntries>,
}

impl PersistPeerAddrs {
    /// The protocols of the book in the order in which they were first
    /// seen, each with its entries, most recently used first.
    pub closed spec fn model(&self) -> Seq<ProtocolModel> {
        cache_models(self.protocols@)
    }

    /// Whether the book is as its operations keep it.
    pub closed spec fn wf(&self) -> bool {
        &&& model_wf(self.model())
        &&& capacities_fixed(self.protocols@)
    }

    /// The model of a well-formed book is well formed.
    pub proof fn lemma_wf(&self)
        requires
            self.wf(),
        ensures
            model_wf(self.model()),
    {
    }

    /// The state of the book's writer.
    pub closed spec fn scheduler(&self) -> Scheduler {
        self.scheduler
    }

    /// The snapshot that was last handed out to be written; for a book
    /// that has not been written yet, what it was restored from.
    pub closed spec fn last_attempted(&self) -> Seq<ProtocolModel> {
        protocol_models(self.last_attempted@)
    }

    /// The files that the book is written to.
    pub closed spec fn paths(&self) -> Paths {
        self.paths
    }

    /// The files that the book is written to.
    pub fn files(&self) -> (paths: &Paths)
        ensures
            *paths == self.paths(),
    {
        &self.paths
    }

    /// Whether a write is in flight.
    pub fn is_writing(&self) -> (writing: bool)
        ensures
            writing == self.scheduler().writing,
    {
        self.scheduler.writing
    }

    /// The book that `snapshot` restores, with an idle writer whose
    /// cooldown runs from `now`. What was restored counts as written.
    pub fn load_from_snapshot(paths: Paths, snapshot: &Vec<ProtocolEntries>, now: u64) -> (book:
        PersistPeerAddrs)
        ensures
            book.wf(),
            book.model() == loaded(protocol_models(snapshot@)),
            book.last_attempted() == book.model(),
            book.scheduler() == (Scheduler {
                cooldown: FLUSH_INTERVAL,
                flushed_at: now,
                writing: false,
            }),
            book.paths() == paths,
    {
        let mut protocols: Vec<ProtocolCache> = Vec::new();
        let mut i: usize = 0;
        assert(protocol_models(snapshot@).take(0) =~= Seq::<ProtocolModel>::empty());
        assert(cache_models(protocols@) =~= Seq::<ProtocolModel>::empty());
        while i < snapshot.len()
            invariant
                i <= snapshot.len(),
                cache_models(protocols@) == loaded(protocol_models(snapshot@).take(i as int)),
                model_wf(cache_models(protocols@)),
                capacities_fixed(protocols@),
            decreases snapshot.len() - i,
        {
            let ghost before = cache_models(protocols@);
            let ghost prefix = protocol_models(snapshot@).take(i + 1);
            proof {
                assert(prefix.drop_last() == protocol_models(snapshot@).take(i as int));
                assert(prefix.last() == snapshot@[i as int]@);
                lemma_protocol_index(before, snapshot@[i as int].protocol@);
            }
            if find_protocol(&protocols, &snapshot[i].protocol) == protocols.len() {
                let entries = parse_entries(&snapshot[i].entries);
                let cache = restore_cache(&entries);
                protocols.push(ProtocolCache { protocol: snapshot[i].protocol.clone(), cache });
                assert(cache_models(protocols@) == before.push(
                    (snapshot@[i as int].protocol@, replayed(entry_models(snapshot@[i as int].entries@))),
                ));
            }
            i += 1;
        }
        assert(protocol_models(snapshot@).take(snapshot.len() as int) == protocol_models(snapshot@));
        let last_attempted = snapshot_of(&protocols);
        PersistPeerAddrs { paths, scheduler: Scheduler::new(FLUSH_INTERVAL, now), protocols, last_attempted }
    }

    /// The book of the directory `dir`, restored from what was read from
    /// its file. Where there was no file, or none that could be read and
    /// decoded, the book is empty: restoring never fails.
    pub fn load(dir: &str, restored: Result<Vec<ProtocolEntries>, ReadError>, now: u64) -> (book:
        PersistPeerAddrs)
        ensures
            book.wf(),
            book.model() == (match restored {
                Ok(snapshot) => loaded(protocol_models(snapshot@)),
                Err(_) => Seq::empty(),
            }),
            book.last_attempted() == book.model(),
            book.scheduler() == (Scheduler {
                cooldown: FLUSH_INTERVAL,
                flushed_at: now,
                writing: false,
            }),
            book.paths().path@ == joined(dir@, "peer-addrs"@) + json_extension(),
            book.paths().tmp_path@ == joined(dir@, "peer-addrs"@) + tmp_extension(),
    {
        let paths = Paths::new(dir, "peer-addrs");
        match restored {
            Ok(snapshot) => PersistPeerAddrs::load_from_snapshot(paths, &snapshot, now),
            Err(_) => {
                let empty: Vec<ProtocolEntries> = Vec::new();
                assert(protocol_models(empty@) =~= Seq::<ProtocolModel>::empty());
                PersistPeerAddrs::load_from_snapshot(paths, &empty, now)
            },
        }
    }

    /// The book as it is written to disk: the protocols in the order of the
    /// book, the entries of each with the most recently used first.
    pub fn to_snapshot(&self) -> (snapshot: Vec<ProtocolEntries>)
        ensures
            protocol_models(snapshot@) == self.model(),
    {
        snapshot_of(&self.protocols)
    }

    /// Records that `peer_id` was seen at `addr` under `protocol`.
    pub fn report_peer_addr(&mut self, peer_id: &PeerId, protocol: &str, addr: &str)
        requires
            old(self).wf(),
        ensures
            final(self).wf(),
            final(self).model() == reported(old(self).model(), peer_id@, protocol@, addr@),
            final(self).scheduler() == old(self).scheduler(),
            final(self).last_attempted() == old(self).last_attempted(),
            final(self).paths() == old(self).paths(),
    {
        let protocol = String::from_str(protocol);
        let addr = String::from_str(addr);
        let key = peer_id.to_base58();
        let at = find_protocol(&self.protocols, &protocol);
        let ghost before = self.model();
        if at == self.protocols.len() {
            let cache = cache_new(PEER_ADDRS_CACHE_SIZE);
            self.protocols.push(ProtocolCache { protocol: protocol.clone(), cache });
            assert(self.model() == before.push((protocol@, Seq::<EntryModel>::empty())));
        }
        let ghost based = self.model();
        let ghost entries = based[at as int].1;
        let mut addrs = match cache_peek(&self.protocols[at].cache, &key) {
            Some(addrs) => addrs,
            None => Vec::new(),
        };
        assert(texts(addrs@) == addrs_in(entries, key@));
        if !contains_string(&addrs, &addr) {
            addrs.push(addr);
            assert(texts(addrs@) == addrs_in(entries, key@).push(addr@));
        }
        cache_push(&mut self.protocols[at].cache, key, addrs);
        proof {
            lemma_protocol_index(before, protocol@);
            assert(self.model() == based.update(
                at as int,
                (protocol@, reported_entries(entries, peer_id@, addr@)),
            ));
            assert(self.model() == reported(before, peer_id@, protocol@, addr@));
            lemma_reported_entries_wf(entries, peer_id@, addr@);
        }
    }

    /// The addresses known for `peer_id` under the protocols `protocols`.
    /// Asking does not count as use: the order in which peers leave the
    /// caches stays what it was.
    pub fn peer_addrs(&self, peer_id: &PeerId, protocols: &Vec<String>) -> (addrs: Vec<String>)
        ensures
            texts(addrs@) == known_addrs(self.model(), peer_id@, texts(protocols@)),
    {
        let key = peer_id.to_base58();
        let mut found: Vec<String> = Vec::new();
        let mut i: usize = 0;
        assert(self.model().take(0) =~= Seq::<ProtocolModel>::empty());
        assert(texts(found@) =~= Seq::<Seq<char>>::empty());
        while i < self.protocols.len()
            invariant
                i <= self.protocols@.len(),
                key@ == peer_id@,
                texts(found@) == known_addrs(self.model().take(i as int), peer_id@, texts(protocols@)),
            decreases self.protocols@.len() - i,
        {
            let ghost prefix = self.model().take(i + 1);
            let ghost before = found@;
            proof {
                assert(prefix.drop_last() == self.model().take(i as int));
                assert(prefix.last() == self.protocols@[i as int]@);
            }
            if contains_string(protocols, &self.protocols[i].protocol) {
                match cache_peek(&self.protocols[i].cache, &key) {
                    Some(mut addrs) => {
                        let ghost held = addrs@;
                        found.append(&mut addrs);
                        assert(texts(found@) =~= texts(before) + texts(held));
                    },
                    None => {
                        assert(texts(before) + Seq::<Seq<char>>::empty() =~= texts(before));
                    },
                }
            } else {
                assert(texts(before) + Seq::<Seq<char>>::empty() =~= texts(before));
            }
            i += 1;
        }
        assert(self.model().take(self.protocols@.len() as int) == self.model());
        found
    }

    /// One poll of the book's writer. `finished` says how the write in
    /// flight ended, if it has. The result is the snapshot to write now, if
    /// one is due: none while a write is in flight, none before the
    /// cooldown has passed, none where the book is what was last handed
    /// out.
    pub fn poll(&mut self, now: u64, finished: Option<WriteOutcome>) -> (write: Option<
        Vec<ProtocolEntries>,
    >)
        ensures
            final(self).wf() == old(self).wf(),
            final(self).model() == old(self).model(),
            final(self).paths() == old(self).paths(),
            final(self).scheduler() == old(self).scheduler().after(
                Tick {
                    now,
                    finished: finished is Some,
                    dirty: old(self).model() != old(self).last_attempted(),
                },
            ),
            write is Some == old(self).scheduler().starts(
                Tick {
                    now,
                    finished: finished is Some,
                    dirty: old(self).model() != old(self).last_attempted(),
                },
            ),
            write matches Some(snapshot) ==> protocol_models(snapshot@) == old(self).model(),
            final(self).last_attempted() == (if write is Some {
                old(self).model()
            } else {
                old(self).last_attempted()
            }),
    {
        if self.scheduler.settle(now, finished.is_some()) {
            return None;
        }
        if !self.scheduler.can_flush(now) {
            return None;
        }
        let snapshot = snapshot_of(&self.protocols);
        if same_snapshot(&snapshot, &self.last_attempted) {
            return None;
        }
        self.scheduler.begin();
        self.last_attempted = clone_snapshot(&snapshot);
        Some(snapshot)
    }
}

} // verus!
