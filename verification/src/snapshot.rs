//! The persisted shape of the address book: plain text all the way down.

use vstd::prelude::*;

verus! {

/// What is known of one peer under one protocol, as it is written to disk.
#[derive(Debug)]
pub struct PeerEntry {
    /// The peer's identity in its textual encoding.
    pub peer_id: String,
    /// The peer's addresses in their textual form.
    pub addrs: Vec<String>,
}

/// The entries of one protocol, most recently used first.
#[derive(Debug)]
pub struct ProtocolEntries {
    pub protocol: String,
    pub entries: Vec<PeerEntry>,
}

/// One peer with its addresses, as mathematics.
pub type EntryModel = (Seq<char>, Seq<Seq<char>>);

/// One protocol with its entries, as mathematics.
pub type ProtocolModel = (Seq<char>, Seq<EntryModel>);

/// The characters of each string of `v`, in order.
pub open spec fn texts(v: Seq<String>) -> Seq<Seq<char>> {
    v.map_values(|s: String| s@)
}

/// The model of each entry of `v`, in order.
pub open spec fn entry_models(v: Seq<PeerEntry>) -> Seq<EntryModel> {
    v.map_values(|e: PeerEntry| e@)
}

/// The model of each protocol of `v`, in order.
pub open spec fn protocol_models(v: Seq<ProtocolEntries>) -> Seq<ProtocolModel> {
    v.map_values(|p: ProtocolEntries| p@)
}

impl View for PeerEntry {
    type V = EntryModel;

    open spec fn view(&self) -> EntryModel {
        (self.peer_id@, texts(self.addrs@))
    }
}

impl View for ProtocolEntries {
    type V = ProtocolModel;

    open spec fn view(&self) -> ProtocolModel {
        (self.protocol@, entry_models(self.entries@))
    }
}

/// A copy of `v`, string by string.
pub fn clone_strings(v: &Vec<String>) -> (copy: Vec<String>)
    ensures
        texts(copy@) == texts(v@),
{
    let mut copy: Vec<String> = Vec::new();
    let mut i: usize = 0;
    while i < v.len()
        invariant
            i <= v.len(),
            copy.len() == i,
            forall|j: int| 0 <= j < i ==> copy@[j]@ == v@[j]@,
        decreases v.len() - i,
    {
        copy.push(v[i].clone());
        i += 1;
    }
    assert(texts(copy@) =~= texts(v@));
    copy
}

/// Whether `needle` is one of the strings of `v`.
pub fn contains_string(v: &Vec<String>, needle: &String) -> (found: bool)
    ensures
        found == texts(v@).contains(needle@),
{
    let mut i: usize = 0;
    while i < v.len()
        invariant
            i <= v.len(),
            forall|j: int| 0 <= j < i ==> v@[j]@ != needle@,
        decreases v.len() - i,
    {
        if v[i] == *needle {
            assert(texts(v@)[i as int] == needle@);
            return true;
        }
        i += 1;
    }
    assert(forall|j: int| 0 <= j < v.len() ==> texts(v@)[j] == v@[j]@);
    false
}

/// Whether the two lists hold the same strings in the same order.
pub fn same_strings(a: &Vec<String>, b: &Vec<String>) -> (same: bool)
    ensures
        same == (texts(a@) == texts(b@)),
{
    if a.len() != b.len() {
        assert(texts(a@).len() != texts(b@).len());
        return false;
    }
    let mut i: usize = 0;
    while i < a.len()
        invariant
            i <= a.len(),
            a.len() == b.len(),
            forall|j: int| 0 <= j < i ==> a@[j]@ == b@[j]@,
        decreases a.len() - i,
    {
        if a[i] != b[i] {
            assert(texts(a@)[i as int] != texts(b@)[i as int]);
            return false;
        }
        i += 1;
    }
    assert(texts(a@) =~= texts(b@));
    true
}

/// Whether the two lists hold the same entries in the same order.
pub fn same_entries(a: &Vec<PeerEntry>, b: &Vec<PeerEntry>) -> (same: bool)
    ensures
        same == (entry_models(a@) == entry_models(b@)),
{
    if a.len() != b.len() {
        assert(entry_models(a@).len() != entry_models(b@).len());
        return false;
    }
    let mut i: usize = 0;
    while i < a.len()
        invariant
            i <= a.len(),
            a.len() == b.len(),
            forall|j: int| 0 <= j < i ==> a@[j]@ == b@[j]@,
        decreases a.len() - i,
    {
        if a[i].peer_id != b[i].peer_id || !same_strings(&a[i].addrs, &b[i].addrs) {
            assert(entry_models(a@)[i as int] != entry_models(b@)[i as int]);
            return false;
        }
        i += 1;
    }
    assert(entry_models(a@) =~= entry_models(b@));
    true
}

/// Whether the two snapshots hold the same protocols with the same entries
/// in the same order.
pub fn same_snapshot(a: &Vec<ProtocolEntries>, b: &Vec<ProtocolEntries>) -> (same: bool)
    ensures
        same == (protocol_models(a@) == protocol_models(b@)),
{
    if a.len() != b.len() {
        assert(protocol_models(a@).len() != protocol_models(b@).len());
        return false;
    }
    let mut i: usize = 0;
    while i < a.len()
        invariant
            i <= a.len(),
            a.len() == b.len(),
            forall|j: int| 0 <= j < i ==> a@[j]@ == b@[j]@,
        decreases a.len() - i,
    {
        if a[i].protocol != b[i].protocol || !same_entries(&a[i].entries, &b[i].entries) {
            assert(protocol_models(a@)[i as int] != protocol_models(b@)[i as int]);
            return false;
        }
        i += 1;
    }
    assert(protocol_models(a@) =~= protocol_models(b@));
    true
}

/// A copy of `v`, entry by entry.
pub fn clone_entries(v: &Vec<PeerEntry>) -> (copy: Vec<PeerEntry>)
    ensures
        entry_models(copy@) == entry_models(v@),
{
    let mut copy: Vec<PeerEntry> = Vec::new();
    let mut i: usize = 0;
    while i < v.len()
        invariant
            i <= v.len(),
            copy.len() == i,
            forall|j: int| 0 <= j < i ==> copy@[j]@ == v@[j]@,
        decreases v.len() - i,
    {
        copy.push(PeerEntry { peer_id: v[i].peer_id.clone(), addrs: clone_strings(&v[i].addrs) });
        i += 1;
    }
    assert(entry_models(copy@) =~= entry_models(v@));
    copy
}

/// A copy of `v`, protocol by protocol.
pub fn clone_snapshot(v: &Vec<ProtocolEntries>) -> (copy: Vec<ProtocolEntries>)
    ensures
        protocol_models(copy@) == protocol_models(v@),
{
    let mut copy: Vec<ProtocolEntries> = Vec::new();
    let mut i: usize = 0;
    while i < v.len()
        invariant
            i <= v.len(),
            copy.len() == i,
            forall|j: int| 0 <= j < i ==> copy@[j]@ == v@[j]@,
        decreases v.len() - i,
    {
        copy.push(
            ProtocolEntries {
                protocol: v[i].protocol.clone(),
                entries: clone_entries(&v[i].entries),
            },
        );
        i += 1;
    }
    assert(protocol_models(copy@) =~= protocol_models(v@));
    copy
}

} // verus!
