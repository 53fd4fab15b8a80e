//! What holds of the address book over any run of reports, lookups and
//! restores.

use vstd::prelude::*;
use crate::address_book::{
    addrs_in, addrs_of, deduped, entries_of, entries_wf, known_addrs, lemma_protocol_index,
    lemma_protocol_index_is, lemma_reported_entries_wf, lemma_with_addr, loaded, model_wf, parsed,
    protocol_index, replayed, replayed_parsed, reported, reported_entries, with_addr, ParsedModel,
    PEER_ADDRS_CACHE_SIZE,
};
use crate::cache::{displaced, lemma_pushed};
use crate::keyed::{has_key, lemma_position_is, lemma_position_of, lookup};
use crate::peer_id::{canonical_peer_text, is_peer_text};
use crate::snapshot::{EntryModel, ProtocolModel};

verus! {

/// One report: the peer, the protocol and the address.
pub type Report = (Seq<char>, Seq<char>, Seq<char>);

/// The book after the reports `reports`, in order.
pub open spec fn reported_all(model: Seq<ProtocolModel>, reports: Seq<Report>) -> Seq<ProtocolModel>
    decreases reports.len(),
{
    if reports.len() == 0 {
        model
    } else {
        reported(
            reported_all(model, reports.drop_last()),
            reports.last().0,
            reports.last().1,
            reports.last().2,
        )
    }
}

/// Whether every report of `reports` names a peer by its canonical text.
pub open spec fn reports_wf(reports: Seq<Report>) -> bool {
    forall|i: int| 0 <= i < reports.len() ==> is_peer_text((#[trigger] reports[i]).0)
}

/// Whether the report at `at` pushes `peer` out of the cache of
/// `protocol`, in the run of `reports` from the book `model`.
pub open spec fn displaces(
    model: Seq<ProtocolModel>,
    reports: Seq<Report>,
    at: int,
    protocol: Seq<char>,
    peer: Seq<char>,
) -> bool {
    reports[at].1 == protocol && displaced(
        entries_of(reported_all(model, reports.take(at)), protocol),
        PEER_ADDRS_CACHE_SIZE as nat,
        reports[at].0,
    ) == Some(peer)
}

/// A report changes the entries of its own protocol and of no other.
pub proof fn lemma_reported_entries_of(
    model: Seq<ProtocolModel>,
    peer: Seq<char>,
    protocol: Seq<char>,
    addr: Seq<char>,
    other: Seq<char>,
)
    ensures
        entries_of(reported(model, peer, protocol, addr), other) == (if other == protocol {
            reported_entries(entries_of(model, protocol), peer, addr)
        } else {
            entries_of(model, other)
        }),
{
    let after = reported(model, peer, protocol, addr);
    let at = protocol_index(model, protocol);
    let was = protocol_index(model, other);
    lemma_protocol_index(model, protocol);
    lemma_protocol_index(model, other);
    if at < model.len() {
        lemma_protocol_index_is(after, other, was);
    } else if other == protocol {
        lemma_protocol_index_is(after, other, model.len() as int);
    } else if was < model.len() {
        lemma_protocol_index_is(after, other, was);
    } else {
        lemma_protocol_index_is(after, other, (model.len() + 1) as int);
    }
}

/// A report keeps the book well formed.
pub proof fn lemma_reported_wf(
    model: Seq<ProtocolModel>,
    peer: Seq<char>,
    protocol: Seq<char>,
    addr: Seq<char>,
)
    requires
        model_wf(model),
        is_peer_text(peer),
    ensures
        model_wf(reported(model, peer, protocol, addr)),
{
    let at = protocol_index(model, protocol);
    lemma_protocol_index(model, protocol);
    if at < model.len() {
        lemma_reported_entries_wf(model[at].1, peer, addr);
    } else {
        lemma_reported_entries_wf(Seq::empty(), peer, addr);
    }
}

/// A run of reports keeps the book well formed.
pub proof fn lemma_reported_all_wf(model: Seq<ProtocolModel>, reports: Seq<Report>)
    requires
        model_wf(model),
        reports_wf(reports),
    ensures
        model_wf(reported_all(model, reports)),
    decreases reports.len(),
{
    if reports.len() > 0 {
        lemma_reported_all_wf(model, reports.drop_last());
        lemma_reported_wf(
            reported_all(model, reports.drop_last()),
            reports.last().0,
            reports.last().1,
            reports.last().2,
        );
    }
}

/// The entries of every protocol of a well-formed book are well formed.
pub proof fn lemma_entries_of_wf(model: Seq<ProtocolModel>, protocol: Seq<char>)
    requires
        model_wf(model),
    ensures
        entries_wf(entries_of(model, protocol)),
{
    lemma_protocol_index(model, protocol);
}

/// What one report does to the addresses of any peer under any protocol:
/// the reported address is there afterwards; no address appears but the
/// reported one; and every address stays but those of a peer that the
/// report pushes out of the cache.
pub proof fn lemma_report(
    model: Seq<ProtocolModel>,
    peer: Seq<char>,
    protocol: Seq<char>,
    addr: Seq<char>,
    other_protocol: Seq<char>,
    other_peer: Seq<char>,
    other_addr: Seq<char>,
)
    requires
        model_wf(model),
    ensures
        addrs_of(reported(model, peer, protocol, addr), protocol, peer).contains(addr),
        addrs_of(reported(model, peer, protocol, addr), other_protocol, other_peer).contains(
            other_addr,
        ) ==> addrs_of(model, other_protocol, other_peer).contains(other_addr) || (other_protocol
            == protocol && other_peer == peer && other_addr == addr),
        addrs_of(model, other_protocol, other_peer).contains(other_addr) && !(other_protocol
            == protocol && displaced(
            entries_of(model, protocol),
            PEER_ADDRS_CACHE_SIZE as nat,
            peer,
        ) == Some(other_peer)) ==> addrs_of(
            reported(model, peer, protocol, addr),
            other_protocol,
            other_peer,
        ).contains(other_addr),
{
    let entries = entries_of(model, protocol);
    let value = with_addr(addrs_in(entries, peer), addr);
    lemma_entries_of_wf(model, protocol);
    lemma_reported_entries_of(model, peer, protocol, addr, protocol);
    lemma_reported_entries_of(model, peer, protocol, addr, other_protocol);
    lemma_position_of(entries, peer);
    lemma_position_of(entries, other_peer);
    assert(addrs_in(entries, peer).no_duplicates());
    lemma_with_addr(addrs_in(entries, peer), addr);
    lemma_pushed(entries, PEER_ADDRS_CACHE_SIZE as nat, peer, value);
    if other_protocol == protocol && other_peer != peer {
        assert(lookup(reported_entries(entries, peer, addr), other_peer) == (if displaced(
            entries,
            PEER_ADDRS_CACHE_SIZE as nat,
            peer,
        ) == Some(other_peer) {
            None
        } else {
            lookup(entries, other_peer)
        }));
    }
}

/// Eviction: a report for a new peer under a protocol whose cache is full
/// pushes out the peer that was used least recently. That peer has no
/// address under the protocol afterwards, and every other peer keeps
/// exactly the addresses it had.
pub proof fn lemma_full_cache_evicts_least_recent(
    model: Seq<ProtocolModel>,
    peer: Seq<char>,
    protocol: Seq<char>,
    addr: Seq<char>,
    other: Seq<char>,
)
    requires
        model_wf(model),
        entries_of(model, protocol).len() == PEER_ADDRS_CACHE_SIZE,
        !has_key(entries_of(model, protocol), peer),
        other != peer,
    ensures
        addrs_of(reported(model, peer, protocol, addr), protocol, peer) == seq![addr],
        addrs_of(reported(model, peer, protocol, addr), protocol, other) == (if other == entries_of(
            model,
            protocol,
        ).last().0 {
            Seq::empty()
        } else {
            addrs_of(model, protocol, other)
        }),
        entries_of(reported(model, peer, protocol, addr), protocol).len() == PEER_ADDRS_CACHE_SIZE,
{
    let entries = entries_of(model, protocol);
    let value = with_addr(addrs_in(entries, peer), addr);
    lemma_entries_of_wf(model, protocol);
    lemma_reported_entries_of(model, peer, protocol, addr, protocol);
    lemma_pushed(entries, PEER_ADDRS_CACHE_SIZE as nat, peer, value);
    assert(value == seq![addr]);
    assert(lookup(reported_entries(entries, peer, addr), other) == (if displaced(
        entries,
        PEER_ADDRS_CACHE_SIZE as nat,
        peer,
    ) == Some(other) {
        None
    } else {
        lookup(entries, other)
    }));
}

/// An entry without identity changes nothing of what the entries before
/// and after it restore.
pub proof fn lemma_entry_without_identity_is_dropped(
    before: Seq<ParsedModel>,
    addrs: Seq<Seq<char>>,
    after: Seq<ParsedModel>,
)
    ensures
        replayed_parsed(before.push((None, addrs)) + after) == replayed_parsed(before + after),
    decreases before.len(),
{
    let whole = before.push((None, addrs)) + after;
    let without = before + after;
    if before.len() == 0 {
        assert(whole.drop_first() == after);
        assert(without == after);
    } else {
        let rest = before.drop_first();
        assert(whole.drop_first() == rest.push((None, addrs)) + after);
        assert(without.drop_first() == rest + after);
        assert(whole[0] == without[0]);
        lemma_entry_without_identity_is_dropped(rest, addrs, after);
    }
}

/// Load tolerance: a persisted entry whose text denotes no identity changes
/// nothing of what the entries before and after it restore.
pub proof fn lemma_unparsable_entry_is_dropped(
    before: Seq<EntryModel>,
    bad: EntryModel,
    after: Seq<EntryModel>,
)
    requires
        canonical_peer_text(bad.0) is None,
    ensures
        replayed(before.push(bad) + after) == replayed(before + after),
{
    assert(parsed(before.push(bad) + after) == parsed(before).push((None, bad.1)) + parsed(after));
    assert(parsed(before + after) == parsed(before) + parsed(after));
    lemma_entry_without_identity_is_dropped(parsed(before), bad.1, parsed(after));
}

/// After any run of reports the book holds no address for a peer under a
/// protocol but those it held before and those reported for that peer
/// under that protocol.
pub proof fn lemma_only_reported_addrs(
    model: Seq<ProtocolModel>,
    reports: Seq<Report>,
    protocol: Seq<char>,
    peer: Seq<char>,
    addr: Seq<char>,
)
    requires
        model_wf(model),
        reports_wf(reports),
        addrs_of(reported_all(model, reports), protocol, peer).contains(addr),
    ensures
        addrs_of(model, protocol, peer).contains(addr) || reports.contains((peer, protocol, addr)),
    decreases reports.len(),
{
    if reports.len() > 0 {
        let earlier = reports.drop_last();
        let last = reports.last();
        lemma_reported_all_wf(model, earlier);
        lemma_report(reported_all(model, earlier), last.0, last.1, last.2, protocol, peer, addr);
        if last == (peer, protocol, addr) {
            assert(reports[reports.len() - 1] == (peer, protocol, addr));
        } else {
            lemma_only_reported_addrs(model, earlier, protocol, peer, addr);
            if earlier.contains((peer, protocol, addr)) {
                let i = choose|i: int| 0 <= i < earlier.len() && earlier[i] == (peer, protocol, addr);
                assert(reports[i] == (peer, protocol, addr));
            }
        }
    }
}

/// An address that was reported for a peer under a protocol is held for it
/// after any further reports, as long as none of them pushes the peer out
/// of the protocol's cache.
pub proof fn lemma_reported_addrs_stay(
    model: Seq<ProtocolModel>,
    reports: Seq<Report>,
    at: int,
)
    requires
        model_wf(model),
        reports_wf(reports),
        0 <= at < reports.len(),
        forall|later: int|
            at < later < reports.len() ==> !displaces(
                model,
                reports,
                later,
                reports[at].1,
                reports[at].0,
            ),
    ensures
        addrs_of(reported_all(model, reports), reports[at].1, reports[at].0).contains(
            reports[at].2,
        ),
    decreases reports.len(),
{
    let earlier = reports.drop_last();
    let last = reports.last();
    let (peer, protocol, addr) = reports[at];
    lemma_reported_all_wf(model, earlier);
    if at == reports.len() - 1 {
        lemma_report(reported_all(model, earlier), last.0, last.1, last.2, protocol, peer, addr);
    } else {
        assert(earlier[at] == reports[at]);
        assert forall|later: int| at < later < earlier.len() implies !displaces(
            model,
            earlier,
            later,
            earlier[at].1,
            earlier[at].0,
        ) by {
            assert(earlier.take(later) == reports.take(later));
            assert(!displaces(model, reports, later, reports[at].1, reports[at].0));
        }
        lemma_reported_addrs_stay(model, earlier, at);
        assert(reports.take(reports.len() - 1) == earlier);
        assert(!displaces(model, reports, reports.len() - 1, protocol, peer));
        lemma_report(reported_all(model, earlier), last.0, last.1, last.2, protocol, peer, addr);
    }
}

/// A lookup gives out exactly the addresses that the book holds for the
/// peer under one of the wanted protocols.
pub proof fn lemma_known_addrs(
    model: Seq<ProtocolModel>,
    peer: Seq<char>,
    wanted: Seq<Seq<char>>,
    addr: Seq<char>,
)
    requires
        model_wf(model),
    ensures
        known_addrs(model, peer, wanted).contains(addr) <==> exists|i: int|
            0 <= i < wanted.len() && addrs_of(model, #[trigger] wanted[i], peer).contains(addr),
    decreases model.len(),
{
    let found = known_addrs(model, peer, wanted);
    if model.len() == 0 {
        assert forall|i: int| 0 <= i < wanted.len() implies !addrs_of(
            model,
            #[trigger] wanted[i],
            peer,
        ).contains(addr) by {
            lemma_position_of(entries_of(model, wanted[i]), peer);
        }
    } else {
        let earlier = model.drop_last();
        let last = model.last();
        let before = known_addrs(earlier, peer, wanted);
        let here = if wanted.contains(last.0) {
            addrs_in(last.1, peer)
        } else {
            Seq::empty()
        };
        lemma_known_addrs(earlier, peer, wanted, addr);
        assert(found == before + here);
        // Each protocol of the book is found where it stands.
        assert forall|name: Seq<char>|
            #![auto]
            entries_of(model, name) == (if name == last.0 {
                last.1
            } else {
                entries_of(earlier, name)
            }) by {
            lemma_protocol_index(earlier, name);
            if protocol_index(earlier, name) < earlier.len() {
                lemma_protocol_index_is(model, name, protocol_index(earlier, name));
            } else if name == last.0 {
                lemma_protocol_index_is(model, name, earlier.len() as int);
            } else {
                assert forall|j: int| 0 <= j < model.len() implies model[j].0 != name by {
                    if j < earlier.len() {
                        assert(earlier[j] == model[j]);
                    }
                }
                lemma_protocol_index_is(model, name, model.len() as int);
            }
        }
        if found.contains(addr) {
            let k = choose|k: int| 0 <= k < found.len() && found[k] == addr;
            if k < before.len() {
                assert(before[k] == addr);
                let i = choose|i: int|
                    0 <= i < wanted.len() && addrs_of(earlier, #[trigger] wanted[i], peer).contains(
                        addr,
                    );
                lemma_position_of(entries_of(earlier, wanted[i]), peer);
                assert(wanted[i] != last.0) by {
                    lemma_protocol_index(earlier, wanted[i]);
                }
                assert(addrs_of(model, wanted[i], peer).contains(addr));
            } else {
                assert(here[k - before.len()] == addr);
                let i = choose|i: int| 0 <= i < wanted.len() && wanted[i] == last.0;
                assert(addrs_of(model, wanted[i], peer).contains(addr));
            }
        }
        if exists|i: int|
            0 <= i < wanted.len() && addrs_of(model, #[trigger] wanted[i], peer).contains(addr) {
            let i = choose|i: int|
                0 <= i < wanted.len() && addrs_of(model, #[trigger] wanted[i], peer).contains(addr);
            if wanted[i] == last.0 {
                assert(wanted.contains(last.0));
                let k = choose|k: int| 0 <= k < here.len() && here[k] == addr;
                assert(found[before.len() + k] == addr);
            } else {
                assert(addrs_of(earlier, wanted[i], peer).contains(addr));
                let k = choose|k: int| 0 <= k < before.len() && before[k] == addr;
                assert(found[k] == addr);
            }
        }
    }
}

/// Removing repeated addresses leaves a list without any as it is.
pub proof fn lemma_deduped_unique(addrs: Seq<Seq<char>>)
    requires
        addrs.no_duplicates(),
    ensures
        deduped(addrs) == addrs,
    decreases addrs.len(),
{
    if addrs.len() > 0 {
        let earlier = addrs.drop_last();
        lemma_deduped_unique(earlier);
        if earlier.contains(addrs.last()) {
            let i = choose|i: int| 0 <= i < earlier.len() && earlier[i] == addrs.last();
            assert(addrs[i] == addrs[addrs.len() - 1]);
        }
        assert(earlier.push(addrs.last()) == addrs);
    }
}

/// Restoring the well-formed entries of a protocol gives the same entries
/// in the same order.
pub proof fn lemma_replayed_wf_entries(entries: Seq<EntryModel>)
    requires
        entries_wf(entries),
    ensures
        replayed(entries) == entries,
    decreases entries.len(),
{
    if entries.len() > 0 {
        let rest = entries.drop_first();
        assert(entries_wf(rest)) by {
            assert(forall|i: int| 0 <= i < rest.len() ==> rest[i] == entries[i + 1]);
        }
        lemma_replayed_wf_entries(rest);
        lemma_deduped_unique(entries[0].1);
        assert(parsed(entries).drop_first() == parsed(rest));
        assert(parsed(entries)[0] == (Some(entries[0].0), entries[0].1));
        assert forall|j: int| 0 <= j < rest.len() implies rest[j].0 != entries[0].0 by {
            assert(rest[j] == entries[j + 1]);
        }
        lemma_position_is(rest, entries[0].0, rest.len() as int);
        assert(seq![entries[0]] + rest == entries);
    }
}

/// Round trip: a book restored from its own snapshot is the book, every
/// protocol with the same peers in the same order of use and with the same
/// addresses.
pub proof fn lemma_snapshot_round_trip(model: Seq<ProtocolModel>)
    requires
        model_wf(model),
    ensures
        loaded(model) == model,
    decreases model.len(),
{
    if model.len() > 0 {
        let earlier = model.drop_last();
        let last = model.last();
        lemma_snapshot_round_trip(earlier);
        lemma_replayed_wf_entries(last.1);
        assert forall|j: int| 0 <= j < earlier.len() implies earlier[j].0 != last.0 by {
            assert(earlier[j] == model[j]);
        }
        lemma_protocol_index_is(earlier, last.0, earlier.len() as int);
        assert(earlier.push(last) == model);
    }
}

} // verus!
