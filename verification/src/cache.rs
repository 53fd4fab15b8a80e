//! The bounded least-recently-used cache that holds one protocol's peers.
//!
//! The cache itself is `lru::LruCache`. Nothing in it is verified here: this
//! module states what its methods do to the entries it holds, and the rest
//! of the crate is proved against those statements.

use vstd::prelude::*;
use lru::LruCache;
use crate::keyed::{has_key, keys_distinct, lemma_position_is, lemma_position_of, lookup, position_of};
use crate::snapshot::{entry_models, texts, EntryModel, PeerEntry};

verus! {

/// `lru::LruCache`, whose inside is not looked into.
#[verifier::external_type_specification]
#[verifier::external_body]
#[verifier::reject_recursive_types(K)]
#[verifier::reject_recursive_types(V)]
#[verifier::reject_recursive_types(S)]
pub struct ExLruCache<K, V, S>(LruCache<K, V, S>);

/// `lru::DefaultHasher`, the hasher of a cache made by `LruCache::new`.
#[verifier::external_type_specification]
#[verifier::external_body]
pub struct ExDefaultHasher(lru::DefaultHasher);

/// A cache from a peer's identity text to the peer's address texts.
pub type PeerCache = LruCache<String, Vec<String>>;

/// The entries that a cache holds, the most recently used first: the order
/// in which `LruCache::iter` visits them.
pub uninterp spec fn cache_entries(cache: LruCache<String, Vec<String>>) -> Seq<
    (Seq<char>, Seq<Seq<char>>),
>;

/// The number of entries that a cache was made to hold at most: what
/// `LruCache::cap` returns.
pub uninterp spec fn cache_capacity(cache: LruCache<String, Vec<String>>) -> nat;

/// The entries after `key` has been pushed with `value` into a cache of
/// capacity `cap`: the pair moves to the front; an entry with the same key
/// is replaced; where there is none and the cache is full, the entry that
/// was used least recently leaves.
pub open spec fn pushed(
    entries: Seq<EntryModel>,
    cap: nat,
    key: Seq<char>,
    value: Seq<Seq<char>>,
) -> Seq<EntryModel> {
    if has_key(entries, key) {
        seq![(key, value)] + entries.remove(position_of(entries, key))
    } else if cap == 0 {
        entries
    } else if entries.len() == cap {
        seq![(key, value)] + entries.drop_last()
    } else {
        seq![(key, value)] + entries
    }
}

/// The key that leaves when `key` is pushed into a cache of capacity `cap`
/// that holds `entries`, if one does.
pub open spec fn displaced(entries: Seq<EntryModel>, cap: nat, key: Seq<char>) -> Option<
    Seq<char>,
> {
    if !has_key(entries, key) && cap > 0 && entries.len() == cap {
        Some(entries.last().0)
    } else {
        None
    }
}

/// What a push does to a cache whose keys are distinct and that holds no
/// more than its capacity: both stay so, the pushed pair is found under its
/// key, and every other key keeps its addresses unless it was displaced.
pub proof fn lemma_pushed(entries: Seq<EntryModel>, cap: nat, key: Seq<char>, value: Seq<Seq<char>>)
    requires
        keys_distinct(entries),
        entries.len() <= cap,
        cap > 0,
    ensures
        keys_distinct(pushed(entries, cap, key, value)),
        pushed(entries, cap, key, value).len() <= cap,
        pushed(entries, cap, key, value).len() > 0,
        pushed(entries, cap, key, value)[0] == (key, value),
        lookup(pushed(entries, cap, key, value), key) == Some(value),
        forall|i: int|
            0 < i < pushed(entries, cap, key, value).len() ==> entries.contains(
                #[trigger] pushed(entries, cap, key, value)[i],
            ),
        forall|other: Seq<char>|
            other != key ==> #[trigger] lookup(pushed(entries, cap, key, value), other) == (if displaced(
                entries,
                cap,
                key,
            ) == Some(other) {
                None
            } else {
                lookup(entries, other)
            }),
{
    let after = pushed(entries, cap, key, value);
    let at = position_of(entries, key);
    lemma_position_of(entries, key);
    let rest = if has_key(entries, key) {
        entries.remove(at)
    } else if entries.len() == cap {
        entries.drop_last()
    } else {
        entries
    };
    assert(after == seq![(key, value)] + rest);
    assert(forall|i: int| 0 <= i < rest.len() ==> after[i + 1] == rest[i]);
    assert(forall|i: int| 0 <= i < rest.len() ==> rest[i].0 != key);
    assert(keys_distinct(rest));
    assert(keys_distinct(after)) by {
        assert forall|i: int, j: int| 0 <= i < j < after.len() implies after[i].0 != after[j].0 by {
            assert(after[j] == rest[j - 1]);
            if i > 0 {
                assert(after[i] == rest[i - 1]);
            }
        }
    }
    lemma_position_is(after, key, 0);
    assert forall|i: int| 0 < i < after.len() implies entries.contains(#[trigger] after[i]) by {
        assert(after[i] == rest[i - 1]);
        if has_key(entries, key) {
            if i - 1 < at {
                assert(rest[i - 1] == entries[i - 1]);
            } else {
                assert(rest[i - 1] == entries[i]);
            }
        } else {
            assert(rest[i - 1] == entries[i - 1]);
        }
    }
    assert forall|other: Seq<char>| other != key implies #[trigger] lookup(after, other) == (if displaced(
        entries,
        cap,
        key,
    ) == Some(other) {
        None
    } else {
        lookup(entries, other)
    }) by {
        lemma_position_of(entries, other);
        lemma_position_of(rest, other);
        lemma_position_of(after, other);
        let was = position_of(entries, other);
        // Where `other` stands in `rest`, given where it stood in `entries`.
        let now: int = if has_key(entries, key) {
            if was < at {
                was
            } else {
                was - 1
            }
        } else if entries.len() == cap {
            if was < entries.len() - 1 {
                was
            } else {
                rest.len() as int
            }
        } else {
            was
        };
        lemma_position_is(rest, other, now);
        assert forall|j: int| 0 <= j < now + 1 implies after[j].0 != other by {
            if j > 0 {
                assert(after[j] == rest[j - 1]);
            }
        }
        if now < rest.len() {
            assert(after[now + 1] == rest[now]);
        }
        lemma_position_is(after, other, now + 1);
    }
}

/// `LruCache::new`: an empty cache of the given capacity. Room for that
/// many entries is taken at once, so the capacity is kept small.
#[verifier::external_body]
pub(crate) fn cache_new(cap: usize) -> (cache: LruCache<String, Vec<String>>)
    requires
        cap <= 65536,
    ensures
        cache_entries(cache) == Seq::<EntryModel>::empty(),
        cache_capacity(cache) == cap,
{
    LruCache::new(cap)
}

/// `LruCache::push`, its result dropped: the pair becomes the most recently
/// used entry, replacing an entry with the same key; a new key in a full
/// cache displaces the least recently used entry; a cache of capacity zero
/// stays empty. The capacity stays what it was.
#[verifier::external_body]
pub(crate) fn cache_push(cache: &mut LruCache<String, Vec<String>>, key: String, value: Vec<String>)
    ensures
        cache_entries(*final(cache)) == pushed(
            cache_entries(*old(cache)),
            cache_capacity(*old(cache)),
            key@,
            texts(value@),
        ),
        cache_capacity(*final(cache)) == cache_capacity(*old(cache)),
{
    cache.push(key, value);
}

/// `LruCache::peek`, the value copied out: the addresses held under `key`,
/// or `None` where no entry has that key. The order of use is not touched.
#[verifier::external_body]
pub(crate) fn cache_peek(cache: &LruCache<String, Vec<String>>, key: &String) -> (found: Option<
    Vec<String>,
>)
    ensures
        found is Some == has_key(cache_entries(*cache), key@),
        found matches Some(addrs) ==> texts(addrs@) == cache_entries(*cache)[position_of(
            cache_entries(*cache),
            key@,
        )].1,
{
    cache.peek(key).cloned()
}

/// `LruCache::iter`, each entry copied out: the entries of the cache, most
/// recently used first.
#[verifier::external_body]
pub(crate) fn cache_items(cache: &LruCache<String, Vec<String>>) -> (items: Vec<PeerEntry>)
    ensures
        entry_models(items@) == cache_entries(*cache),
{
    cache.iter().map(|(key, value)| PeerEntry { peer_id: key.clone(), addrs: value.clone() }).collect()
}

} // verus!
