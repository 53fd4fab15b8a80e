//! Sequences of pairs that are found by the text in their first place: the
//! entries of a cache by the peer, the rows of the connection tracker by
//! the peer.

use vstd::prelude::*;

verus! {

/// The position of the first entry of `entries` whose key is `key`, or the
/// length of `entries` where there is none.
pub open spec fn position_of<V>(entries: Seq<(Seq<char>, V)>, key: Seq<char>) -> int
    decreases entries.len(),
{
    if entries.len() == 0 {
        0
    } else if entries[0].0 == key {
        0
    } else {
        1 + position_of(entries.drop_first(), key)
    }
}

/// Whether some entry of `entries` has the key `key`.
pub open spec fn has_key<V>(entries: Seq<(Seq<char>, V)>, key: Seq<char>) -> bool {
    position_of(entries, key) < entries.len()
}

/// Whether no two entries of `entries` have the same key.
pub open spec fn keys_distinct<V>(entries: Seq<(Seq<char>, V)>) -> bool {
    forall|i: int, j: int| 0 <= i < j < entries.len() ==> entries[i].0 != entries[j].0
}

/// What `entries` holds under `key`, if anything.
pub open spec fn lookup<V>(entries: Seq<(Seq<char>, V)>, key: Seq<char>) -> Option<V> {
    if has_key(entries, key) {
        Some(entries[position_of(entries, key)].1)
    } else {
        None
    }
}

/// `position_of` finds the first entry with the key, and only that.
pub proof fn lemma_position_of<V>(entries: Seq<(Seq<char>, V)>, key: Seq<char>)
    ensures
        0 <= position_of(entries, key) <= entries.len(),
        has_key(entries, key) ==> entries[position_of(entries, key)].0 == key,
        forall|j: int| 0 <= j < position_of(entries, key) ==> entries[j].0 != key,
    decreases entries.len(),
{
    if entries.len() != 0 && entries[0].0 != key {
        let rest = entries.drop_first();
        lemma_position_of(rest, key);
        assert forall|j: int| 0 <= j < position_of(entries, key) implies entries[j].0 != key by {
            if j > 0 {
                assert(rest[j - 1] == entries[j]);
            }
        }
    }
}

/// The first position that holds the key is what `position_of` returns.
pub proof fn lemma_position_is<V>(entries: Seq<(Seq<char>, V)>, key: Seq<char>, at: int)
    requires
        0 <= at <= entries.len(),
        forall|j: int| 0 <= j < at ==> entries[j].0 != key,
        at < entries.len() ==> entries[at].0 == key,
    ensures
        position_of(entries, key) == at,
{
    lemma_position_of(entries, key);
}

/// Replacing what one entry holds changes what is found under its key and
/// under no other.
pub proof fn lemma_lookup_updated<V>(entries: Seq<(Seq<char>, V)>, at: int, value: V, key: Seq<char>)
    requires
        keys_distinct(entries),
        0 <= at < entries.len(),
    ensures
        lookup(entries.update(at, (entries[at].0, value)), key) == (if key == entries[at].0 {
            Some(value)
        } else {
            lookup(entries, key)
        }),
{
    let after = entries.update(at, (entries[at].0, value));
    lemma_position_of(entries, key);
    if key == entries[at].0 {
        lemma_position_is(entries, key, at);
    }
    lemma_position_is(after, key, position_of(entries, key));
}

/// Adding an entry with a new key at the end changes what is found under
/// that key and under no other.
pub proof fn lemma_lookup_appended<V>(entries: Seq<(Seq<char>, V)>, added: Seq<char>, value: V, key: Seq<char>)
    requires
        !has_key(entries, added),
    ensures
        lookup(entries.push((added, value)), key) == (if key == added {
            Some(value)
        } else {
            lookup(entries, key)
        }),
{
    let after = entries.push((added, value));
    lemma_position_of(entries, key);
    lemma_position_of(entries, added);
    if has_key(entries, key) {
        lemma_position_is(after, key, position_of(entries, key));
    } else if key == added {
        lemma_position_is(after, key, entries.len() as int);
    } else {
        lemma_position_is(after, key, after.len() as int);
    }
}

/// Taking an entry out leaves nothing under its key and changes what is
/// found under no other.
pub proof fn lemma_lookup_removed<V>(entries: Seq<(Seq<char>, V)>, at: int, key: Seq<char>)
    requires
        keys_distinct(entries),
        0 <= at < entries.len(),
    ensures
        keys_distinct(entries.remove(at)),
        lookup(entries.remove(at), key) == (if key == entries[at].0 {
            None
        } else {
            lookup(entries, key)
        }),
{
    let after = entries.remove(at);
    let was = position_of(entries, key);
    lemma_position_of(entries, key);
    assert(forall|i: int| 0 <= i < after.len() ==> after[i] == (if i < at {
        entries[i]
    } else {
        entries[i + 1]
    }));
    if key == entries[at].0 {
        lemma_position_is(entries, key, at);
        lemma_position_is(after, key, after.len() as int);
    } else if was < at {
        lemma_position_is(after, key, was);
    } else if was < entries.len() {
        lemma_position_is(after, key, was - 1);
    } else {
        lemma_position_is(after, key, after.len() as int);
    }
}

} // verus!
