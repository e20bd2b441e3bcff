//! The transposition table: a bounded cache of search results by position
//! and depth that drops the entry that has been unused for longest.

use crate::bot::types::TTEntry;
use lru::LruCache;
use std::num::NonZeroUsize;
use vstd::prelude::*;

verus! {

/// The key of a table entry: the fingerprint of a position and the depth
/// that was left to search.
pub type TableKey = (u64, u8);

/// The cache of the crate `lru`. Nothing is known of what is inside it but
/// what the functions below say.
#[verifier::external_type_specification]
#[verifier::external_body]
#[verifier::reject_recursive_types(K)]
#[verifier::reject_recursive_types(V)]
#[verifier::reject_recursive_types(S)]
pub struct ExLruCache<K, V, S>(lru::LruCache<K, V, S>);

/// The hasher that a cache of the crate `lru` uses where none is named. It
/// is only carried along.
#[verifier::external_type_specification]
#[verifier::external_body]
pub struct ExDefaultHasher(lru::DefaultHasher);

/// What a cache holds: its keys with their values, the one used last first.
pub uninterp spec fn cache_entries(cache: LruCache<(u64, u8), TTEntry>) -> Seq<
    ((u64, u8), TTEntry),
>;

/// The number of entries that a cache was made for.
pub uninterp spec fn cache_limit(cache: LruCache<(u64, u8), TTEntry>) -> nat;

/// The place of `key` among the entries, or their number where it is not
/// among them.
pub open spec fn place_of(entries: Seq<(TableKey, TTEntry)>, key: TableKey) -> int
    decreases entries.len(),
{
    if entries.len() == 0 {
        0
    } else if entries[0].0 == key {
        0
    } else {
        1 + place_of(entries.drop_first(), key)
    }
}

/// What is found under `key`.
pub open spec fn found(entries: Seq<(TableKey, TTEntry)>, key: TableKey) -> Option<TTEntry> {
    let i = place_of(entries, key);
    if i < entries.len() {
        Some(entries[i].1)
    } else {
        None
    }
}

/// The entries after `key` has been looked up: where it is among them, its
/// entry has come to the front.
pub open spec fn touched(entries: Seq<(TableKey, TTEntry)>, key: TableKey) -> Seq<
    (TableKey, TTEntry),
> {
    let i = place_of(entries, key);
    if i < entries.len() {
        seq![entries[i]] + entries.remove(i)
    } else {
        entries
    }
}

/// The entries after `entry` has been stored under `key` in a cache made
/// for `limit` entries: the new entry stands in front; an entry that was
/// under the same key is gone, and where there was none and the cache was
/// full, the entry at the back is gone.
pub open spec fn stored(
    entries: Seq<(TableKey, TTEntry)>,
    limit: nat,
    key: TableKey,
    entry: TTEntry,
) -> Seq<(TableKey, TTEntry)> {
    let i = place_of(entries, key);
    if i < entries.len() {
        seq![(key, entry)] + entries.remove(i)
    } else if entries.len() == limit {
        seq![(key, entry)] + entries.drop_last()
    } else {
        seq![(key, entry)] + entries
    }
}

/// No key occurs twice among the entries, and there are at most `limit` of
/// them.
pub open spec fn orderly(entries: Seq<(TableKey, TTEntry)>, limit: nat) -> bool {
    entries.len() <= limit && forall|i: int, j: int|
        0 <= i < j < entries.len() ==> (#[trigger] entries[i]).0 != (#[trigger] entries[j]).0
}

/// The place of a key is the first place at which it stands.
pub proof fn lemma_place_of(entries: Seq<(TableKey, TTEntry)>, key: TableKey)
    ensures
        0 <= place_of(entries, key) <= entries.len(),
        place_of(entries, key) < entries.len() ==> entries[place_of(entries, key)].0 == key,
        forall|j: int| 0 <= j < place_of(entries, key) ==> (#[trigger] entries[j]).0 != key,
    decreases entries.len(),
{
    if entries.len() > 0 && entries[0].0 != key {
        let rest = entries.drop_first();
        lemma_place_of(rest, key);
        assert forall|j: int| 0 <= j < place_of(entries, key) implies (#[trigger] entries[j]).0
            != key by {
            if j > 0 {
                assert(entries[j] == rest[j - 1]);
            }
        }
        if place_of(entries, key) < entries.len() {
            assert(entries[place_of(entries, key)] == rest[place_of(rest, key)]);
        }
    }
}

/// Looking a key up keeps the entries orderly and changes what is found
/// under no key.
pub proof fn lemma_touched(
    entries: Seq<(TableKey, TTEntry)>,
    limit: nat,
    key: TableKey,
    other: TableKey,
)
    requires
        orderly(entries, limit),
    ensures
        orderly(touched(entries, key), limit),
        found(touched(entries, key), other) == found(entries, other),
{
    lemma_place_of(entries, key);
    lemma_place_of(entries, other);
    let i = place_of(entries, key);
    let after = touched(entries, key);
    lemma_place_of(after, other);
    if i < entries.len() {
        let rest = entries.remove(i);
        assert(after == seq![entries[i]] + rest);
        assert forall|a: int, b: int| 0 <= a < b < after.len() implies (#[trigger] after[a]).0 != (
        #[trigger] after[b]).0 by {
            let from_b = if b - 1 < i {
                b - 1
            } else {
                b
            };
            assert(after[b] == entries[from_b]);
            if a == 0 {
                assert(after[a] == entries[i]);
            } else {
                let from_a = if a - 1 < i {
                    a - 1
                } else {
                    a
                };
                assert(after[a] == entries[from_a]);
            }
        }
        let p = place_of(entries, other);
        let q = place_of(after, other);
        if p < entries.len() {
            let at = if p == i {
                0
            } else if p < i {
                p + 1
            } else {
                p
            };
            assert(after[at] == entries[p]);
            assert(q <= at);
            assert(after[q].0 == other);
            if q != at {
                assert(after[q].0 != after[at].0);
            }
        } else {
            if q < after.len() {
                let back = if q == 0 {
                    i
                } else if q - 1 < i {
                    q - 1
                } else {
                    q
                };
                assert(after[q] == entries[back]);
            }
        }
    }
}

/// Storing an entry keeps the entries orderly where the cache was made for
/// at least one entry; the entry is found under its key afterwards, and
/// what is found under another key is what was found before or nothing.
pub proof fn lemma_stored(
    entries: Seq<(TableKey, TTEntry)>,
    limit: nat,
    key: TableKey,
    entry: TTEntry,
    other: TableKey,
)
    requires
        orderly(entries, limit),
        limit > 0,
    ensures
        orderly(stored(entries, limit, key, entry), limit),
        found(stored(entries, limit, key, entry), key) == Some(entry),
        other != key ==> found(stored(entries, limit, key, entry), other) == found(entries, other)
            || found(stored(entries, limit, key, entry), other) is None,
{
    lemma_place_of(entries, key);
    lemma_place_of(entries, other);
    let i = place_of(entries, key);
    let after = stored(entries, limit, key, entry);
    lemma_place_of(after, other);
    assert(after[0] == (key, entry));
    let kept = if i < entries.len() {
        entries.remove(i)
    } else if entries.len() == limit {
        entries.drop_last()
    } else {
        entries
    };
    assert(after == seq![(key, entry)] + kept);
    assert forall|a: int, b: int| 0 <= a < b < after.len() implies (#[trigger] after[a]).0 != (
    #[trigger] after[b]).0 by {
        let from_b = if i < entries.len() && b - 1 >= i {
            b
        } else {
            b - 1
        };
        assert(after[b] == entries[from_b]);
        if a > 0 {
            let from_a = if i < entries.len() && a - 1 >= i {
                a
            } else {
                a - 1
            };
            assert(after[a] == entries[from_a]);
        }
    }
    if other != key {
        let q = place_of(after, other);
        if q < after.len() {
            assert(q > 0);
            let back = if i < entries.len() && q - 1 >= i {
                q
            } else {
                q - 1
            };
            assert(after[q] == entries[back]);
            let p = place_of(entries, other);
            assert(p <= back);
            if p != back {
                assert(entries[p].0 != entries[back].0);
            }
        }
    }
}

/// The largest table that is made. `LruCache::new` sets the room for all
/// its entries aside at once, and fails where the machine has not got it.
pub const LARGEST_TABLE: usize = 1_048_576;

/// Makes an empty cache for `capacity` entries. This is `LruCache::new` of
/// the crate `lru`, taken on trust: the cache holds nothing and keeps the
/// capacity that it was made with. A capacity of nought has no `NonZeroUsize`,
/// and room for more than the largest table may not be had.
#[verifier::external_body]
fn cache_new(capacity: usize) -> (r: LruCache<(u64, u8), TTEntry>)
    requires
        0 < capacity <= LARGEST_TABLE,
    ensures
        cache_entries(r) == Seq::<((u64, u8), TTEntry)>::empty(),
        cache_limit(r) == capacity,
{
    LruCache::new(NonZeroUsize::new(capacity).unwrap())
}

/// Looks a key up. This is `LruCache::get` of the crate `lru`, taken on
/// trust: it hands out a copy of the value under the key, where there is
/// one, and moves that entry to the front; the capacity stays.
#[verifier::external_body]
fn cache_get(cache: &mut LruCache<(u64, u8), TTEntry>, key: &(u64, u8)) -> (r: Option<TTEntry>)
    ensures
        r == found(cache_entries(*old(cache)), *key),
        cache_entries(*final(cache)) == touched(cache_entries(*old(cache)), *key),
        cache_limit(*final(cache)) == cache_limit(*old(cache)),
{
    cache.get(key).cloned()
}

/// Stores a value under a key. This is `LruCache::put` of the crate `lru`,
/// taken on trust: the new entry comes to the front and replaces the one
/// under the same key; where there was none and the cache holds as many
/// entries as it was made for, the entry at the back is dropped; the
/// capacity stays.
#[verifier::external_body]
fn cache_put(cache: &mut LruCache<(u64, u8), TTEntry>, key: (u64, u8), entry: TTEntry)
    ensures
        cache_entries(*final(cache)) == stored(
            cache_entries(*old(cache)),
            cache_limit(*old(cache)),
            key,
            entry,
        ),
        cache_limit(*final(cache)) == cache_limit(*old(cache)),
{
    cache.put(key, entry);
}

/// The transposition table.
pub struct TranspositionTable {
    pub inner: LruCache<(u64, u8), TTEntry>,
}

impl TranspositionTable {
    /// The entries of the table, the one used last first.
    pub open spec fn entries(&self) -> Seq<(TableKey, TTEntry)> {
        cache_entries(self.inner)
    }

    /// The number of entries that the table was made for.
    pub open spec fn capacity(&self) -> nat {
        cache_limit(self.inner)
    }

    /// What the table holds under `key`.
    pub open spec fn lookup(&self, key: TableKey) -> Option<TTEntry> {
        found(self.entries(), key)
    }

    /// The table holds no key twice and no more entries than it was made
    /// for, and it was made for at least one.
    pub open spec fn well_formed(&self) -> bool {
        self.capacity() > 0 && orderly(self.entries(), self.capacity())
    }

    /// An empty table for `capacity` entries, of which there is at least
    /// one and no more than the machine is asked for at once.
    pub fn new(capacity: usize) -> (r: TranspositionTable)
        requires
            0 < capacity <= LARGEST_TABLE,
        ensures
            r.entries() == Seq::<(TableKey, TTEntry)>::empty(),
            r.capacity() == capacity,
            r.well_formed(),
    {
        TranspositionTable { inner: cache_new(capacity) }
    }

    /// An empty table for `capacity` entries, or nothing where a table of
    /// that capacity is not made: one without room, or one larger than the
    /// largest.
    pub fn try_new(capacity: usize) -> (r: Option<TranspositionTable>)
        ensures
            r is Some == (0 < capacity <= LARGEST_TABLE),
            r matches Some(table) ==> table.entries() == Seq::<(TableKey, TTEntry)>::empty()
                && table.capacity() == capacity && table.well_formed(),
    {
        if 0 < capacity && capacity <= LARGEST_TABLE {
            Some(TranspositionTable::new(capacity))
        } else {
            None
        }
    }

    /// What the table holds under `key`; an entry that is found counts as
    /// used and comes to the front.
    pub fn get(&mut self, key: &(u64, u8)) -> (r: Option<TTEntry>)
        ensures
            r == old(self).lookup(*key),
            final(self).entries() == touched(old(self).entries(), *key),
            final(self).capacity() == old(self).capacity(),
            old(self).well_formed() ==> final(self).well_formed(),
            old(self).well_formed() ==> forall|other: TableKey|
                #[trigger] final(self).lookup(other) == old(self).lookup(other),
    {
        proof {
            if self.well_formed() {
                assert forall|other: TableKey|
                    found(touched(self.entries(), *key), other) == found(
                        self.entries(),
                        other,
                    ) by {
                    lemma_touched(self.entries(), self.capacity(), *key, other);
                }
                lemma_touched(self.entries(), self.capacity(), *key, *key);
            }
        }
        cache_get(&mut self.inner, key)
    }

    /// Stores `entry` under `key` in front of the other entries. It takes
    /// the place of an entry under the same key; where there is none and
    /// the table is full, the entry that has been unused for longest goes.
    pub fn put(&mut self, key: (u64, u8), entry: TTEntry)
        ensures
            final(self).entries() == stored(old(self).entries(), old(self).capacity(), key, entry),
            final(self).capacity() == old(self).capacity(),
            final(self).lookup(key) == Some(entry),
            old(self).well_formed() ==> final(self).well_formed(),
            old(self).well_formed() ==> forall|other: TableKey|
                other != key ==> #[trigger] final(self).lookup(other) == old(self).lookup(other)
                    || final(self).lookup(other) is None,
    {
        proof {
            if self.well_formed() {
                assert forall|other: TableKey| other != key implies found(
                    stored(self.entries(), self.capacity(), key, entry),
                    other,
                ) == found(self.entries(), other) || found(
                    stored(self.entries(), self.capacity(), key, entry),
                    other,
                ) is None by {
                    lemma_stored(self.entries(), self.capacity(), key, entry, other);
                }
                lemma_stored(self.entries(), self.capacity(), key, entry, key);
            }
        }
        cache_put(&mut self.inner, key, entry);
    }
}

} // verus!
