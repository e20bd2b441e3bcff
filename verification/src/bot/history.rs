//! The repetition tracker: how often each position has occurred in the game
//! and on the line that the search is looking at.

use std::collections::HashMap;
use vstd::prelude::*;

verus! {

/// How often each position, named by its fingerprint, has occurred.
#[derive(Debug, Clone)]
pub struct RepetitionHistory {
    pub inner: HashMap<u64, u32>,
}

impl RepetitionHistory {
    /// How often the position with the given fingerprint has occurred.
    pub open spec fn count(&self, hash: u64) -> nat {
        if self.inner@.contains_key(hash) {
            self.inner@[hash] as nat
        } else {
            0
        }
    }

    /// Whether two trackers give every position the same count.
    pub open spec fn same_counts(&self, other: &RepetitionHistory) -> bool {
        forall|hash: u64| self.count(hash) == other.count(hash)
    }

    /// The entries after one more occurrence of a position has been counted:
    /// a count that has reached the largest number stays as it is.
    pub open spec fn counted(entries: Map<u64, u32>, hash: u64) -> Map<u64, u32> {
        if !entries.contains_key(hash) {
            entries.insert(hash, 1)
        } else if entries[hash] < u32::MAX {
            entries.insert(hash, (entries[hash] + 1) as u32)
        } else {
            entries
        }
    }

    /// The entries after one occurrence of a position has been taken back:
    /// the entry of a position that has not occurred any more is dropped.
    pub open spec fn taken_back(entries: Map<u64, u32>, hash: u64) -> Map<u64, u32> {
        if entries.contains_key(hash) && entries[hash] > 1 {
            entries.insert(hash, (entries[hash] - 1) as u32)
        } else {
            entries.remove(hash)
        }
    }

    /// An occurrence that is counted and then taken back leaves the entries
    /// as they were: a count that returns to nought leaves no entry. This
    /// holds where the position had no entry with the count nought and its
    /// count could still grow.
    pub proof fn lemma_count_and_take_back(entries: Map<u64, u32>, hash: u64)
        requires
            entries.contains_key(hash) ==> 0 < entries[hash] < u32::MAX,
        ensures
            Self::taken_back(Self::counted(entries, hash), hash) == entries,
    {
        assert(Self::taken_back(Self::counted(entries, hash), hash) =~= entries);
    }

    /// The tracker holds no entry for a position that has not occurred.
    pub open spec fn tidy(&self) -> bool {
        forall|hash: u64| self.inner@.contains_key(hash) ==> #[trigger] self.inner@[hash] > 0
    }

    /// Whether the tracker is what `before` was, but for entries with the
    /// count nought that `before` held and this one may have dropped: every
    /// count is the same and no entry has come to it.
    pub open spec fn restored(&self, before: &RepetitionHistory) -> bool {
        self.same_counts(before) && forall|hash: u64| #[trigger]
            self.inner@.contains_key(hash) ==> before.inner@.contains_key(hash)
    }

    /// A tidy tracker that is restored holds exactly the entries that it
    /// held, and is tidy.
    pub proof fn lemma_restored_is_same(&self, before: &RepetitionHistory)
        requires
            self.restored(before),
            before.tidy(),
        ensures
            self.inner@ == before.inner@,
            self.tidy(),
    {
        assert forall|hash: u64| #[trigger]
            self.inner@.contains_key(hash) == before.inner@.contains_key(hash) by {
            assert(self.count(hash) == before.count(hash));
            if before.inner@.contains_key(hash) {
                assert(before.inner@[hash] > 0);
            }
        }
        assert forall|hash: u64| self.inner@.contains_key(hash) implies #[trigger] self.inner@[hash]
            == before.inner@[hash] && self.inner@[hash] > 0 by {
            assert(self.count(hash) == before.count(hash));
            assert(before.inner@[hash] > 0);
        }
        assert(self.inner@ =~= before.inner@);
    }

    /// A tracker in which no position has occurred.
    pub fn new() -> (r: RepetitionHistory)
        ensures
            r.inner@ == Map::<u64, u32>::empty(),
            r.tidy(),
            forall|hash: u64| r.count(hash) == 0,
    {
        RepetitionHistory { inner: HashMap::new() }
    }

    /// How often the position with the given fingerprint has occurred.
    pub fn get(&self, hash: u64) -> (r: u32)
        ensures
            r == self.count(hash),
    {
        match self.inner.get(&hash) {
            Some(count) => *count,
            None => 0,
        }
    }

    /// Sets the count of one position and leaves the others.
    pub fn set(&mut self, hash: u64, count: u32)
        ensures
            final(self).inner@ == old(self).inner@.insert(hash, count),
            final(self).count(hash) == count,
            forall|other: u64| other != hash ==> final(self).count(other) == old(self).count(other),
    {
        self.inner.insert(hash, count);
    }

    /// Counts one more occurrence of a position, and says whether it did:
    /// a count that has reached the largest number stays as it is.
    pub fn increment(&mut self, hash: u64) -> (counted: bool)
        ensures
            counted == (old(self).count(hash) < u32::MAX),
            final(self).inner@ == Self::counted(old(self).inner@, hash),
            old(self).tidy() ==> final(self).tidy(),
            final(self).count(hash) == old(self).count(hash) + (if counted {
                1nat
            } else {
                0nat
            }),
            forall|other: u64| other != hash ==> final(self).count(other) == old(self).count(other),
    {
        let count = self.get(hash);
        if count < u32::MAX {
            self.inner.insert(hash, count + 1);
            true
        } else {
            false
        }
    }

    /// Takes one occurrence of a position back; the entry of a position
    /// that has not occurred any more is dropped. A position that has not
    /// occurred stays so.
    pub fn decrement(&mut self, hash: u64)
        ensures
            final(self).inner@ == Self::taken_back(old(self).inner@, hash),
            final(self).count(hash) == 0 ==> !final(self).inner@.contains_key(hash),
            !old(self).inner@.contains_key(hash) ==> final(self).inner@ == old(self).inner@,
            old(self).tidy() ==> final(self).tidy(),
            final(self).count(hash) == (if old(self).count(hash) > 0 {
                (old(self).count(hash) - 1) as nat
            } else {
                0nat
            }),
            forall|other: u64| other != hash ==> final(self).count(other) == old(self).count(other),
    {
        let count = self.get(hash);
        if count > 1 {
            self.inner.insert(hash, count - 1);
        } else {
            self.inner.remove(&hash);
        }
        proof {
            if !old(self).inner@.contains_key(hash) {
                assert(self.inner@ =~= old(self).inner@);
            }
        }
    }

    /// Forgets every occurrence.
    pub fn clear(&mut self)
        ensures
            final(self).inner@ == Map::<u64, u32>::empty(),
            forall|hash: u64| final(self).count(hash) == 0,
    {
        self.inner.clear();
    }
}

} // verus!
