//! What a cache of file records is, apart from how it is stored: a bounded
//! sequence of named records in order of use, what reading and storing do to
//! it, and the laws that follow.

use crate::file::FileRecord;
use vstd::prelude::*;

verus! {

/// A record under its name.
pub type Entry = (Seq<char>, FileRecord);

/// What a cache holds: its capacity, and its records under their names, the
/// least recently used first.
pub ghost struct CacheModel {
    pub capacity: nat,
    pub entries: Seq<Entry>,
}

/// No two of `puts` store under the same name.
pub open spec fn distinct_names(puts: Seq<Entry>) -> bool {
    forall|i: int, j: int| 0 <= i < j < puts.len() ==> (#[trigger] puts[i]).0 != (#[trigger] puts[j]).0
}

/// None of `puts` stores under `name`.
pub open spec fn leaves_alone(puts: Seq<Entry>, name: Seq<char>) -> bool {
    forall|i: int| 0 <= i < puts.len() ==> (#[trigger] puts[i]).0 != name
}

impl CacheModel {
    /// The cache with room for `capacity` records and none in it.
    pub open spec fn empty(capacity: nat) -> CacheModel {
        CacheModel { capacity, entries: Seq::empty() }
    }

    /// Whether a record is held under `name`.
    pub open spec fn has(self, name: Seq<char>) -> bool {
        exists|i: int| 0 <= i < self.entries.len() && (#[trigger] self.entries[i]).0 == name
    }

    /// Where the record under `name` stands, counted from the least recently
    /// used; meaningful only where there is one.
    pub open spec fn position(self, name: Seq<char>) -> int {
        choose|i: int| 0 <= i < self.entries.len() && (#[trigger] self.entries[i]).0 == name
    }

    /// How many records were used more recently than the one under `name`;
    /// meaningful only where there is one.
    pub open spec fn age(self, name: Seq<char>) -> int {
        self.entries.len() - 1 - self.position(name)
    }

    /// What holds of every cache: it has room for at least one record, holds
    /// no more than it has room for, and none twice.
    pub open spec fn valid(self) -> bool {
        &&& self.capacity >= 1
        &&& self.entries.len() <= self.capacity
        &&& distinct_names(self.entries)
    }

    /// The record under `name`, if there is one.
    pub open spec fn lookup(self, name: Seq<char>) -> Option<FileRecord> {
        if self.has(name) {
            Some(self.entries[self.position(name)].1)
        } else {
            None
        }
    }

    /// The cache after the record under `name` was read: that record is now
    /// the most recently used, and the others keep their order. Without such a
    /// record nothing changes.
    pub open spec fn touch(self, name: Seq<char>) -> CacheModel {
        if self.has(name) {
            let at = self.position(name);
            CacheModel {
                capacity: self.capacity,
                entries: self.entries.remove(at).push(self.entries[at]),
            }
        } else {
            self
        }
    }

    /// The cache after `record` was stored under `name`. The new record is the
    /// most recently used. It takes the place of the one that had the name;
    /// where there was none and the cache is full, the least recently used
    /// record leaves.
    pub open spec fn put(self, name: Seq<char>, record: FileRecord) -> CacheModel {
        let kept = if self.has(name) {
            self.entries.remove(self.position(name))
        } else if self.entries.len() >= self.capacity {
            self.entries.drop_first()
        } else {
            self.entries
        };
        CacheModel { capacity: self.capacity, entries: kept.push((name, record)) }
    }

    /// The cache after a run of `put`s, the first of `puts` stored first.
    pub open spec fn put_all(self, puts: Seq<Entry>) -> CacheModel
        decreases puts.len(),
    {
        if puts.len() == 0 {
            self
        } else {
            self.put_all(puts.drop_last()).put(puts.last().0, puts.last().1)
        }
    }

    /// Where no name stands twice, the place of a name is the one place where
    /// it stands.
    pub proof fn lemma_position(self, name: Seq<char>, at: int)
        requires
            distinct_names(self.entries),
            0 <= at < self.entries.len(),
            self.entries[at].0 == name,
        ensures
            self.has(name),
            self.position(name) == at,
    {
    }

    /// Nothing is found in an empty cache.
    pub proof fn lemma_empty_has_nothing(capacity: nat, name: Seq<char>)
        ensures
            !CacheModel::empty(capacity).has(name),
            CacheModel::empty(capacity).lookup(name) is None,
    {
    }

    /// Reading keeps a cache valid and neither adds nor drops a record: the
    /// same names lead to the same records. The record that was read is then
    /// the most recently used one.
    pub proof fn lemma_touch_valid(self, name: Seq<char>)
        requires
            self.valid(),
        ensures
            self.touch(name).valid(),
            self.touch(name).capacity == self.capacity,
            self.touch(name).entries.len() == self.entries.len(),
            forall|other: Seq<char>| self.touch(name).has(other) == self.has(other),
            forall|other: Seq<char>| self.touch(name).lookup(other) == self.lookup(other),
            self.has(name) ==> self.touch(name).age(name) == 0,
    {
        if self.has(name) {
            let at = self.position(name);
            let after = self.touch(name);
            let last = self.entries.len() - 1;
            // Place `i` after the read held what place `came_from(i)` held before.
            let came_from = |i: int|
                if i == last {
                    at
                } else if i < at {
                    i
                } else {
                    i + 1
                };
            let went_to = |j: int|
                if j == at {
                    last
                } else if j < at {
                    j
                } else {
                    j - 1
                };
            assert(forall|i: int|
                0 <= i <= last ==> #[trigger] after.entries[i] == self.entries[came_from(i)]);
            assert forall|other: Seq<char>| after.has(other) == self.has(other) && after.lookup(other)
                == self.lookup(other) by {
                if self.has(other) {
                    after.lemma_position(other, went_to(self.position(other)));
                }
                if after.has(other) {
                    self.lemma_position(other, came_from(after.position(other)));
                }
            }
            after.lemma_position(name, last);
        }
    }

    /// Storing keeps a cache valid: it never holds more than it has room for.
    /// The stored record is then found under its name, as the most recently
    /// used one.
    pub proof fn lemma_put_valid(self, name: Seq<char>, record: FileRecord)
        requires
            self.valid(),
        ensures
            self.put(name, record).valid(),
            self.put(name, record).capacity == self.capacity,
            self.put(name, record).has(name),
            self.put(name, record).lookup(name) == Some(record),
            self.put(name, record).age(name) == 0,
    {
        let after = self.put(name, record);
        let kept = after.entries.len() - 1;
        if self.has(name) {
            let at = self.position(name);
            assert(forall|i: int|
                0 <= i < kept ==> #[trigger] after.entries[i] == self.entries[if i < at {
                    i
                } else {
                    i + 1
                }]);
        } else if self.entries.len() >= self.capacity {
            assert(forall|i: int| 0 <= i < kept ==> #[trigger] after.entries[i] == self.entries[i + 1]);
        } else {
            assert(forall|i: int| 0 <= i < kept ==> #[trigger] after.entries[i] == self.entries[i]);
        }
        after.lemma_position(name, kept);
    }

    /// However many records are stored one after the other, the cache stays
    /// valid, and its capacity is what it was.
    pub proof fn lemma_put_all_valid(self, puts: Seq<Entry>)
        requires
            self.valid(),
        ensures
            self.put_all(puts).valid(),
            self.put_all(puts).capacity == self.capacity,
        decreases puts.len(),
    {
        if puts.len() > 0 {
            self.lemma_put_all_valid(puts.drop_last());
            self.put_all(puts.drop_last()).lemma_put_valid(puts.last().0, puts.last().1);
        }
    }

    /// The bound holds throughout: in any run of `put`s, after each one of
    /// them the cache holds no more records than its capacity.
    pub proof fn lemma_never_over_capacity(self, puts: Seq<Entry>)
        requires
            self.valid(),
        ensures
            forall|done: int|
                0 <= done <= puts.len() ==> (#[trigger] self.put_all(puts.take(done))).entries.len()
                    <= self.capacity,
    {
        assert forall|done: int| 0 <= done <= puts.len() implies (#[trigger] self.put_all(
            puts.take(done),
        )).entries.len() <= self.capacity by {
            self.lemma_put_all_valid(puts.take(done));
        }
    }

    /// Records stored under distinct names into an empty cache stay in the
    /// order in which they came; once there are more than the cache has room
    /// for, only the latest `capacity` of them are left.
    pub proof fn lemma_fill(capacity: nat, puts: Seq<Entry>)
        requires
            capacity >= 1,
            distinct_names(puts),
        ensures
            CacheModel::empty(capacity).put_all(puts).entries == puts.subrange(
                if puts.len() <= capacity {
                    0
                } else {
                    puts.len() - capacity
                },
                puts.len() as int,
            ),
        decreases puts.len(),
    {
        if puts.len() > 0 {
            let front = puts.drop_last();
            let before = CacheModel::empty(capacity).put_all(front);
            let after = before.put(puts.last().0, puts.last().1);
            Self::lemma_fill(capacity, front);
            CacheModel::empty(capacity).lemma_put_all_valid(front);
            let skipped = if front.len() <= capacity {
                0
            } else {
                front.len() - capacity
            };
            // What was stored before is a run of `front`, so the last name is
            // new to it.
            assert(forall|i: int|
                0 <= i < before.entries.len() ==> #[trigger] before.entries[i] == puts[skipped + i]);
            assert(!before.has(puts.last().0));
            let dropped = if puts.len() <= capacity {
                0
            } else {
                puts.len() - capacity
            };
            assert(after.entries.len() == puts.len() - dropped);
            assert(forall|i: int|
                0 <= i < after.entries.len() ==> #[trigger] after.entries[i] == puts[dropped + i]);
        }
    }

    /// One record too many: after `capacity + 1` records were stored under
    /// distinct names into an empty cache, the first of them is gone, and the
    /// others are all there, in the order in which they came.
    pub proof fn lemma_overflow_evicts_oldest(capacity: nat, puts: Seq<Entry>)
        requires
            capacity >= 1,
            puts.len() == capacity + 1,
            distinct_names(puts),
        ensures
            CacheModel::empty(capacity).put_all(puts).entries == puts.drop_first(),
            !CacheModel::empty(capacity).put_all(puts).has(puts[0].0),
            forall|i: int|
                1 <= i <= capacity ==> CacheModel::empty(capacity).put_all(puts).has(
                    (#[trigger] puts[i]).0,
                ),
    {
        let after = CacheModel::empty(capacity).put_all(puts);
        Self::lemma_fill(capacity, puts);
        assert(forall|i: int|
            0 <= i < after.entries.len() ==> #[trigger] after.entries[i] == puts[i + 1]);
        assert forall|i: int| 1 <= i <= capacity implies after.has((#[trigger] puts[i]).0) by {
            assert(after.entries[i - 1] == puts[i]);
        }
    }

    /// A record that was just pushed out is missed: where a full cache takes
    /// a record under a new name, a read of the name that was least recently
    /// used finds nothing and changes nothing.
    pub proof fn lemma_evicted_misses(self, name: Seq<char>, record: FileRecord)
        requires
            self.valid(),
            !self.has(name),
            self.entries.len() == self.capacity,
        ensures
            self.put(name, record).lookup(self.entries.first().0) is None,
            self.put(name, record).touch(self.entries.first().0) == self.put(name, record),
    {
        let after = self.put(name, record);
        let last = after.entries.len() - 1;
        assert(self.entries[0].0 != name);
        assert(forall|i: int| 0 <= i < last ==> #[trigger] after.entries[i] == self.entries[i + 1]);
        assert(!after.has(self.entries.first().0));
    }

    /// One `put` lets any other record age by one place at most, and drops
    /// none but the oldest of a full cache.
    pub proof fn lemma_put_ages(self, kept: Seq<char>, name: Seq<char>, record: FileRecord)
        requires
            self.valid(),
            self.has(kept),
            self.age(kept) + 1 < self.capacity,
        ensures
            self.put(name, record).has(kept),
            self.put(name, record).age(kept) <= self.age(kept) + 1,
            name != kept ==> self.put(name, record).lookup(kept) == self.lookup(kept),
    {
        let after = self.put(name, record);
        self.lemma_put_valid(name, record);
        if name != kept {
            let at = self.position(kept);
            let moved_to = if self.has(name) {
                if at < self.position(name) {
                    at
                } else {
                    at - 1
                }
            } else if self.entries.len() >= self.capacity {
                at - 1
            } else {
                at
            };
            assert(after.entries[moved_to] == self.entries[at]);
            after.lemma_position(kept, moved_to);
        }
    }

    /// Fewer `put`s than a record has places left before it is the oldest of
    /// a full cache do not drop it.
    pub proof fn lemma_put_all_ages(self, kept: Seq<char>, puts: Seq<Entry>)
        requires
            self.valid(),
            self.has(kept),
            self.age(kept) + puts.len() < self.capacity,
        ensures
            self.put_all(puts).has(kept),
            self.put_all(puts).age(kept) <= self.age(kept) + puts.len(),
            leaves_alone(puts, kept) ==> self.put_all(puts).lookup(kept) == self.lookup(kept),
        decreases puts.len(),
    {
        if puts.len() > 0 {
            let front = puts.drop_last();
            self.lemma_put_all_ages(kept, front);
            self.lemma_put_all_valid(front);
            self.put_all(front).lemma_put_ages(kept, puts.last().0, puts.last().1);
            if leaves_alone(puts, kept) {
                assert(forall|i: int| 0 <= i < front.len() ==> #[trigger] front[i] == puts[i]);
            }
        }
    }

    /// A read protects: a record that was just read outlasts any run of
    /// fewer than `capacity` `put`s, and is the same after it unless one of
    /// them stored under its name.
    pub proof fn lemma_read_protects(self, name: Seq<char>, puts: Seq<Entry>)
        requires
            self.valid(),
            self.has(name),
            puts.len() < self.capacity,
        ensures
            self.touch(name).put_all(puts).has(name),
            leaves_alone(puts, name) ==> self.touch(name).put_all(puts).lookup(name) == self.lookup(
                name,
            ),
    {
        self.lemma_touch_valid(name);
        self.touch(name).lemma_put_all_ages(name, puts);
    }
}

} // verus!
