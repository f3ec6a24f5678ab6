//! The fixed-capacity table: an array of slots, a hasher and a bound on the
//! number of probe steps of an insertion.

use crate::hashtable_base::iter::entries;
use crate::hashtable_base::iter::entries_from;
use crate::hashtable_base::iter::occupied_indexes;
use crate::hashtable_base::iter::HashTableDrain;
use crate::hashtable_base::iter::HashTableIter;
use crate::hashtable_base::probe::contents;
use crate::hashtable_base::probe::emptied;
use crate::hashtable_base::probe::first_stop;
use crate::hashtable_base::probe::holds;
use crate::hashtable_base::probe::holds_other;
use crate::hashtable_base::probe::home_index;
use crate::hashtable_base::probe::index_of;
use crate::hashtable_base::probe::lemma_empty_slots;
use crate::hashtable_base::probe::lemma_fill_stop;
use crate::hashtable_base::probe::lemma_first_stop_at;
use crate::hashtable_base::probe::lemma_first_stop_none;
use crate::hashtable_base::probe::lemma_full_round_absent;
use crate::hashtable_base::probe::lemma_home_index_bound;
use crate::hashtable_base::probe::lemma_key_unique;
use crate::hashtable_base::probe::lemma_probe_step;
use crate::hashtable_base::probe::lemma_replace_value;
use crate::hashtable_base::probe::lemma_stop_decides;
use crate::hashtable_base::probe::passes;
use crate::hashtable_base::probe::probe_index;
use crate::hashtable_base::probe::probed_slot;
use crate::hashtable_base::probe::slots_after_insert;
use crate::hashtable_base::probe::value_at;
use crate::hashtable_base::probe::well_placed;
use crate::hashtable_base::set_late_value_outcome;
use crate::hashtable_base::set_late_value_result;
use crate::hashtable_base::AlreadyFull;
use crate::hashtable_base::Key;
use crate::hashtable_base::KeyHasher;
use crate::hashtable_base::LateValueAlreadySet;
use crate::hashtable_base::TableEntry;
use crate::hashtable_base::TableEntryValues;
use vstd::arithmetic::power2::pow2;
use vstd::prelude::*;

verus! {

/// `n` is a power of two.
pub open spec fn is_power_of_two(n: int) -> bool {
    exists|e: nat| n == #[trigger] pow2(e)
}

/// `p` is the least power of two that is not below `n`.
pub open spec fn is_next_power_of_two(n: int, p: int) -> bool {
    &&& is_power_of_two(p)
    &&& n <= p
    &&& forall|q: int| #[trigger] is_power_of_two(q) && n <= q ==> p <= q
}

/// Some power of two that a `usize` can hold is not below `n`.
pub open spec fn fits_power_of_two(n: int) -> bool {
    exists|p: int| #[trigger] is_power_of_two(p) && n <= p <= usize::MAX
}

/// Every capacity up to 2^31 fits, whatever the width of a `usize`.
pub proof fn lemma_fits_power_of_two(n: int)
    requires
        n <= 0x8000_0000,
    ensures
        fits_power_of_two(n),
{
    vstd::arithmetic::power2::lemma2_to64();
    assert(is_power_of_two(0x8000_0000)) by {
        assert(0x8000_0000 == pow2(31));
    }
}

/// `usize::checked_next_power_of_two` of the standard library: the least
/// power of two that is not below `n`, or `None` when that power exceeds
/// `usize::MAX`. Verus assumes this contract; it restates the documentation
/// of the method.
pub assume_specification[ usize::checked_next_power_of_two ](n: usize) -> (r: Option<usize>)
    ensures
        match r {
            Some(p) => is_next_power_of_two(n as int, p as int),
            None => !fits_power_of_two(n as int),
        },
;

/// The exponent of a power of two that fits in a `usize` is below the width
/// of a `usize`.
proof fn lemma_exponent_bound(e: nat)
    requires
        pow2(e) <= usize::MAX,
    ensures
        e < usize::BITS,
{
    if e >= usize::BITS {
        vstd::arithmetic::power2::lemma2_to64();
        vstd::arithmetic::power2::lemma2_to64_rest();
        if e > usize::BITS {
            vstd::arithmetic::power2::lemma_pow2_strictly_increases(usize::BITS as nat, e);
        }
    }
}

/// The slot indexes of one probe: the home slot first, then each following
/// slot, wrapping after the last one, for a bounded number of steps.
pub struct TableIndexIter {
    table_index: usize,
    table_index_mask: usize,
    remaining: usize,
}

impl TableIndexIter {
    /// The mask is one less than the capacity, a power of two, and the next
    /// index lies in the table.
    pub closed spec fn wf(&self) -> bool {
        &&& self.table_index_mask < usize::MAX
        &&& is_power_of_two(self.table_index_mask + 1)
        &&& self.table_index <= self.table_index_mask
    }

    /// The number of slots of the table that is probed.
    pub closed spec fn spec_capacity(&self) -> int {
        self.table_index_mask + 1
    }

    /// The index that `next` returns next, if any step is left.
    pub closed spec fn spec_table_index(&self) -> int {
        self.table_index as int
    }

    /// The number of steps that are left.
    pub closed spec fn spec_remaining(&self) -> int {
        self.remaining as int
    }

    /// The probe of at most `limit` steps, and at most one round, through a
    /// table of `capacity` slots for a key with this hash.
    pub fn new(hash: u64, capacity: usize, limit: usize) -> (r: Self)
        requires
            is_power_of_two(capacity as int),
        ensures
            r.wf(),
            r.spec_capacity() == capacity,
            r.spec_table_index() == hash as int % capacity as int,
            r.spec_remaining() == (if capacity <= limit {
                capacity
            } else {
                limit
            }),
    {
        proof {
            let e = choose|e: nat| capacity as int == #[trigger] pow2(e);
            vstd::arithmetic::power2::lemma_pow2_pos(e);
            lemma_exponent_bound(e);
            vstd::bits::lemma_u64_low_bits_mask_is_mod(hash, e);
        }
        let table_index_mask = capacity - 1;
        let table_index = (hash & (table_index_mask as u64)) as usize;
        let remaining = if capacity <= limit {
            capacity
        } else {
            limit
        };
        TableIndexIter { table_index, table_index_mask, remaining }
    }

    /// The next slot index of the probe, or `None` when no step is left.
    pub fn next(&mut self) -> (r: Option<usize>)
        requires
            old(self).wf(),
        ensures
            final(self).wf(),
            final(self).spec_capacity() == old(self).spec_capacity(),
            0 <= old(self).spec_table_index() < old(self).spec_capacity(),
            old(self).spec_remaining() == 0 ==> r is None && *final(self) == *old(self),
            old(self).spec_remaining() > 0 ==> {
                &&& r == Some(old(self).spec_table_index() as usize)
                &&& final(self).spec_remaining() == old(self).spec_remaining() - 1
                &&& final(self).spec_table_index() == probe_index(
                    old(self).spec_table_index(),
                    1,
                    old(self).spec_capacity(),
                )
            },
    {
        if self.remaining == 0 {
            return None;
        }
        self.remaining = self.remaining - 1;
        let retval = self.table_index;
        proof {
            let e = choose|e: nat| self.table_index_mask + 1 == #[trigger] pow2(e);
            lemma_exponent_bound(e);
            vstd::bits::lemma_usize_low_bits_mask_is_mod((retval + 1) as usize, e);
        }
        self.table_index = self.table_index.wrapping_add(1) & self.table_index_mask;
        Some(retval)
    }
}

/// The search limit of a table that is made without one.
pub const DEFAULT_INSERT_SEARCH_LIMIT: usize = 32;

/// A table of a fixed, power-of-two number of slots. It never grows: an
/// insertion that finds no room within its search limit fails, and the
/// caller decides what follows.
pub struct HashTable<Entry: TableEntry, H: KeyHasher> {
    table: Vec<Entry>,
    hasher: H,
    insert_search_limit: usize,
}

/// Why `insert` stored nothing.
#[derive(Debug)]
pub enum InsertFailureReason<'a, Value> {
    /// The key is in the table. The entry stays as it was.
    AlreadyInTable {
        /// The value the caller passed, returned uninserted.
        passed_in_value: Value,
        /// The value that the table holds for the key.
        entry_value: &'a Value,
    },
    /// Every slot within the search limit is taken by another key.
    TableFullOrSearchLimitHit {
        /// The value the caller passed, returned uninserted.
        passed_in_value: Value,
    },
}

/// The entry of a key after `get_or_insert`.
#[derive(Debug)]
pub struct GetOrInsertSuccess<'a, Value> {
    /// The value the caller passed, where the key was in the table before
    /// the call; `None` where the call inserted it.
    pub passed_in_value: Option<Value>,
    /// The value that the table holds for the key.
    pub entry_value: &'a Value,
}

/// Why `get_or_insert` found no entry and made none.
#[derive(Debug)]
pub enum GetOrInsertFailureReason<Value> {
    /// Every slot within the search limit is taken by another key.
    TableFullOrSearchLimitHit {
        /// The value the caller passed, returned uninserted.
        passed_in_value: Value,
    },
}

impl<Entry: TableEntry, H: KeyHasher> HashTable<Entry, H> {
    /// What each slot holds, in slot order.
    pub closed spec fn slots(&self) -> Seq<Option<(Key, Entry::Values)>> {
        Seq::new(self.table@.len(), |i: int| self.table@[i]@)
    }

    /// The hasher of the table.
    pub closed spec fn spec_hasher(&self) -> H {
        self.hasher
    }

    /// The search limit of the table.
    pub closed spec fn spec_insert_search_limit(&self) -> usize {
        self.insert_search_limit
    }

    /// Every slot is at rest.
    pub closed spec fn slots_wf(&self) -> bool {
        forall|i: int| 0 <= i < self.table@.len() ==> (#[trigger] self.table@[i]).wf()
    }

    /// The number of slots.
    pub open spec fn spec_capacity(&self) -> int {
        self.slots().len() as int
    }

    /// The invariant of a table: its capacity is a power of two, and every
    /// entry can be reached by a probe for its key.
    pub open spec fn wf(&self) -> bool {
        &&& self.slots_wf()
        &&& is_power_of_two(self.spec_capacity())
        &&& well_placed(self.slots(), self.spec_hasher())
    }

    /// The entries of the table, as a map from each key to its value.
    pub open spec fn view(&self) -> Map<Key, Entry::Values> {
        contents(self.slots())
    }

    /// The slot at which the probe sequence of `key` starts.
    pub open spec fn home(&self, key: Key) -> int {
        home_index(self.spec_hasher(), key, self.spec_capacity())
    }

    /// The number of slots that an insertion probes before it gives up.
    pub open spec fn insert_probe_limit(&self) -> int {
        if self.spec_capacity() <= self.spec_insert_search_limit() {
            self.spec_capacity()
        } else {
            self.spec_insert_search_limit() as int
        }
    }

    /// The slot at which a probe for `key` of at most `limit` steps stops
    /// because that slot is empty or holds `key`; `None` when every slot on
    /// the way is taken by another key.
    pub open spec fn stop_index(&self, key: Key, limit: int) -> Option<int> {
        match first_stop(self.slots(), self.home(key), key, 0, limit) {
            Some(distance) => Some(probe_index(self.home(key), distance, self.spec_capacity())),
            None => None,
        }
    }

    /// What `find` returns for `key`.
    pub open spec fn spec_find(&self, key: Key) -> Option<&Entry::Values> {
        if self@.contains_key(key) {
            Some(&self@[key])
        } else {
            None
        }
    }

    /// What `insert` of `key` with `value` does to a table: `after` is the
    /// table after the call and `r` what the call returns.
    ///
    /// The probe of at most `insert_probe_limit` slots decides the outcome.
    /// Where it stops at an empty slot, that slot is filled and `r` refers to
    /// the stored value. Where it stops at the key, nothing changes and `r`
    /// holds the passed value and refers to the value that was found. Where
    /// it does not stop, nothing changes and `r` holds the passed value.
    pub open spec fn insert_ensures(
        self,
        key: Key,
        value: Entry::Values,
        after: Self,
        r: Result<&Entry::Values, InsertFailureReason<Entry::Values>>,
    ) -> bool {
        &&& after.wf()
        &&& after.spec_hasher() == self.spec_hasher()
        &&& after.spec_insert_search_limit() == self.spec_insert_search_limit()
        &&& after.slots() == slots_after_insert(
            self.slots(),
            self.home(key),
            key,
            value,
            self.insert_probe_limit(),
        )
        &&& match self.stop_index(key, self.insert_probe_limit()) {
            Some(index) => 0 <= index < self.spec_capacity() && (match self.slots()[index] {
                None => r matches Ok(entry_value) && *entry_value == value,
                Some((_, found)) => r matches Err(
                    InsertFailureReason::AlreadyInTable { passed_in_value, entry_value },
                ) && passed_in_value == value && *entry_value == found,
            }),
            None => r matches Err(
                InsertFailureReason::TableFullOrSearchLimitHit { passed_in_value },
            ) && passed_in_value == value,
        }
        &&& match r {
            Ok(_) => !self@.contains_key(key) && after@ == self@.insert(key, value),
            Err(InsertFailureReason::AlreadyInTable { entry_value, .. }) => self@.contains_key(key)
                && *entry_value == self@[key] && after@ == self@,
            Err(InsertFailureReason::TableFullOrSearchLimitHit { .. }) => after@ == self@,
        }
    }

    /// What `get_or_insert` of `key` with `value` does to a table: `after`
    /// is the table after the call and `r` what the call returns. The table
    /// changes as `insert` changes it. Where the probe stops, `r` refers to
    /// the value of the key after the call, and holds the passed value if the
    /// key was there before.
    pub open spec fn get_or_insert_ensures(
        self,
        key: Key,
        value: Entry::Values,
        after: Self,
        r: Result<GetOrInsertSuccess<Entry::Values>, GetOrInsertFailureReason<Entry::Values>>,
    ) -> bool {
        &&& after.wf()
        &&& after.spec_hasher() == self.spec_hasher()
        &&& after.spec_insert_search_limit() == self.spec_insert_search_limit()
        &&& after.slots() == slots_after_insert(
            self.slots(),
            self.home(key),
            key,
            value,
            self.insert_probe_limit(),
        )
        &&& match self.stop_index(key, self.insert_probe_limit()) {
            Some(index) => 0 <= index < self.spec_capacity() && (match self.slots()[index] {
                None => r matches Ok(success) && success.passed_in_value is None
                    && *success.entry_value == value,
                Some((_, found)) => r matches Ok(success) && success.passed_in_value == Some(value)
                    && *success.entry_value == found,
            }),
            None => r matches Err(
                GetOrInsertFailureReason::TableFullOrSearchLimitHit { passed_in_value },
            ) && passed_in_value == value,
        }
        &&& match r {
            Ok(success) => after@.contains_key(key) && after@[key] == *success.entry_value && (
            match success.passed_in_value {
                None => !self@.contains_key(key) && after@ == self@.insert(key, value),
                Some(_) => self@.contains_key(key) && after@ == self@,
            }),
            Err(_) => after@ == self@,
        }
    }

    /// What `set_late_value` for `key` does to a table: `after` is the table
    /// after the call and `r` what the call returns. A table without the
    /// key stays as it is and `r` is `None`. Otherwise the late value of the
    /// entry changes as `TableEntryValues::set_late_value` changes it, and
    /// nothing else changes.
    pub open spec fn set_late_value_ensures(
        self,
        key: Key,
        late_value: Option<<Entry::Values as TableEntryValues>::LateValue>,
        after: Self,
        r: Option<Result<(), LateValueAlreadySet<<Entry::Values as TableEntryValues>::LateValue>>>,
    ) -> bool {
        &&& after.wf()
        &&& after.spec_hasher() == self.spec_hasher()
        &&& after.spec_insert_search_limit() == self.spec_insert_search_limit()
        &&& after.spec_capacity() == self.spec_capacity()
        &&& match r {
            None => !self@.contains_key(key) && after.slots() == self.slots(),
            Some(outcome) => {
                &&& self@.contains_key(key)
                &&& outcome == set_late_value_outcome(self@[key].spec_late_value(), late_value)
                &&& after@.contains_key(key)
                &&& after@ == self@.insert(key, after@[key])
                &&& after@[key].spec_early_value() == self@[key].spec_early_value()
                &&& after@[key].spec_late_value() == set_late_value_result(
                    self@[key].spec_late_value(),
                    late_value,
                )
                &&& after.slots() == self.slots().update(
                    index_of(self.slots(), key),
                    Some((key, after@[key])),
                )
                &&& outcome is Err || late_value is None ==> after.slots() == self.slots()
            },
        }
    }

    /// An empty table of the least power-of-two number of slots that is not
    /// below `capacity`, with this search limit and this hasher. A capacity
    /// that rounds up to more than a `usize` holds is not accepted.
    pub fn with_search_limit_and_hasher(
        capacity: usize,
        insert_search_limit: usize,
        hasher: H,
    ) -> (r: Self)
        requires
            fits_power_of_two(capacity as int),
        ensures
            r.wf(),
            is_next_power_of_two(capacity as int, r.spec_capacity()),
            r.spec_insert_search_limit() == insert_search_limit,
            r.spec_hasher() == hasher,
            r.slots() == emptied::<Entry::Values>(r.spec_capacity() as nat),
            r@ == Map::<Key, Entry::Values>::empty(),
    {
        let capacity = match capacity.checked_next_power_of_two() {
            Some(capacity) => capacity,
            None => vstd::pervasive::unreached(),
        };
        let mut table: Vec<Entry> = Vec::new();
        while table.len() < capacity
            invariant
                table@.len() <= capacity,
                forall|i: int| 0 <= i < table@.len() ==> (#[trigger] table@[i]).wf(),
                forall|i: int| 0 <= i < table@.len() ==> (#[trigger] table@[i])@ is None,
            decreases capacity - table@.len(),
        {
            table.push(Entry::empty());
        }
        let r = Self { table, hasher, insert_search_limit };
        proof {
            lemma_empty_slots(r.slots(), r.spec_hasher());
            assert(r.slots() =~= emptied::<Entry::Values>(r.spec_capacity() as nat));
        }
        r
    }

    /// An empty table with the default search limit.
    pub fn with_hasher(capacity: usize, hasher: H) -> (r: Self)
        requires
            fits_power_of_two(capacity as int),
        ensures
            r.wf(),
            is_next_power_of_two(capacity as int, r.spec_capacity()),
            r.spec_insert_search_limit() == DEFAULT_INSERT_SEARCH_LIMIT,
            r.spec_hasher() == hasher,
            r.slots() == emptied::<Entry::Values>(r.spec_capacity() as nat),
            r@ == Map::<Key, Entry::Values>::empty(),
    {
        Self::with_search_limit_and_hasher(capacity, DEFAULT_INSERT_SEARCH_LIMIT, hasher)
    }

    /// An empty table with a default hasher.
    pub fn with_search_limit(capacity: usize, insert_search_limit: usize) -> (r: Self) where
        H: Default,

        requires
            fits_power_of_two(capacity as int),
        ensures
            r.wf(),
            is_next_power_of_two(capacity as int, r.spec_capacity()),
            r.spec_insert_search_limit() == insert_search_limit,
            call_ensures(H::default, (), r.spec_hasher()),
            r.slots() == emptied::<Entry::Values>(r.spec_capacity() as nat),
            r@ == Map::<Key, Entry::Values>::empty(),
    {
        Self::with_search_limit_and_hasher(capacity, insert_search_limit, H::default())
    }

    /// An empty table with the default search limit and a default hasher.
    pub fn new(capacity: usize) -> (r: Self) where H: Default
        requires
            fits_power_of_two(capacity as int),
        ensures
            r.wf(),
            is_next_power_of_two(capacity as int, r.spec_capacity()),
            r.spec_insert_search_limit() == DEFAULT_INSERT_SEARCH_LIMIT,
            call_ensures(H::default, (), r.spec_hasher()),
            r.slots() == emptied::<Entry::Values>(r.spec_capacity() as nat),
            r@ == Map::<Key, Entry::Values>::empty(),
    {
        Self::with_hasher(capacity, H::default())
    }

    /// The number of slots, which never changes.
    pub fn capacity(&self) -> (r: usize)
        ensures
            r == self.spec_capacity(),
    {
        self.table.len()
    }

    /// The hasher of the table.
    pub fn hasher(&self) -> (r: &H)
        ensures
            *r == self.spec_hasher(),
    {
        &self.hasher
    }

    /// The number of probe steps after which an insertion gives up.
    pub fn insert_search_limit(&self) -> (r: usize)
        ensures
            r == self.spec_insert_search_limit(),
    {
        self.insert_search_limit
    }

    /// Changes the search limit of later insertions. The entries stay where
    /// they are, and `find` goes on finding them.
    pub fn set_insert_search_limit(&mut self, insert_search_limit: usize)
        ensures
            final(self).spec_insert_search_limit() == insert_search_limit,
            final(self).slots() == old(self).slots(),
            final(self).spec_hasher() == old(self).spec_hasher(),
            old(self).wf() ==> final(self).wf(),
    {
        self.insert_search_limit = insert_search_limit;
    }

    /// The slot indexes that a probe for `key` of at most `limit` steps
    /// visits: at most one round of the table.
    pub fn table_indexes(&self, key: Key, limit: usize) -> (r: TableIndexIter)
        requires
            self.wf(),
        ensures
            r.wf(),
            r.spec_capacity() == self.spec_capacity(),
            r.spec_table_index() == self.home(key),
            r.spec_remaining() == (if self.spec_capacity() <= limit {
                self.spec_capacity()
            } else {
                limit as int
            }),
    {
        TableIndexIter::new(self.hasher.hash_key(&key), self.capacity(), limit)
    }

    /// The slot that holds `key`, if the table holds the key. The probe may
    /// take a whole round of the table, so that an entry is found whatever
    /// the search limit was when it was inserted; it ends at the first empty
    /// slot.
    pub fn find_index(&self, key: Key) -> (r: Option<usize>)
        requires
            self.wf(),
        ensures
            match self.stop_index(key, self.spec_capacity()) {
                Some(index) => 0 <= index < self.spec_capacity() && (match r {
                    Some(found) => found == index && self.slots()[index] is Some,
                    None => self.slots()[index] is None,
                }),
                None => r is None,
            },
            match r {
                Some(index) => index < self.spec_capacity() && holds(self.slots()[index as int], key)
                    && self@.contains_key(key) && self@[key] == value_at(
                    self.slots(),
                    index as int,
                ),
                None => !self@.contains_key(key),
            },
    {
        let mut indexes = self.table_indexes(key, usize::MAX);
        let ghost capacity = self.spec_capacity();
        let ghost home = self.home(key);
        let ghost mut distance: int = 0;
        proof {
            lemma_home_index_bound(self.spec_hasher(), key, capacity);
            lemma_probe_step(home, 0, capacity);
        }
        loop
            invariant
                self.wf(),
                indexes.wf(),
                capacity == self.spec_capacity(),
                indexes.spec_capacity() == capacity,
                home == self.home(key),
                0 <= home < capacity,
                0 <= distance <= capacity,
                indexes.spec_remaining() == capacity - distance,
                indexes.spec_table_index() == probe_index(home, distance, capacity),
                passes(self.slots(), home, key, 0, distance),
            decreases capacity - distance,
        {
            let table_index = match indexes.next() {
                None => {
                    proof {
                        lemma_full_round_absent(self.slots(), self.spec_hasher(), key);
                        lemma_first_stop_none(self.slots(), home, key, 0, capacity);
                    }
                    return None;
                },
                Some(table_index) => table_index,
            };
            proof {
                lemma_probe_step(home, distance, capacity);
                assert(self.slots()[table_index as int] == self.table@[table_index as int]@);
            }
            match self.table[table_index].get() {
                None => {
                    proof {
                        lemma_stop_decides(self.slots(), self.spec_hasher(), key, distance);
                        lemma_first_stop_at(self.slots(), home, key, 0, capacity, distance);
                    }
                    return None;
                },
                Some((entry_key, _)) => {
                    if entry_key == key {
                        proof {
                            lemma_stop_decides(self.slots(), self.spec_hasher(), key, distance);
                            lemma_first_stop_at(self.slots(), home, key, 0, capacity, distance);
                        }
                        return Some(table_index);
                    }
                },
            }
            proof {
                assert(holds_other(probed_slot(self.slots(), home, distance), key));
                distance = distance + 1;
            }
        }
    }

    /// The value of `key`, if the table holds the key, whatever the search
    /// limit was when the key was inserted.
    pub fn find(&self, key: Key) -> (r: Option<&Entry::Values>)
        requires
            self.wf(),
        ensures
            r == self.spec_find(key),
            match self.stop_index(key, self.spec_capacity()) {
                Some(index) => 0 <= index < self.spec_capacity() && r == (match self.slots()[index] {
                    Some((_, value)) => Some(&value),
                    None => None,
                }),
                None => r is None,
            },
    {
        let index = self.find_index(key)?;
        proof {
            assert(self.slots()[index as int] == self.table@[index as int]@);
        }
        match self.table[index].get() {
            Some((_, entry_value)) => Some(entry_value),
            None => None,
        }
    }

    /// Inserts `key` with `value` unless the key is in the table or there is
    /// no room. The probe stops at the first slot within the search limit
    /// that is empty or holds `key`: an empty slot is filled; a slot with the
    /// key leaves the table as it was and hands back both values; and when
    /// every slot on the way is taken by another key the value comes back
    /// alone.
    pub fn insert(&mut self, key: Key, value: Entry::Values) -> (r: Result<
        &Entry::Values,
        InsertFailureReason<Entry::Values>,
    >)
        requires
            old(self).wf(),
        ensures
            old(self).insert_ensures(key, value, *final(self), r),
    {
        let mut indexes = self.table_indexes(key, self.insert_search_limit);
        let mut pending = value;
        let ghost slots = self.slots();
        let ghost capacity = self.spec_capacity();
        let ghost limit = self.insert_probe_limit();
        let ghost home = self.home(key);
        let ghost mut distance: int = 0;
        proof {
            lemma_home_index_bound(self.spec_hasher(), key, capacity);
            lemma_probe_step(home, 0, capacity);
        }
        loop
            invariant
                self.wf(),
                self.slots() == slots,
                self.spec_hasher() == old(self).spec_hasher(),
                self.spec_insert_search_limit() == old(self).spec_insert_search_limit(),
                slots == old(self).slots(),
                pending == value,
                indexes.wf(),
                capacity == self.spec_capacity(),
                indexes.spec_capacity() == capacity,
                limit == old(self).insert_probe_limit(),
                home == old(self).home(key),
                0 <= home < capacity,
                0 <= distance <= limit <= capacity,
                indexes.spec_remaining() == limit - distance,
                indexes.spec_table_index() == probe_index(home, distance, capacity),
                passes(slots, home, key, 0, distance),
            decreases limit - distance,
        {
            let table_index = match indexes.next() {
                None => {
                    proof {
                        lemma_first_stop_none(slots, home, key, 0, limit);
                    }
                    return Err(
                        InsertFailureReason::TableFullOrSearchLimitHit { passed_in_value: pending },
                    );
                },
                Some(table_index) => table_index,
            };
            proof {
                lemma_probe_step(home, distance, capacity);
                assert(slots[table_index as int] == self.table@[table_index as int]@);
            }
            match self.table[table_index].fill(key, pending) {
                Ok(_) => {
                    proof {
                        lemma_first_stop_at(slots, home, key, 0, limit, distance);
                        lemma_fill_stop(slots, self.spec_hasher(), key, value, distance);
                        assert(self.slots() =~= slots.update(
                            table_index as int,
                            Some((key, value)),
                        ));
                    }
                    return Ok(self.table[table_index].get().unwrap().1);
                },
                Err(AlreadyFull { passed_in_value, entry_key, entry_value: _ }) => {
                    proof {
                        assert(self.slots() =~= slots);
                    }
                    if entry_key == key {
                        proof {
                            lemma_first_stop_at(slots, home, key, 0, limit, distance);
                            lemma_stop_decides(slots, self.spec_hasher(), key, distance);
                        }
                        return Err(
                            InsertFailureReason::AlreadyInTable {
                                passed_in_value,
                                entry_value: self.table[table_index].get().unwrap().1,
                            },
                        );
                    }
                    pending = passed_in_value;
                },
            }
            proof {
                assert(holds_other(probed_slot(slots, home, distance), key));
                distance = distance + 1;
            }
        }
    }

    /// The entry of `key`: the one in the table, or the one that this call
    /// inserts. Only a table without room within the search limit fails.
    pub fn get_or_insert(&mut self, key: Key, value: Entry::Values) -> (r: Result<
        GetOrInsertSuccess<Entry::Values>,
        GetOrInsertFailureReason<Entry::Values>,
    >)
        requires
            old(self).wf(),
        ensures
            old(self).get_or_insert_ensures(key, value, *final(self), r),
    {
        match self.insert(key, value) {
            Ok(entry_value) => Ok(GetOrInsertSuccess { entry_value, passed_in_value: None }),
            Err(InsertFailureReason::AlreadyInTable { entry_value, passed_in_value }) => Ok(
                GetOrInsertSuccess { entry_value, passed_in_value: Some(passed_in_value) },
            ),
            Err(InsertFailureReason::TableFullOrSearchLimitHit { passed_in_value }) => Err(
                GetOrInsertFailureReason::TableFullOrSearchLimitHit { passed_in_value },
            ),
        }
    }

    /// Sets the late value of the entry of `key`, as
    /// `TableEntryValues::set_late_value` does. `None` when the table does not
    /// hold the key. The key and the early value of the entry stay as they
    /// were, and so does every other entry.
    pub fn set_late_value(
        &mut self,
        key: Key,
        late_value: Option<<Entry::Values as TableEntryValues>::LateValue>,
    ) -> (r: Option<Result<(), LateValueAlreadySet<<Entry::Values as TableEntryValues>::LateValue>>>)
        requires
            old(self).wf(),
        ensures
            old(self).set_late_value_ensures(key, late_value, *final(self), r),
    {
        let index = self.find_index(key)?;
        let ghost slots = self.slots();
        proof {
            assert(slots[index as int] == self.table@[index as int]@);
        }
        let outcome = self.table[index].set_late_value(late_value);
        proof {
            let entry = self.table@[index as int]@->0;
            assert(self.slots() =~= slots.update(index as int, Some((key, entry.1))));
            lemma_replace_value(slots, self.spec_hasher(), index as int, entry.1);
            lemma_key_unique(slots, self.spec_hasher(), key, index as int, index_of(slots, key));
            if outcome->0 is Err || late_value is None {
                Entry::Values::lemma_values_ext_equal(entry.1, value_at(slots, index as int));
                assert(self.slots() =~= slots);
            }
        }
        outcome
    }

    /// Takes every entry out of the table and hands them over in slot order.
    /// The table is empty afterwards, however many of the entries the caller
    /// goes on to ask for.
    pub fn drain(&mut self) -> (r: HashTableDrain<Entry>)
        requires
            old(self).wf(),
        ensures
            final(self).wf(),
            final(self).spec_hasher() == old(self).spec_hasher(),
            final(self).spec_insert_search_limit() == old(self).spec_insert_search_limit(),
            final(self).slots() == emptied::<Entry::Values>(old(self).spec_capacity() as nat),
            final(self)@ == Map::<Key, Entry::Values>::empty(),
            r.remaining() == entries(old(self).slots()),
    {
        let ghost slots = self.slots();
        let mut drained: Vec<(Key, Entry::Values)> = Vec::new();
        let mut index = self.table.len();
        while index > 0
            invariant
                self.slots_wf(),
                self.spec_hasher() == old(self).spec_hasher(),
                self.spec_insert_search_limit() == old(self).spec_insert_search_limit(),
                slots == old(self).slots(),
                self.slots().len() == slots.len(),
                index <= slots.len(),
                forall|i: int| 0 <= i < index ==> self.slots()[i] == slots[i],
                forall|i: int| index <= i < slots.len() ==> self.slots()[i] is None,
                drained@.reverse() == entries_from(slots, index as int),
            decreases index,
        {
            index = index - 1;
            let ghost before = self.slots();
            proof {
                assert(before[index as int] == self.table@[index as int]@);
            }
            let taken = self.table[index].take();
            proof {
                assert forall|i: int| 0 <= i < index implies self.slots()[i] == slots[i] by {
                    assert(self.slots()[i] == before[i]);
                }
                assert forall|i: int| index <= i < slots.len() implies self.slots()[i] is None by {
                    if i != index {
                        assert(self.slots()[i] == before[i]);
                    }
                }
            }
            match taken {
                Some(entry) => {
                    proof {
                        let rest = occupied_indexes(slots, index + 1);
                        assert(occupied_indexes(slots, index as int) == seq![index as int] + rest);
                        assert(slots[index as int] == Some(entry));
                        assert(entries_from(slots, index as int) =~= seq![entry] + entries_from(
                            slots,
                            index + 1,
                        ));
                        assert(drained@.push(entry).reverse() =~= seq![entry]
                            + drained@.reverse());
                    }
                    drained.push(entry);
                },
                None => {},
            }
        }
        proof {
            lemma_empty_slots(self.slots(), self.spec_hasher());
            assert(self.slots() =~= emptied::<Entry::Values>(slots.len()));
        }
        HashTableDrain::new(drained)
    }

    /// A walk over the entries of the table, in slot order.
    pub fn iter(&self) -> (r: HashTableIter<Entry>)
        requires
            self.wf(),
        ensures
            r.wf(),
            r.slots() == self.slots(),
            r.remaining() == entries(self.slots()),
    {
        HashTableIter::new(self.table.as_slice())
    }
}

} // verus!
