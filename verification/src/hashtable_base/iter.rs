//! Walking the entries of a table in slot order.

use crate::hashtable_base::probe::contents;
use crate::hashtable_base::probe::holds;
use crate::hashtable_base::probe::index_of;
use crate::hashtable_base::probe::lemma_contents_at;
use crate::hashtable_base::probe::lemma_key_unique;
use crate::hashtable_base::probe::well_placed;
use crate::hashtable_base::Key;
use crate::hashtable_base::KeyHasher;
use crate::hashtable_base::TableEntry;
use vstd::prelude::*;

verus! {

/// The indexes of the occupied slots from `from` on, in ascending order.
pub open spec fn occupied_indexes<V>(slots: Seq<Option<(Key, V)>>, from: int) -> Seq<int>
    decreases slots.len() - from,
{
    if from < 0 || from >= slots.len() {
        Seq::empty()
    } else if slots[from] is Some {
        seq![from] + occupied_indexes(slots, from + 1)
    } else {
        occupied_indexes(slots, from + 1)
    }
}

/// The entries in the slots from `from` on, in slot order.
pub open spec fn entries_from<V>(slots: Seq<Option<(Key, V)>>, from: int) -> Seq<(Key, V)> {
    occupied_indexes(slots, from).map_values(|index: int| slots[index]->0)
}

/// All entries in the slots, in slot order.
pub open spec fn entries<V>(slots: Seq<Option<(Key, V)>>) -> Seq<(Key, V)> {
    entries_from(slots, 0)
}

/// `occupied_indexes` lists occupied slots only, each once and in ascending
/// order, and leaves out no occupied slot from `from` on.
pub proof fn lemma_occupied_indexes<V>(slots: Seq<Option<(Key, V)>>, from: int)
    requires
        0 <= from,
    ensures
        forall|j: int|
            0 <= j < occupied_indexes(slots, from).len() ==> {
                let index = #[trigger] occupied_indexes(slots, from)[j];
                from <= index < slots.len() && slots[index] is Some
            },
        forall|j: int, k: int|
            0 <= j < k < occupied_indexes(slots, from).len() ==> occupied_indexes(slots, from)[j]
                < occupied_indexes(slots, from)[k],
        forall|index: int|
            from <= index < slots.len() && (#[trigger] slots[index]) is Some ==> occupied_indexes(
                slots,
                from,
            ).contains(index),
    decreases slots.len() - from,
{
    if from < slots.len() {
        lemma_occupied_indexes(slots, from + 1);
        let rest = occupied_indexes(slots, from + 1);
        let all = occupied_indexes(slots, from);
        if slots[from] is Some {
            assert(all == seq![from] + rest);
            assert forall|j: int, k: int| 0 <= j < k < all.len() implies all[j] < all[k] by {
                assert(all[k] == rest[k - 1]);
                if j > 0 {
                    assert(all[j] == rest[j - 1]);
                }
            }
            assert forall|index: int|
                from <= index < slots.len() && (#[trigger] slots[index]) is Some implies all.contains(
                index,
            ) by {
                if index == from {
                    assert(all[0] == from);
                } else {
                    let j = choose|j: int| 0 <= j < rest.len() && rest[j] == index;
                    assert(all[j + 1] == index);
                }
            }
        }
    }
}

/// In well-placed slots, the entries in slot order are the entries of the
/// map: every key of the map occurs once, beside its value, and nothing else
/// occurs.
pub proof fn lemma_entries_are_contents<V, H: KeyHasher>(slots: Seq<Option<(Key, V)>>, hasher: H)
    requires
        well_placed(slots, hasher),
    ensures
        forall|j: int|
            0 <= j < entries(slots).len() ==> contents(slots).contains_key(
                (#[trigger] entries(slots)[j]).0,
            ) && contents(slots)[entries(slots)[j].0] == entries(slots)[j].1,
        forall|j: int, k: int|
            0 <= j < k < entries(slots).len() ==> (#[trigger] entries(slots)[j]).0 != (
            #[trigger] entries(slots)[k]).0,
        forall|key: Key| #[trigger]
            contents(slots).contains_key(key) ==> exists|j: int|
                0 <= j < entries(slots).len() && (#[trigger] entries(slots)[j]).0 == key,
{
    let indexes = occupied_indexes(slots, 0);
    let all = entries(slots);
    lemma_occupied_indexes(slots, 0);
    assert forall|j: int| 0 <= j < all.len() implies contents(slots).contains_key(
        (#[trigger] all[j]).0,
    ) && contents(slots)[all[j].0] == all[j].1 by {
        lemma_contents_at(slots, hasher, indexes[j]);
    }
    assert forall|j: int, k: int| 0 <= j < k < all.len() implies (#[trigger] all[j]).0 != (
    #[trigger] all[k]).0 by {
        if all[j].0 == all[k].0 {
            assert(holds(slots[indexes[j]], all[j].0));
            assert(holds(slots[indexes[k]], all[j].0));
            lemma_key_unique(slots, hasher, all[j].0, indexes[j], indexes[k]);
        }
    }
    assert forall|key: Key| #[trigger] contents(slots).contains_key(key) implies exists|j: int|
        0 <= j < all.len() && (#[trigger] all[j]).0 == key by {
        let index = index_of(slots, key);
        assert(slots[index] is Some);
        let j = choose|j: int| 0 <= j < indexes.len() && indexes[j] == index;
        assert(all[j].0 == key);
    }
}

/// A read-only walk over the entries of a table, in slot order.
pub struct HashTableIter<'a, Entry: TableEntry> {
    table: &'a [Entry],
    next_index: usize,
}

impl<'a, Entry: TableEntry> HashTableIter<'a, Entry> {
    pub closed spec fn wf(&self) -> bool {
        &&& self.next_index <= self.table@.len()
        &&& forall|i: int| 0 <= i < self.table@.len() ==> (#[trigger] self.table@[i]).wf()
    }

    /// What the slots of the table hold.
    pub closed spec fn slots(&self) -> Seq<Option<(Key, Entry::Values)>> {
        Seq::new(self.table@.len(), |i: int| self.table@[i]@)
    }

    /// The slot at which the walk goes on.
    pub closed spec fn spec_next_index(&self) -> int {
        self.next_index as int
    }

    /// The entries that the walk has yet to yield, in order.
    pub open spec fn remaining(&self) -> Seq<(Key, Entry::Values)> {
        entries_from(self.slots(), self.spec_next_index())
    }

    pub(crate) fn new(table: &'a [Entry]) -> (r: Self)
        requires
            forall|i: int| 0 <= i < table@.len() ==> (#[trigger] table@[i]).wf(),
        ensures
            r.wf(),
            r.slots() == Seq::new(table@.len(), |i: int| table@[i]@),
            r.spec_next_index() == 0,
    {
        HashTableIter { table, next_index: 0 }
    }

    /// The next entry, or `None` when every entry has been yielded.
    pub fn next(&mut self) -> (r: Option<(Key, &'a Entry::Values)>)
        requires
            old(self).wf(),
        ensures
            final(self).wf(),
            final(self).slots() == old(self).slots(),
            match r {
                Some((key, value)) => old(self).remaining().len() > 0 && old(self).remaining()[0]
                    == (key, *value) && final(self).remaining() == old(self).remaining().skip(1),
                None => old(self).remaining().len() == 0 && final(self).remaining().len() == 0,
            },
    {
        let ghost slots = self.slots();
        while self.next_index < self.table.len()
            invariant
                self.wf(),
                self.slots() == slots,
                slots == old(self).slots(),
                self.table == old(self).table,
                entries_from(slots, self.next_index as int) == old(self).remaining(),
            decreases self.table@.len() - self.next_index,
        {
            let index = self.next_index;
            self.next_index = index + 1;
            let table = self.table;
            proof {
                assert(slots[index as int] == table@[index as int]@);
            }
            match table[index].get() {
                Some(entry) => {
                    proof {
                        let rest = occupied_indexes(slots, index + 1);
                        assert(occupied_indexes(slots, index as int) == seq![index as int] + rest);
                        assert(entries_from(slots, index + 1) =~= entries_from(
                            slots,
                            index as int,
                        ).skip(1));
                    }
                    return Some(entry);
                },
                None => {},
            }
        }
        None
    }
}

/// The entries that `drain` took out of a table, handed out in slot order.
/// Entries that are never asked for are released with this value.
pub struct HashTableDrain<Entry: TableEntry> {
    /// The entries yet to be yielded, the next one last.
    entries: Vec<(Key, Entry::Values)>,
}

impl<Entry: TableEntry> HashTableDrain<Entry> {
    /// The entries that are yet to be yielded, in order.
    pub closed spec fn remaining(&self) -> Seq<(Key, Entry::Values)> {
        self.entries@.reverse()
    }

    pub(crate) fn new(entries: Vec<(Key, Entry::Values)>) -> (r: Self)
        ensures
            r.remaining() == entries@.reverse(),
    {
        HashTableDrain { entries }
    }

    /// The next entry, or `None` when every entry has been yielded.
    pub fn next(&mut self) -> (r: Option<(Key, Entry::Values)>)
        ensures
            match r {
                Some(entry) => old(self).remaining().len() > 0 && old(self).remaining()[0] == entry
                    && final(self).remaining() == old(self).remaining().skip(1),
                None => old(self).remaining().len() == 0 && final(self).remaining().len() == 0,
            },
    {
        let r = self.entries.pop();
        proof {
            if r is Some {
                assert(self.remaining() =~= old(self).remaining().skip(1));
            }
        }
        r
    }
}

} // verus!
