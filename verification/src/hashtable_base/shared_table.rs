//! The table under shared access, as a transition system.
//!
//! Several insertions and lookups work on one table at once. Each of them
//! takes one step at a time: the `fill` or the `get` of one slot, which
//! act on the slot at once, as the slot protocol provides. Between two steps
//! of one of them the others may take any number of steps.
//!
//! Whatever the order of the steps: the table stays well placed and loses
//! or changes no entry; of the insertions of one key at most one stores its
//! value, and the others that find the key report the stored value; and a
//! lookup returns what the table held for the key at the moment it returned.

use crate::hashtable_base::probe::contents;
use crate::hashtable_base::probe::holds;
use crate::hashtable_base::probe::holds_other;
use crate::hashtable_base::probe::home_index;
use crate::hashtable_base::probe::lemma_contents_at;
use crate::hashtable_base::probe::lemma_fill_stop;
use crate::hashtable_base::probe::lemma_full_round_absent;
use crate::hashtable_base::probe::lemma_home_index_bound;
use crate::hashtable_base::probe::lemma_key_unique;
use crate::hashtable_base::probe::lemma_probe_index_distance;
use crate::hashtable_base::probe::lemma_stop_decides;
use crate::hashtable_base::probe::passes;
use crate::hashtable_base::probe::probe_index;
use crate::hashtable_base::probe::probed_slot;
use crate::hashtable_base::probe::well_placed;
use crate::hashtable_base::Key;
use crate::hashtable_base::KeyHasher;
use vstd::prelude::*;

verus! {

/// Where an insertion stands.
pub enum Inserter<V> {
    /// Has passed `distance` slots and fills the next one, or gives up.
    Probing { key: Key, value: V, limit: int, distance: int },
    /// Has returned `Ok`: slot `index` holds its entry.
    Inserted { key: Key, value: V, index: int },
    /// Has returned `AlreadyInTable`.
    Found { key: Key, passed_in_value: V, entry_value: V },
    /// Has returned `TableFullOrSearchLimitHit`.
    GaveUp { key: Key, passed_in_value: V },
}

/// Where a lookup stands.
pub enum Finder<V> {
    /// Has passed `distance` slots and reads the next one, or gives up.
    Probing { key: Key, distance: int },
    /// Has returned `value`, when the slots held `seen`.
    Returned { key: Key, value: Option<V>, seen: Seq<Option<(Key, V)>> },
}

/// A table with the insertions and lookups at work on it.
pub struct SharedTable<V> {
    pub slots: Seq<Option<(Key, V)>>,
    pub inserters: Seq<Inserter<V>>,
    pub finders: Seq<Finder<V>>,
}

/// One step: of the insertion or of the lookup with this index.
pub enum TableStep {
    Inserter { index: int },
    Finder { index: int },
}

/// The table after a step of insertion `index`.
pub open spec fn after_inserter_step<V, H: KeyHasher>(
    table: SharedTable<V>,
    hasher: H,
    index: int,
) -> SharedTable<V> {
    let capacity = table.slots.len() as int;
    match table.inserters[index] {
        Inserter::Probing { key, value, limit, distance } => {
            let home = home_index(hasher, key, capacity);
            let slot = probe_index(home, distance, capacity);
            if distance >= limit {
                SharedTable {
                    inserters: table.inserters.update(
                        index,
                        Inserter::GaveUp { key, passed_in_value: value },
                    ),
                    ..table
                }
            } else {
                match table.slots[slot] {
                    None => SharedTable {
                        slots: table.slots.update(slot, Some((key, value))),
                        inserters: table.inserters.update(
                            index,
                            Inserter::Inserted { key, value, index: slot },
                        ),
                        ..table
                    },
                    Some((entry_key, entry_value)) => if entry_key == key {
                        SharedTable {
                            inserters: table.inserters.update(
                                index,
                                Inserter::Found { key, passed_in_value: value, entry_value },
                            ),
                            ..table
                        }
                    } else {
                        SharedTable {
                            inserters: table.inserters.update(
                                index,
                                Inserter::Probing { key, value, limit, distance: distance + 1 },
                            ),
                            ..table
                        }
                    },
                }
            }
        },
        _ => table,
    }
}

/// The table after a step of lookup `index`.
pub open spec fn after_finder_step<V, H: KeyHasher>(
    table: SharedTable<V>,
    hasher: H,
    index: int,
) -> SharedTable<V> {
    let capacity = table.slots.len() as int;
    match table.finders[index] {
        Finder::Probing { key, distance } => {
            let home = home_index(hasher, key, capacity);
            let slot = probe_index(home, distance, capacity);
            let absent = Finder::Returned { key, value: None, seen: table.slots };
            if distance >= capacity {
                SharedTable { finders: table.finders.update(index, absent), ..table }
            } else {
                match table.slots[slot] {
                    None => SharedTable { finders: table.finders.update(index, absent), ..table },
                    Some((entry_key, entry_value)) => if entry_key == key {
                        SharedTable {
                            finders: table.finders.update(
                                index,
                                Finder::Returned {
                                    key,
                                    value: Some(entry_value),
                                    seen: table.slots,
                                },
                            ),
                            ..table
                        }
                    } else {
                        SharedTable {
                            finders: table.finders.update(
                                index,
                                Finder::Probing { key, distance: distance + 1 },
                            ),
                            ..table
                        }
                    },
                }
            }
        },
        _ => table,
    }
}

/// The table after `step`. A step of an insertion or lookup that is not
/// there changes nothing.
pub open spec fn after_table_step<V, H: KeyHasher>(
    table: SharedTable<V>,
    hasher: H,
    step: TableStep,
) -> SharedTable<V> {
    match step {
        TableStep::Inserter { index } => if 0 <= index < table.inserters.len() {
            after_inserter_step(table, hasher, index)
        } else {
            table
        },
        TableStep::Finder { index } => if 0 <= index < table.finders.len() {
            after_finder_step(table, hasher, index)
        } else {
            table
        },
    }
}

/// The table after `steps`, in order.
pub open spec fn after_table_steps<V, H: KeyHasher>(
    table: SharedTable<V>,
    hasher: H,
    steps: Seq<TableStep>,
) -> SharedTable<V>
    decreases steps.len(),
{
    if steps.len() == 0 {
        table
    } else {
        after_table_step(
            after_table_steps(table, hasher, steps.drop_last()),
            hasher,
            steps.last(),
        )
    }
}

/// The table before any step: each insertion about to probe for the key,
/// the value and the search limit it was called with, each lookup about to
/// probe for its key.
pub open spec fn initial_table<V>(
    slots: Seq<Option<(Key, V)>>,
    insertions: Seq<(Key, V, int)>,
    lookups: Seq<Key>,
) -> SharedTable<V> {
    SharedTable {
        slots,
        inserters: Seq::new(
            insertions.len(),
            |i: int|
                Inserter::Probing {
                    key: insertions[i].0,
                    value: insertions[i].1,
                    limit: insertions[i].2,
                    distance: 0,
                },
        ),
        finders: Seq::new(lookups.len(), |i: int| Finder::Probing { key: lookups[i], distance: 0 }),
    }
}

/// Every entry of `earlier` is an entry of `later`, in the same slot.
pub open spec fn keeps_entries<V>(
    later: Seq<Option<(Key, V)>>,
    earlier: Seq<Option<(Key, V)>>,
) -> bool {
    &&& later.len() == earlier.len()
    &&& forall|i: int| 0 <= i < earlier.len() && (#[trigger] earlier[i]) is Some ==> later[i]
        == earlier[i]
}

/// What the table holds for `key`.
pub open spec fn lookup<V>(slots: Seq<Option<(Key, V)>>, key: Key) -> Option<V> {
    if contents(slots).contains_key(key) {
        Some(contents(slots)[key])
    } else {
        None
    }
}

/// What holds of insertion `index`, called with `call`, at every moment.
pub open spec fn inserter_invariant<V, H: KeyHasher>(
    table: SharedTable<V>,
    hasher: H,
    call: (Key, V, int),
    index: int,
) -> bool {
    let capacity = table.slots.len() as int;
    &&& 0 <= call.2 <= capacity
    &&& match table.inserters[index] {
        Inserter::Probing { key, value, limit, distance } => {
            &&& (key, value, limit) == call
            &&& 0 <= distance <= limit
            &&& passes(table.slots, home_index(hasher, key, capacity), key, 0, distance)
        },
        Inserter::Inserted { key, value, index: slot } => {
            &&& (key, value) == (call.0, call.1)
            &&& 0 <= slot < capacity
            &&& table.slots[slot] == Some((key, value))
        },
        Inserter::Found { key, passed_in_value, entry_value } => {
            &&& (key, passed_in_value) == (call.0, call.1)
            &&& lookup(table.slots, key) == Some(entry_value)
        },
        Inserter::GaveUp { key, passed_in_value } => {
            &&& (key, passed_in_value) == (call.0, call.1)
            &&& passes(table.slots, home_index(hasher, key, capacity), key, 0, call.2)
        },
    }
}

/// What holds of lookup `index`, called with `key`, at every moment.
pub open spec fn finder_invariant<V, H: KeyHasher>(
    table: SharedTable<V>,
    hasher: H,
    call: Key,
    index: int,
) -> bool {
    let capacity = table.slots.len() as int;
    match table.finders[index] {
        Finder::Probing { key, distance } => {
            &&& key == call
            &&& 0 <= distance <= capacity
            &&& passes(table.slots, home_index(hasher, key, capacity), key, 0, distance)
        },
        Finder::Returned { key, value, seen } => {
            &&& key == call
            &&& value == lookup(seen, key)
            &&& well_placed(seen, hasher)
            &&& keeps_entries(table.slots, seen)
        },
    }
}

/// The slot in which an insertion has stored its entry, if it has.
pub open spec fn stored_slot<V>(inserter: Inserter<V>) -> Option<int> {
    match inserter {
        Inserter::Inserted { index, .. } => Some(index),
        _ => None,
    }
}

/// No two insertions have stored their entries in one slot.
pub open spec fn stored_apart<V>(table: SharedTable<V>) -> bool {
    forall|i: int, j: int|
        0 <= i < table.inserters.len() && 0 <= j < table.inserters.len() && i != j
            && stored_slot(#[trigger] table.inserters[i]) is Some ==> stored_slot(
            table.inserters[i],
        ) != stored_slot(#[trigger] table.inserters[j])
}

/// What holds of a table at every moment, where the insertions were called
/// with `insertions` and the lookups with `lookups`.
pub open spec fn table_invariant<V, H: KeyHasher>(
    table: SharedTable<V>,
    hasher: H,
    insertions: Seq<(Key, V, int)>,
    lookups: Seq<Key>,
) -> bool {
    &&& table.slots.len() > 0
    &&& well_placed(table.slots, hasher)
    &&& table.inserters.len() == insertions.len()
    &&& table.finders.len() == lookups.len()
    &&& stored_apart(table)
    &&& forall|i: int|
        0 <= i < insertions.len() ==> #[trigger] inserter_invariant(table, hasher, insertions[i], i)
    &&& forall|i: int|
        0 <= i < lookups.len() ==> #[trigger] finder_invariant(table, hasher, lookups[i], i)
}

/// Slots that keep the entries of well-placed slots keep what a probe
/// passed, and what the table held for a key.
pub proof fn lemma_keeps_entries<V, H: KeyHasher>(
    later: Seq<Option<(Key, V)>>,
    earlier: Seq<Option<(Key, V)>>,
    hasher: H,
    key: Key,
    distance: int,
)
    requires
        earlier.len() > 0,
        keeps_entries(later, earlier),
        well_placed(later, hasher),
        well_placed(earlier, hasher),
    ensures
        passes(earlier, home_index(hasher, key, earlier.len() as int), key, 0, distance) ==> passes(
            later,
            home_index(hasher, key, later.len() as int),
            key,
            0,
            distance,
        ),
        lookup(earlier, key) is Some ==> lookup(later, key) == lookup(earlier, key),
{
    let capacity = earlier.len() as int;
    let home = home_index(hasher, key, capacity);
    if passes(earlier, home, key, 0, distance) {
        assert forall|d: int| 0 <= d < distance implies holds_other(
            #[trigger] probed_slot(later, home, d),
            key,
        ) by {
            vstd::arithmetic::div_mod::lemma_mod_bound(home + d, capacity);
            assert(holds_other(probed_slot(earlier, home, d), key));
        }
    }
    if lookup(earlier, key) is Some {
        let index = crate::hashtable_base::probe::index_of(earlier, key);
        assert(holds(later[index], key));
        lemma_contents_at(earlier, hasher, index);
        lemma_contents_at(later, hasher, index);
    }
}

/// A step keeps the invariant, and keeps every entry in its slot.
pub proof fn lemma_table_step_keeps_invariant<V, H: KeyHasher>(
    table: SharedTable<V>,
    hasher: H,
    insertions: Seq<(Key, V, int)>,
    lookups: Seq<Key>,
    step: TableStep,
)
    requires
        table_invariant(table, hasher, insertions, lookups),
    ensures
        table_invariant(after_table_step(table, hasher, step), hasher, insertions, lookups),
        keeps_entries(after_table_step(table, hasher, step).slots, table.slots),
{
    let after = after_table_step(table, hasher, step);
    let capacity = table.slots.len() as int;
    match step {
        TableStep::Inserter { index } => {
            if 0 <= index < table.inserters.len() {
                assert(inserter_invariant(table, hasher, insertions[index], index));
                match table.inserters[index] {
                    Inserter::Probing { key, value, limit, distance } => {
                        let home = home_index(hasher, key, capacity);
                        lemma_home_index_bound(hasher, key, capacity);
                        if distance < limit {
                            let slot = probe_index(home, distance, capacity);
                            lemma_probe_index_distance(home, slot, distance, capacity);
                            assert(table.slots[slot] == probed_slot(table.slots, home, distance));
                            if table.slots[slot] is None {
                                lemma_fill_stop(table.slots, hasher, key, value, distance);
                            } else if holds(table.slots[slot], key) {
                                lemma_stop_decides(table.slots, hasher, key, distance);
                            }
                        }
                    },
                    _ => {},
                }
                assert(well_placed(after.slots, hasher));
                assert(keeps_entries(after.slots, table.slots));
                assert forall|i: int| 0 <= i < insertions.len() implies #[trigger] inserter_invariant(
                    after,
                    hasher,
                    insertions[i],
                    i,
                ) by {
                    assert(inserter_invariant(table, hasher, insertions[i], i));
                    lemma_keeps_entries(after.slots, table.slots, hasher, insertions[i].0, 0);
                    match table.inserters[i] {
                        Inserter::Probing { key, distance, .. } => {
                            lemma_keeps_entries(after.slots, table.slots, hasher, key, distance);
                            if i == index {
                                lemma_keeps_entries(
                                    after.slots,
                                    table.slots,
                                    hasher,
                                    key,
                                    distance + 1,
                                );
                            }
                        },
                        Inserter::GaveUp { key, .. } => {
                            lemma_keeps_entries(
                                after.slots,
                                table.slots,
                                hasher,
                                key,
                                insertions[i].2,
                            );
                        },
                        _ => {},
                    }
                }
                assert forall|i: int| 0 <= i < lookups.len() implies #[trigger] finder_invariant(
                    after,
                    hasher,
                    lookups[i],
                    i,
                ) by {
                    assert(finder_invariant(table, hasher, lookups[i], i));
                    match table.finders[i] {
                        Finder::Probing { key, distance } => {
                            lemma_keeps_entries(after.slots, table.slots, hasher, key, distance);
                        },
                        _ => {},
                    }
                }
                assert forall|i: int, j: int|
                    0 <= i < after.inserters.len() && 0 <= j < after.inserters.len() && i != j
                        && stored_slot(#[trigger] after.inserters[i]) is Some implies stored_slot(
                    after.inserters[i],
                ) != stored_slot(#[trigger] after.inserters[j]) by {
                    assert(inserter_invariant(table, hasher, insertions[i], i));
                    assert(inserter_invariant(table, hasher, insertions[j], j));
                    assert(stored_slot(table.inserters[i]) is Some ==> stored_slot(
                        table.inserters[i],
                    ) != stored_slot(table.inserters[j]));
                    assert(stored_slot(table.inserters[j]) is Some ==> stored_slot(
                        table.inserters[j],
                    ) != stored_slot(table.inserters[i]));
                }
            }
        },
        TableStep::Finder { index } => {
            if 0 <= index < table.finders.len() {
                assert(finder_invariant(table, hasher, lookups[index], index));
                match table.finders[index] {
                    Finder::Probing { key, distance } => {
                        let home = home_index(hasher, key, capacity);
                        lemma_home_index_bound(hasher, key, capacity);
                        if distance < capacity {
                            let slot = probe_index(home, distance, capacity);
                            lemma_probe_index_distance(home, slot, distance, capacity);
                            assert(table.slots[slot] == probed_slot(table.slots, home, distance));
                            if !holds_other(table.slots[slot], key) {
                                lemma_stop_decides(table.slots, hasher, key, distance);
                            }
                        } else {
                            lemma_full_round_absent(table.slots, hasher, key);
                        }
                    },
                    _ => {},
                }
                assert forall|i: int| 0 <= i < insertions.len() implies #[trigger] inserter_invariant(
                    after,
                    hasher,
                    insertions[i],
                    i,
                ) by {
                    assert(inserter_invariant(table, hasher, insertions[i], i));
                }
                assert forall|i: int| 0 <= i < lookups.len() implies #[trigger] finder_invariant(
                    after,
                    hasher,
                    lookups[i],
                    i,
                ) by {
                    assert(finder_invariant(table, hasher, lookups[i], i));
                }
                assert forall|i: int, j: int|
                    0 <= i < after.inserters.len() && 0 <= j < after.inserters.len() && i != j
                        && stored_slot(#[trigger] after.inserters[i]) is Some implies stored_slot(
                    after.inserters[i],
                ) != stored_slot(#[trigger] after.inserters[j]) by {
                    assert(stored_slot(table.inserters[i]) is Some ==> stored_slot(
                        table.inserters[i],
                    ) != stored_slot(table.inserters[j]));
                }
            }
        },
    }
}

/// The invariant holds before any step on a well-placed table.
pub proof fn lemma_initial_table<V, H: KeyHasher>(
    slots: Seq<Option<(Key, V)>>,
    hasher: H,
    insertions: Seq<(Key, V, int)>,
    lookups: Seq<Key>,
)
    requires
        slots.len() > 0,
        well_placed(slots, hasher),
        forall|i: int|
            0 <= i < insertions.len() ==> 0 <= (#[trigger] insertions[i]).2 <= slots.len(),
    ensures
        table_invariant(initial_table(slots, insertions, lookups), hasher, insertions, lookups),
{
    let table = initial_table(slots, insertions, lookups);
    assert forall|i: int| 0 <= i < insertions.len() implies #[trigger] inserter_invariant(
        table,
        hasher,
        insertions[i],
        i,
    ) by {
        assert(0 <= insertions[i].2 <= slots.len());
    }
}

/// Any number of steps, in any order, keep the invariant and keep every
/// entry in its slot.
pub proof fn lemma_table_steps_keep_invariant<V, H: KeyHasher>(
    table: SharedTable<V>,
    hasher: H,
    insertions: Seq<(Key, V, int)>,
    lookups: Seq<Key>,
    steps: Seq<TableStep>,
)
    requires
        table_invariant(table, hasher, insertions, lookups),
    ensures
        table_invariant(after_table_steps(table, hasher, steps), hasher, insertions, lookups),
        keeps_entries(after_table_steps(table, hasher, steps).slots, table.slots),
    decreases steps.len(),
{
    if steps.len() > 0 {
        let before = after_table_steps(table, hasher, steps.drop_last());
        lemma_table_steps_keep_invariant(table, hasher, insertions, lookups, steps.drop_last());
        lemma_table_step_keeps_invariant(before, hasher, insertions, lookups, steps.last());
    }
}

/// Uniqueness under any interleaving. At every moment, two insertions
/// that have both stored their entries have stored different keys: of the
/// insertions of one key at most one wins. An insertion that found the key
/// has the value back that it was called with and reports the value that
/// the table holds for the key, which is the value of the winner where an
/// insertion at work has won.
pub proof fn lemma_one_insertion_per_key<V, H: KeyHasher>(
    table: SharedTable<V>,
    hasher: H,
    insertions: Seq<(Key, V, int)>,
    lookups: Seq<Key>,
    i: int,
    j: int,
)
    requires
        table_invariant(table, hasher, insertions, lookups),
        0 <= i < insertions.len(),
        0 <= j < insertions.len(),
        i != j,
        insertions[i].0 == insertions[j].0,
        table.inserters[i] is Inserted,
    ensures
        lookup(table.slots, insertions[i].0) == Some(insertions[i].1),
        !(table.inserters[j] is Inserted),
        table.inserters[j] matches Inserter::Found { passed_in_value, entry_value, .. } ==> {
            &&& passed_in_value == insertions[j].1
            &&& entry_value == insertions[i].1
        },
        table.inserters[j] matches Inserter::GaveUp { passed_in_value, .. } ==> passed_in_value
            == insertions[j].1,
{
    assert(inserter_invariant(table, hasher, insertions[i], i));
    assert(inserter_invariant(table, hasher, insertions[j], j));
    let key = insertions[i].0;
    let first = stored_slot(table.inserters[i])->0;
    lemma_contents_at(table.slots, hasher, first);
    if table.inserters[j] is Inserted {
        let second = stored_slot(table.inserters[j])->0;
        assert(holds(table.slots[first], key));
        assert(holds(table.slots[second], key));
        lemma_key_unique(table.slots, hasher, key, first, second);
        assert(stored_slot(table.inserters[i]) != stored_slot(table.inserters[j]));
    }
}

/// Lookup `index` was at work in `start` and has returned in `table`.
pub open spec fn returned_since<V>(start: SharedTable<V>, table: SharedTable<V>, index: int) -> bool {
    start.finders[index] is Probing && table.finders[index] is Returned
}

/// A lookup that returns sees every entry that was there when it began.
/// After any steps in any order, a lookup that was at work before them and
/// has returned since returned the value that the table held for its key
/// before the steps, if it held one: the value of every insertion that had
/// completed by then.
pub proof fn lemma_lookup_sees_earlier_entries<V, H: KeyHasher>(
    start: SharedTable<V>,
    hasher: H,
    insertions: Seq<(Key, V, int)>,
    lookups: Seq<Key>,
    steps: Seq<TableStep>,
    index: int,
)
    requires
        table_invariant(start, hasher, insertions, lookups),
        0 <= index < lookups.len(),
    ensures
        ({
            let table = after_table_steps(start, hasher, steps);
            returned_since(start, table, index) ==> {
                &&& table.finders[index]->Returned_key == lookups[index]
                &&& table.finders[index]->Returned_value == lookup(
                    table.finders[index]->Returned_seen,
                    lookups[index],
                )
                &&& keeps_entries(table.finders[index]->Returned_seen, start.slots)
                &&& keeps_entries(table.slots, table.finders[index]->Returned_seen)
                &&& lookup(start.slots, lookups[index]) is Some ==> table.finders[index]->Returned_value
                    == lookup(start.slots, lookups[index])
            }
        }),
    decreases steps.len(),
{
    let table = after_table_steps(start, hasher, steps);
    lemma_table_steps_keep_invariant(start, hasher, insertions, lookups, steps);
    assert(finder_invariant(table, hasher, lookups[index], index));
    assert(finder_invariant(start, hasher, lookups[index], index));
    if steps.len() > 0 && returned_since(start, table, index) {
        let earlier = steps.drop_last();
        let before = after_table_steps(start, hasher, earlier);
        lemma_table_steps_keep_invariant(start, hasher, insertions, lookups, earlier);
        lemma_lookup_sees_earlier_entries(start, hasher, insertions, lookups, earlier, index);
        assert(finder_invariant(before, hasher, lookups[index], index));
        let seen = table.finders[index]->Returned_seen;
        if before.finders[index] is Probing {
            assert(seen == before.slots);
        } else {
            assert(table.finders[index] == before.finders[index]);
        }
        lemma_keeps_entries(seen, start.slots, hasher, lookups[index], 0);
    }
}

} // verus!
