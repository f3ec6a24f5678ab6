//! What holds of a table across several operations of its owner.
//!
//! Each statement is over the contents of the slots, the terms in which the
//! operations of `HashTable` state what they do. What holds when operations
//! interleave is shown in `shared_slot` and `shared_table`.

use crate::hashtable_base::iter::entries;
use crate::hashtable_base::iter::lemma_entries_are_contents;
use crate::hashtable_base::probe::contains;
use crate::hashtable_base::probe::contents;
use crate::hashtable_base::probe::emptied;
use crate::hashtable_base::probe::first_stop;
use crate::hashtable_base::probe::holds_other;
use crate::hashtable_base::probe::home_index;
use crate::hashtable_base::probe::index_of;
use crate::hashtable_base::probe::lemma_empty_slots;
use crate::hashtable_base::probe::lemma_fill_stop;
use crate::hashtable_base::probe::lemma_first_stop;
use crate::hashtable_base::probe::lemma_first_stop_at;
use crate::hashtable_base::probe::lemma_home_index_bound;
use crate::hashtable_base::probe::lemma_probe_index_distance;
use crate::hashtable_base::probe::lemma_replace_value;
use crate::hashtable_base::probe::lemma_stop_decides;
use crate::hashtable_base::probe::passes;
use crate::hashtable_base::probe::probe_index;
use crate::hashtable_base::probe::probed_slot;
use crate::hashtable_base::probe::slots_after_insert;
use crate::hashtable_base::probe::well_placed;
use crate::hashtable_base::set_late_value_outcome;
use crate::hashtable_base::set_late_value_result;
use crate::hashtable_base::table::is_next_power_of_two;
use crate::hashtable_base::Key;
use crate::hashtable_base::KeyHasher;
use vstd::prelude::*;

verus! {

/// An insertion of `key` that probes at most `limit` slots finds room: its
/// probe stops at an empty slot.
pub open spec fn finds_room<V, H: KeyHasher>(
    slots: Seq<Option<(Key, V)>>,
    hasher: H,
    key: Key,
    limit: int,
) -> bool {
    let home = home_index(hasher, key, slots.len() as int);
    first_stop(slots, home, key, 0, limit) matches Some(distance) && probed_slot(
        slots,
        home,
        distance,
    ) is None
}

/// The slots after an insertion into a table with this hasher.
pub open spec fn slots_after<V, H: KeyHasher>(
    slots: Seq<Option<(Key, V)>>,
    hasher: H,
    key: Key,
    value: V,
    limit: int,
) -> Seq<Option<(Key, V)>> {
    slots_after_insert(slots, home_index(hasher, key, slots.len() as int), key, value, limit)
}

/// A change that a table without `drain` can undergo.
pub enum TableChange<V> {
    /// An insertion of `key` with `value` that probes at most `limit` slots.
    Insert { key: Key, value: V, limit: int },
    /// The value of `key` is replaced by `value`, as when a late value is
    /// set. A table without the key stays as it is.
    Replace { key: Key, value: V },
}

/// The slots after one change.
pub open spec fn slots_after_change<V, H: KeyHasher>(
    slots: Seq<Option<(Key, V)>>,
    hasher: H,
    change: TableChange<V>,
) -> Seq<Option<(Key, V)>> {
    match change {
        TableChange::Insert { key, value, limit } => slots_after(slots, hasher, key, value, limit),
        TableChange::Replace { key, value } => if contains(slots, key) {
            slots.update(index_of(slots, key), Some((key, value)))
        } else {
            slots
        },
    }
}

/// The slots after a sequence of changes, in order.
pub open spec fn slots_after_all<V, H: KeyHasher>(
    slots: Seq<Option<(Key, V)>>,
    hasher: H,
    changes: Seq<TableChange<V>>,
) -> Seq<Option<(Key, V)>>
    decreases changes.len(),
{
    if changes.len() == 0 {
        slots
    } else {
        slots_after_change(
            slots_after_all(slots, hasher, changes.drop_last()),
            hasher,
            changes.last(),
        )
    }
}

/// The search limit of a change is at most the number of slots.
pub open spec fn change_fits<V>(change: TableChange<V>, capacity: nat) -> bool {
    change matches TableChange::Insert { limit, .. } ==> 0 <= limit <= capacity
}

/// The change leaves the value of `key` alone: it is no replacement of it.
pub open spec fn change_spares<V>(change: TableChange<V>, key: Key) -> bool {
    change matches TableChange::Replace { key: replaced, .. } ==> replaced != key
}

/// One insertion keeps the table well placed and every entry it held. It
/// adds its entry if it finds room, and then the key was absent before;
/// otherwise it changes nothing.
pub proof fn lemma_insert<V, H: KeyHasher>(
    slots: Seq<Option<(Key, V)>>,
    hasher: H,
    key: Key,
    value: V,
    limit: int,
)
    requires
        well_placed(slots, hasher),
        0 <= limit <= slots.len(),
    ensures
        slots_after(slots, hasher, key, value, limit).len() == slots.len(),
        well_placed(slots_after(slots, hasher, key, value, limit), hasher),
        finds_room(slots, hasher, key, limit) ==> !contents(slots).contains_key(key) && contents(
            slots_after(slots, hasher, key, value, limit),
        ) == contents(slots).insert(key, value),
        !finds_room(slots, hasher, key, limit) ==> slots_after(slots, hasher, key, value, limit)
            == slots,
        forall|k: Key| #[trigger]
            contents(slots).contains_key(k) ==> contents(
                slots_after(slots, hasher, key, value, limit),
            ).contains_key(k) && contents(slots_after(slots, hasher, key, value, limit))[k]
                == contents(slots)[k],
{
    let home = home_index(hasher, key, slots.len() as int);
    lemma_first_stop(slots, home, key, 0, limit);
    if finds_room(slots, hasher, key, limit) {
        let distance = first_stop(slots, home, key, 0, limit)->0;
        lemma_fill_stop(slots, hasher, key, value, distance);
    }
}

/// A key that the table holds is never inserted again: no insertion of it
/// finds room, whatever its search limit, so that the table stays as it is.
pub proof fn lemma_present_key_finds_no_room<V, H: KeyHasher>(
    slots: Seq<Option<(Key, V)>>,
    hasher: H,
    key: Key,
    value: V,
    limit: int,
)
    requires
        well_placed(slots, hasher),
        0 <= limit <= slots.len(),
        contents(slots).contains_key(key),
    ensures
        !finds_room(slots, hasher, key, limit),
        slots_after(slots, hasher, key, value, limit) == slots,
{
    let home = home_index(hasher, key, slots.len() as int);
    lemma_first_stop(slots, home, key, 0, limit);
    if finds_room(slots, hasher, key, limit) {
        let distance = first_stop(slots, home, key, 0, limit)->0;
        lemma_stop_decides(slots, hasher, key, distance);
    }
}

/// Uniqueness. Of two insertions of one key, only the first to find room
/// stores its value: the later one changes nothing, whatever its value and
/// its search limit, and under a search limit that is not smaller its probe
/// stops at the entry of the first, so that it reports that entry.
pub proof fn lemma_insert_twice<V, H: KeyHasher>(
    slots: Seq<Option<(Key, V)>>,
    hasher: H,
    key: Key,
    first: V,
    first_limit: int,
    second: V,
    second_limit: int,
)
    requires
        well_placed(slots, hasher),
        0 <= first_limit <= slots.len(),
        0 <= second_limit <= slots.len(),
        finds_room(slots, hasher, key, first_limit),
    ensures
        ({
            let after = slots_after(slots, hasher, key, first, first_limit);
            let home = home_index(hasher, key, slots.len() as int);
            &&& !finds_room(after, hasher, key, second_limit)
            &&& slots_after(after, hasher, key, second, second_limit) == after
            &&& contents(after).contains_key(key)
            &&& contents(after)[key] == first
            &&& second_limit >= first_limit ==> (first_stop(after, home, key, 0, second_limit)
                matches Some(distance) && probed_slot(after, home, distance) == Some((key, first)))
        }),
{
    let capacity = slots.len() as int;
    let home = home_index(hasher, key, capacity);
    let after = slots_after(slots, hasher, key, first, first_limit);
    lemma_home_index_bound(hasher, key, capacity);
    lemma_first_stop(slots, home, key, 0, first_limit);
    let distance = first_stop(slots, home, key, 0, first_limit)->0;
    let index = probe_index(home, distance, capacity);
    lemma_fill_stop(slots, hasher, key, first, distance);
    lemma_probe_index_distance(home, index, distance, capacity);
    assert forall|d: int| 0 <= d < distance implies holds_other(
        #[trigger] probed_slot(after, home, d),
        key,
    ) by {
        lemma_probe_index_distance(home, index, d, capacity);
        assert(holds_other(probed_slot(slots, home, d), key));
    }
    assert(passes(after, home, key, 0, distance));
    assert(probed_slot(after, home, distance) == Some((key, first)));
    lemma_first_stop(after, home, key, 0, second_limit);
    if second_limit > distance {
        lemma_first_stop_at(after, home, key, 0, second_limit, distance);
    } else {
        match first_stop(after, home, key, 0, second_limit) {
            Some(d) => {
                assert(holds_other(probed_slot(after, home, d), key));
            },
            None => {},
        }
    }
}

/// Read after write. After an insertion that found room, the table holds
/// the key with the inserted value.
pub proof fn lemma_find_after_insert<V, H: KeyHasher>(
    slots: Seq<Option<(Key, V)>>,
    hasher: H,
    key: Key,
    value: V,
    limit: int,
)
    requires
        well_placed(slots, hasher),
        0 <= limit <= slots.len(),
        finds_room(slots, hasher, key, limit),
    ensures
        contents(slots_after(slots, hasher, key, value, limit)).contains_key(key),
        contents(slots_after(slots, hasher, key, value, limit))[key] == value,
{
    lemma_insert(slots, hasher, key, value, limit);
}

/// One change keeps the table well placed and every key it held, and it
/// keeps the value of every key of which it is no replacement.
pub proof fn lemma_change<V, H: KeyHasher>(
    slots: Seq<Option<(Key, V)>>,
    hasher: H,
    change: TableChange<V>,
)
    requires
        well_placed(slots, hasher),
        change_fits(change, slots.len()),
    ensures
        slots_after_change(slots, hasher, change).len() == slots.len(),
        well_placed(slots_after_change(slots, hasher, change), hasher),
        forall|k: Key| #[trigger]
            contents(slots).contains_key(k) ==> contents(
                slots_after_change(slots, hasher, change),
            ).contains_key(k),
        forall|k: Key| #[trigger]
            contents(slots).contains_key(k) && change_spares(change, k) ==> contents(
                slots_after_change(slots, hasher, change),
            )[k] == contents(slots)[k],
{
    match change {
        TableChange::Insert { key, value, limit } => {
            lemma_insert(slots, hasher, key, value, limit);
        },
        TableChange::Replace { key, value } => {
            if contains(slots, key) {
                lemma_replace_value(slots, hasher, index_of(slots, key), value);
            }
        },
    }
}

/// Changes keep the table well placed and every key it held, and they keep
/// the value of every key that none of them replaces.
pub proof fn lemma_changes<V, H: KeyHasher>(
    slots: Seq<Option<(Key, V)>>,
    hasher: H,
    changes: Seq<TableChange<V>>,
    key: Key,
)
    requires
        well_placed(slots, hasher),
        forall|i: int| 0 <= i < changes.len() ==> change_fits(#[trigger] changes[i], slots.len()),
        contents(slots).contains_key(key),
    ensures
        slots_after_all(slots, hasher, changes).len() == slots.len(),
        well_placed(slots_after_all(slots, hasher, changes), hasher),
        contents(slots_after_all(slots, hasher, changes)).contains_key(key),
        (forall|i: int| 0 <= i < changes.len() ==> change_spares(#[trigger] changes[i], key))
            ==> contents(slots_after_all(slots, hasher, changes))[key] == contents(slots)[key],
    decreases changes.len(),
{
    if changes.len() > 0 {
        let earlier = changes.drop_last();
        assert forall|i: int| 0 <= i < earlier.len() implies change_fits(
            #[trigger] earlier[i],
            slots.len(),
        ) by {
            assert(earlier[i] == changes[i]);
        }
        lemma_changes(slots, hasher, earlier, key);
        let before = slots_after_all(slots, hasher, earlier);
        assert(changes[changes.len() - 1] == changes.last());
        lemma_change(before, hasher, changes.last());
        if forall|i: int| 0 <= i < changes.len() ==> change_spares(#[trigger] changes[i], key) {
            assert forall|i: int| 0 <= i < earlier.len() implies change_spares(
                #[trigger] earlier[i],
                key,
            ) by {
                assert(earlier[i] == changes[i]);
            }
        }
    }
}

/// Bounded probing. A key that an insertion accepted is in the table after
/// any changes that follow: insertions of any keys, the same key among them,
/// under any search limits, and replacements of values. Its value is the
/// inserted one unless one of the changes replaced it. `find` probes a whole
/// round, and no change moves an entry or empties a slot.
pub proof fn lemma_inserted_key_stays<V, H: KeyHasher>(
    slots: Seq<Option<(Key, V)>>,
    hasher: H,
    key: Key,
    value: V,
    limit: int,
    later: Seq<TableChange<V>>,
)
    requires
        well_placed(slots, hasher),
        0 <= limit <= slots.len(),
        finds_room(slots, hasher, key, limit),
        forall|i: int| 0 <= i < later.len() ==> change_fits(#[trigger] later[i], slots.len()),
    ensures
        ({
            let after = slots_after_all(
                slots_after(slots, hasher, key, value, limit),
                hasher,
                later,
            );
            &&& well_placed(after, hasher)
            &&& contents(after).contains_key(key)
            &&& (forall|i: int| 0 <= i < later.len() ==> change_spares(#[trigger] later[i], key))
                ==> contents(after)[key] == value
        }),
{
    lemma_insert(slots, hasher, key, value, limit);
    let inserted = slots_after(slots, hasher, key, value, limit);
    lemma_changes(inserted, hasher, later, key);
}

/// Late values. An unset late value becomes the value that is set, and a
/// late value that is set stays: a later call changes nothing and gets the
/// kept value back beside its own.
pub proof fn lemma_late_value_set_once<L>(current: Option<L>, first: L, second: L)
    ensures
        set_late_value_result(None, Some(first)) == Some(first),
        set_late_value_outcome(None, Some(first)) is Ok,
        set_late_value_result(current, None) == current,
        set_late_value_result(current, Some(first)) is Some,
        set_late_value_result(set_late_value_result(current, Some(first)), Some(second))
            == set_late_value_result(current, Some(first)),
        set_late_value_outcome(Some(first), Some(second)) == Err::<
            (),
            crate::hashtable_base::LateValueAlreadySet<L>,
        >(crate::hashtable_base::LateValueAlreadySet { passed_in_value: second, value: first }),
{
}

/// Capacity rounding. The least power of two that is not below a number is
/// unique, so that the capacity of a new table is determined by the capacity
/// that was asked for.
pub proof fn lemma_next_power_of_two_unique(n: int, p: int, q: int)
    requires
        is_next_power_of_two(n, p),
        is_next_power_of_two(n, q),
    ensures
        p == q,
{
}

/// Drain completeness. Draining yields every entry of the table once: each
/// key of the map occurs once among the drained entries, beside its value,
/// and nothing else occurs. The emptied slots are well placed and hold no
/// key.
pub proof fn lemma_drain_complete<V, H: KeyHasher>(slots: Seq<Option<(Key, V)>>, hasher: H)
    requires
        well_placed(slots, hasher),
    ensures
        forall|j: int|
            0 <= j < entries(slots).len() ==> contents(slots).contains_key(
                (#[trigger] entries(slots)[j]).0,
            ) && contents(slots)[entries(slots)[j].0] == entries(slots)[j].1,
        forall|j: int, k: int|
            0 <= j < k < entries(slots).len() ==> (#[trigger] entries(slots)[j]).0 != (
            #[trigger] entries(slots)[k]).0,
        forall|key: Key| #[trigger]
            contents(slots).contains_key(key) ==> exists|j: int|
                0 <= j < entries(slots).len() && (#[trigger] entries(slots)[j]).0 == key,
        well_placed(emptied::<V>(slots.len()), hasher),
        contents(emptied::<V>(slots.len())) == Map::<Key, V>::empty(),
{
    lemma_entries_are_contents(slots, hasher);
    lemma_empty_slots(emptied::<V>(slots.len()), hasher);
}

} // verus!
