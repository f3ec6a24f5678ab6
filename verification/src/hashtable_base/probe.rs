//! Linear probing, stated over the contents of the slots.
//!
//! A table with `capacity` slots looks for a key along its probe sequence:
//! the slot `hash mod capacity` first, then each following slot in turn,
//! wrapping at the end. A probe stops at the first slot that is empty or
//! that holds the key.

use crate::hashtable_base::Key;
use crate::hashtable_base::KeyHasher;
use vstd::arithmetic::div_mod::lemma_mod_bound;
use vstd::arithmetic::div_mod::lemma_mod_sub_multiples_vanish;
use vstd::arithmetic::div_mod::lemma_small_mod;
use vstd::prelude::*;

verus! {

/// The slot at which the probe sequence of `key` starts.
pub open spec fn home_index<H: KeyHasher>(hasher: H, key: Key, capacity: int) -> int {
    (hasher.spec_hash_key(key) as int) % capacity
}

/// The slot that lies `distance` steps after `home` on a probe sequence.
pub open spec fn probe_index(home: int, distance: int, capacity: int) -> int {
    (home + distance) % capacity
}

/// The number of steps that a probe sequence takes from `home` to `index`.
pub open spec fn probe_distance(home: int, index: int, capacity: int) -> int {
    (index - home) % capacity
}

/// The home slot of a key lies in the table.
pub proof fn lemma_home_index_bound<H: KeyHasher>(hasher: H, key: Key, capacity: int)
    requires
        0 < capacity,
    ensures
        0 <= home_index(hasher, key, capacity) < capacity,
{
    lemma_mod_bound(hasher.spec_hash_key(key) as int, capacity);
}

/// A probe sequence walks forward and wraps to slot 0 after the last slot.
pub proof fn lemma_probe_index(home: int, distance: int, capacity: int)
    requires
        0 <= home < capacity,
        0 <= distance < capacity,
    ensures
        probe_index(home, distance, capacity) == (if home + distance < capacity {
            home + distance
        } else {
            home + distance - capacity
        }),
{
    if home + distance < capacity {
        lemma_small_mod((home + distance) as nat, capacity as nat);
    } else {
        lemma_mod_sub_multiples_vanish(home + distance, capacity);
        lemma_small_mod((home + distance - capacity) as nat, capacity as nat);
    }
}

/// The distance to a slot counts forward from `home`, through the wrap.
pub proof fn lemma_probe_distance(home: int, index: int, capacity: int)
    requires
        0 <= home < capacity,
        0 <= index < capacity,
    ensures
        probe_distance(home, index, capacity) == (if home <= index {
            index - home
        } else {
            index - home + capacity
        }),
{
    if home <= index {
        lemma_small_mod((index - home) as nat, capacity as nat);
    } else {
        vstd::arithmetic::div_mod::lemma_mod_add_multiples_vanish(index - home, capacity);
        lemma_small_mod((index - home + capacity) as nat, capacity as nat);
    }
}

/// One more step along a probe sequence leads to the next slot.
pub proof fn lemma_probe_step(home: int, distance: int, capacity: int)
    requires
        0 <= home < capacity,
        0 <= distance < capacity,
    ensures
        probe_index(probe_index(home, distance, capacity), 1, capacity) == probe_index(
            home,
            distance + 1,
            capacity,
        ),
        probe_index(home, 0, capacity) == home,
{
    lemma_probe_index(home, distance, capacity);
    lemma_probe_index(home, 0, capacity);
    let index = probe_index(home, distance, capacity);
    if capacity == 1 {
        lemma_probe_index(index, 0, capacity);
        vstd::arithmetic::div_mod::lemma_mod_self_0(capacity);
    } else {
        lemma_probe_index(index, 1, capacity);
        if distance + 1 < capacity {
            lemma_probe_index(home, distance + 1, capacity);
        } else {
            vstd::arithmetic::div_mod::lemma_mod_add_multiples_vanish(home, capacity);
            lemma_small_mod(home as nat, capacity as nat);
        }
    }
}

/// Every slot lies on every probe sequence, at its distance from the home
/// slot and nowhere else within one round.
pub proof fn lemma_probe_index_distance(home: int, index: int, distance: int, capacity: int)
    requires
        0 <= home < capacity,
        0 <= index < capacity,
        0 <= distance < capacity,
    ensures
        0 <= probe_index(home, distance, capacity) < capacity,
        0 <= probe_distance(home, index, capacity) < capacity,
        probe_index(home, distance, capacity) == index <==> probe_distance(home, index, capacity)
            == distance,
{
    lemma_probe_index(home, distance, capacity);
    lemma_probe_distance(home, index, capacity);
}

/// The slot holds `key`.
pub open spec fn holds<V>(slot: Option<(Key, V)>, key: Key) -> bool {
    slot matches Some((k, _)) && k == key
}

/// The slot is occupied by a key other than `key`: a probe for `key` passes it.
pub open spec fn holds_other<V>(slot: Option<(Key, V)>, key: Key) -> bool {
    slot matches Some((k, _)) && k != key
}

/// The slot that a probe for `key` inspects at `distance`.
pub open spec fn probed_slot<V>(slots: Seq<Option<(Key, V)>>, home: int, distance: int) -> Option<
    (Key, V),
> {
    slots[probe_index(home, distance, slots.len() as int)]
}

/// The first distance from `from` up to `limit`, `limit` left out, at which a
/// probe for `key` stops: the slot there is empty or holds `key`. `None` when
/// the probe passes every slot in that range.
pub open spec fn first_stop<V>(
    slots: Seq<Option<(Key, V)>>,
    home: int,
    key: Key,
    from: int,
    limit: int,
) -> Option<int>
    decreases limit - from,
{
    if from >= limit {
        None
    } else if !holds_other(probed_slot(slots, home, from), key) {
        Some(from)
    } else {
        first_stop(slots, home, key, from + 1, limit)
    }
}

/// The probe for `key` passes every slot at a distance from `from` up to
/// `to`, `to` left out.
pub open spec fn passes<V>(
    slots: Seq<Option<(Key, V)>>,
    home: int,
    key: Key,
    from: int,
    to: int,
) -> bool {
    forall|d: int| from <= d < to ==> holds_other(#[trigger] probed_slot(slots, home, d), key)
}

/// `first_stop` is the least distance in its range at which the probe stops.
pub proof fn lemma_first_stop<V>(
    slots: Seq<Option<(Key, V)>>,
    home: int,
    key: Key,
    from: int,
    limit: int,
)
    ensures
        match first_stop(slots, home, key, from, limit) {
            Some(d) => from <= d < limit && passes(slots, home, key, from, d) && !holds_other(
                probed_slot(slots, home, d),
                key,
            ),
            None => passes(slots, home, key, from, limit),
        },
    decreases limit - from,
{
    if from < limit && holds_other(probed_slot(slots, home, from), key) {
        lemma_first_stop(slots, home, key, from + 1, limit);
    }
}

/// A distance at which the probe stops, after passing all earlier slots, is
/// what `first_stop` gives.
pub proof fn lemma_first_stop_at<V>(
    slots: Seq<Option<(Key, V)>>,
    home: int,
    key: Key,
    from: int,
    limit: int,
    d: int,
)
    requires
        from <= d < limit,
        passes(slots, home, key, from, d),
        !holds_other(probed_slot(slots, home, d), key),
    ensures
        first_stop(slots, home, key, from, limit) == Some(d),
    decreases d - from,
{
    if from < d {
        assert(holds_other(probed_slot(slots, home, from), key));
        lemma_first_stop_at(slots, home, key, from + 1, limit, d);
    }
}

/// A probe that passes every slot of its range does not stop in it.
pub proof fn lemma_first_stop_none<V>(
    slots: Seq<Option<(Key, V)>>,
    home: int,
    key: Key,
    from: int,
    limit: int,
)
    requires
        passes(slots, home, key, from, limit),
    ensures
        first_stop(slots, home, key, from, limit) is None,
    decreases limit - from,
{
    if from < limit {
        assert(holds_other(probed_slot(slots, home, from), key));
        lemma_first_stop_none(slots, home, key, from + 1, limit);
    }
}

/// A probe of at least one step stops at the home slot of its key if that
/// slot is empty or holds the key.
pub proof fn lemma_first_stop_at_home<V, H: KeyHasher>(
    slots: Seq<Option<(Key, V)>>,
    hasher: H,
    key: Key,
    limit: int,
)
    requires
        slots.len() > 0,
        limit > 0,
        !holds_other(slots[home_index(hasher, key, slots.len() as int)], key),
    ensures
        0 <= home_index(hasher, key, slots.len() as int) < slots.len(),
        probe_index(home_index(hasher, key, slots.len() as int), 0, slots.len() as int)
            == home_index(hasher, key, slots.len() as int),
        first_stop(slots, home_index(hasher, key, slots.len() as int), key, 0, limit) == Some(
            0int,
        ),
{
    let capacity = slots.len() as int;
    let home = home_index(hasher, key, capacity);
    lemma_home_index_bound(hasher, key, capacity);
    lemma_probe_index(home, 0, capacity);
}

/// The slots after an insertion of `key` with `value` that probes at most
/// `limit` slots from `home`: the empty slot at which the probe stopped is
/// filled; where the probe found the key or no room, nothing changes.
pub open spec fn slots_after_insert<V>(
    slots: Seq<Option<(Key, V)>>,
    home: int,
    key: Key,
    value: V,
    limit: int,
) -> Seq<Option<(Key, V)>> {
    match first_stop(slots, home, key, 0, limit) {
        Some(distance) => if probed_slot(slots, home, distance) is None {
            slots.update(probe_index(home, distance, slots.len() as int), Some((key, value)))
        } else {
            slots
        },
        None => slots,
    }
}

/// The key in slot `index`, where that slot is occupied.
pub open spec fn key_at<V>(slots: Seq<Option<(Key, V)>>, index: int) -> Key {
    (slots[index]->0).0
}

/// The value in slot `index`, where that slot is occupied.
pub open spec fn value_at<V>(slots: Seq<Option<(Key, V)>>, index: int) -> V {
    (slots[index]->0).1
}

/// Slot `index` is occupied, and the probe sequence of its key reaches
/// `distance` before it reaches the slot.
pub open spec fn precedes_entry<V, H: KeyHasher>(
    slots: Seq<Option<(Key, V)>>,
    hasher: H,
    index: int,
    distance: int,
) -> bool {
    &&& 0 <= index < slots.len()
    &&& slots[index] is Some
    &&& 0 <= distance < probe_distance(
        home_index(hasher, key_at(slots, index), slots.len() as int),
        index,
        slots.len() as int,
    )
}

/// Every entry can be found: on the probe sequence of its key, every slot
/// before the entry is occupied by another key. A probe for the key
/// therefore reaches the entry, however many steps that takes.
pub open spec fn well_placed<V, H: KeyHasher>(slots: Seq<Option<(Key, V)>>, hasher: H) -> bool {
    forall|index: int, distance: int| #[trigger]
        precedes_entry(slots, hasher, index, distance) ==> holds_other(
            probed_slot(
                slots,
                home_index(hasher, key_at(slots, index), slots.len() as int),
                distance,
            ),
            key_at(slots, index),
        )
}

/// Some slot holds `key`.
pub open spec fn contains<V>(slots: Seq<Option<(Key, V)>>, key: Key) -> bool {
    exists|index: int| 0 <= index < slots.len() && holds(#[trigger] slots[index], key)
}

/// A slot that holds `key`, where there is one.
pub open spec fn index_of<V>(slots: Seq<Option<(Key, V)>>, key: Key) -> int {
    choose|index: int| 0 <= index < slots.len() && holds(#[trigger] slots[index], key)
}

/// The entries in the slots, as a map from each key to its value.
pub open spec fn contents<V>(slots: Seq<Option<(Key, V)>>) -> Map<Key, V> {
    Map::new(|key: Key| contains(slots, key), |key: Key| value_at(slots, index_of(slots, key)))
}

/// In well-placed slots no key occurs twice.
pub proof fn lemma_key_unique<V, H: KeyHasher>(
    slots: Seq<Option<(Key, V)>>,
    hasher: H,
    key: Key,
    i: int,
    j: int,
)
    requires
        well_placed(slots, hasher),
        0 <= i < slots.len(),
        0 <= j < slots.len(),
        holds(slots[i], key),
        holds(slots[j], key),
    ensures
        i == j,
{
    let capacity = slots.len() as int;
    let home = home_index(hasher, key, capacity);
    lemma_home_index_bound(hasher, key, capacity);
    let di = probe_distance(home, i, capacity);
    let dj = probe_distance(home, j, capacity);
    lemma_probe_index_distance(home, i, di, capacity);
    lemma_probe_index_distance(home, j, dj, capacity);
    if di < dj {
        assert(precedes_entry(slots, hasher, j, di));
        assert(holds_other(probed_slot(slots, home, di), key));
    } else if dj < di {
        assert(precedes_entry(slots, hasher, i, dj));
        assert(holds_other(probed_slot(slots, home, dj), key));
    }
}

/// In well-placed slots, the map gives each key the value beside it.
pub proof fn lemma_contents_at<V, H: KeyHasher>(
    slots: Seq<Option<(Key, V)>>,
    hasher: H,
    index: int,
)
    requires
        well_placed(slots, hasher),
        0 <= index < slots.len(),
        slots[index] is Some,
    ensures
        contents(slots).contains_key(key_at(slots, index)),
        contents(slots)[key_at(slots, index)] == value_at(slots, index),
{
    let key = key_at(slots, index);
    assert(holds(slots[index], key));
    lemma_key_unique(slots, hasher, key, index, index_of(slots, key));
}

/// A probe of well-placed slots that stops within one round decides whether
/// the key is present: it is, with the value in the slot where the probe
/// stopped, if that slot is occupied, and it is absent if that slot is empty.
pub proof fn lemma_stop_decides<V, H: KeyHasher>(
    slots: Seq<Option<(Key, V)>>,
    hasher: H,
    key: Key,
    distance: int,
)
    requires
        well_placed(slots, hasher),
        0 <= distance < slots.len(),
        passes(slots, home_index(hasher, key, slots.len() as int), key, 0, distance),
        !holds_other(
            probed_slot(slots, home_index(hasher, key, slots.len() as int), distance),
            key,
        ),
    ensures
        ({
            let home = home_index(hasher, key, slots.len() as int);
            let index = probe_index(home, distance, slots.len() as int);
            &&& 0 <= index < slots.len()
            &&& match slots[index] {
                Some((_, value)) => contents(slots).contains_key(key) && contents(slots)[key]
                    == value,
                None => !contents(slots).contains_key(key),
            }
        }),
{
    let capacity = slots.len() as int;
    let home = home_index(hasher, key, capacity);
    lemma_home_index_bound(hasher, key, capacity);
    let index = probe_index(home, distance, capacity);
    lemma_probe_index_distance(home, index, distance, capacity);
    assert(slots[index] == probed_slot(slots, home, distance));
    if slots[index] is Some {
        assert(holds(slots[index], key));
        lemma_contents_at(slots, hasher, index);
    } else {
        if contains(slots, key) {
            let j = index_of(slots, key);
            let dj = probe_distance(home, j, capacity);
            lemma_probe_index_distance(home, j, dj, capacity);
            if dj < distance {
                assert(holds_other(probed_slot(slots, home, dj), key));
            } else if dj > distance {
                assert(precedes_entry(slots, hasher, j, distance));
            }
        }
    }
}

/// A probe of well-placed slots that passes a whole round finds the key
/// nowhere.
pub proof fn lemma_full_round_absent<V, H: KeyHasher>(
    slots: Seq<Option<(Key, V)>>,
    hasher: H,
    key: Key,
)
    requires
        slots.len() > 0,
        passes(slots, home_index(hasher, key, slots.len() as int), key, 0, slots.len() as int),
    ensures
        !contents(slots).contains_key(key),
{
    let capacity = slots.len() as int;
    let home = home_index(hasher, key, capacity);
    lemma_home_index_bound(hasher, key, capacity);
    if contains(slots, key) {
        let j = index_of(slots, key);
        let dj = probe_distance(home, j, capacity);
        lemma_probe_index_distance(home, j, dj, capacity);
        assert(holds_other(probed_slot(slots, home, dj), key));
    }
}

/// Filling the empty slot at which a probe for `key` stopped keeps the slots
/// well placed and adds exactly that entry to the map.
pub proof fn lemma_fill_stop<V, H: KeyHasher>(
    slots: Seq<Option<(Key, V)>>,
    hasher: H,
    key: Key,
    value: V,
    distance: int,
)
    requires
        well_placed(slots, hasher),
        0 <= distance < slots.len(),
        passes(slots, home_index(hasher, key, slots.len() as int), key, 0, distance),
        probed_slot(slots, home_index(hasher, key, slots.len() as int), distance) is None,
    ensures
        ({
            let home = home_index(hasher, key, slots.len() as int);
            let index = probe_index(home, distance, slots.len() as int);
            let filled = slots.update(index, Some((key, value)));
            &&& 0 <= index < slots.len()
            &&& well_placed(filled, hasher)
            &&& !contents(slots).contains_key(key)
            &&& contents(filled) == contents(slots).insert(key, value)
        }),
{
    let capacity = slots.len() as int;
    let home = home_index(hasher, key, capacity);
    lemma_home_index_bound(hasher, key, capacity);
    let index = probe_index(home, distance, capacity);
    lemma_probe_index_distance(home, index, distance, capacity);
    let filled = slots.update(index, Some((key, value)));
    lemma_stop_decides(slots, hasher, key, distance);
    assert forall|i: int, d: int| #[trigger] precedes_entry(filled, hasher, i, d) implies holds_other(
        probed_slot(filled, home_index(hasher, key_at(filled, i), capacity), d),
        key_at(filled, i),
    ) by {
        if i == index {
            let p = probe_index(home, d, capacity);
            lemma_probe_index_distance(home, index, d, capacity);
            assert(holds_other(probed_slot(slots, home, d), key));
        } else {
            assert(precedes_entry(slots, hasher, i, d));
        }
    }
    lemma_update_contents(slots, filled, hasher, index, key, value);
}

/// Slots that differ from well-placed slots in one slot alone, which now
/// holds `key` with `value` and before held that key or none, hold the map
/// of the others with `key` set to `value`.
pub proof fn lemma_update_contents<V, H: KeyHasher>(
    slots: Seq<Option<(Key, V)>>,
    updated: Seq<Option<(Key, V)>>,
    hasher: H,
    index: int,
    key: Key,
    value: V,
)
    requires
        well_placed(slots, hasher),
        well_placed(updated, hasher),
        0 <= index < slots.len(),
        updated == slots.update(index, Some((key, value))),
        !holds_other(slots[index], key),
    ensures
        contents(updated) == contents(slots).insert(key, value),
{
    let expected = contents(slots).insert(key, value);
    assert(holds(updated[index], key));
    lemma_contents_at(updated, hasher, index);
    assert forall|k: Key| contents(updated).contains_key(k) <==> expected.contains_key(k) by {
        if contains(updated, k) && k != key {
            let i = index_of(updated, k);
            assert(holds(slots[i], k));
        }
        if contains(slots, k) && k != key {
            let i = index_of(slots, k);
            assert(holds(updated[i], k));
        }
    }
    assert forall|k: Key| contents(updated).contains_key(k) implies contents(updated)[k]
        == expected[k] by {
        if k != key {
            let i = index_of(updated, k);
            assert(holds(slots[i], k));
            lemma_contents_at(slots, hasher, i);
            lemma_contents_at(updated, hasher, i);
        }
    }
    assert(contents(updated) =~= expected);
}

/// Replacing the value of an entry keeps the slots well placed and sets the
/// key to the new value in the map.
pub proof fn lemma_replace_value<V, H: KeyHasher>(
    slots: Seq<Option<(Key, V)>>,
    hasher: H,
    index: int,
    value: V,
)
    requires
        well_placed(slots, hasher),
        0 <= index < slots.len(),
        slots[index] is Some,
    ensures
        ({
            let replaced = slots.update(index, Some((key_at(slots, index), value)));
            &&& well_placed(replaced, hasher)
            &&& contents(replaced) == contents(slots).insert(key_at(slots, index), value)
        }),
{
    let key = key_at(slots, index);
    let replaced = slots.update(index, Some((key, value)));
    let capacity = slots.len() as int;
    assert forall|i: int, d: int| #[trigger] precedes_entry(replaced, hasher, i, d) implies holds_other(
        probed_slot(replaced, home_index(hasher, key_at(replaced, i), capacity), d),
        key_at(replaced, i),
    ) by {
        assert(key_at(replaced, i) == key_at(slots, i));
        assert(precedes_entry(slots, hasher, i, d));
        let home = home_index(hasher, key_at(slots, i), capacity);
        let p = probe_index(home, d, capacity);
        assert(holds_other(probed_slot(slots, home, d), key_at(slots, i)));
        if p == index {
            assert(holds_other(replaced[p], key_at(slots, i)));
        }
    }
    lemma_update_contents(slots, replaced, hasher, index, key, value);
}

/// `capacity` slots, all of them empty.
pub open spec fn emptied<V>(capacity: nat) -> Seq<Option<(Key, V)>> {
    Seq::new(capacity, |i: int| None::<(Key, V)>)
}

/// Slots that are all empty are well placed and hold the empty map.
pub proof fn lemma_empty_slots<V, H: KeyHasher>(slots: Seq<Option<(Key, V)>>, hasher: H)
    requires
        forall|i: int| 0 <= i < slots.len() ==> slots[i] is None,
    ensures
        well_placed(slots, hasher),
        contents(slots) == Map::<Key, V>::empty(),
{
    assert(contents(slots) =~= Map::<Key, V>::empty());
}

} // verus!
