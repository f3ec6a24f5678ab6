//! The slot protocol under shared access, as a transition system.
//!
//! Several writers and readers work on one slot at once. Each of them takes
//! one step at a time: one exchange, one load, one store, or the write or
//! read of one field. Between two steps of one of them the others may take
//! any number of steps. What each does after it has seen the state word is
//! what `spec_fill_step` and `spec_get_step` decide. Steps take effect in
//! the order in which they are taken: the fields are written before `Full`
//! is stored with release ordering and read after it is loaded with acquire
//! ordering, so that no reader sees the fields older than the word.
//!
//! Whatever the order of the steps: one writer at most stores its entry;
//! every other writer that returns has its value back and reports the stored
//! entry; and a reader that returns an entry returns the stored one, whole.

use crate::common::RawId;
use crate::hashtable_base::sync::spec_claim;
use crate::hashtable_base::sync::spec_fill_step;
use crate::hashtable_base::sync::spec_get_step;
use crate::hashtable_base::sync::FillStep;
use crate::hashtable_base::sync::GetStep;
use crate::hashtable_base::sync::State;
use crate::hashtable_base::Key;
use vstd::prelude::*;

verus! {

/// The memory of a slot that is shared: the state word, and the fields that
/// the word guards.
pub struct SharedSlot<V> {
    pub word: u64,
    pub key01: [RawId; 2],
    pub key1: [[RawId; 2]; 2],
    pub value: Option<V>,
}

/// Where a writer stands in `fill`.
pub enum Writer<V> {
    /// Exchanges `Empty` for `ModificationInProgress` next.
    Exchanging { key: Key, value: V },
    /// Has claimed the slot and has written `written` of its three fields.
    Writing { key: Key, value: V, written: int },
    /// Has written its entry and stores `Full` next.
    Publishing { key: Key, value: V },
    /// Waits for the writer that holds the slot: loads the word next.
    Waiting { value: V, backoff_step: u32 },
    /// Has seen `Full` with `key00` and reads the fields of the occupant next.
    Reporting { value: V, key00: [RawId; 2] },
    /// Has returned `Ok`: the slot holds its entry.
    Stored { key: Key, value: V },
    /// Has returned `AlreadyFull`.
    Refused { passed_in_value: V, entry_key: Key, entry_value: V },
}

/// Where a reader stands in `get`.
pub enum Reader<V> {
    /// Loads the word next.
    Loading { backoff_step: u32 },
    /// Has seen `Full` with `key00` and reads the fields next.
    Reading { key00: [RawId; 2] },
    /// Has returned.
    Returned { entry: Option<(Key, V)> },
}

/// A slot with the writers and readers at work on it. `owner` is the writer
/// whose exchange succeeded, if any has.
pub struct SharedSystem<V> {
    pub slot: SharedSlot<V>,
    pub writers: Seq<Writer<V>>,
    pub readers: Seq<Reader<V>>,
    pub owner: Option<int>,
}

/// One step: of the writer or of the reader with this index. An exchange
/// may fail though the word is `Empty`, as a weak exchange does.
pub enum SharedStep {
    Writer { index: int, exchange_fails: bool },
    Reader { index: int },
}

/// The entry that the slot shows to everyone: the one under a `Full` word.
pub open spec fn published<V>(slot: SharedSlot<V>) -> Option<(Key, V)> {
    match (State::spec_from_word(slot.word), slot.value) {
        (State::Full { key00 }, Some(value)) => Some(
            (Key::from_parts(key00, slot.key01, slot.key1), value),
        ),
        _ => None,
    }
}

/// The system after a step of writer `index`.
pub open spec fn after_writer_step<V>(
    system: SharedSystem<V>,
    index: int,
    exchange_fails: bool,
) -> SharedSystem<V> {
    let slot = system.slot;
    match system.writers[index] {
        Writer::Exchanging { key, value } => {
            let (answer, word) = if exchange_fails {
                (Err(slot.word), slot.word)
            } else {
                spec_claim(slot.word)
            };
            match spec_fill_step(answer) {
                FillStep::Claimed => SharedSystem {
                    slot: SharedSlot { word, ..slot },
                    writers: system.writers.update(
                        index,
                        Writer::Writing { key, value, written: 0 },
                    ),
                    owner: Some(index),
                    ..system
                },
                FillStep::Retry => system,
                FillStep::Wait => SharedSystem {
                    writers: system.writers.update(
                        index,
                        Writer::Waiting { value, backoff_step: 0 },
                    ),
                    ..system
                },
                FillStep::Occupied { key00 } => SharedSystem {
                    writers: system.writers.update(index, Writer::Reporting { value, key00 }),
                    ..system
                },
            }
        },
        Writer::Writing { key, value, written } => {
            if written == 0 {
                SharedSystem {
                    slot: SharedSlot { key01: key.0[0][1], ..slot },
                    writers: system.writers.update(
                        index,
                        Writer::Writing { key, value, written: 1 },
                    ),
                    ..system
                }
            } else if written == 1 {
                SharedSystem {
                    slot: SharedSlot { key1: key.0[1], ..slot },
                    writers: system.writers.update(
                        index,
                        Writer::Writing { key, value, written: 2 },
                    ),
                    ..system
                }
            } else {
                SharedSystem {
                    slot: SharedSlot { value: Some(value), ..slot },
                    writers: system.writers.update(index, Writer::Publishing { key, value }),
                    ..system
                }
            }
        },
        Writer::Publishing { key, value } => SharedSystem {
            slot: SharedSlot { word: (State::Full { key00: key.0[0][0] }).spec_to_word(), ..slot },
            writers: system.writers.update(index, Writer::Stored { key, value }),
            ..system
        },
        Writer::Waiting { value, backoff_step } => match spec_get_step(slot.word, backoff_step) {
            GetStep::Vacant => system,
            GetStep::Occupied { key00 } => SharedSystem {
                writers: system.writers.update(index, Writer::Reporting { value, key00 }),
                ..system
            },
            GetStep::Spin { next_backoff_step, .. } => SharedSystem {
                writers: system.writers.update(
                    index,
                    Writer::Waiting { value, backoff_step: next_backoff_step },
                ),
                ..system
            },
            GetStep::Yield => system,
        },
        Writer::Reporting { value, key00 } => SharedSystem {
            writers: system.writers.update(
                index,
                Writer::Refused {
                    passed_in_value: value,
                    entry_key: Key::from_parts(key00, slot.key01, slot.key1),
                    entry_value: slot.value->0,
                },
            ),
            ..system
        },
        Writer::Stored { .. } => system,
        Writer::Refused { .. } => system,
    }
}

/// The system after a step of reader `index`.
pub open spec fn after_reader_step<V>(system: SharedSystem<V>, index: int) -> SharedSystem<V> {
    let slot = system.slot;
    match system.readers[index] {
        Reader::Loading { backoff_step } => match spec_get_step(slot.word, backoff_step) {
            GetStep::Vacant => SharedSystem {
                readers: system.readers.update(index, Reader::Returned { entry: None }),
                ..system
            },
            GetStep::Occupied { key00 } => SharedSystem {
                readers: system.readers.update(index, Reader::Reading { key00 }),
                ..system
            },
            GetStep::Spin { next_backoff_step, .. } => SharedSystem {
                readers: system.readers.update(
                    index,
                    Reader::Loading { backoff_step: next_backoff_step },
                ),
                ..system
            },
            GetStep::Yield => system,
        },
        Reader::Reading { key00 } => SharedSystem {
            readers: system.readers.update(
                index,
                Reader::Returned {
                    entry: Some((Key::from_parts(key00, slot.key01, slot.key1), slot.value->0)),
                },
            ),
            ..system
        },
        Reader::Returned { .. } => system,
    }
}

/// The system after `step`. A step of a writer or reader that is not there
/// changes nothing.
pub open spec fn after_step<V>(system: SharedSystem<V>, step: SharedStep) -> SharedSystem<V> {
    match step {
        SharedStep::Writer { index, exchange_fails } => if 0 <= index < system.writers.len() {
            after_writer_step(system, index, exchange_fails)
        } else {
            system
        },
        SharedStep::Reader { index } => if 0 <= index < system.readers.len() {
            after_reader_step(system, index)
        } else {
            system
        },
    }
}

/// The system after `steps`, in order.
pub open spec fn after_steps<V>(system: SharedSystem<V>, steps: Seq<SharedStep>) -> SharedSystem<V>
    decreases steps.len(),
{
    if steps.len() == 0 {
        system
    } else {
        after_step(after_steps(system, steps.drop_last()), steps.last())
    }
}

/// The system before any step: an empty slot, each writer about to
/// exchange for the key and the value it was called with, each of
/// `readers` readers about to load.
pub open spec fn initial_system<V>(
    slot: SharedSlot<V>,
    calls: Seq<(Key, V)>,
    readers: nat,
) -> SharedSystem<V> {
    SharedSystem {
        slot: SharedSlot { word: State::EMPTY_U64, ..slot },
        writers: Seq::new(
            calls.len(),
            |i: int| Writer::Exchanging { key: calls[i].0, value: calls[i].1 },
        ),
        readers: Seq::new(readers, |i: int| Reader::Loading { backoff_step: 0 }),
        owner: None,
    }
}

/// The first two identifiers of `key` are not zero, as those of every key
/// that a program holds are.
pub open spec fn key_starts_with_identifiers(key: Key) -> bool {
    key.0[0][0][0]@ != 0 && key.0[0][0][1]@ != 0
}

/// The slot holds the fields of the entry of `key` and `value` from the
/// first up to the `written`-th.
pub open spec fn fields_written<V>(slot: SharedSlot<V>, key: Key, value: V, written: int) -> bool {
    &&& written >= 1 ==> slot.key01 == key.0[0][1]
    &&& written >= 2 ==> slot.key1 == key.0[1]
    &&& written >= 3 ==> slot.value == Some(value)
}

/// What holds of writer `index`, called with `call`, at every moment.
pub open spec fn writer_invariant<V>(system: SharedSystem<V>, call: (Key, V), index: int) -> bool {
    let slot = system.slot;
    let owns = system.owner == Some(index);
    match system.writers[index] {
        Writer::Exchanging { key, value } => (key, value) == call && !owns,
        Writer::Writing { key, value, written } => {
            &&& (key, value) == call
            &&& owns
            &&& slot.word == State::MODIFICATION_IN_PROGRESS_U64
            &&& 0 <= written <= 2
            &&& fields_written(slot, key, value, written)
        },
        Writer::Publishing { key, value } => {
            &&& (key, value) == call
            &&& owns
            &&& slot.word == State::MODIFICATION_IN_PROGRESS_U64
            &&& fields_written(slot, key, value, 3)
        },
        Writer::Waiting { value, .. } => value == call.1 && !owns && slot.word != State::EMPTY_U64,
        Writer::Reporting { value, key00 } => {
            &&& value == call.1
            &&& !owns
            &&& State::spec_from_word(slot.word) == State::Full { key00 }
        },
        Writer::Stored { key, value } => {
            &&& (key, value) == call
            &&& owns
            &&& published(slot) == Some((key, value))
        },
        Writer::Refused { passed_in_value, entry_key, entry_value } => {
            &&& passed_in_value == call.1
            &&& !owns
            &&& published(slot) == Some((entry_key, entry_value))
        },
    }
}

/// What holds of reader `index` at every moment.
pub open spec fn reader_invariant<V>(system: SharedSystem<V>, index: int) -> bool {
    match system.readers[index] {
        Reader::Loading { .. } => true,
        Reader::Reading { key00 } => State::spec_from_word(system.slot.word) == State::Full {
            key00,
        },
        Reader::Returned { entry } => entry is Some ==> published(system.slot) == entry,
    }
}

/// What holds of a system at every moment, where the writers were called
/// with `calls`.
pub open spec fn system_invariant<V>(system: SharedSystem<V>, calls: Seq<(Key, V)>) -> bool {
    &&& system.writers.len() == calls.len()
    &&& State::valid_word(system.slot.word)
    &&& system.slot.word == State::EMPTY_U64 <==> system.owner is None
    &&& system.owner matches Some(owner) ==> 0 <= owner < system.writers.len()
    &&& State::spec_from_word(system.slot.word) is Full ==> system.slot.value is Some
    &&& forall|i: int| 0 <= i < calls.len() ==> key_starts_with_identifiers((#[trigger] calls[i]).0)
    &&& forall|i: int|
        0 <= i < system.writers.len() ==> #[trigger] writer_invariant(system, calls[i], i)
    &&& forall|i: int| 0 <= i < system.readers.len() ==> #[trigger] reader_invariant(system, i)
}

/// The invariant holds before any step.
pub proof fn lemma_initial_system<V>(slot: SharedSlot<V>, calls: Seq<(Key, V)>, readers: nat)
    requires
        forall|i: int| 0 <= i < calls.len() ==> key_starts_with_identifiers((#[trigger] calls[i]).0),
    ensures
        system_invariant(initial_system(slot, calls, readers), calls),
{
    State::lemma_reserved_words();
}

/// A step keeps the invariant.
pub proof fn lemma_step_keeps_invariant<V>(
    system: SharedSystem<V>,
    calls: Seq<(Key, V)>,
    step: SharedStep,
)
    requires
        system_invariant(system, calls),
    ensures
        system_invariant(after_step(system, step), calls),
{
    let after = after_step(system, step);
    State::lemma_reserved_words();
    match step {
        SharedStep::Writer { index, exchange_fails } => {
            if 0 <= index < system.writers.len() {
                assert(writer_invariant(system, calls[index], index));
                match system.writers[index] {
                    Writer::Publishing { key, value } => {
                        assert(key_starts_with_identifiers(calls[index].0));
                        let full = State::Full { key00: key.0[0][0] };
                        full.lemma_from_word_to_word();
                        key.lemma_from_own_parts();
                    },
                    _ => {},
                }
                assert forall|i: int| 0 <= i < after.writers.len() implies #[trigger] writer_invariant(
                    after,
                    calls[i],
                    i,
                ) by {
                    assert(writer_invariant(system, calls[i], i));
                }
                assert forall|i: int| 0 <= i < after.readers.len() implies #[trigger] reader_invariant(
                    after,
                    i,
                ) by {
                    assert(reader_invariant(system, i));
                }
            }
        },
        SharedStep::Reader { index } => {
            if 0 <= index < system.readers.len() {
                assert(reader_invariant(system, index));
                assert forall|i: int| 0 <= i < after.writers.len() implies #[trigger] writer_invariant(
                    after,
                    calls[i],
                    i,
                ) by {
                    assert(writer_invariant(system, calls[i], i));
                }
                assert forall|i: int| 0 <= i < after.readers.len() implies #[trigger] reader_invariant(
                    after,
                    i,
                ) by {
                    assert(reader_invariant(system, i));
                }
            }
        },
    }
}

/// Any number of steps, in any order, keep the invariant.
pub proof fn lemma_steps_keep_invariant<V>(
    system: SharedSystem<V>,
    calls: Seq<(Key, V)>,
    steps: Seq<SharedStep>,
)
    requires
        system_invariant(system, calls),
    ensures
        system_invariant(after_steps(system, steps), calls),
    decreases steps.len(),
{
    if steps.len() > 0 {
        lemma_steps_keep_invariant(system, calls, steps.drop_last());
        lemma_step_keeps_invariant(after_steps(system, steps.drop_last()), calls, steps.last());
    }
}

/// Uniqueness, visibility and whole reads under any interleaving. After
/// any steps in any order on a slot that was empty:
/// - at most one writer has stored its entry, and that entry is the one
///   that the slot shows;
/// - every writer that was refused has the value back that it was called
///   with and reports the entry that the slot shows, which is the entry of
///   the writer that stored;
/// - every reader that returned an entry returned the one that the slot
///   shows: no part of it is of another entry or unwritten.
pub proof fn lemma_one_entry_for_all<V>(
    slot: SharedSlot<V>,
    calls: Seq<(Key, V)>,
    readers: nat,
    steps: Seq<SharedStep>,
)
    requires
        forall|i: int| 0 <= i < calls.len() ==> key_starts_with_identifiers((#[trigger] calls[i]).0),
    ensures
        ({
            let system = after_steps(initial_system(slot, calls, readers), steps);
            &&& system.writers.len() == calls.len()
            &&& forall|i: int, j: int|
                0 <= i < calls.len() && 0 <= j < calls.len() && (#[trigger] system.writers[i])
                    is Stored && (#[trigger] system.writers[j]) is Stored ==> i == j
            &&& forall|i: int|
                0 <= i < calls.len() ==> ((#[trigger] system.writers[i]) matches Writer::Stored {
                    key,
                    value,
                } ==> (key, value) == calls[i] && published(system.slot) == Some(calls[i]))
            &&& forall|i: int|
                0 <= i < calls.len() ==> ((#[trigger] system.writers[i]) matches Writer::Refused {
                    passed_in_value,
                    entry_key,
                    entry_value,
                } ==> {
                    &&& passed_in_value == calls[i].1
                    &&& published(system.slot) == Some((entry_key, entry_value))
                    &&& system.owner matches Some(owner)
                    &&& owner != i
                    &&& system.writers[owner] is Stored
                    &&& calls[owner] == (entry_key, entry_value)
                })
            &&& forall|i: int|
                0 <= i < system.readers.len() ==> ((#[trigger] system.readers[i])
                    matches Reader::Returned { entry: Some(entry) } ==> published(system.slot)
                    == Some(entry))
        }),
{
    let start = initial_system(slot, calls, readers);
    lemma_initial_system(slot, calls, readers);
    lemma_steps_keep_invariant(start, calls, steps);
    let system = after_steps(start, steps);
    assert forall|i: int, j: int|
        0 <= i < calls.len() && 0 <= j < calls.len() && (#[trigger] system.writers[i]) is Stored && (
        #[trigger] system.writers[j]) is Stored implies i == j by {
        assert(writer_invariant(system, calls[i], i));
        assert(writer_invariant(system, calls[j], j));
    }
    assert forall|i: int| 0 <= i < calls.len() implies ((#[trigger] system.writers[i])
        matches Writer::Stored { key, value } ==> (key, value) == calls[i] && published(system.slot)
        == Some(calls[i])) by {
        assert(writer_invariant(system, calls[i], i));
    }
    assert forall|i: int| 0 <= i < calls.len() implies ((#[trigger] system.writers[i])
        matches Writer::Refused { passed_in_value, entry_key, entry_value } ==> {
        &&& passed_in_value == calls[i].1
        &&& published(system.slot) == Some((entry_key, entry_value))
        &&& system.owner matches Some(owner)
        &&& owner != i
        &&& system.writers[owner] is Stored
        &&& calls[owner] == (entry_key, entry_value)
    }) by {
        assert(writer_invariant(system, calls[i], i));
        if system.writers[i] is Refused {
            let owner = system.owner->0;
            assert(writer_invariant(system, calls[owner], owner));
        }
    }
    assert forall|i: int| 0 <= i < system.readers.len() implies ((#[trigger] system.readers[i])
        matches Reader::Returned { entry: Some(entry) } ==> published(system.slot) == Some(
        entry,
    )) by {
        assert(reader_invariant(system, i));
    }
}

} // verus!
