//! The slot abstraction and the open-addressing table built on it.

use crate::common::RawId;
use vstd::prelude::*;

pub mod hasher;
pub mod iter;
pub mod laws;
pub mod local;
pub mod probe;
pub mod shared_slot;
pub mod shared_table;
pub mod sync;
pub mod table;

pub use hasher::WordHasher;
pub use iter::HashTableDrain;
pub use iter::HashTableIter;

pub use local::LocalTableEntry;
pub use local::LocalTableValues;
pub use sync::SyncTableEntry;
pub use sync::SyncTableValues;
pub use table::GetOrInsertFailureReason;
pub use table::GetOrInsertSuccess;
pub use table::HashTable;
pub use table::InsertFailureReason;
pub use table::TableIndexIter;

verus! {

/// The key of a node: its eight child identifiers, arranged as a 2x2x2 cube.
#[derive(Clone, Copy, Debug, Eq, Hash)]
pub struct Key(pub [[[RawId; 2]; 2]; 2]);

impl Key {
    /// The key assembled from its first pair of identifiers, the second pair
    /// and the far half of the cube.
    pub open spec fn from_parts(
        key00: [RawId; 2],
        key01: [RawId; 2],
        key1: [[RawId; 2]; 2],
    ) -> Key {
        Key([[key00, key01], key1])
    }

    /// The eight identifiers of the key, the last coordinate running fastest.
    pub open spec fn ids(self) -> Seq<RawId> {
        Seq::new(8, |i: int| self.0[i / 4][(i / 2) % 2][i % 2])
    }

    /// A key is the key assembled from its own parts.
    pub proof fn lemma_from_own_parts(self)
        ensures
            Key::from_parts(self.0[0][0], self.0[0][1], self.0[1]) == self,
    {
        let k = Key::from_parts(self.0[0][0], self.0[0][1], self.0[1]);
        assert(k.0[0] =~= self.0[0]);
        assert(k.0 =~= self.0);
    }

    /// Keys with the same eight identifiers are the same key.
    pub proof fn lemma_ext_equal(self, other: Key)
        requires
            forall|i: int, j: int, k: int|
                0 <= i < 2 && 0 <= j < 2 && 0 <= k < 2 ==> self.0[i][j][k] == other.0[i][j][k],
        ensures
            self == other,
    {
        assert forall|i: int, j: int| 0 <= i < 2 && 0 <= j < 2 implies self.0[i][j]
            == other.0[i][j] by {
            assert(self.0[i][j][0] == other.0[i][j][0]);
            assert(self.0[i][j][1] == other.0[i][j][1]);
            assert(self.0[i][j] =~= other.0[i][j]);
        }
        assert forall|i: int| 0 <= i < 2 implies self.0[i] == other.0[i] by {
            assert(self.0[i][0] == other.0[i][0]);
            assert(self.0[i][1] == other.0[i][1]);
            assert(self.0[i] =~= other.0[i]);
        }
        assert(self.0 =~= other.0);
    }
}

impl PartialEq for Key {
    fn eq(&self, other: &Key) -> (r: bool) {
        let r = self.0[0][0][0] == other.0[0][0][0] && self.0[0][0][1] == other.0[0][0][1]
            && self.0[0][1][0] == other.0[0][1][0] && self.0[0][1][1] == other.0[0][1][1]
            && self.0[1][0][0] == other.0[1][0][0] && self.0[1][0][1] == other.0[1][0][1]
            && self.0[1][1][0] == other.0[1][1][0] && self.0[1][1][1] == other.0[1][1][1];
        proof {
            if r {
                self.lemma_ext_equal(*other);
            }
        }
        r
    }
}

impl vstd::std_specs::cmp::PartialEqSpecImpl for Key {
    open spec fn obeys_eq_spec() -> bool {
        true
    }

    open spec fn eq_spec(&self, other: &Key) -> bool {
        *self == *other
    }
}

/// What `set_late_value` hands back when the late value was set before.
#[derive(Debug)]
pub struct LateValueAlreadySet<LateValue> {
    /// The value the caller passed, returned unused.
    pub passed_in_value: LateValue,
    /// The late value that the entry keeps.
    pub value: LateValue,
}

/// What `fill` hands back when the slot was occupied before the call.
#[derive(Debug)]
pub struct AlreadyFull<'a, Value> {
    /// The value the caller passed, returned unmodified.
    pub passed_in_value: Value,
    /// The key that occupies the slot.
    pub entry_key: Key,
    /// The value that occupies the slot.
    pub entry_value: &'a Value,
}

/// The payload of an entry: an early value fixed at insertion, and a late
/// value that starts unset and can be set once afterwards.
pub trait TableEntryValues: Sized {
    type LateValue: Copy;

    type EarlyValue;

    /// The early value.
    spec fn spec_early_value(&self) -> Self::EarlyValue;

    /// The late value, `None` while it is unset.
    spec fn spec_late_value(&self) -> Option<Self::LateValue>;

    /// A payload is determined by its early and its late value.
    proof fn lemma_values_ext_equal(a: Self, b: Self)
        requires
            a.spec_early_value() == b.spec_early_value(),
            a.spec_late_value() == b.spec_late_value(),
        ensures
            a == b,
    ;

    fn new(early_value: Self::EarlyValue, late_value: Option<Self::LateValue>) -> (r: Self)
        ensures
            r.spec_early_value() == early_value,
            r.spec_late_value() == late_value,
    ;

    fn early_value(&self) -> (r: &Self::EarlyValue)
        ensures
            *r == self.spec_early_value(),
    ;

    fn late_value(&self) -> (r: Option<Self::LateValue>)
        ensures
            r == self.spec_late_value(),
    ;

    /// Sets the late value if it is unset. `None` asks for no change. Once
    /// set, the late value stays: a later `Some` comes back in the error,
    /// beside the value that is kept.
    fn set_late_value(&mut self, late_value: Option<Self::LateValue>) -> (r: Result<
        (),
        LateValueAlreadySet<Self::LateValue>,
    >)
        ensures
            final(self).spec_early_value() == old(self).spec_early_value(),
            final(self).spec_late_value() == set_late_value_result(
                old(self).spec_late_value(),
                late_value,
            ),
            r == set_late_value_outcome(old(self).spec_late_value(), late_value),
    ;

    fn into_parts(self) -> (r: (Self::EarlyValue, Option<Self::LateValue>))
        ensures
            r.0 == self.spec_early_value(),
            r.1 == self.spec_late_value(),
    ;
}

/// The late value after `set_late_value(passed)` on an entry whose late value
/// was `current`.
pub open spec fn set_late_value_result<L>(current: Option<L>, passed: Option<L>) -> Option<L> {
    if current is Some {
        current
    } else {
        passed
    }
}

/// What `set_late_value(passed)` returns on an entry whose late value was
/// `current`.
pub open spec fn set_late_value_outcome<L>(current: Option<L>, passed: Option<L>) -> Result<
    (),
    LateValueAlreadySet<L>,
> {
    match (current, passed) {
        (Some(value), Some(passed_in_value)) => Err(
            LateValueAlreadySet { passed_in_value, value },
        ),
        _ => Ok(()),
    }
}

/// The hash function of a table. The hash of a key depends on the hasher and
/// on the key alone: a hasher gives equal keys equal hashes.
pub trait KeyHasher {
    /// The hash that this hasher gives `key`.
    spec fn spec_hash_key(&self, key: Key) -> u64;

    fn hash_key(&self, key: &Key) -> (hash: u64)
        ensures
            hash == self.spec_hash_key(*key),
    ;
}

/// One slot of a table: empty, or one key with its payload.
pub trait TableEntry: Sized {
    type Values: TableEntryValues;

    /// What the slot holds.
    spec fn view(&self) -> Option<(Key, Self::Values)>;

    /// The slot is at rest: no operation on it is under way.
    spec fn wf(&self) -> bool;

    fn empty() -> (r: Self)
        ensures
            r.wf(),
            r@ is None,
    ;

    fn get(&self) -> (r: Option<(Key, &Self::Values)>)
        requires
            self.wf(),
        ensures
            match r {
                Some((key, value)) => self@ == Some((key, *value)),
                None => self@ is None,
            },
    ;

    fn fill(&mut self, key: Key, value: Self::Values) -> (r: Result<
        &Self::Values,
        AlreadyFull<Self::Values>,
    >)
        requires
            old(self).wf(),
        ensures
            final(self).wf(),
            match old(self)@ {
                None => final(self)@ == Some((key, value)) && r is Ok && *r->Ok_0 == value,
                Some((entry_key, entry_value)) => final(self)@ == old(self)@ && r is Err
                    && r->Err_0.passed_in_value == value && r->Err_0.entry_key == entry_key
                    && *r->Err_0.entry_value == entry_value,
            },
    ;

    fn take(&mut self) -> (r: Option<(Key, Self::Values)>)
        requires
            old(self).wf(),
        ensures
            final(self).wf(),
            final(self)@ is None,
            r == old(self)@,
    ;

    /// Sets the late value of the entry in this slot, as
    /// `TableEntryValues::set_late_value` does; `None` when the slot is empty.
    fn set_late_value(
        &mut self,
        late_value: Option<<Self::Values as TableEntryValues>::LateValue>,
    ) -> (r: Option<Result<(), LateValueAlreadySet<<Self::Values as TableEntryValues>::LateValue>>>)
        requires
            old(self).wf(),
        ensures
            final(self).wf(),
            match old(self)@ {
                None => final(self)@ is None && r is None,
                Some((key, value)) => {
                    &&& r == Some(set_late_value_outcome(value.spec_late_value(), late_value))
                    &&& final(self)@ matches Some((final_key, final_value))
                    &&& final_key == key
                    &&& final_value.spec_early_value() == value.spec_early_value()
                    &&& final_value.spec_late_value() == set_late_value_result(
                        value.spec_late_value(),
                        late_value,
                    )
                },
            },
    ;
}

} // verus!
