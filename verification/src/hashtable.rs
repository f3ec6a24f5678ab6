//! The level-tagged layer: identifiers, keys and tables that carry the depth
//! of their nodes in their type, so that data of different depths cannot be
//! mixed. A tag costs nothing at run time; erasing it and putting it back
//! never fails and changes no identifier.

pub use crate::hashtable_base::GetOrInsertFailureReason;
pub use crate::hashtable_base::GetOrInsertSuccess;
pub use crate::hashtable_base::InsertFailureReason;
pub use crate::hashtable_base::TableEntry;

use crate::common::RawId;
use crate::hashtable_base::set_late_value_outcome;
use crate::hashtable_base::set_late_value_result;
use crate::hashtable_base::HashTable as BaseHashTable;
use crate::hashtable_base::Key as BaseKey;
use crate::hashtable_base::KeyHasher;
use crate::hashtable_base::LateValueAlreadySet;
use crate::hashtable_base::TableEntryValues as TableEntryValuesBase;
use std::fmt::Debug;
use std::hash::Hash;
use std::marker::PhantomData;
use vstd::prelude::*;
use vstd::std_specs::cmp::PartialEqSpecImpl;
use vstd::std_specs::convert::FromSpecImpl;

verus! {

/// A depth of the tree, as a type. `LEVEL` is the depth as a number: it
/// follows from the type alone and is stored nowhere.
pub trait Level: 'static + Copy + Eq + Hash + Debug {
    const LEVEL: usize;
}

/// A depth above the leaves: its nodes are made of nodes of `ParentLevel`,
/// the depth just below.
pub trait NonLeafLevel: Level {
    type ParentLevel: Level;
}

/// Depth 0: the leaves, which hold content and no child identifiers.
#[derive(Copy, Clone, Eq, PartialEq, Hash, Debug)]
pub struct Leaf(PhantomData<()>);

impl Level for Leaf {
    const LEVEL: usize = 0;
}

/// The depth just above `L`.
#[derive(Eq, PartialEq, Hash, Debug)]
pub struct NonLeaf<L: Level>(PhantomData<L>);

impl<L: Level> Clone for NonLeaf<L> {
    fn clone(&self) -> (r: Self)
        ensures
            r == *self,
    {
        NonLeaf(PhantomData)
    }
}

impl<L: Level> Copy for NonLeaf<L> {

}

impl<L: Level> Level for NonLeaf<L> {
    const LEVEL: usize = 1 + L::LEVEL;
}

impl<L: Level> NonLeafLevel for NonLeaf<L> {
    type ParentLevel = L;
}

pub type Level0 = Leaf;

pub type Level1 = NonLeaf<Level0>;

pub type Level2 = NonLeaf<Level1>;

pub type Level3 = NonLeaf<Level2>;

pub type Level4 = NonLeaf<Level3>;

pub type Level5 = NonLeaf<Level4>;

pub type Level6 = NonLeaf<Level5>;

pub type Level7 = NonLeaf<Level6>;

pub type Level8 = NonLeaf<Level7>;

pub type Level9 = NonLeaf<Level8>;

pub type Level10 = NonLeaf<Level9>;

pub type Level11 = NonLeaf<Level10>;

pub type Level12 = NonLeaf<Level11>;

pub type Level13 = NonLeaf<Level12>;

pub type Level14 = NonLeaf<Level13>;

pub type Level15 = NonLeaf<Level14>;

pub type Level16 = NonLeaf<Level15>;

/// The number of levels that have a name: `Level0` to `Level16`.
pub const LEVEL_COUNT: usize = 17;

/// The depth of the level above `L` is one more than the depth of `L`,
/// as long as that is a number a `usize` can hold.
pub proof fn lemma_level_above<L: Level>()
    requires
        L::LEVEL < usize::MAX,
    ensures
        NonLeaf::<L>::LEVEL == 1 + L::LEVEL,
{
}

/// Each named level has the depth that its name gives. Proofs that need the
/// number of a named level call this lemma.
pub proof fn lemma_level_ladder()
    ensures
        Level0::LEVEL == 0,
        Level1::LEVEL == 1,
        Level2::LEVEL == 2,
        Level3::LEVEL == 3,
        Level4::LEVEL == 4,
        Level5::LEVEL == 5,
        Level6::LEVEL == 6,
        Level7::LEVEL == 7,
        Level8::LEVEL == 8,
        Level9::LEVEL == 9,
        Level10::LEVEL == 10,
        Level11::LEVEL == 11,
        Level12::LEVEL == 12,
        Level13::LEVEL == 13,
        Level14::LEVEL == 14,
        Level15::LEVEL == 15,
        Level16::LEVEL == 16,
        Level16::LEVEL + 1 == LEVEL_COUNT,
{
}

/// The identifier of a node of level `L`.
#[derive(Eq, Hash, Debug)]
pub struct Id<L: Level> {
    id: RawId,
    _phantom: PhantomData<L>,
}

impl<L: Level> Id<L> {
    /// The identifier without its tag.
    pub closed spec fn view(&self) -> RawId {
        self.id
    }

    /// The identifier `id`, tagged with `L`.
    pub closed spec fn tagged(id: RawId) -> Id<L> {
        Id { id, _phantom: PhantomData }
    }

    /// Tagging and erasing the tag are inverse to each other.
    pub broadcast proof fn lemma_tagged_view(id: RawId)
        ensures
            (#[trigger] Id::<L>::tagged(id))@ == id,
    {
    }

    /// A tagged identifier is determined by the identifier under the tag.
    pub broadcast proof fn lemma_view_tagged(self)
        ensures
            Id::<L>::tagged(#[trigger] self@) == self,
    {
    }
}

impl<L: Level> Clone for Id<L> {
    fn clone(&self) -> (r: Self)
        ensures
            r == *self,
    {
        Id { id: self.id, _phantom: PhantomData }
    }
}

impl<L: Level> Copy for Id<L> {

}

impl<L: Level> PartialEq for Id<L> {
    fn eq(&self, other: &Id<L>) -> (r: bool) {
        self.id == other.id
    }
}

impl<L: Level> PartialEqSpecImpl for Id<L> {
    open spec fn obeys_eq_spec() -> bool {
        true
    }

    open spec fn eq_spec(&self, other: &Id<L>) -> bool {
        *self == *other
    }
}

impl<L: Level> From<RawId> for Id<L> {
    fn from(id: RawId) -> (r: Id<L>)
        ensures
            r@ == id,
    {
        Id { id, _phantom: PhantomData }
    }
}

impl<L: Level> FromSpecImpl<RawId> for Id<L> {
    open spec fn obeys_from_spec() -> bool {
        true
    }

    open spec fn from_spec(id: RawId) -> Id<L> {
        Id::<L>::tagged(id)
    }
}

impl<L: Level> From<Id<L>> for RawId {
    fn from(v: Id<L>) -> (r: RawId) {
        v.id
    }
}

impl<L: Level> FromSpecImpl<Id<L>> for RawId {
    open spec fn obeys_from_spec() -> bool {
        true
    }

    open spec fn from_spec(v: Id<L>) -> RawId {
        v@
    }
}

/// The key of a node of the level above `L`: the identifiers of its eight
/// children, each a node of level `L`.
#[derive(Eq, Hash, Debug)]
pub struct Key<L: Level>(pub [[[Id<L>; 2]; 2]; 2]);

impl<L: Level> Key<L> {
    /// The key without its tags.
    pub open spec fn view(&self) -> BaseKey {
        BaseKey(
            [
                [[self.0[0][0][0]@, self.0[0][0][1]@], [self.0[0][1][0]@, self.0[0][1][1]@]],
                [[self.0[1][0][0]@, self.0[1][0][1]@], [self.0[1][1][0]@, self.0[1][1][1]@]],
            ],
        )
    }

    /// The key `key`, each identifier tagged with `L`.
    pub open spec fn tagged(key: BaseKey) -> Key<L> {
        Key(
            [
                [
                    [Id::tagged(key.0[0][0][0]), Id::tagged(key.0[0][0][1])],
                    [Id::tagged(key.0[0][1][0]), Id::tagged(key.0[0][1][1])],
                ],
                [
                    [Id::tagged(key.0[1][0][0]), Id::tagged(key.0[1][0][1])],
                    [Id::tagged(key.0[1][1][0]), Id::tagged(key.0[1][1][1])],
                ],
            ],
        )
    }

    /// Tagged keys with the same eight identifiers are the same key.
    pub proof fn lemma_ext_equal(self, other: Key<L>)
        requires
            forall|i: int, j: int, k: int|
                0 <= i < 2 && 0 <= j < 2 && 0 <= k < 2 ==> self.0[i][j][k] == other.0[i][j][k],
        ensures
            self == other,
    {
        assert forall|i: int, j: int| 0 <= i < 2 && 0 <= j < 2 implies self.0[i][j]
            == other.0[i][j] by {
            assert(self.0[i][j][0] == other.0[i][j][0]);
            assert(self.0[i][j][1] == other.0[i][j][1]);
            assert(self.0[i][j] =~= other.0[i][j]);
        }
        assert forall|i: int| 0 <= i < 2 implies self.0[i] == other.0[i] by {
            assert(self.0[i][0] == other.0[i][0]);
            assert(self.0[i][1] == other.0[i][1]);
            assert(self.0[i] =~= other.0[i]);
        }
        assert(self.0 =~= other.0);
    }

    /// Erasing the tags of a key and tagging the result again gives the key.
    pub proof fn lemma_tagged_view(self)
        ensures
            Key::<L>::tagged(self@) == self,
    {
        broadcast use Id::lemma_view_tagged;

        Key::<L>::tagged(self@).lemma_ext_equal(self);
    }

    /// Tagging a key and erasing the tags again gives the key.
    pub proof fn lemma_view_tagged(key: BaseKey)
        ensures
            Key::<L>::tagged(key)@ == key,
    {
        broadcast use Id::lemma_tagged_view;

        Key::<L>::tagged(key)@.lemma_ext_equal(key);
    }

    /// Keys that are the same without their tags are the same key.
    pub proof fn lemma_view_injective(self, other: Key<L>)
        requires
            self@ == other@,
        ensures
            self == other,
    {
        self.lemma_tagged_view();
        other.lemma_tagged_view();
    }
}

impl<L: Level> Clone for Key<L> {
    fn clone(&self) -> (r: Self)
        ensures
            r == *self,
    {
        *self
    }
}

impl<L: Level> Copy for Key<L> {

}

impl<L: Level> PartialEq for Key<L> {
    fn eq(&self, other: &Key<L>) -> (r: bool) {
        let r = self.0[0][0][0] == other.0[0][0][0] && self.0[0][0][1] == other.0[0][0][1]
            && self.0[0][1][0] == other.0[0][1][0] && self.0[0][1][1] == other.0[0][1][1]
            && self.0[1][0][0] == other.0[1][0][0] && self.0[1][0][1] == other.0[1][0][1]
            && self.0[1][1][0] == other.0[1][1][0] && self.0[1][1][1] == other.0[1][1][1];
        proof {
            if r {
                self.lemma_ext_equal(*other);
            }
        }
        r
    }
}

impl<L: Level> PartialEqSpecImpl for Key<L> {
    open spec fn obeys_eq_spec() -> bool {
        true
    }

    open spec fn eq_spec(&self, other: &Key<L>) -> bool {
        *self == *other
    }
}

impl<L: Level> From<Key<L>> for BaseKey {
    fn from(v: Key<L>) -> (r: BaseKey) {
        BaseKey(
            [
                [
                    [RawId::from(v.0[0][0][0]), RawId::from(v.0[0][0][1])],
                    [RawId::from(v.0[0][1][0]), RawId::from(v.0[0][1][1])],
                ],
                [
                    [RawId::from(v.0[1][0][0]), RawId::from(v.0[1][0][1])],
                    [RawId::from(v.0[1][1][0]), RawId::from(v.0[1][1][1])],
                ],
            ],
        )
    }
}

impl<L: Level> FromSpecImpl<Key<L>> for BaseKey {
    open spec fn obeys_from_spec() -> bool {
        true
    }

    open spec fn from_spec(v: Key<L>) -> BaseKey {
        v@
    }
}

impl<L: Level> From<BaseKey> for Key<L> {
    fn from(v: BaseKey) -> (r: Key<L>)
        ensures
            r@ == v,
    {
        proof {
            Key::<L>::lemma_view_tagged(v);
        }
        Key(
            [
                [
                    [Id::from(v.0[0][0][0]), Id::from(v.0[0][0][1])],
                    [Id::from(v.0[0][1][0]), Id::from(v.0[0][1][1])],
                ],
                [
                    [Id::from(v.0[1][0][0]), Id::from(v.0[1][0][1])],
                    [Id::from(v.0[1][1][0]), Id::from(v.0[1][1][1])],
                ],
            ],
        )
    }
}

impl<L: Level> FromSpecImpl<BaseKey> for Key<L> {
    open spec fn obeys_from_spec() -> bool {
        true
    }

    open spec fn from_spec(v: BaseKey) -> Key<L> {
        Key::<L>::tagged(v)
    }
}

/// The optional identifier `id`, tagged with `L`.
pub open spec fn tagged_option<L: Level>(id: Option<RawId>) -> Option<Id<L>> {
    match id {
        Some(id) => Some(Id::tagged(id)),
        None => None,
    }
}

/// The optional identifier `id` without its tag.
pub open spec fn untagged_option<L: Level>(id: Option<Id<L>>) -> Option<RawId> {
    match id {
        Some(id) => Some(id@),
        None => None,
    }
}

/// What `set_late_value` returned, without the tags.
pub open spec fn untagged_outcome<L: Level>(
    outcome: Option<Result<(), LateValueAlreadySet<Id<L>>>>,
) -> Option<Result<(), LateValueAlreadySet<RawId>>> {
    match outcome {
        None => None,
        Some(Ok(())) => Some(Ok(())),
        Some(Err(LateValueAlreadySet { passed_in_value, value })) => Some(
            Err(LateValueAlreadySet { passed_in_value: passed_in_value@, value: value@ }),
        ),
    }
}

/// The payload of an entry of level `L`: its late value is the identifier of
/// a node of that level.
pub trait TableEntryValues<L: Level>: Sized {
    type LateValue: Copy;

    type EarlyValue;

    /// The early value.
    spec fn tagged_early_value(&self) -> Self::EarlyValue;

    /// The late value, `None` while it is unset.
    spec fn tagged_late_value(&self) -> Option<Self::LateValue>;

    fn new(early_value: Self::EarlyValue, late_value: Option<Self::LateValue>) -> (r: Self)
        ensures
            r.tagged_early_value() == early_value,
            r.tagged_late_value() == late_value,
    ;

    fn early_value(&self) -> (r: &Self::EarlyValue)
        ensures
            *r == self.tagged_early_value(),
    ;

    fn late_value(&self) -> (r: Option<Self::LateValue>)
        ensures
            r == self.tagged_late_value(),
    ;

    /// Sets the late value if it is unset; see the untagged trait.
    fn set_late_value(&mut self, late_value: Option<Self::LateValue>) -> (r: Result<
        (),
        LateValueAlreadySet<Self::LateValue>,
    >)
        ensures
            final(self).tagged_early_value() == old(self).tagged_early_value(),
            final(self).tagged_late_value() == set_late_value_result(
                old(self).tagged_late_value(),
                late_value,
            ),
            r == set_late_value_outcome(old(self).tagged_late_value(), late_value),
    ;

    fn into(self) -> (r: (Self::EarlyValue, Option<Self::LateValue>))
        ensures
            r.0 == self.tagged_early_value(),
            r.1 == self.tagged_late_value(),
    ;
}

impl<L: Level, Values: TableEntryValuesBase<LateValue = RawId>> TableEntryValues<L> for Values {
    type EarlyValue = Values::EarlyValue;

    type LateValue = Id<L>;

    open spec fn tagged_early_value(&self) -> Values::EarlyValue {
        self.spec_early_value()
    }

    open spec fn tagged_late_value(&self) -> Option<Id<L>> {
        tagged_option(self.spec_late_value())
    }

    fn new(early_value: Values::EarlyValue, late_value: Option<Id<L>>) -> (r: Self) {
        broadcast use Id::lemma_view_tagged;

        let late_value = match late_value {
            Some(id) => Some(RawId::from(id)),
            None => None,
        };
        TableEntryValuesBase::new(early_value, late_value)
    }

    fn early_value(&self) -> (r: &Values::EarlyValue) {
        TableEntryValuesBase::early_value(self)
    }

    fn late_value(&self) -> (r: Option<Id<L>>) {
        match TableEntryValuesBase::late_value(self) {
            Some(id) => Some(Id::from(id)),
            None => None,
        }
    }

    fn set_late_value(&mut self, late_value: Option<Id<L>>) -> (r: Result<
        (),
        LateValueAlreadySet<Id<L>>,
    >) {
        broadcast use Id::lemma_view_tagged;

        let late_value = match late_value {
            Some(id) => Some(RawId::from(id)),
            None => None,
        };
        match TableEntryValuesBase::set_late_value(self, late_value) {
            Ok(()) => Ok(()),
            Err(LateValueAlreadySet { passed_in_value, value }) => Err(
                LateValueAlreadySet {
                    passed_in_value: Id::from(passed_in_value),
                    value: Id::from(value),
                },
            ),
        }
    }

    fn into(self) -> (r: (Values::EarlyValue, Option<Id<L>>)) {
        let (early_value, late_value) = TableEntryValuesBase::into_parts(self);
        let late_value = match late_value {
            Some(id) => Some(Id::from(id)),
            None => None,
        };
        (early_value, late_value)
    }
}

/// The table of level `L`: the operations of the untagged table, on keys
/// that carry the level.
pub trait HashTable<L: Level> {
    type LateValue: Copy;

    type EarlyValue;

    type Values: TableEntryValues<L, EarlyValue = Self::EarlyValue, LateValue = Self::LateValue>;

    type Entry: TableEntry<Values = Self::Values>;

    type Hasher: KeyHasher;

    /// The table without the tag.
    spec fn untagged(&self) -> BaseHashTable<Self::Entry, Self::Hasher>;

    fn capacity(&self) -> (r: usize)
        ensures
            r == self.untagged().spec_capacity(),
    ;

    fn insert_search_limit(&self) -> (r: usize)
        ensures
            r == self.untagged().spec_insert_search_limit(),
    ;

    fn find(&self, key: Key<L>) -> (r: Option<&Self::Values>)
        requires
            self.untagged().wf(),
        ensures
            r == self.untagged().spec_find(key@),
    ;

    fn insert(&mut self, key: Key<L>, value: Self::Values) -> (r: Result<
        &Self::Values,
        InsertFailureReason<Self::Values>,
    >)
        requires
            old(self).untagged().wf(),
        ensures
            old(self).untagged().insert_ensures(key@, value, final(self).untagged(), r),
    ;

    fn get_or_insert(&mut self, key: Key<L>, value: Self::Values) -> (r: Result<
        GetOrInsertSuccess<Self::Values>,
        GetOrInsertFailureReason<Self::Values>,
    >)
        requires
            old(self).untagged().wf(),
        ensures
            old(self).untagged().get_or_insert_ensures(key@, value, final(self).untagged(), r),
    ;
}

impl<L: Level, Entry: TableEntry, H: KeyHasher> HashTable<L> for BaseHashTable<Entry, H> where
    Entry::Values: TableEntryValues<L>,
 {
    type EarlyValue = <Entry::Values as TableEntryValues<L>>::EarlyValue;

    type LateValue = <Entry::Values as TableEntryValues<L>>::LateValue;

    type Values = Entry::Values;

    type Entry = Entry;

    type Hasher = H;

    open spec fn untagged(&self) -> BaseHashTable<Entry, H> {
        *self
    }

    fn capacity(&self) -> (r: usize) {
        BaseHashTable::capacity(self)
    }

    fn insert_search_limit(&self) -> (r: usize) {
        BaseHashTable::insert_search_limit(self)
    }

    fn find(&self, key: Key<L>) -> (r: Option<&Self::Values>) {
        BaseHashTable::find(self, BaseKey::from(key))
    }

    fn insert(&mut self, key: Key<L>, value: Self::Values) -> (r: Result<
        &Self::Values,
        InsertFailureReason<Self::Values>,
    >) {
        BaseHashTable::insert(self, BaseKey::from(key), value)
    }

    fn get_or_insert(&mut self, key: Key<L>, value: Self::Values) -> (r: Result<
        GetOrInsertSuccess<Self::Values>,
        GetOrInsertFailureReason<Self::Values>,
    >) {
        BaseHashTable::get_or_insert(self, BaseKey::from(key), value)
    }
}

/// One table for each level, the table of level `n` at index `n`.
///
/// A key carries its level in its type, and the level picks the table: a key
/// of one level cannot reach the table of another.
pub struct HashTables<Entry: TableEntry, H: KeyHasher> {
    hash_tables: Vec<BaseHashTable<Entry, H>>,
}

impl<Entry: TableEntry, H: KeyHasher> HashTables<Entry, H> where
    Entry::Values: TableEntryValuesBase<LateValue = RawId>,
 {
    /// The tables, by level.
    pub closed spec fn view(&self) -> Seq<BaseHashTable<Entry, H>> {
        self.hash_tables@
    }

    /// Every table is well formed.
    pub open spec fn wf(&self) -> bool {
        forall|level: int| 0 <= level < self@.len() ==> (#[trigger] self@[level]).wf()
    }

    /// The collection of `hash_tables`, where the table at index `n` serves
    /// level `n`.
    pub fn new(hash_tables: Vec<BaseHashTable<Entry, H>>) -> (r: Self)
        ensures
            r@ == hash_tables@,
    {
        HashTables { hash_tables }
    }

    /// The number of levels that have a table.
    pub fn level_count(&self) -> (r: usize)
        ensures
            r == self@.len(),
    {
        self.hash_tables.len()
    }

    /// The table of level `L`.
    pub fn get<L: Level>(&self) -> (r: &BaseHashTable<Entry, H>)
        requires
            L::LEVEL < self@.len(),
        ensures
            *r == self@[L::LEVEL as int],
    {
        &self.hash_tables[L::LEVEL]
    }

    /// The value of `key` in the table of level `L`.
    pub fn find<L: Level>(&self, key: Key<L>) -> (r: Option<&Entry::Values>)
        requires
            L::LEVEL < self@.len(),
            self.wf(),
        ensures
            r == self@[L::LEVEL as int].spec_find(key@),
    {
        HashTable::<L>::find(&self.hash_tables[L::LEVEL], key)
    }

    /// Inserts into the table of level `L`, as `insert` of that table does.
    /// The tables of the other levels stay as they are.
    pub fn insert<L: Level>(&mut self, key: Key<L>, value: Entry::Values) -> (r: Result<
        &Entry::Values,
        InsertFailureReason<Entry::Values>,
    >)
        requires
            L::LEVEL < old(self)@.len(),
            old(self).wf(),
        ensures
            final(self).wf(),
            final(self)@.len() == old(self)@.len(),
            final(self)@ == old(self)@.update(L::LEVEL as int, final(self)@[L::LEVEL as int]),
            old(self)@[L::LEVEL as int].insert_ensures(
                key@,
                value,
                final(self)@[L::LEVEL as int],
                r,
            ),
    {
        HashTable::<L>::insert(&mut self.hash_tables[L::LEVEL], key, value)
    }

    /// Finds or inserts in the table of level `L`, as `get_or_insert` of that
    /// table does. The tables of the other levels stay as they are.
    pub fn get_or_insert<L: Level>(&mut self, key: Key<L>, value: Entry::Values) -> (r: Result<
        GetOrInsertSuccess<Entry::Values>,
        GetOrInsertFailureReason<Entry::Values>,
    >)
        requires
            L::LEVEL < old(self)@.len(),
            old(self).wf(),
        ensures
            final(self).wf(),
            final(self)@.len() == old(self)@.len(),
            final(self)@ == old(self)@.update(L::LEVEL as int, final(self)@[L::LEVEL as int]),
            old(self)@[L::LEVEL as int].get_or_insert_ensures(
                key@,
                value,
                final(self)@[L::LEVEL as int],
                r,
            ),
    {
        HashTable::<L>::get_or_insert(&mut self.hash_tables[L::LEVEL], key, value)
    }

    /// Sets the late value of `key` in the table of level `L`, as
    /// `set_late_value` of that table does. The tables of the other levels
    /// stay as they are.
    pub fn set_late_value<L: Level>(&mut self, key: Key<L>, late_value: Option<Id<L>>) -> (r:
        Option<Result<(), LateValueAlreadySet<Id<L>>>>)
        requires
            L::LEVEL < old(self)@.len(),
            old(self).wf(),
        ensures
            final(self).wf(),
            final(self)@.len() == old(self)@.len(),
            final(self)@ == old(self)@.update(L::LEVEL as int, final(self)@[L::LEVEL as int]),
            old(self)@[L::LEVEL as int].set_late_value_ensures(
                key@,
                untagged_option(late_value),
                final(self)@[L::LEVEL as int],
                untagged_outcome(r),
            ),
    {
        broadcast use Id::lemma_tagged_view;

        let late_value = match late_value {
            Some(id) => Some(RawId::from(id)),
            None => None,
        };
        match self.hash_tables[L::LEVEL].set_late_value(BaseKey::from(key), late_value) {
            None => None,
            Some(Ok(())) => Some(Ok(())),
            Some(Err(LateValueAlreadySet { passed_in_value, value })) => Some(
                Err(
                    LateValueAlreadySet {
                        passed_in_value: Id::from(passed_in_value),
                        value: Id::from(value),
                    },
                ),
            ),
        }
    }
}

} // verus!
