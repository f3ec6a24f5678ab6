use hashlife::common::RawId;
use hashlife::hashtable::HashTable;
use hashlife::hashtable::HashTables;
use hashlife::hashtable::Id;
use hashlife::hashtable::InsertFailureReason;
use hashlife::hashtable::Key;
use hashlife::hashtable::LEVEL_COUNT;
use hashlife::hashtable::Leaf;
use hashlife::hashtable::Level;
use hashlife::hashtable::Level0;
use hashlife::hashtable::Level1;
use hashlife::hashtable::Level16;
use hashlife::hashtable::Level2;
use hashlife::hashtable::Level3;
use hashlife::hashtable::NonLeaf;
use hashlife::hashtable::NonLeafLevel;
use hashlife::hashtable::TableEntryValues;
use hashlife::hashtable_base::HashTable as BaseHashTable;
use hashlife::hashtable_base::Key as BaseKey;
use hashlife::hashtable_base::KeyHasher;
use hashlife::hashtable_base::LocalTableEntry;
use hashlife::hashtable_base::LocalTableValues;
use hashlife::hashtable_base::SyncTableValues;

struct FirstIdHasher;

impl KeyHasher for FirstIdHasher {
    fn spec_hash_key(&self, key: BaseKey) -> u64 {
        self.hash_key(&key)
    }

    fn hash_key(&self, key: &BaseKey) -> u64 {
        u64::from(key.0[0][0][0].get())
    }
}

fn raw(value: u32) -> RawId {
    RawId::new(value).unwrap()
}

fn base_key(first: u32) -> BaseKey {
    BaseKey([
        [[raw(first), raw(2)], [raw(3), raw(4)]],
        [[raw(5), raw(6)], [raw(7), raw(8)]],
    ])
}

fn key<L: Level>(first: u32) -> Key<L> {
    Key::from(base_key(first))
}

fn level_above<L: NonLeafLevel>() -> usize {
    L::ParentLevel::LEVEL + 1
}

#[test]
fn levels_count_up_from_the_leaves() {
    assert_eq!(Leaf::LEVEL, 0);
    assert_eq!(Level0::LEVEL, 0);
    assert_eq!(Level1::LEVEL, 1);
    assert_eq!(Level2::LEVEL, 2);
    assert_eq!(Level3::LEVEL, 3);
    assert_eq!(Level16::LEVEL, 16);
    assert_eq!(LEVEL_COUNT, 17);
    assert_eq!(<NonLeaf<Level16> as Level>::LEVEL, 17);
    assert_eq!(level_above::<Level1>(), Level1::LEVEL);
    assert_eq!(level_above::<Level16>(), 16);
}

#[test]
fn tagging_an_identifier_keeps_its_integer() {
    let tagged: Id<Level2> = Id::from(raw(12345));
    assert_eq!(RawId::from(tagged), raw(12345));
    assert_eq!(RawId::from(tagged).get(), 12345);
    let other: Id<Level2> = Id::from(raw(12345));
    assert_eq!(tagged, other);
    let different: Id<Level2> = Id::from(raw(12346));
    assert_ne!(tagged, different);
    let largest: Id<Leaf> = Id::from(raw(u32::MAX));
    assert_eq!(RawId::from(largest).get(), u32::MAX);
}

#[test]
fn tagging_a_key_keeps_every_identifier_in_place() {
    let untagged = BaseKey([
        [[raw(11), raw(12)], [raw(13), raw(14)]],
        [[raw(15), raw(16)], [raw(17), raw(18)]],
    ]);
    let tagged: Key<Level1> = Key::from(untagged);
    let mut expected = 11;
    for i in 0..2 {
        for j in 0..2 {
            for k in 0..2 {
                assert_eq!(RawId::from(tagged.0[i][j][k]).get(), expected);
                expected += 1;
            }
        }
    }
    assert_eq!(BaseKey::from(tagged), untagged);
    let again: Key<Level1> = Key::from(BaseKey::from(tagged));
    assert_eq!(again, tagged);
    assert_ne!(tagged, key::<Level1>(11));
}

fn check_tagged_values<V>()
where
    V: hashlife::hashtable_base::TableEntryValues<EarlyValue = u64, LateValue = RawId>,
{
    let late: Id<Level3> = Id::from(raw(9));
    let mut values = <V as TableEntryValues<Level3>>::new(40, None);
    assert_eq!(*TableEntryValues::<Level3>::early_value(&values), 40);
    assert_eq!(TableEntryValues::<Level3>::late_value(&values), None);
    assert!(TableEntryValues::<Level3>::set_late_value(&mut values, Some(late)).is_ok());
    assert_eq!(TableEntryValues::<Level3>::late_value(&values), Some(late));
    let refused =
        TableEntryValues::<Level3>::set_late_value(&mut values, Some(Id::from(raw(10))))
            .err()
            .unwrap();
    assert_eq!(refused.passed_in_value, Id::from(raw(10)));
    assert_eq!(refused.value, late);
    assert_eq!(
        TableEntryValues::<Level3>::into(values),
        (40, Some(late))
    );
    let set = <V as TableEntryValues<Level3>>::new(41, Some(late));
    assert_eq!(TableEntryValues::<Level3>::late_value(&set), Some(late));
}

#[test]
fn local_values_carry_tagged_late_values() {
    check_tagged_values::<LocalTableValues<u64, RawId>>();
}

#[test]
fn sync_values_carry_tagged_late_values() {
    check_tagged_values::<SyncTableValues<u64, RawId>>();
}

type Values = LocalTableValues<u64, RawId>;
type Entry = LocalTableEntry<u64, RawId>;

fn values(early: u64) -> Values {
    hashlife::hashtable_base::TableEntryValues::new(early, None)
}

fn early(values: &Values) -> u64 {
    *hashlife::hashtable_base::TableEntryValues::early_value(values)
}

#[test]
fn a_table_takes_tagged_keys() {
    let mut table: BaseHashTable<Entry, FirstIdHasher> =
        BaseHashTable::with_search_limit_and_hasher(6, 2, FirstIdHasher);
    assert_eq!(HashTable::<Level1>::capacity(&table), 8);
    assert_eq!(HashTable::<Level1>::insert_search_limit(&table), 2);
    assert!(HashTable::<Level1>::find(&table, key(1)).is_none());
    assert!(HashTable::<Level1>::insert(&mut table, key(1), values(10)).is_ok());
    assert_eq!(
        early(HashTable::<Level1>::find(&table, key(1)).unwrap()),
        10
    );
    match HashTable::<Level1>::insert(&mut table, key(1), values(20)) {
        Err(InsertFailureReason::AlreadyInTable {
            passed_in_value,
            entry_value,
        }) => {
            assert_eq!(early(&passed_in_value), 20);
            assert_eq!(early(entry_value), 10);
        }
        _ => panic!("expected the key to be in the table"),
    }
    let found = HashTable::<Level1>::get_or_insert(&mut table, key(9), values(30))
        .ok()
        .unwrap();
    assert!(found.passed_in_value.is_none());
    assert_eq!(early(found.entry_value), 30);
    assert!(matches!(
        HashTable::<Level1>::insert(&mut table, key(17), values(40)),
        Err(InsertFailureReason::TableFullOrSearchLimitHit { .. })
    ));
    assert!(HashTable::<Level1>::get_or_insert(&mut table, key(17), values(40)).is_err());
    // The tagged operations are those of the table itself.
    assert_eq!(early(table.find(base_key(9)).unwrap()), 30);
}

fn tables(levels: usize) -> HashTables<Entry, FirstIdHasher> {
    let mut hash_tables = Vec::new();
    for _ in 0..levels {
        hash_tables.push(BaseHashTable::with_hasher(8, FirstIdHasher));
    }
    HashTables::new(hash_tables)
}

#[test]
fn the_level_of_a_key_picks_its_table() {
    let mut tables = tables(3);
    assert_eq!(tables.level_count(), 3);
    assert!(tables.insert::<Level0>(key(1), values(100)).is_ok());
    assert!(tables.insert::<Level2>(key(1), values(102)).is_ok());
    assert_eq!(early(tables.find::<Level0>(key(1)).unwrap()), 100);
    assert!(tables.find::<Level1>(key(1)).is_none());
    assert_eq!(early(tables.find::<Level2>(key(1)).unwrap()), 102);
    assert_eq!(
        early(tables.get::<Level0>().find(base_key(1)).unwrap()),
        100
    );
    assert!(tables.get::<Level1>().find(base_key(1)).is_none());
    assert_eq!(tables.get::<Level2>().capacity(), 8);

    let found = tables
        .get_or_insert::<Level1>(key(1), values(101))
        .ok()
        .unwrap();
    assert!(found.passed_in_value.is_none());
    let found = tables
        .get_or_insert::<Level1>(key(1), values(201))
        .ok()
        .unwrap();
    assert_eq!(early(&found.passed_in_value.unwrap()), 201);
    assert_eq!(early(found.entry_value), 101);
    assert!(matches!(
        tables.insert::<Level2>(key(1), values(0)),
        Err(InsertFailureReason::AlreadyInTable { .. })
    ));
}

#[test]
fn late_values_are_set_in_the_table_of_their_level() {
    let mut tables = tables(2);
    assert!(tables.insert::<Level0>(key(1), values(100)).is_ok());
    assert!(tables.insert::<Level1>(key(1), values(101)).is_ok());
    let successor: Id<Level1> = Id::from(raw(55));
    assert!(tables
        .set_late_value::<Level1>(key(2), Some(successor))
        .is_none());
    assert!(matches!(
        tables.set_late_value::<Level1>(key(1), Some(successor)),
        Some(Ok(()))
    ));
    let stored = tables.find::<Level1>(key(1)).unwrap();
    assert_eq!(
        TableEntryValues::<Level1>::late_value(stored),
        Some(successor)
    );
    let untouched = tables.find::<Level0>(key(1)).unwrap();
    assert_eq!(TableEntryValues::<Level0>::late_value(untouched), None);
    let refused = tables
        .set_late_value::<Level1>(key(1), Some(Id::from(raw(56))))
        .unwrap()
        .err()
        .unwrap();
    assert_eq!(refused.passed_in_value, Id::from(raw(56)));
    assert_eq!(refused.value, successor);
}
