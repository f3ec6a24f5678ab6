use hashlife::common::RawId;
use hashlife::hashtable_base::GetOrInsertFailureReason;
use hashlife::hashtable_base::HashTable;
use hashlife::hashtable_base::InsertFailureReason;
use hashlife::hashtable_base::Key;
use hashlife::hashtable_base::KeyHasher;
use hashlife::hashtable_base::LocalTableEntry;
use hashlife::hashtable_base::LocalTableValues;
use hashlife::hashtable_base::SyncTableEntry;
use hashlife::hashtable_base::SyncTableValues;
use hashlife::hashtable_base::TableEntry;
use hashlife::hashtable_base::TableEntryValues;
use hashlife::hashtable_base::TableIndexIter;
use hashlife::hashtable_base::WordHasher;
use std::cell::Cell;
use std::rc::Rc;

/// Hashes a key to its first identifier, so that a test picks the home slot.
struct FirstIdHasher;

impl KeyHasher for FirstIdHasher {
    fn spec_hash_key(&self, key: Key) -> u64 {
        self.hash_key(&key)
    }

    fn hash_key(&self, key: &Key) -> u64 {
        u64::from(key.0[0][0][0].get())
    }
}

#[derive(Debug)]
struct DropCounter {
    label: u32,
    drop_count: Rc<Cell<usize>>,
}

impl Drop for DropCounter {
    fn drop(&mut self) {
        self.drop_count.set(self.drop_count.get() + 1);
    }
}

fn id(value: u32) -> RawId {
    RawId::new(value).unwrap()
}

fn key(first: u32) -> Key {
    Key([
        [[id(first), id(2)], [id(3), id(4)]],
        [[id(5), id(6)], [id(7), id(8)]],
    ])
}

type Values = LocalTableValues<u64, RawId>;
type Table = HashTable<LocalTableEntry<u64, RawId>, FirstIdHasher>;

fn values(early: u64) -> Values {
    Values::new(early, None)
}

#[test]
fn capacity_is_rounded_up_to_a_power_of_two() {
    let expected = [
        (0usize, 1usize),
        (1, 1),
        (2, 2),
        (3, 4),
        (4, 4),
        (5, 8),
        (8, 8),
        (9, 16),
        (1000, 1024),
        (1024, 1024),
        (1025, 2048),
    ];
    for &(asked, actual) in &expected {
        let table: Table = HashTable::with_hasher(asked, FirstIdHasher);
        assert_eq!(table.capacity(), actual);
    }
}

#[test]
fn search_limit_defaults_to_32() {
    let table: Table = HashTable::with_hasher(8, FirstIdHasher);
    assert_eq!(table.insert_search_limit(), 32);
    let table: HashTable<LocalTableEntry<u64, RawId>, WordHasher> = HashTable::new(8);
    assert_eq!(table.insert_search_limit(), 32);
    assert_eq!(table.capacity(), 8);
    assert_eq!(table.hasher().basis, 0xcbf2_9ce4_8422_2325);
}

#[test]
fn search_limit_can_be_given_and_changed() {
    let mut table: Table = HashTable::with_search_limit_and_hasher(8, 4, FirstIdHasher);
    assert_eq!(table.insert_search_limit(), 4);
    table.set_insert_search_limit(2);
    assert_eq!(table.insert_search_limit(), 2);
    let table: HashTable<LocalTableEntry<u64, RawId>, WordHasher> =
        HashTable::with_search_limit(5, 7);
    assert_eq!(table.insert_search_limit(), 7);
    assert_eq!(table.capacity(), 8);
}

#[test]
fn word_hasher_mixes_each_identifier() {
    let hasher = WordHasher::default();
    let nine = Key([
        [[id(9), id(2)], [id(3), id(4)]],
        [[id(5), id(6)], [id(7), id(8)]],
    ]);
    assert_eq!(hasher.hash_key(&nine), 0x768b_38d3_8e04_aec5);
    let ones = Key([
        [[id(1), id(1)], [id(1), id(1)]],
        [[id(1), id(1)], [id(1), id(1)]],
    ]);
    assert_eq!(hasher.hash_key(&ones), 0xe7e3_95a2_ad0b_c74d);
    assert_eq!(WordHasher::with_basis(0).hash_key(&ones), 0xc0e4_628f_7b0e_7278);
    assert_eq!(WordHasher::with_basis(0).hash_key(&key(1)), 0x6299_5fec_99ca_9a68);
}

#[test]
fn probe_starts_at_the_hash_modulo_the_capacity_and_wraps() {
    let table: Table = HashTable::with_hasher(8, FirstIdHasher);
    let mut indexes = table.table_indexes(key(14), usize::MAX);
    let mut visited = Vec::new();
    while let Some(index) = indexes.next() {
        visited.push(index);
    }
    assert_eq!(visited, vec![6, 7, 0, 1, 2, 3, 4, 5]);

    let mut indexes = table.table_indexes(key(14), 3);
    let mut visited = Vec::new();
    while let Some(index) = indexes.next() {
        visited.push(index);
    }
    assert_eq!(visited, vec![6, 7, 0]);
    assert_eq!(indexes.next(), None);

    let mut indexes = table.table_indexes(key(14), 0);
    assert_eq!(indexes.next(), None);
}

#[test]
fn probe_of_the_default_hasher_starts_at_the_hash_modulo_the_capacity() {
    let table: HashTable<LocalTableEntry<u64, RawId>, WordHasher> =
        HashTable::with_hasher(16, WordHasher::with_basis(0));
    // The hash of this key is 0x6299_5fec_99ca_9a68, which is 8 modulo 16.
    let mut indexes = table.table_indexes(key(1), 2);
    assert_eq!(indexes.next(), Some(8));
    assert_eq!(indexes.next(), Some(9));
    assert_eq!(indexes.next(), None);
}

#[test]
fn find_returns_what_insert_stored() {
    let mut table: Table = HashTable::with_hasher(8, FirstIdHasher);
    assert!(table.find(key(1)).is_none());
    let stored = table.insert(key(1), values(10)).ok().unwrap();
    assert_eq!(*stored.early_value(), 10);
    assert_eq!(*table.find(key(1)).unwrap().early_value(), 10);
    assert!(table.find(key(2)).is_none());
    assert_eq!(table.find_index(key(1)), Some(1));
    assert_eq!(table.find_index(key(2)), None);
}

#[test]
fn second_insert_of_a_key_is_handed_back() {
    let mut table: Table = HashTable::with_hasher(8, FirstIdHasher);
    assert!(table.insert(key(1), values(10)).is_ok());
    match table.insert(key(1), values(20)) {
        Err(InsertFailureReason::AlreadyInTable {
            passed_in_value,
            entry_value,
        }) => {
            assert_eq!(*passed_in_value.early_value(), 20);
            assert_eq!(*entry_value.early_value(), 10);
        }
        other => panic!("expected the key to be in the table, got {:?}", other.is_ok()),
    }
    assert_eq!(*table.find(key(1)).unwrap().early_value(), 10);
}

#[test]
fn colliding_keys_take_the_following_slots() {
    let mut table: Table = HashTable::with_hasher(8, FirstIdHasher);
    // All of these keys start at slot 7; the probe wraps to slot 0.
    assert!(table.insert(key(7), values(1)).is_ok());
    assert!(table.insert(key(15), values(2)).is_ok());
    assert!(table.insert(key(23), values(3)).is_ok());
    assert_eq!(table.find_index(key(7)), Some(7));
    assert_eq!(table.find_index(key(15)), Some(0));
    assert_eq!(table.find_index(key(23)), Some(1));
    assert_eq!(*table.find(key(23)).unwrap().early_value(), 3);
    assert!(table.find(key(31)).is_none());
}

#[test]
fn search_limit_is_hit_though_slots_are_free() {
    let mut table: Table = HashTable::with_search_limit_and_hasher(8, 4, FirstIdHasher);
    // A, B and C collide on slot 1 and take slots 1, 2 and 3.
    assert!(table.insert(key(1), values(10)).is_ok());
    assert!(table.insert(key(9), values(20)).is_ok());
    assert!(table.insert(key(17), values(30)).is_ok());
    // Slot 4 is taken by a key of its own.
    assert!(table.insert(key(4), values(40)).is_ok());
    // D collides on slot 1 and finds slots 1 to 4 taken.
    match table.insert(key(25), values(50)) {
        Err(InsertFailureReason::TableFullOrSearchLimitHit { passed_in_value }) => {
            assert_eq!(*passed_in_value.early_value(), 50);
        }
        other => panic!("expected the search limit to be hit, got {:?}", other.is_ok()),
    }
    assert!(table.find(key(25)).is_none());
    // Slots 5, 6, 7 and 0 are free.
    let entries = table.iter();
    assert_eq!(entries_of(entries).len(), 4);
    assert!(table.insert(key(5), values(60)).is_ok());
    // Everything that was accepted is still found.
    assert_eq!(*table.find(key(1)).unwrap().early_value(), 10);
    assert_eq!(*table.find(key(9)).unwrap().early_value(), 20);
    assert_eq!(*table.find(key(17)).unwrap().early_value(), 30);
    assert_eq!(*table.find(key(4)).unwrap().early_value(), 40);
}

fn entries_of(
    mut entries: hashlife::hashtable_base::HashTableIter<LocalTableEntry<u64, RawId>>,
) -> Vec<(Key, u64)> {
    let mut found = Vec::new();
    while let Some((key, value)) = entries.next() {
        found.push((key, *value.early_value()));
    }
    found
}

#[test]
fn fourth_colliding_key_fits_when_the_fourth_slot_is_free() {
    let mut table: Table = HashTable::with_search_limit_and_hasher(8, 4, FirstIdHasher);
    assert!(table.insert(key(1), values(10)).is_ok());
    assert!(table.insert(key(9), values(20)).is_ok());
    assert!(table.insert(key(17), values(30)).is_ok());
    assert!(table.insert(key(25), values(40)).is_ok());
    assert_eq!(table.find_index(key(25)), Some(4));
    // The fifth is one step too far.
    assert!(matches!(
        table.insert(key(33), values(50)),
        Err(InsertFailureReason::TableFullOrSearchLimitHit { .. })
    ));
}

#[test]
fn search_limit_zero_accepts_nothing() {
    let mut table: Table = HashTable::with_search_limit_and_hasher(8, 0, FirstIdHasher);
    assert!(matches!(
        table.insert(key(1), values(10)),
        Err(InsertFailureReason::TableFullOrSearchLimitHit { .. })
    ));
    assert!(table.find(key(1)).is_none());
}

#[test]
fn insertion_probes_at_most_the_whole_table() {
    let mut table: Table = HashTable::with_search_limit_and_hasher(4, 100, FirstIdHasher);
    for first in [2u32, 6, 10, 14] {
        assert!(table.insert(key(first), values(u64::from(first))).is_ok());
    }
    match table.insert(key(18), values(18)) {
        Err(InsertFailureReason::TableFullOrSearchLimitHit { passed_in_value }) => {
            assert_eq!(*passed_in_value.early_value(), 18);
        }
        other => panic!("expected a full table, got {:?}", other.is_ok()),
    }
    // A full table ends a search for an absent key after one round.
    assert!(table.find(key(18)).is_none());
    assert_eq!(*table.find(key(14)).unwrap().early_value(), 14);
    // A key that is there is reported even when the table is full.
    assert!(matches!(
        table.insert(key(10), values(0)),
        Err(InsertFailureReason::AlreadyInTable { .. })
    ));
}

#[test]
fn find_reaches_keys_inserted_under_a_larger_search_limit() {
    let mut table: Table = HashTable::with_search_limit_and_hasher(8, 8, FirstIdHasher);
    for first in [3u32, 11, 19, 27, 35] {
        assert!(table.insert(key(first), values(u64::from(first))).is_ok());
    }
    table.set_insert_search_limit(2);
    for first in [3u32, 11, 19, 27, 35] {
        assert_eq!(
            *table.find(key(first)).unwrap().early_value(),
            u64::from(first)
        );
    }
    // Key 35 sits five slots from its home: an insertion that may probe two
    // slots does not reach it, stores nothing and hands the value back.
    match table.insert(key(35), values(0)) {
        Err(InsertFailureReason::TableFullOrSearchLimitHit { passed_in_value }) => {
            assert_eq!(*passed_in_value.early_value(), 0);
        }
        other => panic!("expected the search limit to be hit, got {:?}", other.is_ok()),
    }
    assert_eq!(*table.find(key(35)).unwrap().early_value(), 35);
    assert_eq!(entries_of(table.iter()).len(), 5);
    // Later insertions of other keys do not hide it either.
    assert!(table.insert(key(1), values(1)).is_ok());
    assert!(table.insert(key(2), values(2)).is_ok());
    assert_eq!(*table.find(key(35)).unwrap().early_value(), 35);
}

#[test]
fn get_or_insert_returns_the_entry_either_way() {
    let mut table: Table = HashTable::with_hasher(8, FirstIdHasher);
    let first = table.get_or_insert(key(1), values(10)).ok().unwrap();
    assert!(first.passed_in_value.is_none());
    assert_eq!(*first.entry_value.early_value(), 10);
    // The call that comes second gets the stored value and its own one back.
    let second = table.get_or_insert(key(1), values(20)).ok().unwrap();
    assert_eq!(*second.passed_in_value.unwrap().early_value(), 20);
    assert_eq!(*second.entry_value.early_value(), 10);
    assert_eq!(*table.find(key(1)).unwrap().early_value(), 10);
}

#[test]
fn get_or_insert_fails_only_without_room() {
    let mut table: Table = HashTable::with_search_limit_and_hasher(8, 1, FirstIdHasher);
    assert!(table.get_or_insert(key(1), values(10)).is_ok());
    match table.get_or_insert(key(9), values(20)) {
        Err(GetOrInsertFailureReason::TableFullOrSearchLimitHit { passed_in_value }) => {
            assert_eq!(*passed_in_value.early_value(), 20);
        }
        Ok(_) => panic!("expected the search limit to be hit"),
    }
    assert!(table.find(key(9)).is_none());
}

#[test]
fn late_value_is_unset_until_it_is_set_and_then_stays() {
    let mut table: Table = HashTable::with_hasher(8, FirstIdHasher);
    assert!(table.set_late_value(key(1), Some(id(5))).is_none());
    assert!(table.insert(key(1), values(10)).is_ok());
    assert!(table.insert(key(9), values(20)).is_ok());
    assert_eq!(table.find(key(1)).unwrap().late_value(), None);
    assert!(matches!(table.set_late_value(key(1), None), Some(Ok(()))));
    assert_eq!(table.find(key(1)).unwrap().late_value(), None);
    assert!(matches!(
        table.set_late_value(key(1), Some(id(5))),
        Some(Ok(()))
    ));
    assert_eq!(table.find(key(1)).unwrap().late_value(), Some(id(5)));
    assert_eq!(*table.find(key(1)).unwrap().early_value(), 10);
    // The other entry is untouched.
    assert_eq!(table.find(key(9)).unwrap().late_value(), None);
    let refused = table
        .set_late_value(key(1), Some(id(6)))
        .unwrap()
        .err()
        .unwrap();
    assert_eq!(refused.passed_in_value, id(6));
    assert_eq!(refused.value, id(5));
    assert_eq!(table.find(key(1)).unwrap().late_value(), Some(id(5)));
}

#[test]
fn late_value_given_at_insertion_is_visible() {
    let mut table: Table = HashTable::with_hasher(8, FirstIdHasher);
    assert!(table
        .insert(key(1), Values::new(10, Some(id(77))))
        .is_ok());
    assert_eq!(table.find(key(1)).unwrap().late_value(), Some(id(77)));
}

#[test]
fn iter_walks_the_entries_in_slot_order_and_can_be_repeated() {
    let mut table: Table = HashTable::with_hasher(8, FirstIdHasher);
    assert!(entries_of(table.iter()).is_empty());
    for first in [6u32, 3, 14, 1] {
        assert!(table.insert(key(first), values(u64::from(first))).is_ok());
    }
    let expected = vec![(key(1), 1), (key(3), 3), (key(6), 6), (key(14), 14)];
    assert_eq!(entries_of(table.iter()), expected);
    assert_eq!(entries_of(table.iter()), expected);
    let mut entries = table.iter();
    for _ in 0..4 {
        assert!(entries.next().is_some());
    }
    assert!(entries.next().is_none());
    assert!(entries.next().is_none());
}

#[test]
fn drain_yields_every_entry_once_and_empties_the_table() {
    let mut table: Table = HashTable::with_hasher(8, FirstIdHasher);
    for first in [6u32, 3, 14, 1] {
        assert!(table.insert(key(first), values(u64::from(first))).is_ok());
    }
    let mut drained = table.drain();
    let mut found = Vec::new();
    while let Some((key, value)) = drained.next() {
        found.push((key, *value.early_value()));
    }
    assert!(drained.next().is_none());
    assert_eq!(
        found,
        vec![(key(1), 1), (key(3), 3), (key(6), 6), (key(14), 14)]
    );
    for first in [6u32, 3, 14, 1] {
        assert!(table.find(key(first)).is_none());
    }
    assert!(entries_of(table.iter()).is_empty());
    assert_eq!(table.capacity(), 8);
    // The slots can be used again.
    assert!(table.insert(key(6), values(60)).is_ok());
    assert_eq!(*table.find(key(6)).unwrap().early_value(), 60);
}

#[test]
fn draining_an_empty_table_yields_nothing() {
    let mut table: Table = HashTable::with_hasher(4, FirstIdHasher);
    assert!(table.drain().next().is_none());
}

fn counted(label: u32, drop_count: &Rc<Cell<usize>>) -> DropCounter {
    DropCounter {
        label,
        drop_count: drop_count.clone(),
    }
}

fn check_every_value_is_released_once<T: TableEntry>()
where
    T::Values: TableEntryValues<EarlyValue = DropCounter, LateValue = RawId>,
{
    let drop_count = Rc::new(Cell::new(0));
    let mut table: HashTable<T, FirstIdHasher> =
        HashTable::with_search_limit_and_hasher(8, 2, FirstIdHasher);
    assert!(table
        .insert(key(1), T::Values::new(counted(1, &drop_count), None))
        .is_ok());
    assert!(table
        .insert(key(9), T::Values::new(counted(2, &drop_count), None))
        .is_ok());
    assert_eq!(drop_count.get(), 0);

    // A value that is handed back is the caller's to release.
    match table.insert(key(1), T::Values::new(counted(3, &drop_count), None)) {
        Err(InsertFailureReason::AlreadyInTable {
            passed_in_value,
            entry_value,
        }) => {
            assert_eq!(passed_in_value.early_value().label, 3);
            assert_eq!(entry_value.early_value().label, 1);
            assert_eq!(drop_count.get(), 0);
            std::mem::drop(passed_in_value);
        }
        _ => panic!("expected the key to be in the table"),
    }
    assert_eq!(drop_count.get(), 1);
    match table.insert(key(17), T::Values::new(counted(4, &drop_count), None)) {
        Err(InsertFailureReason::TableFullOrSearchLimitHit { passed_in_value }) => {
            assert_eq!(passed_in_value.early_value().label, 4);
            assert_eq!(drop_count.get(), 1);
            std::mem::drop(passed_in_value);
        }
        _ => panic!("expected the search limit to be hit"),
    }
    assert_eq!(drop_count.get(), 2);
    let unused = table
        .get_or_insert(key(9), T::Values::new(counted(5, &drop_count), None))
        .ok()
        .unwrap();
    assert_eq!(unused.entry_value.early_value().label, 2);
    assert_eq!(unused.passed_in_value.as_ref().unwrap().early_value().label, 5);
    std::mem::drop(unused);
    assert_eq!(drop_count.get(), 3);

    // Dropping the drained entries early releases all of them.
    let mut drained = table.drain();
    let (_, first) = drained.next().unwrap();
    assert_eq!(first.early_value().label, 1);
    assert_eq!(drop_count.get(), 3);
    std::mem::drop(drained);
    assert_eq!(drop_count.get(), 4);
    std::mem::drop(first);
    assert_eq!(drop_count.get(), 5);
    assert!(table.find(key(1)).is_none());
    assert!(table.find(key(9)).is_none());

    // Dropping the table releases what it holds.
    assert!(table
        .insert(key(2), T::Values::new(counted(6, &drop_count), None))
        .is_ok());
    assert_eq!(drop_count.get(), 5);
    std::mem::drop(table);
    assert_eq!(drop_count.get(), 6);
}

#[test]
fn local_table_releases_every_value_once() {
    check_every_value_is_released_once::<LocalTableEntry<DropCounter, RawId>>();
}

#[test]
fn sync_table_releases_every_value_once() {
    check_every_value_is_released_once::<SyncTableEntry<DropCounter, RawId>>();
}

#[test]
fn sync_table_behaves_as_the_local_one() {
    let mut table: HashTable<SyncTableEntry<u64, RawId>, FirstIdHasher> =
        HashTable::with_search_limit_and_hasher(8, 4, FirstIdHasher);
    for first in [1u32, 9, 17] {
        assert!(table
            .insert(key(first), SyncTableValues::new(u64::from(first), None))
            .is_ok());
    }
    assert_eq!(table.find_index(key(17)), Some(3));
    assert!(matches!(
        table.insert(key(9), SyncTableValues::new(0, None)),
        Err(InsertFailureReason::AlreadyInTable { .. })
    ));
    assert!(matches!(
        table.set_late_value(key(9), Some(id(3))),
        Some(Ok(()))
    ));
    assert_eq!(table.find(key(9)).unwrap().late_value(), Some(id(3)));
    let mut drained = table.drain();
    let mut labels = Vec::new();
    while let Some((_, value)) = drained.next() {
        labels.push(*value.early_value());
    }
    assert_eq!(labels, vec![1, 9, 17]);
}

#[test]
fn table_of_one_slot_holds_one_key() {
    let mut table: Table = HashTable::with_hasher(0, FirstIdHasher);
    assert_eq!(table.capacity(), 1);
    assert!(table.find(key(5)).is_none());
    assert!(table.insert(key(5), values(5)).is_ok());
    assert!(matches!(
        table.insert(key(6), values(6)),
        Err(InsertFailureReason::TableFullOrSearchLimitHit { .. })
    ));
    assert_eq!(*table.find(key(5)).unwrap().early_value(), 5);
    assert!(table.find(key(6)).is_none());
}

#[test]
fn probe_of_a_hash_visits_each_slot_once() {
    let mut indexes = TableIndexIter::new(0xffff_ffff_ffff_fffd, 4, usize::MAX);
    assert_eq!(indexes.next(), Some(1));
    assert_eq!(indexes.next(), Some(2));
    assert_eq!(indexes.next(), Some(3));
    assert_eq!(indexes.next(), Some(0));
    assert_eq!(indexes.next(), None);
    let mut single = TableIndexIter::new(12345, 1, 7);
    assert_eq!(single.next(), Some(0));
    assert_eq!(single.next(), None);
}
