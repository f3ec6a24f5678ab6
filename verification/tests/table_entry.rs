use hashlife::common::RawId;
use hashlife::hashtable_base::Key;
use hashlife::hashtable_base::LocalTableEntry;
use hashlife::hashtable_base::LocalTableValues;
use hashlife::hashtable_base::SyncTableEntry;
use hashlife::hashtable_base::SyncTableValues;
use hashlife::hashtable_base::TableEntry;
use hashlife::hashtable_base::TableEntryValues;
use std::sync::atomic::AtomicUsize;
use std::sync::atomic::Ordering;
use std::sync::Arc;

#[derive(Debug)]
struct DropCounter {
    drop_count: Arc<AtomicUsize>,
}

impl Drop for DropCounter {
    fn drop(&mut self) {
        let value = self.drop_count.fetch_add(1, Ordering::Relaxed);
        println!("DropCounter::drop: {}", value);
    }
}

fn address_of(value: &DropCounter) -> usize {
    std::ptr::from_ref(value).addr()
}

#[test]
fn test_sync_table_entry() {
    test_table_entry::<SyncTableEntry<DropCounter, RawId>>()
}

#[test]
fn test_local_table_entry() {
    test_table_entry::<LocalTableEntry<DropCounter, RawId>>()
}

fn test_table_entry<T: TableEntry>()
where
    T::Values: TableEntryValues<EarlyValue = DropCounter, LateValue = RawId>,
{
    let drop_count = Arc::new(AtomicUsize::new(0));
    let key = Key([
        [
            [RawId::new(9).unwrap(), RawId::new(2).unwrap()],
            [RawId::new(3).unwrap(), RawId::new(4).unwrap()],
        ],
        [
            [RawId::new(5).unwrap(), RawId::new(6).unwrap()],
            [RawId::new(7).unwrap(), RawId::new(8).unwrap()],
        ],
    ]);
    let mut table_entry = T::empty();
    assert!(table_entry.get().is_none());
    assert!(table_entry.take().is_none());
    let fill1_result = address_of(
        table_entry
            .fill(
                key,
                T::Values::new(
                    DropCounter {
                        drop_count: drop_count.clone(),
                    },
                    None,
                ),
            )
            .ok()
            .unwrap()
            .early_value(),
    );
    assert_eq!(drop_count.load(Ordering::Relaxed), 0);
    let load1_result = table_entry.get().unwrap();
    assert_eq!(load1_result.0, key);
    assert_eq!(address_of(load1_result.1.early_value()), fill1_result);
    assert_eq!(drop_count.load(Ordering::Relaxed), 0);
    let drop_count2 = Arc::new(AtomicUsize::new(0));
    let fill2_result = table_entry
        .fill(
            key,
            T::Values::new(
                DropCounter {
                    drop_count: drop_count2.clone(),
                },
                None,
            ),
        )
        .err()
        .unwrap();
    assert_eq!(drop_count.load(Ordering::Relaxed), 0);
    assert_eq!(drop_count2.load(Ordering::Relaxed), 0);
    std::mem::drop(fill2_result.passed_in_value);
    assert_eq!(drop_count.load(Ordering::Relaxed), 0);
    assert_eq!(drop_count2.load(Ordering::Relaxed), 1);
    assert_eq!(fill2_result.entry_key, key);
    assert_eq!(
        address_of(fill2_result.entry_value.early_value()),
        fill1_result
    );
    let load2_result = table_entry.get().unwrap();
    assert_eq!(load2_result.0, key);
    assert_eq!(address_of(load2_result.1.early_value()), fill1_result);
    assert_eq!(drop_count.load(Ordering::Relaxed), 0);
    assert_eq!(drop_count2.load(Ordering::Relaxed), 1);
    std::mem::drop(table_entry);
    assert_eq!(drop_count.load(Ordering::Relaxed), 1);
    assert_eq!(drop_count2.load(Ordering::Relaxed), 1);
    table_entry = TableEntry::empty();
    table_entry
        .fill(
            key,
            T::Values::new(
                DropCounter {
                    drop_count: drop_count.clone(),
                },
                None,
            ),
        )
        .ok()
        .unwrap();
    assert_eq!(drop_count.load(Ordering::Relaxed), 1);
    let take_result = table_entry.take().unwrap();
    assert_eq!(take_result.0, key);
    assert_eq!(drop_count.load(Ordering::Relaxed), 1);
    std::mem::drop(take_result.1);
    assert_eq!(drop_count.load(Ordering::Relaxed), 2);
    assert!(table_entry.get().is_none());
    assert!(table_entry.take().is_none());
    assert_eq!(drop_count.load(Ordering::Relaxed), 2);
    std::mem::drop(table_entry);
    assert_eq!(drop_count.load(Ordering::Relaxed), 2);
    assert_eq!(drop_count2.load(Ordering::Relaxed), 1);
}


fn id(value: u32) -> RawId {
    RawId::new(value).unwrap()
}

fn key_with_ids(ids: [u32; 8]) -> Key {
    Key([
        [[id(ids[0]), id(ids[1])], [id(ids[2]), id(ids[3])]],
        [[id(ids[4]), id(ids[5])], [id(ids[6]), id(ids[7])]],
    ])
}

#[test]
fn raw_id_rejects_zero() {
    assert!(RawId::new(0).is_none());
    assert_eq!(RawId::new(1).unwrap().get(), 1);
    assert_eq!(RawId::new(u32::MAX).unwrap().get(), u32::MAX);
    assert_eq!(id(7), id(7));
    assert_ne!(id(7), id(8));
}

#[test]
fn keys_are_equal_when_all_identifiers_are() {
    let key = key_with_ids([9, 2, 3, 4, 5, 6, 7, 8]);
    assert_eq!(key, key_with_ids([9, 2, 3, 4, 5, 6, 7, 8]));
    for position in 0..8 {
        let mut ids = [9, 2, 3, 4, 5, 6, 7, 8];
        ids[position] = 100;
        assert_ne!(key, key_with_ids(ids));
    }
}

fn check_values<V>()
where
    V: TableEntryValues<EarlyValue = String, LateValue = RawId>,
{
    let unset = V::new(String::from("early"), None);
    assert_eq!(unset.early_value(), "early");
    assert_eq!(unset.late_value(), None);
    assert_eq!(unset.into_parts(), (String::from("early"), None));

    let set = V::new(String::from("early"), Some(id(5)));
    assert_eq!(set.late_value(), Some(id(5)));
    assert_eq!(set.into_parts(), (String::from("early"), Some(id(5))));
}

fn check_late_value_is_set_once<V>()
where
    V: TableEntryValues<EarlyValue = String, LateValue = RawId>,
{
    let mut values = V::new(String::from("early"), None);
    // Reading before the late value is set gives "unset".
    assert_eq!(values.late_value(), None);
    // Asking for no change changes nothing.
    assert!(values.set_late_value(None).is_ok());
    assert_eq!(values.late_value(), None);
    // The first value that is set is visible afterwards.
    assert!(values.set_late_value(Some(id(11))).is_ok());
    assert_eq!(values.late_value(), Some(id(11)));
    assert_eq!(values.early_value(), "early");
    // A later value is refused and the first one stays.
    let refused = values.set_late_value(Some(id(12))).err().unwrap();
    assert_eq!(refused.passed_in_value, id(12));
    assert_eq!(refused.value, id(11));
    assert_eq!(values.late_value(), Some(id(11)));
    // Setting the same value again is refused too.
    let refused = values.set_late_value(Some(id(11))).err().unwrap();
    assert_eq!(refused.passed_in_value, id(11));
    assert_eq!(refused.value, id(11));
    assert!(values.set_late_value(None).is_ok());
    assert_eq!(values.late_value(), Some(id(11)));
    assert_eq!(values.into_parts(), (String::from("early"), Some(id(11))));
}

#[test]
fn local_values_hold_their_parts() {
    check_values::<LocalTableValues<String, RawId>>();
}

#[test]
fn sync_values_hold_their_parts() {
    check_values::<SyncTableValues<String, RawId>>();
}

#[test]
fn local_late_value_is_set_once() {
    check_late_value_is_set_once::<LocalTableValues<String, RawId>>();
}

#[test]
fn sync_late_value_is_set_once() {
    check_late_value_is_set_once::<SyncTableValues<String, RawId>>();
}

#[test]
fn sync_late_value_keeps_the_largest_identifier() {
    let values: SyncTableValues<u8, RawId> = SyncTableValues::new(1, Some(id(u32::MAX)));
    assert_eq!(values.late_value(), Some(id(u32::MAX)));
}

fn check_slot<T: TableEntry>()
where
    T::Values: TableEntryValues<EarlyValue = String, LateValue = RawId>,
{
    let first_key = key_with_ids([9, 2, 3, 4, 5, 6, 7, 8]);
    let other_key = key_with_ids([1, 2, 3, 4, 5, 6, 7, 8]);
    let mut slot = T::empty();
    assert!(slot.set_late_value(Some(id(3))).is_none());
    assert!(slot.get().is_none());

    let stored = slot
        .fill(first_key, T::Values::new(String::from("first"), None))
        .ok()
        .unwrap();
    assert_eq!(stored.early_value(), "first");
    assert_eq!(stored.late_value(), None);

    // A full slot hands back the value, whatever the key.
    let refused = slot
        .fill(other_key, T::Values::new(String::from("second"), None))
        .err()
        .unwrap();
    assert_eq!(refused.passed_in_value.early_value(), "second");
    assert_eq!(refused.entry_key, first_key);
    assert_eq!(refused.entry_value.early_value(), "first");
    let (key, values) = slot.get().unwrap();
    assert_eq!(key, first_key);
    assert_eq!(values.early_value(), "first");

    assert!(matches!(slot.set_late_value(Some(id(3))), Some(Ok(()))));
    assert_eq!(slot.get().unwrap().1.late_value(), Some(id(3)));
    let refused = slot.set_late_value(Some(id(4))).unwrap().err().unwrap();
    assert_eq!(refused.passed_in_value, id(4));
    assert_eq!(refused.value, id(3));
    assert_eq!(slot.get().unwrap().0, first_key);
    assert_eq!(slot.get().unwrap().1.early_value(), "first");

    let (key, values) = slot.take().unwrap();
    assert_eq!(key, first_key);
    assert_eq!(values.into_parts(), (String::from("first"), Some(id(3))));
    assert!(slot.get().is_none());

    // An emptied slot can be filled again.
    assert!(slot
        .fill(other_key, T::Values::new(String::from("third"), None))
        .is_ok());
    assert_eq!(slot.get().unwrap().0, other_key);
}

#[test]
fn local_slot_holds_one_entry() {
    check_slot::<LocalTableEntry<String, RawId>>();
}

#[test]
fn sync_slot_holds_one_entry() {
    check_slot::<SyncTableEntry<String, RawId>>();
}
