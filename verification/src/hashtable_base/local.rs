//! The slot for a single thread of control: plain fields, no state word.

use crate::common::RawId;
use crate::hashtable_base::AlreadyFull;
use crate::hashtable_base::Key;
use crate::hashtable_base::LateValueAlreadySet;
use crate::hashtable_base::TableEntry;
use crate::hashtable_base::TableEntryValues;
use vstd::prelude::*;

verus! {

/// Payload with the late value held as a plain optional field.
pub struct LocalTableValues<EarlyValue, LateValue: Copy> {
    early_value: EarlyValue,
    late_value: Option<LateValue>,
}

impl<EarlyValue, LateValue: Copy> TableEntryValues for LocalTableValues<EarlyValue, LateValue> {
    type LateValue = LateValue;

    type EarlyValue = EarlyValue;

    closed spec fn spec_early_value(&self) -> EarlyValue {
        self.early_value
    }

    closed spec fn spec_late_value(&self) -> Option<LateValue> {
        self.late_value
    }

    proof fn lemma_values_ext_equal(a: Self, b: Self) {
    }

    fn new(early_value: EarlyValue, late_value: Option<LateValue>) -> (r: Self) {
        Self { early_value, late_value }
    }

    fn early_value(&self) -> (r: &EarlyValue) {
        &self.early_value
    }

    fn late_value(&self) -> (r: Option<LateValue>) {
        self.late_value
    }

    fn set_late_value(&mut self, late_value: Option<LateValue>) -> (r: Result<
        (),
        LateValueAlreadySet<LateValue>,
    >) {
        match late_value {
            None => Ok(()),
            Some(passed_in_value) => match self.late_value {
                Some(value) => Err(LateValueAlreadySet { passed_in_value, value }),
                None => {
                    self.late_value = Some(passed_in_value);
                    Ok(())
                },
            },
        }
    }

    fn into_parts(self) -> (r: (EarlyValue, Option<LateValue>)) {
        let Self { early_value, late_value } = self;
        (early_value, late_value)
    }
}

/// A slot that keeps the first identifier of its key apart from the rest:
/// the slot is occupied exactly when that identifier is present.
pub struct LocalTableEntry<EarlyValue, LateValue: Copy> {
    key000: Option<RawId>,
    key001: RawId,
    key01: [RawId; 2],
    key1: [[RawId; 2]; 2],
    value: Option<LocalTableValues<EarlyValue, LateValue>>,
}

impl<EarlyValue, LateValue: Copy> LocalTableEntry<EarlyValue, LateValue> {
    /// The key that the fields spell once the first identifier is `key000`.
    closed spec fn key_with(&self, key000: RawId) -> Key {
        Key::from_parts([key000, self.key001], self.key01, self.key1)
    }
}

impl<EarlyValue, LateValue: Copy> TableEntry for LocalTableEntry<EarlyValue, LateValue> {
    type Values = LocalTableValues<EarlyValue, LateValue>;

    closed spec fn view(&self) -> Option<(Key, Self::Values)> {
        match (self.key000, self.value) {
            (Some(key000), Some(value)) => Some((self.key_with(key000), value)),
            _ => None,
        }
    }

    closed spec fn wf(&self) -> bool {
        self.key000 is Some <==> self.value is Some
    }

    fn empty() -> (r: Self) {
        let filler = RawId::new(1).unwrap();
        LocalTableEntry {
            key000: None,
            key001: filler,
            key01: [filler, filler],
            key1: [[filler, filler], [filler, filler]],
            value: None,
        }
    }

    fn get(&self) -> (r: Option<(Key, &Self::Values)>) {
        let key000 = self.key000?;
        let key001 = self.key001;
        let key01 = self.key01;
        let key1 = self.key1;
        let value_ref = self.value.as_ref().unwrap();
        Some((Key([[[key000, key001], key01], key1]), value_ref))
    }

    fn fill(&mut self, key: Key, value: Self::Values) -> (r: Result<
        &Self::Values,
        AlreadyFull<Self::Values>,
    >) {
        if self.key000.is_some() {
            let (entry_key, entry_value) = self.get().unwrap();
            Err(AlreadyFull { passed_in_value: value, entry_key, entry_value })
        } else {
            proof {
                key.lemma_from_own_parts();
                assert(key.0[0][0] =~= [key.0[0][0][0], key.0[0][0][1]]);
            }
            self.key000 = Some(key.0[0][0][0]);
            self.key001 = key.0[0][0][1];
            self.key01 = key.0[0][1];
            self.key1 = key.0[1];
            self.value = Some(value);
            Ok(self.value.as_ref().unwrap())
        }
    }

    fn take(&mut self) -> (r: Option<(Key, Self::Values)>) {
        let key000 = self.key000.take()?;
        let key001 = self.key001;
        let key01 = self.key01;
        let key1 = self.key1;
        let value = self.value.take().unwrap();
        Some((Key([[[key000, key001], key01], key1]), value))
    }

    fn set_late_value(&mut self, late_value: Option<LateValue>) -> (r: Option<
        Result<(), LateValueAlreadySet<LateValue>>,
    >) {
        match self.value.take() {
            None => None,
            Some(mut value) => {
                let outcome = value.set_late_value(late_value);
                self.value = Some(value);
                Some(outcome)
            },
        }
    }
}

} // verus!
