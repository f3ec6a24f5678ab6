//! The slot that publishes itself through one packed state word.
//!
//! The word is `Empty`, `ModificationInProgress` or `Full` with the first two
//! identifiers of the key. A writer claims an empty slot by exchanging `Empty`
//! for `ModificationInProgress`, writes the rest of the entry, and publishes
//! it by storing `Full`. The functions `fill_step` and `get_step` say what an
//! operation does after it has seen the word; they are the whole protocol,
//! whether the word is an atomic shared between threads or, as in
//! `SyncTableEntry`, a field that its owner accesses exclusively. What the
//! protocol achieves when operations interleave is shown in `shared_slot`.

use crate::common::RawId;
use crate::hashtable_base::AlreadyFull;
use crate::hashtable_base::Key;
use crate::hashtable_base::LateValueAlreadySet;
use crate::hashtable_base::TableEntry;
use crate::hashtable_base::TableEntryValues;
use std::marker::PhantomData;
use vstd::prelude::*;

verus! {

/// The word that holds `v[0]` in its low half and `v[1]` in its high half.
pub open spec fn spec_pack_u64(v: [u32; 2]) -> u64 {
    (v[0] as int + v[1] as int * 0x1_0000_0000) as u64
}

/// The two halves of `v`, low half first.
pub open spec fn spec_unpack_u64(v: u64) -> [u32; 2] {
    [(v as int % 0x1_0000_0000) as u32, (v as int / 0x1_0000_0000) as u32]
}

/// Unpacking undoes packing.
pub proof fn lemma_unpack_pack(v: [u32; 2])
    ensures
        spec_unpack_u64(spec_pack_u64(v)) == v,
{
    assert(spec_unpack_u64(spec_pack_u64(v)) =~= v);
}

/// Packing undoes unpacking.
pub proof fn lemma_pack_unpack(v: u64)
    ensures
        spec_pack_u64(spec_unpack_u64(v)) == v,
{
}

/// Splits a word into its halves, low half first.
pub fn unpack_u64(v: u64) -> (r: [u32; 2])
    ensures
        r == spec_unpack_u64(v),
{
    assert(v as u32 == v % 0x1_0000_0000) by (bit_vector);
    assert(v >> 32 == v / 0x1_0000_0000) by (bit_vector);
    let r = [v as u32, (v >> 32) as u32];
    assert(r =~= spec_unpack_u64(v));
    r
}

/// Joins two halves into a word, the first half low.
pub fn pack_u64(v: [u32; 2]) -> (r: u64)
    ensures
        r == spec_pack_u64(v),
{
    let v0 = v[0] as u64;
    let v1 = v[1] as u64;
    assert(v1 << 32 == v1 * 0x1_0000_0000) by (bit_vector)
        requires
            v1 <= 0xffff_ffff,
    ;
    v0 + (v1 << 32)
}

/// The state of a slot, as its state word encodes it.
#[derive(Clone, Copy, Debug)]
pub enum State {
    /// The slot holds no entry and no writer.
    Empty,
    /// A writer has claimed the slot and is writing its entry.
    ModificationInProgress,
    /// The slot holds an entry whose key starts with `key00`.
    Full { key00: [RawId; 2] },
}

impl State {
    /// The word of `Empty`.
    pub const EMPTY_U64: u64 = 0;

    /// The word of `ModificationInProgress`. Its high half is zero, which
    /// the word of no `Full` state has.
    pub const MODIFICATION_IN_PROGRESS_U64: u64 = 1;

    /// The word that encodes this state.
    pub open spec fn spec_to_word(self) -> u64 {
        match self {
            State::Empty => State::EMPTY_U64,
            State::ModificationInProgress => State::MODIFICATION_IN_PROGRESS_U64,
            State::Full { key00 } => spec_pack_u64([key00[0]@, key00[1]@]),
        }
    }

    /// A word encodes a state when it is one of the two reserved words or
    /// both of its halves are identifiers, that is, not zero.
    pub open spec fn valid_word(v: u64) -> bool {
        ||| v == State::EMPTY_U64
        ||| v == State::MODIFICATION_IN_PROGRESS_U64
        ||| (spec_unpack_u64(v)[0] != 0 && spec_unpack_u64(v)[1] != 0)
    }

    /// The state that `v` encodes.
    pub open spec fn spec_from_word(v: u64) -> State {
        if v == State::EMPTY_U64 {
            State::Empty
        } else if v == State::MODIFICATION_IN_PROGRESS_U64 {
            State::ModificationInProgress
        } else {
            State::Full {
                key00: [
                    RawId::spec_new(spec_unpack_u64(v)[0]),
                    RawId::spec_new(spec_unpack_u64(v)[1]),
                ],
            }
        }
    }

    /// The two reserved words are the packed pairs `[0, 0]` and `[1, 0]`.
    pub proof fn lemma_reserved_words()
        ensures
            State::EMPTY_U64 == spec_pack_u64([0, 0]),
            State::MODIFICATION_IN_PROGRESS_U64 == spec_pack_u64([1, 0]),
            State::valid_word(State::EMPTY_U64),
            State::valid_word(State::MODIFICATION_IN_PROGRESS_U64),
    {
    }

    /// The word of a state is valid and decodes to that state, provided the
    /// identifiers of a `Full` state are not zero.
    pub proof fn lemma_from_word_to_word(self)
        requires
            self matches State::Full { key00 } ==> key00[0]@ != 0 && key00[1]@ != 0,
        ensures
            State::valid_word(self.spec_to_word()),
            State::spec_from_word(self.spec_to_word()) == self,
    {
        broadcast use RawId::lemma_view_spec_new;

        match self {
            State::Full { key00 } => {
                let halves = [key00[0]@, key00[1]@];
                lemma_unpack_pack(halves);
                let word = spec_pack_u64(halves);
                assert(spec_unpack_u64(word)[0] == key00[0]@);
                assert(spec_unpack_u64(word)[1] == key00[1]@);
                assert(word != 0 && word != 1);
                let decoded = State::spec_from_word(word);
                assert(decoded->key00 =~= key00);
            },
            _ => {},
        }
    }

    /// A valid word is the word of the state it decodes to.
    pub proof fn lemma_to_word_from_word(v: u64)
        requires
            State::valid_word(v),
        ensures
            State::spec_from_word(v).spec_to_word() == v,
    {
        broadcast use RawId::lemma_spec_new_view;

        if v != State::EMPTY_U64 && v != State::MODIFICATION_IN_PROGRESS_U64 {
            let halves = spec_unpack_u64(v);
            lemma_pack_unpack(v);
            assert([halves[0], halves[1]] =~= halves);
        }
    }

    /// Whether `v` encodes a state.
    pub fn is_valid_word(v: u64) -> (r: bool)
        ensures
            r == State::valid_word(v),
    {
        let halves = unpack_u64(v);
        v == State::EMPTY_U64 || v == State::MODIFICATION_IN_PROGRESS_U64 || (halves[0] != 0
            && halves[1] != 0)
    }

    /// Decodes a state word.
    pub fn from_word(v: u64) -> (r: State)
        requires
            State::valid_word(v),
        ensures
            r == State::spec_from_word(v),
    {
        let halves = unpack_u64(v);
        if v == State::EMPTY_U64 {
            State::Empty
        } else if v == State::MODIFICATION_IN_PROGRESS_U64 {
            State::ModificationInProgress
        } else {
            State::Full { key00: [RawId::new(halves[0]).unwrap(), RawId::new(halves[1]).unwrap()] }
        }
    }
}

impl From<State> for u64 {
    /// The word that encodes `v`.
    fn from(v: State) -> (r: u64)
        ensures
            State::valid_word(r),
            State::spec_from_word(r) == v,
    {
        proof {
            State::lemma_reserved_words();
        }
        match v {
            State::Empty => State::EMPTY_U64,
            State::ModificationInProgress => State::MODIFICATION_IN_PROGRESS_U64,
            State::Full { key00 } => {
                let halves = [key00[0].get(), key00[1].get()];
                proof {
                    v.lemma_from_word_to_word();
                }
                pack_u64(halves)
            },
        }
    }
}

impl vstd::std_specs::convert::FromSpecImpl<State> for u64 {
    open spec fn obeys_from_spec() -> bool {
        true
    }

    open spec fn from_spec(v: State) -> u64 {
        v.spec_to_word()
    }
}

/// What `fill` does once its exchange of `Empty` for
/// `ModificationInProgress` has been answered.
#[derive(Clone, Copy, Debug)]
pub enum FillStep {
    /// The exchange succeeded: write the entry, then publish `Full`.
    Claimed,
    /// The exchange failed though the word was `Empty`: exchange again.
    Retry,
    /// Another writer holds the slot: wait for it to publish, then report its
    /// entry.
    Wait,
    /// The slot is occupied: report the entry whose key starts with `key00`.
    Occupied { key00: [RawId; 2] },
}

/// The step that follows the answer `exchange`: `Ok` for an exchange that
/// succeeded, `Err` with the word that was found for one that failed.
pub open spec fn spec_fill_step(exchange: Result<u64, u64>) -> FillStep {
    match exchange {
        Ok(_) => FillStep::Claimed,
        Err(v) => match State::spec_from_word(v) {
            State::Empty => FillStep::Retry,
            State::ModificationInProgress => FillStep::Wait,
            State::Full { key00 } => FillStep::Occupied { key00 },
        },
    }
}

/// Decides what `fill` does after the answer `exchange`.
pub fn fill_step(exchange: Result<u64, u64>) -> (r: FillStep)
    requires
        exchange matches Err(v) ==> State::valid_word(v),
    ensures
        r == spec_fill_step(exchange),
{
    match exchange {
        Ok(_) => FillStep::Claimed,
        Err(v) => match State::from_word(v) {
            State::Empty => FillStep::Retry,
            State::ModificationInProgress => FillStep::Wait,
            State::Full { key00 } => FillStep::Occupied { key00 },
        },
    }
}

/// The exchange by which a writer claims a slot whose state word is `word`:
/// `Empty` is replaced by `ModificationInProgress`, any other word stays. The
/// result is the answer, `Ok` with the word found where the exchange took
/// place and `Err` with it where it did not, and the word afterwards.
pub open spec fn spec_claim(word: u64) -> (Result<u64, u64>, u64) {
    if word == State::EMPTY_U64 {
        (Ok(word), State::MODIFICATION_IN_PROGRESS_U64)
    } else {
        (Err(word), word)
    }
}

/// At most one writer wins a slot. A claim succeeds on an empty slot and on
/// no other, and after any claim the next claim fails and leaves the word as
/// it is: its writer waits or reports the occupant, and never writes.
pub proof fn lemma_one_writer_wins(word: u64)
    requires
        State::valid_word(word),
    ensures
        spec_fill_step(spec_claim(word).0) is Claimed <==> word == State::EMPTY_U64,
        spec_claim(word).1 != State::EMPTY_U64,
        State::valid_word(spec_claim(word).1),
        !(spec_fill_step(spec_claim(spec_claim(word).1).0) is Claimed),
        !(spec_fill_step(spec_claim(spec_claim(word).1).0) is Retry),
        spec_claim(spec_claim(word).1).1 == spec_claim(word).1,
{
}

/// A published entry is what every later operation sees. Once the word of a
/// `Full` state has been stored, a claim fails and reports the occupant, and
/// a reader reads the entry, both with the identifiers that were published.
pub proof fn lemma_published_entry_is_seen(key00: [RawId; 2], backoff_step: u32)
    requires
        key00[0]@ != 0,
        key00[1]@ != 0,
    ensures
        ({
            let word = (State::Full { key00 }).spec_to_word();
            &&& State::valid_word(word)
            &&& spec_claim(word) == (Err::<u64, u64>(word), word)
            &&& spec_fill_step(spec_claim(word).0) == FillStep::Occupied { key00 }
            &&& spec_get_step(word, backoff_step) == GetStep::Occupied { key00 }
        }),
{
    (State::Full { key00 }).lemma_from_word_to_word();
}

/// No torn reads. While a writer holds a slot, a reader neither reads the
/// entry nor takes the slot for empty: it spins or yields, and loads the
/// word again.
pub proof fn lemma_reader_waits_for_writer(backoff_step: u32)
    ensures
        spec_get_step(State::MODIFICATION_IN_PROGRESS_U64, backoff_step) is Spin || spec_get_step(
            State::MODIFICATION_IN_PROGRESS_U64,
            backoff_step,
        ) is Yield,
{
}

/// The last backoff step that still spins; later steps yield the processor.
pub const MAX_SPIN_BACKOFF_STEP: u32 = 6;

/// What `get` does once it has loaded the state word.
#[derive(Clone, Copy, Debug)]
pub enum GetStep {
    /// The slot is empty.
    Vacant,
    /// The slot is occupied by an entry whose key starts with `key00`.
    Occupied { key00: [RawId; 2] },
    /// A writer holds the slot: spin `iterations` times, then load again with
    /// `next_backoff_step`.
    Spin { iterations: u32, next_backoff_step: u32 },
    /// A writer holds the slot and spinning has gone on long enough: yield
    /// the processor, then load again with the same backoff step.
    Yield,
}

/// The step that follows a load of `word` at backoff step `backoff_step`.
pub open spec fn spec_get_step(word: u64, backoff_step: u32) -> GetStep {
    match State::spec_from_word(word) {
        State::Empty => GetStep::Vacant,
        State::Full { key00 } => GetStep::Occupied { key00 },
        State::ModificationInProgress => if backoff_step <= MAX_SPIN_BACKOFF_STEP {
            GetStep::Spin {
                iterations: vstd::arithmetic::power2::pow2(backoff_step as nat) as u32,
                next_backoff_step: (backoff_step + 1) as u32,
            }
        } else {
            GetStep::Yield
        },
    }
}

/// Decides what `get` does after it has loaded `word` at `backoff_step`.
pub fn get_step(word: u64, backoff_step: u32) -> (r: GetStep)
    requires
        State::valid_word(word),
    ensures
        r == spec_get_step(word, backoff_step),
{
    match State::from_word(word) {
        State::Empty => GetStep::Vacant,
        State::Full { key00 } => GetStep::Occupied { key00 },
        State::ModificationInProgress => {
            if backoff_step <= MAX_SPIN_BACKOFF_STEP {
                assert(1u32 << backoff_step == vstd::arithmetic::power2::pow2(backoff_step as nat))
                    by {
                    vstd::arithmetic::power2::lemma2_to64();
                    vstd::bits::lemma_u32_shl_is_mul(1, backoff_step);
                }
                GetStep::Spin { iterations: 1 << backoff_step, next_backoff_step: backoff_step + 1 }
            } else {
                GetStep::Yield
            }
        },
    }
}

/// The word that holds a late value: the identifier, or zero for none.
pub open spec fn spec_late_value_word(late_value: Option<RawId>) -> u32 {
    match late_value {
        Some(id) => id@,
        None => 0,
    }
}

/// The late value that `word` holds.
pub open spec fn spec_late_value_of_word(word: u32) -> Option<RawId> {
    if word == 0 {
        None
    } else {
        Some(RawId::spec_new(word))
    }
}

/// The word that holds `late_value`. `RawId::new` reads it back.
pub fn late_value_word(late_value: Option<RawId>) -> (r: u32)
    ensures
        r == spec_late_value_word(late_value),
        spec_late_value_of_word(r) == late_value,
{
    broadcast use RawId::lemma_view_spec_new;

    match late_value {
        Some(id) => id.get(),
        None => 0,
    }
}

/// The exchange by which a late value is set in a word: zero, for "unset",
/// is replaced by the word of `late_value`; any other word stays. The result
/// is the answer, `Ok` with the word found where the exchange took place and
/// `Err` with it where it did not, and the word afterwards.
pub open spec fn spec_set_late_word(word: u32, late_value: RawId) -> (Result<u32, u32>, u32) {
    if word == 0 {
        (Ok(word), late_value@)
    } else {
        (Err(word), word)
    }
}

/// What `set_late_value` returns after the answer `exchange`.
pub open spec fn spec_set_late_value_step(
    exchange: Result<u32, u32>,
    passed_in_value: RawId,
) -> Result<(), LateValueAlreadySet<RawId>> {
    match exchange {
        Ok(_) => Ok(()),
        Err(word) => Err(LateValueAlreadySet { passed_in_value, value: RawId::spec_new(word) }),
    }
}

/// Decides what `set_late_value` returns after the answer `exchange`. An
/// exchange fails on a word that holds a late value, which is not zero.
pub fn set_late_value_step(exchange: Result<u32, u32>, passed_in_value: RawId) -> (r: Result<
    (),
    LateValueAlreadySet<RawId>,
>)
    requires
        exchange matches Err(word) ==> word != 0,
    ensures
        r == spec_set_late_value_step(exchange, passed_in_value),
{
    match exchange {
        Ok(_) => Ok(()),
        Err(word) => Err(LateValueAlreadySet { passed_in_value, value: RawId::new(word).unwrap() }),
    }
}

/// A late value is set once, whoever sets it. The first exchange sets the
/// word, and from then on the word stays: every later exchange fails and
/// hands back the value that was set first, and every load reads that value.
pub proof fn lemma_late_word_is_set_once(word: u32, first: RawId, second: RawId)
    requires
        first@ != 0,
    ensures
        spec_set_late_word(0, first) == (Ok::<u32, u32>(0), first@),
        spec_late_value_of_word(0) is None,
        spec_late_value_of_word(spec_set_late_word(0, first).1) == Some(first),
        ({
            let set = spec_set_late_word(word, first).1;
            &&& set != 0
            &&& spec_set_late_word(set, second) == (Err::<u32, u32>(set), set)
            &&& spec_set_late_value_step(spec_set_late_word(set, second).0, second) == Err::<
                (),
                LateValueAlreadySet<RawId>,
            >(LateValueAlreadySet { passed_in_value: second, value: RawId::spec_new(set) })
        }),
{
    broadcast use RawId::lemma_view_spec_new;

}

/// Exchanges zero for the word of `late_value` in `word`, as
/// `spec_set_late_word` says.
fn set_late_word(word: &mut u32, late_value: RawId) -> (r: Result<u32, u32>)
    ensures
        (r, *final(word)) == spec_set_late_word(*old(word), late_value),
        r is Ok ==> *final(word) != 0,
{
    let found = *word;
    if found == 0 {
        *word = late_value.get();
        Ok(found)
    } else {
        Err(found)
    }
}

/// Payload with the late value held in one 32-bit word, zero while unset, so
/// that it can be published by a single store.
pub struct SyncTableValues<EarlyValue, LateValue: Copy> {
    early_value: EarlyValue,
    late_value: u32,
    _phantom: PhantomData<LateValue>,
}

impl<EarlyValue> TableEntryValues for SyncTableValues<EarlyValue, RawId> {
    type LateValue = RawId;

    type EarlyValue = EarlyValue;

    closed spec fn spec_early_value(&self) -> EarlyValue {
        self.early_value
    }

    closed spec fn spec_late_value(&self) -> Option<RawId> {
        spec_late_value_of_word(self.late_value)
    }

    proof fn lemma_values_ext_equal(a: Self, b: Self) {
        broadcast use RawId::lemma_spec_new_view;

    }

    fn new(early_value: EarlyValue, late_value: Option<RawId>) -> (r: Self) {
        Self { early_value, late_value: late_value_word(late_value), _phantom: PhantomData }
    }

    fn early_value(&self) -> (r: &EarlyValue) {
        &self.early_value
    }

    fn late_value(&self) -> (r: Option<RawId>) {
        RawId::new(self.late_value)
    }

    fn set_late_value(&mut self, late_value: Option<RawId>) -> (r: Result<
        (),
        LateValueAlreadySet<RawId>,
    >) {
        broadcast use RawId::lemma_view_spec_new;

        match late_value {
            None => Ok(()),
            Some(passed_in_value) => {
                let exchange = set_late_word(&mut self.late_value, passed_in_value);
                set_late_value_step(exchange, passed_in_value)
            },
        }
    }

    fn into_parts(self) -> (r: (EarlyValue, Option<RawId>)) {
        let Self { early_value, late_value, _phantom } = self;
        (early_value, RawId::new(late_value))
    }
}

/// A slot whose state word carries the first two identifiers of its key.
pub struct SyncTableEntry<EarlyValue, LateValue: Copy> {
    state: u64,
    key01: [RawId; 2],
    key1: [[RawId; 2]; 2],
    value: Option<SyncTableValues<EarlyValue, LateValue>>,
}

/// Exchanges `Empty` for `ModificationInProgress` in `word`, as `spec_claim`
/// says.
fn claim(word: &mut u64) -> (r: Result<u64, u64>)
    ensures
        (r, *final(word)) == spec_claim(*old(word)),
{
    let found = *word;
    if found == State::EMPTY_U64 {
        *word = State::MODIFICATION_IN_PROGRESS_U64;
        Ok(found)
    } else {
        Err(found)
    }
}

impl<EarlyValue> TableEntry for SyncTableEntry<EarlyValue, RawId> {
    type Values = SyncTableValues<EarlyValue, RawId>;

    closed spec fn view(&self) -> Option<(Key, Self::Values)> {
        match (State::spec_from_word(self.state), self.value) {
            (State::Full { key00 }, Some(value)) => Some(
                (Key::from_parts(key00, self.key01, self.key1), value),
            ),
            _ => None,
        }
    }

    closed spec fn wf(&self) -> bool {
        &&& State::valid_word(self.state)
        &&& self.state != State::MODIFICATION_IN_PROGRESS_U64
        &&& self.state == State::EMPTY_U64 <==> self.value is None
    }

    fn empty() -> (r: Self) {
        let filler = RawId::new(1).unwrap();
        SyncTableEntry {
            state: State::EMPTY_U64,
            key01: [filler, filler],
            key1: [[filler, filler], [filler, filler]],
            value: None,
        }
    }

    fn get(&self) -> (r: Option<(Key, &Self::Values)>) {
        let key00 = match get_step(self.state, 0) {
            GetStep::Vacant => { return None; },
            GetStep::Occupied { key00 } => key00,
            GetStep::Spin { .. } | GetStep::Yield => vstd::pervasive::unreached(),
        };
        let key01 = self.key01;
        let key1 = self.key1;
        Some((Key([[key00, key01], key1]), self.value.as_ref().unwrap()))
    }

    fn fill(&mut self, key: Key, value: Self::Values) -> (r: Result<
        &Self::Values,
        AlreadyFull<Self::Values>,
    >) {
        let exchange = claim(&mut self.state);
        match fill_step(exchange) {
            FillStep::Claimed => {},
            FillStep::Retry | FillStep::Wait => vstd::pervasive::unreached(),
            FillStep::Occupied { key00 } => {
                let key01 = self.key01;
                let key1 = self.key1;
                let entry_key = Key([[key00, key01], key1]);
                return Err(
                    AlreadyFull {
                        passed_in_value: value,
                        entry_key,
                        entry_value: self.value.as_ref().unwrap(),
                    },
                );
            },
        }
        let key00 = key.0[0][0];
        self.key01 = key.0[0][1];
        self.key1 = key.0[1];
        self.value = Some(value);
        proof {
            key.lemma_from_own_parts();
        }
        self.state = u64::from(State::Full { key00 });
        Ok(self.value.as_ref().unwrap())
    }

    fn take(&mut self) -> (r: Option<(Key, Self::Values)>) {
        match State::from_word(self.state) {
            State::Empty => None,
            State::ModificationInProgress => vstd::pervasive::unreached(),
            State::Full { key00 } => {
                self.state = u64::from(State::Empty);
                let key01 = self.key01;
                let key1 = self.key1;
                let value = self.value.take().unwrap();
                Some((Key([[key00, key01], key1]), value))
            },
        }
    }

    fn set_late_value(&mut self, late_value: Option<RawId>) -> (r: Option<
        Result<(), LateValueAlreadySet<RawId>>,
    >) {
        match self.value.take() {
            None => None,
            Some(mut value) => {
                let outcome = value.set_late_value(late_value);
                self.value = Some(value);
                Some(outcome)
            },
        }
    }
}

} // verus!
