use hashlife::common::RawId;
use hashlife::hashtable_base::sync::fill_step;
use hashlife::hashtable_base::sync::get_step;
use hashlife::hashtable_base::sync::late_value_word;
use hashlife::hashtable_base::sync::pack_u64;
use hashlife::hashtable_base::sync::set_late_value_step;
use hashlife::hashtable_base::sync::unpack_u64;
use hashlife::hashtable_base::sync::FillStep;
use hashlife::hashtable_base::sync::GetStep;
use hashlife::hashtable_base::sync::MAX_SPIN_BACKOFF_STEP;
use hashlife::hashtable_base::sync::State;

#[test]
fn test_pack_unpack() {
    assert_eq!(unpack_u64(pack_u64([1, 2])), [1, 2]);
    assert_eq!(unpack_u64(pack_u64([12345, 2])), [12345, 2]);
    assert_eq!(unpack_u64(pack_u64([0, 5])), [0, 5]);
}

#[test]
fn test_state() {
    assert_eq!(State::EMPTY_U64, 0);
    assert_ne!(State::MODIFICATION_IN_PROGRESS_U64, State::EMPTY_U64);
    let [u0, u1] = unpack_u64(State::EMPTY_U64);
    assert!(u0 == 0 || u1 == 0);
    let [u0, u1] = unpack_u64(State::MODIFICATION_IN_PROGRESS_U64);
    assert!(u0 == 0 || u1 == 0);
}

#[test]
fn pack_puts_the_first_half_low() {
    assert_eq!(pack_u64([1, 2]), 0x0000_0002_0000_0001);
    assert_eq!(pack_u64([0, 0]), 0);
    assert_eq!(pack_u64([1, 0]), 1);
    assert_eq!(pack_u64([0xffff_ffff, 0xffff_ffff]), u64::MAX);
    assert_eq!(unpack_u64(0x1234_5678_9abc_def0), [0x9abc_def0, 0x1234_5678]);
}

#[test]
fn reserved_words_are_the_packed_pairs() {
    assert_eq!(State::EMPTY_U64, pack_u64([0, 0]));
    assert_eq!(State::MODIFICATION_IN_PROGRESS_U64, pack_u64([1, 0]));
}

#[test]
fn valid_words_are_reserved_or_have_two_identifiers() {
    assert!(State::is_valid_word(0));
    assert!(State::is_valid_word(1));
    assert!(State::is_valid_word(pack_u64([9, 2])));
    assert!(State::is_valid_word(pack_u64([1, 1])));
    assert!(!State::is_valid_word(pack_u64([2, 0])));
    assert!(!State::is_valid_word(pack_u64([0, 5])));
    assert!(!State::is_valid_word(pack_u64([0xffff_ffff, 0])));
}

#[test]
fn state_words_decode_to_their_states() {
    assert!(matches!(State::from_word(0), State::Empty));
    assert!(matches!(State::from_word(1), State::ModificationInProgress));
    match State::from_word(pack_u64([9, 2])) {
        State::Full { key00 } => {
            assert_eq!(key00[0].get(), 9);
            assert_eq!(key00[1].get(), 2);
        }
        other => panic!("expected a full state, got {:?}", other),
    }
}

#[test]
fn states_encode_to_their_words() {
    assert_eq!(u64::from(State::Empty), 0);
    assert_eq!(u64::from(State::ModificationInProgress), 1);
    let key00 = [RawId::new(9).unwrap(), RawId::new(2).unwrap()];
    assert_eq!(u64::from(State::Full { key00 }), 0x0000_0002_0000_0009);
    // [1, 1] is a full state, not a reserved word.
    let ones = [RawId::new(1).unwrap(), RawId::new(1).unwrap()];
    assert_eq!(u64::from(State::Full { key00: ones }), 0x0000_0001_0000_0001);
}

#[test]
fn encoding_and_decoding_are_inverse() {
    for &word in &[0u64, 1, pack_u64([9, 2]), pack_u64([7, 0xffff_ffff]), u64::MAX] {
        assert!(State::is_valid_word(word));
        assert_eq!(u64::from(State::from_word(word)), word);
    }
}

#[test]
fn fill_claims_only_after_a_successful_exchange() {
    assert!(matches!(fill_step(Ok(State::EMPTY_U64)), FillStep::Claimed));
    assert!(matches!(fill_step(Err(State::EMPTY_U64)), FillStep::Retry));
    assert!(matches!(
        fill_step(Err(State::MODIFICATION_IN_PROGRESS_U64)),
        FillStep::Wait
    ));
    match fill_step(Err(pack_u64([9, 2]))) {
        FillStep::Occupied { key00 } => {
            assert_eq!(key00[0].get(), 9);
            assert_eq!(key00[1].get(), 2);
        }
        other => panic!("expected an occupied slot, got {:?}", other),
    }
}

#[test]
fn get_reads_only_a_published_entry() {
    assert!(matches!(get_step(State::EMPTY_U64, 0), GetStep::Vacant));
    assert!(matches!(get_step(State::EMPTY_U64, 7), GetStep::Vacant));
    match get_step(pack_u64([9, 2]), 3) {
        GetStep::Occupied { key00 } => {
            assert_eq!(key00[0].get(), 9);
            assert_eq!(key00[1].get(), 2);
        }
        other => panic!("expected an occupied slot, got {:?}", other),
    }
}

#[test]
fn get_backs_off_while_a_writer_holds_the_slot() {
    let busy = State::MODIFICATION_IN_PROGRESS_U64;
    let expected = [1u32, 2, 4, 8, 16, 32, 64];
    for step in 0..=MAX_SPIN_BACKOFF_STEP {
        match get_step(busy, step) {
            GetStep::Spin {
                iterations,
                next_backoff_step,
            } => {
                assert_eq!(iterations, expected[step as usize]);
                assert_eq!(next_backoff_step, step + 1);
            }
            other => panic!("expected to spin, got {:?}", other),
        }
    }
    assert_eq!(MAX_SPIN_BACKOFF_STEP, 6);
    assert!(matches!(get_step(busy, 7), GetStep::Yield));
    assert!(matches!(get_step(busy, u32::MAX), GetStep::Yield));
}

#[test]
fn late_value_word_is_the_identifier_or_zero() {
    assert_eq!(late_value_word(None), 0);
    assert_eq!(late_value_word(RawId::new(7)), 7);
    assert_eq!(late_value_word(RawId::new(u32::MAX)), u32::MAX);
    assert_eq!(RawId::new(late_value_word(RawId::new(7))), RawId::new(7));
    assert_eq!(RawId::new(late_value_word(None)), None);
}

#[test]
fn late_value_exchange_decides_the_answer() {
    let passed = RawId::new(12).unwrap();
    assert!(set_late_value_step(Ok(0), passed).is_ok());
    let refused = set_late_value_step(Err(11), passed).err().unwrap();
    assert_eq!(refused.passed_in_value, passed);
    assert_eq!(refused.value, RawId::new(11).unwrap());
}
