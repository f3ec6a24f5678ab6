use hashlife::hashlife::local_join;
use hashlife::hashlife::FailureReason;
use hashlife::hashtable::GetOrInsertFailureReason;
use hashlife::maybe_sync::FakeSend;
use hashlife::maybe_sync::FakeSync;
use std::cell::RefCell;
use std::rc::Rc;

#[test]
fn a_full_table_is_the_failure_of_a_step() {
    let failure = GetOrInsertFailureReason::TableFullOrSearchLimitHit {
        passed_in_value: String::from("unused"),
    };
    assert!(matches!(
        FailureReason::from(failure),
        FailureReason::TableFullOrSearchLimitHit
    ));
}

#[test]
fn local_join_runs_the_first_task_first() {
    let order = RefCell::new(Vec::new());
    let (a, b) = local_join(
        || {
            order.borrow_mut().push("a");
            1 + 2
        },
        || {
            order.borrow_mut().push("b");
            String::from("joined")
        },
    );
    assert_eq!(a, 3);
    assert_eq!(b, "joined");
    assert_eq!(*order.borrow(), vec!["a", "b"]);
}

fn needs_markers<T: FakeSend + FakeSync + ?Sized>(_: &T) -> bool {
    true
}

#[test]
fn every_type_has_the_markers() {
    // `Rc` is neither `Send` nor `Sync`.
    assert!(needs_markers(&Rc::new(5)));
    assert!(needs_markers("unsized"));
}
