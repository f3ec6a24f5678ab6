//! What the stepping driver shares with the store: the failure it reports,
//! and the sequential way to run two tasks and join their results.

pub use crate::maybe_sync::FakeSend;
pub use crate::maybe_sync::FakeSync;

use crate::hashtable::GetOrInsertFailureReason;
use vstd::prelude::*;
use vstd::std_specs::convert::FromSpecImpl;

verus! {

/// Why a step could not be computed.
#[derive(Debug)]
pub enum FailureReason {
    /// A table had no room within its search limit for a node of the result.
    TableFullOrSearchLimitHit,
}

impl<T> From<GetOrInsertFailureReason<T>> for FailureReason {
    fn from(v: GetOrInsertFailureReason<T>) -> (r: Self) {
        match v {
            GetOrInsertFailureReason::TableFullOrSearchLimitHit { .. } => {
                FailureReason::TableFullOrSearchLimitHit
            },
        }
    }
}

impl<T> FromSpecImpl<GetOrInsertFailureReason<T>> for FailureReason {
    open spec fn obeys_from_spec() -> bool {
        true
    }

    open spec fn from_spec(v: GetOrInsertFailureReason<T>) -> FailureReason {
        FailureReason::TableFullOrSearchLimitHit
    }
}

/// Runs `a`, then `b`, and returns both results: the join of two tasks on a
/// single thread of control.
pub fn local_join<A, B, RA, RB>(a: A, b: B) -> (r: (RA, RB)) where
    A: FnOnce() -> RA + FakeSend,
    B: FnOnce() -> RB + FakeSend,
    RA: FakeSend,
    RB: FakeSend,

    requires
        call_requires(a, ()),
        call_requires(b, ()),
    ensures
        call_ensures(a, (), r.0),
        call_ensures(b, (), r.1),
{
    let ra = a();
    (ra, b())
}

} // verus!
