//! Marker traits for code that runs on a single thread of control: they
//! stand where `Send` and `Sync` stand in code that shares its data between
//! threads, and ask nothing.

use vstd::prelude::*;

verus! {

/// Holds of every type: the stand-in for `Send`.
pub trait FakeSend {

}

/// Holds of every type: the stand-in for `Sync`.
pub trait FakeSync {

}

impl<T: ?Sized> FakeSend for T {

}

impl<T: ?Sized> FakeSync for T {

}

} // verus!
