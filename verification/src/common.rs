//! Identifiers shared by every layer of the store.

use vstd::prelude::*;

verus! {

/// An untagged node identifier: a 32-bit integer that is never zero.
///
/// Zero is reserved, so "no identifier" fits in the same 32 bits without a
/// separate flag. The field is private and every constructor rejects zero.
#[derive(Clone, Copy, Debug, PartialEq, Eq, Hash, Structural)]
pub struct RawId {
    value: u32,
}

impl RawId {
    #[verifier::type_invariant]
    spec fn nonzero(self) -> bool {
        self.value != 0
    }

    /// The integer this identifier stands for.
    pub closed spec fn view(&self) -> u32 {
        self.value
    }

    /// The identifier whose integer is `value`.
    pub closed spec fn spec_new(value: u32) -> RawId {
        RawId { value }
    }

    /// `spec_new` and `view` are inverse to each other.
    pub broadcast proof fn lemma_spec_new_view(value: u32)
        ensures
            (#[trigger] RawId::spec_new(value))@ == value,
    {
    }

    /// An identifier is determined by its integer.
    pub broadcast proof fn lemma_view_spec_new(id: RawId)
        ensures
            RawId::spec_new(#[trigger] id@) == id,
    {
    }

    /// Two identifiers with the same integer are the same identifier.
    pub proof fn lemma_view_injective(a: RawId, b: RawId)
        requires
            a@ == b@,
        ensures
            a == b,
    {
    }

    /// Makes an identifier from `value`, or `None` when `value` is zero.
    pub fn new(value: u32) -> (r: Option<RawId>)
        ensures
            r == (if value == 0 {
                None
            } else {
                Some(RawId::spec_new(value))
            }),
    {
        if value == 0 {
            None
        } else {
            Some(RawId { value })
        }
    }

    /// The integer of this identifier; never zero.
    pub fn get(self) -> (r: u32)
        ensures
            r == self@,
            r != 0,
    {
        proof {
            use_type_invariant(&self);
        }
        self.value
    }
}

} // verus!
