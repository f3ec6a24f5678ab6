//! The hasher that a table uses unless it is given another.

use crate::common::RawId;
use crate::hashtable_base::Key;
use crate::hashtable_base::KeyHasher;
use vstd::prelude::*;

verus! {

/// The multiplier of each mixing step: the 64-bit FNV prime.
pub const WORD_HASH_PRIME: u64 = 0x0000_0100_0000_01b3;

/// The state that hashing starts from by default: the 64-bit FNV offset basis.
pub const WORD_HASH_BASIS: u64 = 0xcbf2_9ce4_8422_2325;

/// One mixing step: exclusive-or with the word, then multiplication by the
/// prime, modulo 2^64.
pub open spec fn spec_mix(state: u64, word: u32) -> u64 {
    (state ^ (word as u64)).wrapping_mul(WORD_HASH_PRIME)
}

/// The state after the first `n` of `ids` have been mixed into `basis`.
pub open spec fn spec_mix_ids(basis: u64, ids: Seq<RawId>, n: nat) -> u64
    decreases n,
{
    if n == 0 {
        basis
    } else {
        spec_mix(spec_mix_ids(basis, ids, (n - 1) as nat), ids[n - 1]@)
    }
}

/// A hasher in the manner of FNV-1a that mixes a key in one identifier at a
/// time. Hashers with different bases give unrelated hashes.
#[derive(Clone, Copy, Debug)]
pub struct WordHasher {
    pub basis: u64,
}

impl WordHasher {
    pub fn with_basis(basis: u64) -> (r: Self)
        ensures
            r.basis == basis,
    {
        WordHasher { basis }
    }
}

impl Default for WordHasher {
    fn default() -> (r: Self)
        ensures
            r.basis == WORD_HASH_BASIS,
    {
        WordHasher { basis: WORD_HASH_BASIS }
    }
}

impl KeyHasher for WordHasher {
    open spec fn spec_hash_key(&self, key: Key) -> u64 {
        spec_mix_ids(self.basis, key.ids(), 8)
    }

    fn hash_key(&self, key: &Key) -> (hash: u64) {
        let mut state = self.basis;
        let mut n: usize = 0;
        while n < 8
            invariant
                n <= 8,
                state == spec_mix_ids(self.basis, key.ids(), n as nat),
            decreases 8 - n,
        {
            let id = key.0[n / 4][(n / 2) % 2][n % 2];
            state = (state ^ (id.get() as u64)).wrapping_mul(WORD_HASH_PRIME);
            n += 1;
        }
        state
    }
}

} // verus!
