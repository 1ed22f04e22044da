//! Keyed 64-bit hashing.
use vstd::prelude::*;

verus! {

/// What `twox_hash::XxHash64` gives for a seed and the bytes hashed.
pub uninterp spec fn xxhash64_of(seed: u64, data: Seq<u8>) -> u64;

/// `twox_hash::XxHash64::oneshot`: the 64-bit xxHash of `data` under `seed`,
/// a function of the two alone. Feeding the same bytes to a hasher piece by
/// piece gives the same value.
#[verifier::external_body]
pub(crate) fn xxhash64(seed: u64, data: &[u8]) -> (r: u64)
    ensures
        r == xxhash64_of(seed, data@),
{
    twox_hash::XxHash64::oneshot(seed, data)
}

} // verus!
