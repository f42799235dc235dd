//! The 64-bit hash from which block hashes and filter positions are derived.

use vstd::prelude::*;

verus! {

/// The XXH3 hash, 64 bits wide, of some bytes under a seed.
pub uninterp spec fn xxh3(input: Seq<u8>, seed: u64) -> u64;

/// `xxhash_rust::xxh3::xxh3_64_with_seed`: the hash depends on the bytes and the seed alone.
#[verifier::external_body]
pub(crate) fn hash_with_seed(input: &[u8], seed: u64) -> (hash: u64)
    ensures
        hash == xxh3(input@, seed),
{
    xxhash_rust::xxh3::xxh3_64_with_seed(input, seed)
}

} // verus!
