//! Deterministic seed derivation from a seed phrase.
use vstd::prelude::*;
use vstd::std_specs::hash::DefaultHasherAdditionalSpecFns;
use vstd::string::StringSliceAdditionalSpecFns;

use core::hash::Hasher;
use std::collections::hash_map::DefaultHasher;

verus! {

/// The 64-bit seed a phrase hashes to: the stable hash of the phrase's bytes,
/// fed to the default hasher in one write.
pub open spec fn spec_seed_from_word(word: Seq<u8>) -> u64 {
    DefaultHasher::spec_finish(seq![word])
}

/// Derive the generation seed from a phrase.  The same phrase always yields
/// the same seed: the hasher starts from a fixed state and consumes exactly
/// the phrase's bytes.
pub fn seed_from_word(word: &str) -> (r: u64)
    ensures
        r == spec_seed_from_word(word.spec_bytes()),
{
    let mut hasher = DefaultHasher::new();
    hasher.write(word.as_bytes());
    proof {
        assert(hasher@ =~= seq![word.spec_bytes()]);
    }
    hasher.finish()
}

} // verus!
