//! The set of keys that a search has met, kept in a hash set of `rustc_hash`.

use vstd::prelude::*;
use rustc_hash::{FxBuildHasher, FxHashSet};

verus! {

/// `rustc_hash::FxBuildHasher`, which builds the hashers of the set. It is carried
/// in the type of the set only, and nothing is said of it.
#[verifier::external_type_specification]
#[verifier::external_body]
pub struct ExFxBuildHasher(FxBuildHasher);

/// `std::collections::HashSet::insert` on a set that hashes its keys with
/// `rustc_hash::FxBuildHasher`. Every hasher that `FxBuildHasher` builds starts from
/// the same state, so equal keys hash alike and the set behaves as a set of numbers:
/// afterwards it holds `key` beside what it held, and the result says whether `key`
/// is new to it.
#[verifier::external_body]
pub(crate) fn insert_key(seen: &mut FxHashSet<u32>, key: u32) -> (fresh: bool)
    ensures
        final(seen)@ == old(seen)@.insert(key),
        fresh == !old(seen)@.contains(key),
{
    seen.insert(key)
}

/// A set of numbers below `limit` is finite and has at most `limit` members.
pub proof fn lemma_keys_bounded(keys: Set<u32>, limit: u32)
    requires
        forall|k: u32| keys.contains(k) ==> k < limit,
    ensures
        keys.finite(),
        keys.len() <= limit,
    decreases limit,
{
    if limit == 0 {
        assert(keys =~= Set::<u32>::empty());
    } else {
        let top = (limit - 1) as u32;
        let rest = keys.remove(top);
        lemma_keys_bounded(rest, top);
        if keys.contains(top) {
            assert(keys =~= rest.insert(top));
        } else {
            assert(keys =~= rest);
        }
    }
}

} // verus!
