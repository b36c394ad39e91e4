//! The set of nodes that are being loaded.
//!
//! The set is a `HashSet` of std with the hasher of `fnv`. Its view is the
//! mathematical set of its keys. std's documentation says what each call
//! does for any hasher that gives equal keys equal hashes, which `FnvHasher`
//! does: it computes the hash from the key's bytes and nothing else.

use crate::payload::NodeId;
use fnv::FnvHashSet;
use vstd::prelude::*;

verus! {

/// `fnv::FnvHasher`, the hasher of the set.
#[verifier::external_type_specification]
#[verifier::external_body]
pub struct ExFnvHasher(fnv::FnvHasher);

/// `BuildHasherDefault` of std, which makes a hasher by its `Default`.
#[verifier::external_type_specification]
#[verifier::external_body]
#[verifier::reject_recursive_types(H)]
pub struct ExBuildHasherDefault<H>(core::hash::BuildHasherDefault<H>);

/// Asks `HashSet::contains` whether the key is in the set.
#[verifier::external_body]
pub(crate) fn set_contains(set: &FnvHashSet<NodeId>, key: &NodeId) -> (found: bool)
    ensures
        found == set@.contains(*key),
{
    set.contains(key)
}

/// Adds the key with `HashSet::insert`, which tells whether it was new.
#[verifier::external_body]
pub(crate) fn set_insert(set: &mut FnvHashSet<NodeId>, key: NodeId) -> (fresh: bool)
    ensures
        final(set)@ == old(set)@.insert(key),
        fresh == !old(set)@.contains(key),
{
    set.insert(key)
}

/// Takes the key out with `HashSet::remove`, which tells whether it was there.
#[verifier::external_body]
pub(crate) fn set_remove(set: &mut FnvHashSet<NodeId>, key: &NodeId) -> (found: bool)
    ensures
        final(set)@ == old(set)@.remove(*key),
        found == old(set)@.contains(*key),
{
    set.remove(key)
}

/// Counts the keys with `HashSet::len`.
#[verifier::external_body]
pub(crate) fn set_len(set: &FnvHashSet<NodeId>) -> (count: usize)
    ensures
        count == set@.len(),
{
    set.len()
}

} // verus!
