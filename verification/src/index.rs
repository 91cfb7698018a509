//! The collections of outside crates that the library fills, and what is
//! taken on trust about them.

use ahash::AHashMap;
use dashmap::DashSet;
use vstd::prelude::*;

verus! {

/// The hasher state of `ahash`, which its maps carry. Nothing is known of it.
#[verifier::external_type_specification]
#[verifier::external_body]
pub struct ExRandomState(ahash::RandomState);

/// The hash map of `ahash`. What one holds is known through
/// [`index_entries`] alone.
#[verifier::external_type_specification]
#[verifier::external_body]
#[verifier::reject_recursive_types(K)]
#[verifier::reject_recursive_types(V)]
#[verifier::reject_recursive_types(S)]
pub struct ExAHashMap<K, V, S>(ahash::AHashMap<K, V, S>);

/// The concurrent set of `dashmap`. What one holds is known through
/// [`seen_hashes`] alone.
#[verifier::external_type_specification]
#[verifier::external_body]
#[verifier::reject_recursive_types(K)]
#[verifier::reject_recursive_types(S)]
pub struct ExDashSet<K, S>(dashmap::DashSet<K, S>);

/// What a name index holds: a position for each name.
pub uninterp spec fn index_entries(index: AHashMap<String, usize>) -> Map<Seq<char>, usize>;

/// The hashes that a set of seen hashes holds.
pub uninterp spec fn seen_hashes(seen: DashSet<u64>) -> Set<u64>;

/// An empty name index. Trusted: `AHashMap::new` makes a map without entries.
#[verifier::external_body]
pub(crate) fn index_new() -> (r: AHashMap<String, usize>)
    ensures
        forall|name: Seq<char>| !index_entries(r).contains_key(name),
{
    AHashMap::new()
}

/// The position stored under `name`. Trusted: `AHashMap::get` returns the
/// value stored under a key that the map holds, and nothing for any other key.
#[verifier::external_body]
pub(crate) fn index_get(index: &AHashMap<String, usize>, name: &str) -> (r: Option<usize>)
    ensures
        r == (if index_entries(*index).contains_key(name@) {
            Some(index_entries(*index)[name@])
        } else {
            None
        }),
{
    index.get(name).copied()
}

/// Stores `position` under `name`. Trusted: `AHashMap::insert` adds the entry,
/// replaces the value of a key that the map holds already, and leaves every
/// other entry as it was.
#[verifier::external_body]
pub(crate) fn index_insert(index: &mut AHashMap<String, usize>, name: String, position: usize)
    ensures
        index_entries(*final(index)) == index_entries(*old(index)).insert(name@, position),
{
    index.insert(name, position);
}

/// An empty set of seen hashes. Trusted: `DashSet::new` makes a set without
/// elements.
#[verifier::external_body]
pub(crate) fn seen_new() -> (r: DashSet<u64>)
    ensures
        seen_hashes(r) == Set::<u64>::empty(),
{
    DashSet::new()
}

/// Records `hash` and says whether it is new. Trusted: `DashSet::insert` adds
/// the key and returns true exactly when the set did not hold it before. The
/// set is borrowed mutably here, so no other thread changes it meanwhile.
#[verifier::external_body]
pub(crate) fn seen_insert(seen: &mut DashSet<u64>, hash: u64) -> (fresh: bool)
    ensures
        fresh == !seen_hashes(*old(seen)).contains(hash),
        seen_hashes(*final(seen)) == seen_hashes(*old(seen)).insert(hash),
{
    seen.insert(hash)
}

} // verus!
