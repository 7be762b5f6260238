//! Maps keyed by a component type's identifier, hashed with the Fx hasher.

use fxhash::FxHashMap;
use vstd::prelude::*;

verus! {

/// The identifier of a component type: a number that stands for the type
/// for as long as the world lives.
pub type ComponentId = u64;

/// The Fx hasher of the `fxhash` crate: an opaque value that the map's hash
/// builder makes afresh, from a fixed state, for every lookup.
#[verifier::external_type_specification]
#[verifier::external_body]
pub struct ExFxHasher(fxhash::FxHasher);

/// The hash builder of std that makes a hasher by `Default`: an opaque value
/// without state.
#[verifier::reject_recursive_types(H)]
#[verifier::external_type_specification]
#[verifier::external_body]
pub struct ExBuildHasherDefault<H>(std::hash::BuildHasherDefault<H>);

/// Calls `FxHashMap::default`, which yields a map without entries.
#[verifier::external_body]
pub(crate) fn new_map<X>() -> (m: FxHashMap<ComponentId, X>)
    ensures
        m@ =~= Map::empty(),
{
    FxHashMap::default()
}

/// Calls `HashMap::insert` on a map hashed by Fx. The hasher starts from a
/// fixed state and integer keys hash by value, so the map afterwards holds
/// `value` under `key` and every other entry as before; an entry that was
/// under `key` is dropped.
#[verifier::external_body]
pub(crate) fn insert<X>(m: &mut FxHashMap<ComponentId, X>, key: ComponentId, value: X)
    ensures
        final(m)@ == old(m)@.insert(key, value),
{
    m.insert(key, value);
}

/// Calls `HashMap::get` on a map hashed by Fx: the entry under `key`, if
/// there is one.
#[verifier::external_body]
pub(crate) fn get<'a, X>(m: &'a FxHashMap<ComponentId, X>, key: ComponentId) -> (r: Option<&'a X>)
    ensures
        r is Some <==> m@.contains_key(key),
        r matches Some(x) ==> *x == m@[key],
{
    m.get(&key)
}

/// Calls `HashMap::get_mut` on a map hashed by Fx: the entry under `key`, if
/// there is one, open to change. What the caller leaves in it is what the
/// map then holds under `key`; nothing else changes.
#[verifier::external_body]
pub(crate) fn get_mut<'a, X>(m: &'a mut FxHashMap<ComponentId, X>, key: ComponentId) -> (r: Option<&'a mut X>)
    ensures
        r is Some <==> old(m)@.contains_key(key),
        r matches Some(x) ==> *x == old(m)@[key] && final(m)@ == old(m)@.insert(key, *final(x)),
        r is None ==> final(m)@ == old(m)@,
{
    m.get_mut(&key)
}

} // verus!
