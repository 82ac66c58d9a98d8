//! The table of `test` definitions of a scope, kept in an `IndexMap` so that
//! tests are iterated in the order they were defined.
use vstd::prelude::*;
use indexmap::IndexMap;
use crate::ast::{Function, FunctionV, Name};
use crate::table::distinct_keys;

verus! {

#[verifier::external_type_specification]
#[verifier::external_body]
#[verifier::reject_recursive_types(K)]
#[verifier::reject_recursive_types(V)]
#[verifier::reject_recursive_types(S)]
pub struct ExIndexMap<K, V, S>(IndexMap<K, V, S>);

/// The entries of a map of tests, in the map's order: each test's name and
/// definition.
pub uninterp spec fn test_entries(m: IndexMap<Name, Function>) -> Seq<(Seq<char>, FunctionV)>;

/// `IndexMap::new`: an empty map.
#[verifier::external_body]
pub(crate) fn test_map_new() -> (r: IndexMap<Name, Function>)
    ensures
        test_entries(r) == Seq::<(Seq<char>, FunctionV)>::empty(),
{
    IndexMap::new()
}

/// `IndexMap::len`: the number of entries.
#[verifier::external_body]
pub(crate) fn test_map_len(m: &IndexMap<Name, Function>) -> (r: usize)
    ensures
        r == test_entries(*m).len(),
{
    m.len()
}

/// `IndexMap::get_index`: the entry at a position (which exists).
#[verifier::external_body]
pub(crate) fn test_map_get_index(m: &IndexMap<Name, Function>, i: usize) -> (r: (&Name, &Function))
    requires
        i < test_entries(*m).len(),
    ensures
        (r.0@, r.1@) == test_entries(*m)[i as int],
{
    m.get_index(i).unwrap()
}

/// `IndexMap::get_index_of`: the position of the entry with the given key.
#[verifier::external_body]
pub(crate) fn test_map_get_index_of(m: &IndexMap<Name, Function>, key: &Name) -> (r: Option<usize>)
    ensures
        r is None <==> forall|i: int|
            0 <= i < test_entries(*m).len() ==> #[trigger] test_entries(*m)[i].0 != key@,
        r matches Some(i) ==> i < test_entries(*m).len() && test_entries(*m)[i as int].0 == key@,
{
    m.get_index_of(key)
}

/// `IndexMap::insert`: an existing key keeps its place and gets the new
/// value; a new key goes last.
#[verifier::external_body]
pub(crate) fn test_map_insert(m: &mut IndexMap<Name, Function>, key: Name, value: Function)
    ensures
        distinct_keys(test_entries(*final(m))),
        forall|i: int|
            0 <= i < test_entries(*old(m)).len() && #[trigger] test_entries(*old(m))[i].0 == key@
                ==> test_entries(*final(m)) == test_entries(*old(m)).update(i, (key@, value@)),
        (forall|i: int|
            0 <= i < test_entries(*old(m)).len() ==> #[trigger] test_entries(*old(m))[i].0 != key@)
            ==> test_entries(*final(m)) == test_entries(*old(m)).push((key@, value@)),
{
    m.insert(key, value);
}

/// `IndexMap::clone`: the same entries in the same order (each cloned).
#[verifier::external_body]
pub(crate) fn test_map_clone(m: &IndexMap<Name, Function>) -> (r: IndexMap<Name, Function>)
    ensures
        test_entries(r) == test_entries(*m),
{
    m.clone()
}

} // verus!
