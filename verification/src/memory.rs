//! The memory of the machine: a map from variables to words that keeps the
//! order in which the variables were first stored.
//!
//! The map is an `indexmap::IndexMap`. What it holds is known here as a
//! sequence of pairs; the functions of this module say what each method of
//! the map does to that sequence.

use vstd::prelude::*;
use indexmap::IndexMap;
use std::collections::hash_map::RandomState;

verus! {

#[verifier::external_type_specification]
#[verifier::external_body]
#[verifier::reject_recursive_types(K)]
#[verifier::reject_recursive_types(V)]
#[verifier::reject_recursive_types(S)]
pub struct ExIndexMap<K, V, S>(IndexMap<K, V, S>);

/// The pairs of key and value that a map holds, in the order of the map.
pub uninterp spec fn cells(map: IndexMap<u16, u32, RandomState>) -> Seq<(u16, u32)>;

/// The value that stands with a key: that of the first pair with the key.
pub open spec fn value_at(cells: Seq<(u16, u32)>, key: u16) -> Option<u32>
    decreases cells.len(),
{
    if cells.len() == 0 {
        None
    } else if cells[0].0 == key {
        Some(cells[0].1)
    } else {
        value_at(cells.skip(1), key)
    }
}

/// The pairs after a value was stored under a key: the first pair with the
/// key has the new value and keeps its place; where no pair has the key, a
/// new pair stands at the end.
pub open spec fn stored(cells: Seq<(u16, u32)>, key: u16, value: u32) -> Seq<(u16, u32)>
    decreases cells.len(),
{
    if cells.len() == 0 {
        seq![(key, value)]
    } else if cells[0].0 == key {
        seq![(key, value)] + cells.skip(1)
    } else {
        seq![cells[0]] + stored(cells.skip(1), key, value)
    }
}

/// `IndexMap::new`: a map that holds nothing.
#[verifier::external_body]
pub(crate) fn empty() -> (map: IndexMap<u16, u32, RandomState>)
    ensures
        cells(map) == Seq::<(u16, u32)>::empty(),
{
    IndexMap::new()
}

/// `IndexMap::insert`. A key that is in the map keeps its place and takes
/// the new value, and the value it had is returned; a key that is not in the
/// map goes to the end with its value, and `None` is returned. No key is in
/// the map twice, so the first pair with the key is the only one.
#[verifier::external_body]
pub(crate) fn store(map: &mut IndexMap<u16, u32, RandomState>, key: u16, value: u32) -> (r:
    Option<u32>)
    ensures
        cells(*final(map)) == stored(cells(*old(map)), key, value),
        r == value_at(cells(*old(map)), key),
{
    map.insert(key, value)
}

/// `IndexMap::get`: the value that stands with the key, if the key is in the map.
#[verifier::external_body]
pub(crate) fn fetch(map: &IndexMap<u16, u32, RandomState>, key: u16) -> (r: Option<u32>)
    ensures
        r == value_at(cells(*map), key),
{
    map.get(&key).copied()
}

/// `IndexMap::get_index`: the pair at a place of the map's order, if the map
/// has that many pairs.
#[verifier::external_body]
pub(crate) fn cell(map: &IndexMap<u16, u32, RandomState>, index: usize) -> (r: Option<(u16, u32)>)
    ensures
        r == (if index < cells(*map).len() {
            Some(cells(*map)[index as int])
        } else {
            None
        }),
{
    map.get_index(index).map(|(key, value)| (*key, *value))
}

/// `IndexMap::len`: the number of pairs in the map.
#[verifier::external_body]
pub(crate) fn size(map: &IndexMap<u16, u32, RandomState>) -> (n: usize)
    ensures
        n == cells(*map).len(),
{
    map.len()
}

} // verus!
