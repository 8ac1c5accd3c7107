//! The loaded kernels by alias, in an `indexmap::IndexMap`.

use indexmap::IndexMap;
use std::hash::RandomState;

use vstd::prelude::*;

use crate::spk::SPK;

verus! {

/// The hash map with a stable order of its entries.
#[verifier::external_type_specification]
#[verifier::external_body]
#[verifier::reject_recursive_types(K)]
#[verifier::reject_recursive_types(V)]
#[verifier::reject_recursive_types(S)]
pub struct ExIndexMap<K, V, S>(indexmap::IndexMap<K, V, S>);

/// The entries of the map in their order, each with the characters of its key.
pub uninterp spec fn map_entries(map: IndexMap<String, SPK, RandomState>) -> Seq<(Seq<char>, SPK)>;

/// The first entry with this key.
pub open spec fn position_of(entries: Seq<(Seq<char>, SPK)>, alias: Seq<char>) -> Option<int>
    decreases entries.len(),
{
    if entries.len() == 0 {
        None
    } else if position_of(entries.drop_last(), alias) is Some {
        position_of(entries.drop_last(), alias)
    } else if entries.last().0 == alias {
        Some(entries.len() - 1)
    } else {
        None
    }
}

/// The position found for a key is that of the first entry with this key.
pub proof fn lemma_position_of(entries: Seq<(Seq<char>, SPK)>, alias: Seq<char>)
    ensures
        match position_of(entries, alias) {
            Some(i) => 0 <= i < entries.len() && entries[i].0 == alias && forall|j: int|
                0 <= j < i ==> (#[trigger] entries[j]).0 != alias,
            None => forall|j: int| 0 <= j < entries.len() ==> (#[trigger] entries[j]).0 != alias,
        },
    decreases entries.len(),
{
    if entries.len() > 0 {
        let init = entries.drop_last();
        lemma_position_of(init, alias);
        assert forall|j: int| 0 <= j < init.len() implies init[j] == #[trigger] entries[j] by {}
    }
}

/// Calls `IndexMap::new`: the map has no entry.
#[verifier::external_body]
pub(crate) fn map_new() -> (map: IndexMap<String, SPK>)
    ensures
        map_entries(map) == Seq::<(Seq<char>, SPK)>::empty(),
{
    IndexMap::new()
}

/// Calls `IndexMap::len`: the number of entries.
#[verifier::external_body]
pub(crate) fn map_len(map: &IndexMap<String, SPK>) -> (n: usize)
    ensures
        n == map_entries(*map).len(),
{
    map.len()
}

/// Calls `IndexMap::get_index`: the entry at this position, if there are that many.
#[verifier::external_body]
pub(crate) fn map_get_index(map: &IndexMap<String, SPK>, index: usize) -> (entry: Option<
    (&String, &SPK),
>)
    ensures
        match entry {
            Some((alias, spk)) => index < map_entries(*map).len() && (alias@, *spk) == map_entries(
                *map,
            )[index as int],
            None => index >= map_entries(*map).len(),
        },
{
    map.get_index(index)
}

/// Calls `IndexMap::insert`: a key that is present keeps its place and gets the new value, and
/// the old value is returned; a new key is added at the end.
#[verifier::external_body]
pub(crate) fn map_insert(map: &mut IndexMap<String, SPK>, alias: String, spk: SPK) -> (previous:
    Option<SPK>)
    ensures
        match position_of(map_entries(*old(map)), alias@) {
            Some(i) => map_entries(*final(map)) == map_entries(*old(map)).update(i, (alias@, spk))
                && previous == Some(map_entries(*old(map))[i].1),
            None => map_entries(*final(map)) == map_entries(*old(map)).push((alias@, spk))
                && previous is None,
        },
{
    map.insert(alias, spk)
}

/// Calls `IndexMap::shift_remove`: if the key is present its entry is removed, the entries behind
/// it move up, and the removed value is returned.
#[verifier::external_body]
pub(crate) fn map_shift_remove(map: &mut IndexMap<String, SPK>, alias: &str) -> (removed: Option<
    SPK,
>)
    ensures
        match position_of(map_entries(*old(map)), alias@) {
            Some(i) => map_entries(*final(map)) == map_entries(*old(map)).remove(i) && removed
                == Some(map_entries(*old(map))[i].1),
            None => map_entries(*final(map)) == map_entries(*old(map)) && removed is None,
        },
{
    map.shift_remove(alias)
}

/// Calls `IndexMap::swap_remove`: if the key is present its entry is removed, the last entry
/// takes its place, and the removed value is returned.
#[verifier::external_body]
pub(crate) fn map_swap_remove(map: &mut IndexMap<String, SPK>, alias: &str) -> (removed: Option<
    SPK,
>)
    ensures
        match position_of(map_entries(*old(map)), alias@) {
            Some(i) => map_entries(*final(map)) == map_entries(*old(map)).update(
                i,
                map_entries(*old(map)).last(),
            ).drop_last() && removed == Some(map_entries(*old(map))[i].1),
            None => map_entries(*final(map)) == map_entries(*old(map)) && removed is None,
        },
{
    map.swap_remove(alias)
}

} // verus!
