//! The ordered map from names to declared entries that every scope owns.
//!
//! The map is an `indexmap::IndexMap`. Nothing in this file is proved: each
//! function states what the map's documentation and source say of the one
//! method it calls.

use vstd::prelude::*;
use indexmap::IndexMap;
use crate::name_resolution::scope::NamedItem;

verus! {

/// `indexmap::IndexMap`, a hash map that is iterated in insertion order. Its
/// inside is not visible to the proofs.
#[verifier::external_type_specification]
#[verifier::external_body]
#[verifier::reject_recursive_types(K)]
#[verifier::reject_recursive_types(V)]
#[verifier::reject_recursive_types(S)]
pub struct ExIndexMap<K, V, S>(IndexMap<K, V, S>);

/// The name of a bucket as a mathematical value.
pub open spec fn key_view(key: Option<String>) -> Option<Seq<char>> {
    match key {
        Some(name) => Some(name@),
        None => None,
    }
}

/// The buckets of the map in its iteration order: each is a name and its
/// entries.
pub uninterp spec fn item_buckets(map: IndexMap<Option<String>, Vec<NamedItem>>) -> Seq<
    (Option<Seq<char>>, Seq<NamedItem>),
>;

/// A bucket as the map lends it out: its name and its entries.
pub type BucketRef<'a> = (&'a Option<String>, &'a Vec<NamedItem>);

/// A bucket lent out for a change of its entries.
pub type BucketMut<'a> = (&'a Option<String>, &'a mut Vec<NamedItem>);

/// `IndexMap::new`: the new map has no bucket.
#[verifier::external_body]
pub(crate) fn buckets_new() -> (map: IndexMap<Option<String>, Vec<NamedItem>>)
    ensures
        item_buckets(map) == Seq::<(Option<Seq<char>>, Seq<NamedItem>)>::empty(),
{
    IndexMap::new()
}

/// `IndexMap::len`: the number of buckets.
#[verifier::external_body]
pub(crate) fn buckets_len(map: &IndexMap<Option<String>, Vec<NamedItem>>) -> (n: usize)
    ensures
        n == item_buckets(*map).len(),
{
    map.len()
}

/// `IndexMap::get_index`: the bucket at a position of the iteration order,
/// nothing past the end.
#[verifier::external_body]
pub(crate) fn buckets_get_index<'a>(
    map: &'a IndexMap<Option<String>, Vec<NamedItem>>,
    index: usize,
) -> (entry: Option<BucketRef<'a>>)
    ensures
        index >= item_buckets(*map).len() ==> entry is None,
        index < item_buckets(*map).len() ==> entry is Some,
        entry is Some ==> key_view(*entry.unwrap().0) == item_buckets(*map)[index as int].0,
        entry is Some ==> entry.unwrap().1@ == item_buckets(*map)[index as int].1,
{
    map.get_index(index)
}

/// `IndexMap::get_index_of`: the position of a bucket with the given name,
/// or nothing when no bucket has that name.
#[verifier::external_body]
pub(crate) fn buckets_get_index_of(
    map: &IndexMap<Option<String>, Vec<NamedItem>>,
    key: &Option<String>,
) -> (found: Option<usize>)
    ensures
        match found {
            Some(index) => index < item_buckets(*map).len() && item_buckets(
                *map,
            )[index as int].0 == key_view(*key),
            None => forall|i: int|
                0 <= i < item_buckets(*map).len() ==> (#[trigger] item_buckets(*map)[i]).0
                    != key_view(*key),
        },
{
    map.get_index_of(key)
}

/// `IndexMap::get_index_mut`: mutable access to the entries of the bucket at
/// a position. The bucket keeps its name and its place; no other bucket
/// changes.
#[verifier::external_body]
pub(crate) fn buckets_get_index_mut<'a>(
    map: &'a mut IndexMap<Option<String>, Vec<NamedItem>>,
    index: usize,
) -> (entry: Option<BucketMut<'a>>)
    ensures
        index >= item_buckets(*old(map)).len() ==> entry is None && item_buckets(*final(map))
            == item_buckets(*old(map)),
        index < item_buckets(*old(map)).len() ==> entry is Some,
        entry is Some ==> key_view(*entry.unwrap().0) == item_buckets(*old(map))[index as int].0,
        entry is Some ==> entry.unwrap().1@ == item_buckets(*old(map))[index as int].1,
        entry is Some ==> item_buckets(*final(map)) == item_buckets(*old(map)).update(
            index as int,
            (item_buckets(*old(map))[index as int].0, final(entry.unwrap().1)@),
        ),
{
    map.get_index_mut(index)
}

/// `IndexMap::insert`: where no bucket has the name, the new bucket comes
/// last and nothing is returned; where one has it, that bucket keeps its
/// place, takes the new entries and the old ones are returned.
#[verifier::external_body]
pub(crate) fn buckets_insert(
    map: &mut IndexMap<Option<String>, Vec<NamedItem>>,
    key: Option<String>,
    value: Vec<NamedItem>,
) -> (previous: Option<Vec<NamedItem>>)
    ensures
        match previous {
            None => {
                &&& forall|i: int|
                    0 <= i < item_buckets(*old(map)).len() ==> (#[trigger] item_buckets(
                        *old(map),
                    )[i]).0 != key_view(key)
                &&& item_buckets(*final(map)) == item_buckets(*old(map)).push(
                    (key_view(key), value@),
                )
            },
            Some(entries) => exists|i: int|
                {
                    &&& 0 <= i < item_buckets(*old(map)).len()
                    &&& (#[trigger] item_buckets(*old(map))[i]).0 == key_view(key)
                    &&& entries@ == item_buckets(*old(map))[i].1
                    &&& item_buckets(*final(map)) == item_buckets(*old(map)).update(
                        i,
                        (key_view(key), value@),
                    )
                },
        },
{
    map.insert(key, value)
}

} // verus!
