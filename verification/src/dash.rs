//! A concurrent map of counters, from the `dashmap` crate.

use dashmap::DashMap;
use vstd::prelude::*;

verus! {

/// The concurrent hash map of the `dashmap` crate.
#[verifier::external_type_specification]
#[verifier::external_body]
#[verifier::reject_recursive_types(K)]
#[verifier::reject_recursive_types(V)]
#[verifier::reject_recursive_types(S)]
pub struct ExDashMap<K, V, S>(DashMap<K, V, S>);

/// The number stored for each name.
pub uninterp spec fn dash_contents(map: DashMap<String, u64>) -> Map<Seq<char>, u64>;

/// `DashMap::new` makes an empty map.
#[verifier::external_body]
pub(crate) fn dash_new() -> (r: DashMap<String, u64>)
    ensures
        (dash_contents(r) == Map::<Seq<char>, u64>::empty()),
{
    DashMap::new()
}

/// `DashMap::get` finds the number of a name.
#[verifier::external_body]
pub(crate) fn dash_get(map: &DashMap<String, u64>, name: &str) -> (r: Option<u64>)
    ensures
        r == (if dash_contents(*map).contains_key(name@) {
            Some(dash_contents(*map)[name@])
        } else {
            None
        }),
{
    map.get(name).map(|value| *value)
}

/// `DashMap::insert` stores a number for a name, in place of the one that was there.
#[verifier::external_body]
pub(crate) fn dash_insert(map: &mut DashMap<String, u64>, name: &str, value: u64)
    ensures
        dash_contents(*final(map)) == dash_contents(*old(map)).insert(name@, value),
{
    map.insert(name.to_owned(), value);
}

/// Whether `entries` lists what is in `contents`, each name once, in whatever order.
pub open spec fn lists_contents(
    entries: Seq<(String, u64)>,
    contents: Map<Seq<char>, u64>,
) -> bool {
    &&& forall|i: int|
        0 <= i < entries.len() ==> contents.contains_key((#[trigger] entries[i]).0@)
            && contents[entries[i].0@] == entries[i].1
    &&& forall|name: Seq<char>| #[trigger]
        contents.contains_key(name) ==> exists|i: int|
            0 <= i < entries.len() && (#[trigger] entries[i]).0@ == name
    &&& forall|i: int, j: int|
        0 <= i < j < entries.len() ==> (#[trigger] entries[i]).0@ != (#[trigger] entries[j]).0@
}

/// `DashMap::iter` visits every entry once, in an order that is not specified.
#[verifier::external_body]
pub(crate) fn dash_entries(map: &DashMap<String, u64>) -> (r: Vec<(String, u64)>)
    ensures
        lists_contents(r@, dash_contents(*map)),
{
    map.iter().map(|entry| (entry.key().clone(), *entry.value())).collect()
}

} // verus!
