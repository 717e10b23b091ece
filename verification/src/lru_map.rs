//! A bounded map in order of use, from the `lru` crate.

use lru::LruCache;
use vstd::prelude::*;

verus! {

/// The least-recently-used map of the `lru` crate.
#[verifier::external_type_specification]
#[verifier::external_body]
#[verifier::reject_recursive_types(K)]
#[verifier::reject_recursive_types(V)]
#[verifier::reject_recursive_types(S)]
pub struct ExLruCache<K, V, S>(LruCache<K, V, S>);

/// The hasher that the `lru` crate uses where none is chosen.
#[verifier::external_type_specification]
#[verifier::external_body]
pub struct ExDefaultHasher(lru::DefaultHasher);

/// The entries of a map from byte strings to numbers, from the one used longest ago to the
/// one used last.
pub uninterp spec fn lru_entries(map: LruCache<Vec<u8>, i64>) -> Seq<(Seq<u8>, i64)>;

/// How many entries a map can hold.
pub uninterp spec fn lru_capacity(map: LruCache<Vec<u8>, i64>) -> nat;

/// A capacity for which the size of the table can be computed on every platform.
pub const MAX_CAPACITY: usize = usize::MAX / 128;

/// `LruCache::new` makes an empty map of the given capacity. It reserves room for all entries
/// at once, and panics where the size of that room overflows, which it does not up to
/// `MAX_CAPACITY`.
#[verifier::external_body]
fn lru_new(capacity: usize) -> (r: LruCache<Vec<u8>, i64>)
    requires
        0 < capacity <= MAX_CAPACITY,
    ensures
        lru_entries(r) == Seq::<(Seq<u8>, i64)>::empty(),
        lru_capacity(r) == capacity,
{
    LruCache::new(std::num::NonZeroUsize::new(capacity).unwrap())
}

/// `LruCache::len` is the number of entries.
#[verifier::external_body]
fn lru_len(map: &LruCache<Vec<u8>, i64>) -> (r: usize)
    ensures
        r == lru_entries(*map).len(),
{
    map.len()
}

/// The position of a key, where it occurs.
pub open spec fn holds_at(entries: Seq<(Seq<u8>, i64)>, key: Seq<u8>, i: int) -> bool {
    0 <= i < entries.len() && entries[i].0 == key
}

/// Whether a key occurs.
pub open spec fn holds(entries: Seq<(Seq<u8>, i64)>, key: Seq<u8>) -> bool {
    exists|i: int| #[trigger] holds_at(entries, key, i)
}

/// `LruCache::get` finds the value of a key and makes its entry the one used last; a key that
/// does not occur changes nothing.
#[verifier::external_body]
fn lru_get(map: &mut LruCache<Vec<u8>, i64>, key: &Vec<u8>) -> (r: Option<i64>)
    ensures
        lru_capacity(*final(map)) == lru_capacity(*old(map)),
        match r {
            Some(value) => exists|i: int| #[trigger]
                holds_at(lru_entries(*old(map)), key@, i) && lru_entries(*old(map))[i].1 == value
                    && lru_entries(*final(map)) == lru_entries(*old(map)).remove(i).push(
                    (key@, value),
                ),
            None => !holds(lru_entries(*old(map)), key@) && lru_entries(*final(map))
                == lru_entries(*old(map)),
        },
{
    map.get(key).copied()
}

/// `LruCache::put` stores a value as the entry used last and returns the value that it
/// replaces. A new key pushes out the entry used longest ago where the map is full.
#[verifier::external_body]
fn lru_put(map: &mut LruCache<Vec<u8>, i64>, key: Vec<u8>, value: i64) -> (r: Option<
    i64,
>)
    ensures
        lru_capacity(*final(map)) == lru_capacity(*old(map)),
        match r {
            Some(before) => exists|i: int| #[trigger]
                holds_at(lru_entries(*old(map)), key@, i) && lru_entries(*old(map))[i].1 == before
                    && lru_entries(*final(map)) == lru_entries(*old(map)).remove(i).push(
                    (key@, value),
                ),
            None => !holds(lru_entries(*old(map)), key@) && lru_entries(*final(map)) == (if lru_entries(
                *old(map),
            ).len() == lru_capacity(*old(map)) {
                lru_entries(*old(map)).drop_first().push((key@, value))
            } else {
                lru_entries(*old(map)).push((key@, value))
            }),
        },
{
    map.put(key, value)
}

/// `LruCache::pop_lru` removes the entry used longest ago.
#[verifier::external_body]
fn lru_pop(map: &mut LruCache<Vec<u8>, i64>) -> (r: Option<(Vec<u8>, i64)>)
    ensures
        lru_capacity(*final(map)) == lru_capacity(*old(map)),
        match r {
            Some((key, value)) => lru_entries(*old(map)).len() > 0 && lru_entries(*old(map))[0] == (
                key@,
                value,
            ) && lru_entries(*final(map)) == lru_entries(*old(map)).drop_first(),
            None => lru_entries(*old(map)).len() == 0 && lru_entries(*final(map)) == lru_entries(
                *old(map),
            ),
        },
{
    map.pop_lru()
}

/// The entries with that of `key` moved to the end.
pub open spec fn refreshed(entries: Seq<(Seq<u8>, i64)>, key: Seq<u8>) -> Seq<(Seq<u8>, i64)> {
    let i = choose|i: int| holds_at(entries, key, i);
    entries.remove(i).push(entries[i])
}

/// The entries with `key` stored at the end. A new key pushes out the first entry where
/// `capacity` is reached.
pub open spec fn stored(
    entries: Seq<(Seq<u8>, i64)>,
    capacity: nat,
    key: Seq<u8>,
    value: i64,
) -> Seq<(Seq<u8>, i64)> {
    if holds(entries, key) {
        entries.remove(choose|i: int| holds_at(entries, key, i)).push((key, value))
    } else if entries.len() == capacity {
        entries.drop_first().push((key, value))
    } else {
        entries.push((key, value))
    }
}

/// Whether no key occurs twice.
pub open spec fn distinct_keys(entries: Seq<(Seq<u8>, i64)>) -> bool {
    forall|i: int, j: int|
        0 <= i < j < entries.len() ==> (#[trigger] entries[i]).0 != (#[trigger] entries[j]).0
}

/// What a map in order of use holds: its entries from the one used longest ago to the one
/// used last, and how many fit.
#[verifier::ext_equal]
pub struct RecencyModel {
    pub entries: Seq<(Seq<u8>, i64)>,
    pub capacity: nat,
}

impl RecencyModel {
    /// At least one entry fits, no more are there than fit, and no key occurs twice.
    pub open spec fn wf(self) -> bool {
        &&& self.capacity >= 1
        &&& self.entries.len() <= self.capacity
        &&& distinct_keys(self.entries)
    }
}

/// A bounded map from byte strings to numbers that knows in which order its entries were
/// used.
pub struct RecencyMap {
    map: LruCache<Vec<u8>, i64>,
    capacity: usize,
}

impl View for RecencyMap {
    type V = RecencyModel;

    closed spec fn view(&self) -> RecencyModel {
        RecencyModel { entries: lru_entries(self.map), capacity: self.capacity as nat }
    }
}

impl RecencyMap {
    /// The map is consistent.
    pub closed spec fn wf(&self) -> bool {
        self@.wf() && lru_capacity(self.map) == self.capacity
    }

    /// What consistency means for what the map holds.
    pub proof fn lemma_wf(&self)
        requires
            self.wf(),
        ensures
            self@.wf(),
    {
    }

    /// An empty map.
    pub fn new(capacity: usize) -> (r: Self)
        requires
            0 < capacity <= MAX_CAPACITY,
        ensures
            r.wf(),
            r@ == (RecencyModel { entries: Seq::empty(), capacity: capacity as nat }),
    {
        RecencyMap { map: lru_new(capacity), capacity }
    }

    /// How many entries fit.
    pub fn capacity(&self) -> (r: usize)
        ensures
            r == self@.capacity,
    {
        self.capacity
    }

    /// How many entries there are.
    pub fn len(&self) -> (r: usize)
        ensures
            r == self@.entries.len(),
    {
        lru_len(&self.map)
    }

    /// Looks a key up, which makes its entry the one used last.
    pub fn get(&mut self, key: &Vec<u8>) -> (r: Option<i64>)
        requires
            old(self).wf(),
        ensures
            final(self).wf(),
            final(self)@.capacity == old(self)@.capacity,
            r is Some <==> holds(old(self)@.entries, key@),
            r is Some ==> final(self)@.entries == refreshed(old(self)@.entries, key@)
                && final(self)@.entries.last() == (key@, r->0),
            r is None ==> final(self)@.entries == old(self)@.entries,
    {
        let ghost start = self@.entries;
        let r = lru_get(&mut self.map, key);
        proof {
            if r is Some {
                let value = r->0;
                let i = choose|i: int| #[trigger]
                    holds_at(start, key@, i) && start[i].1 == value && self@.entries
                        == start.remove(i).push((key@, value));
                lemma_distinct_position(start, key@, i);
                lemma_move_keeps_distinct(start, key@, i, value);
                assert(start[i] == (key@, value));
            }
        }
        r
    }

    /// Stores a number as the entry used last. A new key pushes out the entry used longest ago
    /// where the map is full.
    pub fn put(&mut self, key: Vec<u8>, value: i64)
        requires
            old(self).wf(),
        ensures
            final(self).wf(),
            final(self)@.capacity == old(self)@.capacity,
            final(self)@.entries == stored(
                old(self)@.entries,
                old(self)@.capacity,
                key@,
                value,
            ),
    {
        let ghost start = self@.entries;
        let ghost k = key@;
        let replaced = lru_put(&mut self.map, key, value);
        proof {
            if replaced is Some {
                let before = replaced->0;
                let i = choose|i: int| #[trigger]
                    holds_at(start, k, i) && start[i].1 == before && self@.entries
                        == start.remove(i).push((k, value));
                lemma_distinct_position(start, k, i);
                lemma_move_keeps_distinct(start, k, i, value);
            } else {
                lemma_push_keeps_distinct(start, k, value);
            }
        }
    }

    /// Removes the entry used longest ago.
    pub fn pop(&mut self) -> (r: Option<(Vec<u8>, i64)>)
        requires
            old(self).wf(),
        ensures
            final(self).wf(),
            final(self)@.capacity == old(self)@.capacity,
            r is Some <==> old(self)@.entries.len() > 0,
            r matches Some((key, value)) ==> (key@, value) == old(self)@.entries[0]
                && final(self)@.entries == old(self)@.entries.drop_first(),
            r is None ==> final(self)@.entries == old(self)@.entries,
    {
        let ghost start = self@.entries;
        let r = lru_pop(&mut self.map);
        proof {
            if r is Some {
                let rest = start.drop_first();
                assert forall|a: int, b: int| 0 <= a < b < rest.len() implies (
                #[trigger] rest[a]).0 != (#[trigger] rest[b]).0 by {
                    assert(rest[a] == start[a + 1]);
                    assert(rest[b] == start[b + 1]);
                }
            }
        }
        r
    }
}

proof fn lemma_distinct_position(entries: Seq<(Seq<u8>, i64)>, key: Seq<u8>, i: int)
    requires
        distinct_keys(entries),
        holds_at(entries, key, i),
    ensures
        holds(entries, key),
        i == (choose|k: int| holds_at(entries, key, k)),
{
    let k = choose|k: int| holds_at(entries, key, k);
    assert(holds_at(entries, key, k));
    if i < k {
        assert(entries[i].0 != entries[k].0);
    } else if k < i {
        assert(entries[k].0 != entries[i].0);
    }
}

proof fn lemma_move_keeps_distinct(
    entries: Seq<(Seq<u8>, i64)>,
    key: Seq<u8>,
    i: int,
    value: i64,
)
    requires
        distinct_keys(entries),
        holds_at(entries, key, i),
    ensures
        distinct_keys(entries.remove(i).push((key, value))),
{
    let r = entries.remove(i).push((key, value));
    assert forall|a: int, b: int| 0 <= a < b < r.len() implies (#[trigger] r[a]).0 != (
    #[trigger] r[b]).0 by {
        let a0 = if a < i { a } else { a + 1 };
        let b0 = if b < i { b } else { b + 1 };
        assert(r[a] == entries[a0]);
        if b < r.len() - 1 {
            assert(r[b] == entries[b0]);
        } else if a0 < i {
            assert(entries[a0].0 != entries[i].0);
        } else {
            assert(entries[i].0 != entries[a0].0);
        }
    }
}

proof fn lemma_push_keeps_distinct(entries: Seq<(Seq<u8>, i64)>, key: Seq<u8>, value: i64)
    requires
        distinct_keys(entries),
        !holds(entries, key),
    ensures
        distinct_keys(entries.push((key, value))),
        entries.len() > 0 ==> distinct_keys(entries.drop_first().push((key, value))),
{
    assert forall|i: int| 0 <= i < entries.len() implies (#[trigger] entries[i]).0 != key by {
        assert(!holds_at(entries, key, i));
    }
    if entries.len() > 0 {
        let r = entries.drop_first().push((key, value));
        assert forall|a: int, b: int| 0 <= a < b < r.len() implies (#[trigger] r[a]).0 != (
        #[trigger] r[b]).0 by {
            assert(r[a] == entries[a + 1]);
            if b < r.len() - 1 {
                assert(r[b] == entries[b + 1]);
            }
        }
    }
}

/// Using an entry moves it to the end and keeps all others in their order.
pub proof fn law_used_entry_moves_to_the_end(entries: Seq<(Seq<u8>, i64)>, i: int)
    requires
        distinct_keys(entries),
        0 <= i < entries.len(),
    ensures
        refreshed(entries, entries[i].0) == entries.remove(i).push(entries[i]),
{
    assert(holds_at(entries, entries[i].0, i));
    lemma_distinct_position(entries, entries[i].0, i);
}

/// A stored entry is the one used last. A known key loses its old value and place, a new one
/// pushes out the entry used longest ago where the capacity is reached and nothing otherwise.
pub proof fn law_stored_entry_is_used_last(
    entries: Seq<(Seq<u8>, i64)>,
    capacity: nat,
    key: Seq<u8>,
    value: i64,
    i: int,
)
    requires
        distinct_keys(entries),
        entries.len() <= capacity,
        capacity >= 1,
    ensures
        stored(entries, capacity, key, value).last() == (key, value),
        stored(entries, capacity, key, value).len() <= capacity,
        0 <= i < entries.len() && entries[i].0 == key ==> stored(entries, capacity, key, value)
            == entries.remove(i).push((key, value)),
        (forall|k: int| 0 <= k < entries.len() ==> (#[trigger] entries[k]).0 != key)
            ==> stored(entries, capacity, key, value) == (if entries.len() == capacity {
            entries.skip(1)
        } else {
            entries
        }).push((key, value)),
{
    if 0 <= i < entries.len() && entries[i].0 == key {
        assert(holds_at(entries, key, i));
        lemma_distinct_position(entries, key, i);
    }
    if holds(entries, key) {
        let k = choose|k: int| holds_at(entries, key, k);
        assert(entries[k].0 == key);
    }
    if entries.len() > 0 {
        assert(entries.drop_first() =~= entries.skip(1));
    }
}

} // verus!
