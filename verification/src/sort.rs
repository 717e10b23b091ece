//! Stable sorting by an integer key.

use crate::text;
use vstd::prelude::*;

verus! {

/// `x` placed into a sorted sequence, behind everything whose key is not greater.
pub open spec fn insert_by_key<T>(s: Seq<(u128, T)>, x: (u128, T)) -> Seq<(u128, T)>
    decreases s.len(),
{
    if s.len() == 0 || s.last().0 <= x.0 {
        s.push(x)
    } else {
        insert_by_key(s.drop_last(), x).push(s.last())
    }
}

/// The elements in increasing order of their keys; equal keys keep their order.
pub open spec fn stable_sorted<T>(s: Seq<(u128, T)>) -> Seq<(u128, T)>
    decreases s.len(),
{
    if s.len() == 0 {
        s
    } else {
        insert_by_key(stable_sorted(s.drop_last()), s.last())
    }
}

/// Whether keys never decrease.
pub open spec fn sorted_by_key<T>(s: Seq<(u128, T)>) -> bool {
    forall|i: int, j: int| 0 <= i <= j < s.len() ==> (#[trigger] s[i]).0 <= (#[trigger] s[j]).0
}

/// The items without their keys.
pub open spec fn items<T>(s: Seq<(u128, T)>) -> Seq<T> {
    s.map_values(|x: (u128, T)| x.1)
}

/// The same keys with each item replaced.
pub open spec fn map_items<T, U>(s: Seq<(u128, T)>, f: spec_fn(T) -> U) -> Seq<(u128, U)> {
    s.map_values(|x: (u128, T)| (x.0, f(x.1)))
}

proof fn lemma_insert_sorted<T>(s: Seq<(u128, T)>, x: (u128, T))
    requires
        sorted_by_key(s),
    ensures
        sorted_by_key(insert_by_key(s, x)),
        insert_by_key(s, x).len() == s.len() + 1,
        s.len() > 0 && s.last().0 > x.0 ==> insert_by_key(s, x).last() == s.last(),
        forall|k: int|
            0 <= k < insert_by_key(s, x).len() ==> (#[trigger] insert_by_key(s, x)[k]).0 <= x.0 || (
            s.len() > 0 && insert_by_key(s, x)[k].0 <= s.last().0),
    decreases s.len(),
{
    if s.len() == 0 || s.last().0 <= x.0 {
        assert forall|i: int, j: int| 0 <= i <= j < s.push(x).len() implies (#[trigger] s.push(x)[i]).0
            <= (#[trigger] s.push(x)[j]).0 by {
            if j == s.len() && i < j {
                assert(s[i].0 <= s[s.len() - 1].0);
            }
        }
    } else {
        lemma_insert_sorted(s.drop_last(), x);
        if s.len() > 1 {
            assert(s[s.len() - 2].0 <= s[s.len() - 1].0);
        }
    }
}

/// Sorting orders the keys.
pub proof fn law_sorting_sorts<T>(s: Seq<(u128, T)>)
    ensures
        sorted_by_key(stable_sorted(s)),
        stable_sorted(s).len() == s.len(),
    decreases s.len(),
{
    if s.len() > 0 {
        law_sorting_sorts(s.drop_last());
        lemma_insert_sorted(stable_sorted(s.drop_last()), s.last());
    }
}

proof fn lemma_insert_filter<T>(s: Seq<(u128, T)>, x: (u128, T), key: u128)
    requires
        sorted_by_key(s),
    ensures
        insert_by_key(s, x).filter(|y: (u128, T)| y.0 == key) == s.push(x).filter(
            |y: (u128, T)| y.0 == key,
        ),
    decreases s.len(),
{
    let keep = |y: (u128, T)| y.0 == key;
    if s.len() > 0 && s.last().0 > x.0 {
        let init = s.drop_last();
        let l = s.last();
        lemma_insert_filter(init, x, key);
        text::lemma_filter_push(insert_by_key(init, x), l, keep);
        text::lemma_filter_push(init, x, keep);
        text::lemma_filter_push(s, x, keep);
        text::lemma_filter_push(init, l, keep);
        assert(init.push(l) =~= s);
    }
}

/// Sorting keeps every element, and those with one key stay in their order.
pub proof fn law_sorting_is_stable<T>(s: Seq<(u128, T)>, key: u128)
    ensures
        stable_sorted(s).filter(|y: (u128, T)| y.0 == key) == s.filter(
            |y: (u128, T)| y.0 == key,
        ),
    decreases s.len(),
{
    let keep = |y: (u128, T)| y.0 == key;
    if s.len() > 0 {
        let init = s.drop_last();
        law_sorting_is_stable(init, key);
        law_sorting_sorts(init);
        lemma_insert_filter(stable_sorted(init), s.last(), key);
        text::lemma_filter_push(stable_sorted(init), s.last(), keep);
        text::lemma_filter_push(init, s.last(), keep);
        assert(init.push(s.last()) =~= s);
    }
}

proof fn lemma_insert_multiset<T>(s: Seq<(u128, T)>, x: (u128, T))
    ensures
        insert_by_key(s, x).to_multiset() == s.to_multiset().insert(x),
    decreases s.len(),
{
    broadcast use vstd::seq_lib::group_to_multiset_ensures;

    if s.len() > 0 && s.last().0 > x.0 {
        lemma_insert_multiset(s.drop_last(), x);
        assert(s.drop_last().push(s.last()) =~= s);
    }
}

/// Sorting neither adds nor loses elements.
pub proof fn law_sorting_permutes<T>(s: Seq<(u128, T)>)
    ensures
        stable_sorted(s).to_multiset() == s.to_multiset(),
    decreases s.len(),
{
    broadcast use vstd::seq_lib::group_to_multiset_ensures;

    if s.len() > 0 {
        law_sorting_permutes(s.drop_last());
        lemma_insert_multiset(stable_sorted(s.drop_last()), s.last());
        assert(s.drop_last().push(s.last()) =~= s);
    }
}

/// Everything in the sorted sequence was there before.
pub proof fn lemma_sorted_elements<T>(s: Seq<(u128, T)>)
    ensures
        forall|i: int|
            0 <= i < stable_sorted(s).len() ==> s.contains(#[trigger] stable_sorted(s)[i]),
{
    broadcast use vstd::seq_lib::group_to_multiset_ensures;

    law_sorting_permutes(s);
    let r = stable_sorted(s);
    assert forall|i: int| 0 <= i < r.len() implies s.contains(#[trigger] r[i]) by {
        assert(r.contains(r[i]));
        assert(r.to_multiset().count(r[i]) > 0);
    }
}

/// Sorting items that are all different gives items that are all different.
pub proof fn lemma_sorted_distinct<T>(s: Seq<(u128, T)>)
    requires
        items(s).no_duplicates(),
    ensures
        items(stable_sorted(s)).no_duplicates(),
{
    let r = stable_sorted(s);
    assert(s.no_duplicates()) by {
        assert forall|i: int, j: int| 0 <= i < s.len() && 0 <= j < s.len() && i != j implies s[i]
            != s[j] by {
            assert(items(s)[i] != items(s)[j]);
        }
    }
    s.lemma_multiset_has_no_duplicates();
    law_sorting_permutes(s);
    r.lemma_multiset_has_no_duplicates_conv();
    lemma_sorted_elements(s);
    assert forall|i: int, j: int|
        0 <= i < items(r).len() && 0 <= j < items(r).len() && i != j implies items(r)[i] != items(
        r,
    )[j] by {
        assert(s.contains(r[i]) && s.contains(r[j]));
        let a = choose|a: int| 0 <= a < s.len() && s[a] == r[i];
        let b = choose|b: int| 0 <= b < s.len() && s[b] == r[j];
        assert(r[i] != r[j]);
        assert(items(s)[a] == items(r)[i] && items(s)[b] == items(r)[j]);
    }
}

proof fn lemma_insert_at<T>(s: Seq<(u128, T)>, x: (u128, T), i: int)
    requires
        0 <= i <= s.len(),
        i == 0 || s[i - 1].0 <= x.0,
        forall|j: int| i <= j < s.len() ==> (#[trigger] s[j]).0 > x.0,
    ensures
        insert_by_key(s, x) == s.insert(i, x),
    decreases s.len() - i,
{
    if i == s.len() {
        assert(s.insert(i, x) =~= s.push(x));
    } else {
        assert(s[s.len() - 1].0 > x.0);
        lemma_insert_at(s.drop_last(), x, i);
        assert(s.drop_last().insert(i, x).push(s.last()) =~= s.insert(i, x));
    }
}

/// Replacing items and sorting commute.
pub proof fn lemma_map_items_sorted<T, U>(s: Seq<(u128, T)>, f: spec_fn(T) -> U)
    ensures
        map_items(stable_sorted(s), f) == stable_sorted(map_items(s, f)),
    decreases s.len(),
{
    if s.len() > 0 {
        lemma_map_items_sorted(s.drop_last(), f);
        assert(map_items(s, f).drop_last() =~= map_items(s.drop_last(), f));
        lemma_map_items_insert(stable_sorted(s.drop_last()), s.last(), f);
    } else {
        assert(map_items(s, f) =~= Seq::<(u128, U)>::empty());
    }
}

proof fn lemma_map_items_insert<T, U>(s: Seq<(u128, T)>, x: (u128, T), f: spec_fn(T) -> U)
    ensures
        map_items(insert_by_key(s, x), f) == insert_by_key(map_items(s, f), (x.0, f(x.1))),
    decreases s.len(),
{
    let y = (x.0, f(x.1));
    if s.len() == 0 || s.last().0 <= x.0 {
        assert(map_items(s.push(x), f) =~= map_items(s, f).push(y));
    } else {
        lemma_map_items_insert(s.drop_last(), x, f);
        assert(map_items(s, f).drop_last() =~= map_items(s.drop_last(), f));
        assert(map_items(insert_by_key(s.drop_last(), x).push(s.last()), f) =~= map_items(
            insert_by_key(s.drop_last(), x),
            f,
        ).push((s.last().0, f(s.last().1))));
    }
}

/// Sorts by key; equal keys keep their order.
pub fn stable_sort<T>(v: Vec<(u128, T)>) -> (r: Vec<(u128, T)>)
    ensures
        r@ == stable_sorted(v@),
{
    let ghost all = v@;
    let mut rest = v;
    let mut sorted: Vec<(u128, T)> = Vec::new();
    let mut pending: Vec<(u128, T)> = Vec::new();
    // Reversed, so that popping yields the elements in their order.
    while rest.len() > 0
        invariant
            rest@ + pending@.reverse() =~= all,
        decreases rest.len(),
    {
        let ghost r0 = rest@;
        let ghost p0 = pending@;
        match rest.pop() {
            Some(x) => {
                pending.push(x);
                assert(pending@.reverse() =~= seq![x] + p0.reverse());
                assert(r0 =~= rest@.push(x));
            },
            None => {},
        }
    }
    assert(pending@.reverse() =~= all);
    assert(all.take(0) =~= Seq::<(u128, T)>::empty());
    while pending.len() > 0
        invariant
            pending@.len() <= all.len(),
            pending@.reverse() =~= all.skip(all.len() - pending@.len()),
            sorted@ == stable_sorted(all.take(all.len() - pending@.len())),
        decreases pending.len(),
    {
        let ghost done = all.len() - pending@.len();
        let ghost p0 = pending@;
        match pending.pop() {
            Some(x) => {
                proof {
                    assert(p0.reverse()[0] == x);
                    assert(all.skip(done)[0] == all[done]);
                    assert(x == all[done]);
                    assert(pending@.reverse() =~= p0.reverse().skip(1));
                    assert(all.take(done + 1).drop_last() =~= all.take(done));
                    assert(all.take(done + 1).last() == x);
                }
                let mut i: usize = sorted.len();
                while i > 0 && sorted[i - 1].0 > x.0
                    invariant
                        i <= sorted.len(),
                        forall|j: int| i <= j < sorted@.len() ==> (#[trigger] sorted@[j]).0 > x.0,
                    decreases i,
                {
                    i = i - 1;
                }
                proof {
                    lemma_insert_at(sorted@, x, i as int);
                }
                sorted.insert(i, x);
            },
            None => {},
        }
    }
    assert(all.take(all.len() as int) =~= all);
    sorted
}

} // verus!
