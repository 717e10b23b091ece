//! A hash map keyed by relative paths.

use crate::path::{PathView, RelPath};
use vstd::prelude::*;

verus! {

/// Number of buckets allocated by the first insertion.
const BUCKETS: usize = 4096;

/// Rolling hash of a byte string, continuing from `h`.
pub open spec fn hash_bytes_spec(bytes: Seq<u8>, h: u64) -> u64
    decreases bytes.len(),
{
    if bytes.len() == 0 {
        h
    } else {
        ((hash_bytes_spec(bytes.drop_last(), h) * 31 + bytes.last()) % 0x1_0000_0000) as u64
    }
}

/// Hash of a path: its components, each closed by one step for the separator.
pub open spec fn hash_path_spec(path: PathView) -> u64
    decreases path.len(),
{
    if path.len() == 0 {
        0
    } else {
        hash_bytes_spec(path.last().push(0x2fu8), hash_path_spec(path.drop_last()))
    }
}

fn hash_step(h: u64, b: u8) -> (r: u64)
    requires
        h < 0x1_0000_0000,
    ensures
        r == (h * 31 + b) % 0x1_0000_0000,
        r < 0x1_0000_0000,
{
    (h * 31 + b as u64) % 0x1_0000_0000
}

fn hash_path(path: &RelPath) -> (r: u64)
    ensures
        r == hash_path_spec(path@),
{
    let mut h: u64 = 0;
    let mut i: usize = 0;
    let n: usize = path.depth();
    assert(path@.take(0) =~= PathView::empty());
    while i < n
        invariant
            i <= n,
            n == path@.len(),
            h < 0x1_0000_0000,
            h == hash_path_spec(path@.take(i as int)),
        decreases n - i,
    {
        let name = path.component(i);
        let ghost start = h;
        let ghost full = name@.push(0x2fu8);
        let mut j: usize = 0;
        assert(full.take(0) =~= Seq::<u8>::empty());
        while j < name.len()
            invariant
                j <= name.len(),
                full == name@.push(0x2fu8),
                h < 0x1_0000_0000,
                h == hash_bytes_spec(full.take(j as int), start),
            decreases name.len() - j,
        {
            assert(full.take(j + 1).drop_last() =~= full.take(j as int));
            h = hash_step(h, name[j]);
            j = j + 1;
        }
        assert(full.drop_last() =~= full.take(j as int));
        h = hash_step(h, 0x2f);
        assert(path@.take(i + 1).drop_last() =~= path@.take(i as int));
        i = i + 1;
    }
    assert(path@.take(n as int) =~= path@);
    h
}

spec fn bucket_has<V>(b: Seq<(RelPath, V)>, p: PathView) -> bool {
    exists|i: int| 0 <= i < b.len() && (#[trigger] b[i]).0@ == p
}

spec fn bucket_pos<V>(b: Seq<(RelPath, V)>, p: PathView) -> int {
    choose|i: int| 0 <= i < b.len() && (#[trigger] b[i]).0@ == p
}

spec fn slot(p: PathView, n: nat) -> int {
    hash_path_spec(p) as int % n as int
}

spec fn table_view<V>(table: Seq<Vec<(RelPath, V)>>) -> Map<PathView, V> {
    Map::new(
        |p: PathView| table.len() > 0 && bucket_has(table[slot(p, table.len())]@, p),
        |p: PathView|
            {
                let b = table[slot(p, table.len())]@;
                b[bucket_pos(b, p)].1
            },
    )
}

spec fn table_wf<V>(table: Seq<Vec<(RelPath, V)>>) -> bool {
    &&& forall|s: int, i: int|
        0 <= s < table.len() && 0 <= i < table[s]@.len() ==> slot(
            (#[trigger] table[s]@[i]).0@,
            table.len(),
        ) == s
    &&& forall|s: int, i: int, j: int|
        0 <= s < table.len() && 0 <= i < j < table[s]@.len() ==> (#[trigger] table[s]@[i]).0@ != (
        #[trigger] table[s]@[j]).0@
}

/// A map from paths to values. No path occurs twice.
#[derive(Debug)]
pub struct PathMap<V> {
    table: Vec<Vec<(RelPath, V)>>,
}

impl<V> View for PathMap<V> {
    type V = Map<PathView, V>;

    closed spec fn view(&self) -> Map<PathView, V> {
        table_view(self.table@)
    }
}

proof fn lemma_unique<V>(table: Seq<Vec<(RelPath, V)>>, s: int, i: int)
    requires
        table_wf(table),
        0 <= s < table.len(),
        0 <= i < table[s]@.len(),
    ensures
        table_view(table).contains_key(table[s]@[i].0@),
        table_view(table)[table[s]@[i].0@] == table[s]@[i].1,
{
    let p = table[s]@[i].0@;
    let b = table[s]@;
    assert(slot(p, table.len()) == s);
    let k = bucket_pos(b, p);
    assert(b[k].0@ == p);
    if k < i {
        assert(table[s]@[k].0@ != table[s]@[i].0@);
    } else if i < k {
        assert(table[s]@[i].0@ != table[s]@[k].0@);
    }
}

impl<V> PathMap<V> {
    #[verifier::type_invariant]
    closed spec fn well_formed(self) -> bool {
        table_wf(self.table@)
    }

    /// The empty map.
    pub fn new() -> (r: Self)
        ensures
            r@ == Map::<PathView, V>::empty(),
    {
        let r = PathMap { table: Vec::new() };
        assert(r@ =~= Map::<PathView, V>::empty());
        r
    }

    fn find(&self, path: &RelPath) -> (r: Option<(usize, usize)>)
        ensures
            match r {
                Some((s, i)) => {
                    &&& s < self.table@.len()
                    &&& i < self.table@[s as int]@.len()
                    &&& self.table@[s as int]@[i as int].0@ == path@
                    &&& self@.contains_key(path@)
                    &&& self@[path@] == self.table@[s as int]@[i as int].1
                    &&& s == slot(path@, self.table@.len())
                },
                None => !self@.contains_key(path@),
            },
    {
        proof {
            use_type_invariant(self);
        }
        let n: usize = self.table.len();
        if n == 0 {
            return None;
        }
        let s: usize = (hash_path(path) % n as u64) as usize;
        let bucket: &Vec<(RelPath, V)> = &self.table[s];
        let mut i: usize = 0;
        while i < bucket.len()
            invariant
                i <= bucket.len(),
                n == self.table@.len(),
                n > 0,
                table_wf(self.table@),
                s < n,
                s == slot(path@, n as nat),
                bucket == self.table@[s as int],
                forall|k: int| 0 <= k < i ==> (#[trigger] bucket@[k]).0@ != path@,
            decreases bucket.len() - i,
        {
            if bucket[i].0.same_as(path) {
                proof {
                    lemma_unique(self.table@, s as int, i as int);
                }
                return Some((s, i));
            }
            i = i + 1;
        }
        None
    }

    /// The value stored for `path`.
    pub fn get(&self, path: &RelPath) -> (r: Option<&V>)
        ensures
            r == (if self@.contains_key(path@) {
                Some(&self@[path@])
            } else {
                None
            }),
    {
        match self.find(path) {
            Some((s, i)) => Some(&self.table[s][i].1),
            None => None,
        }
    }

    /// Whether `path` has a value.
    pub fn contains(&self, path: &RelPath) -> (r: bool)
        ensures
            r == self@.contains_key(path@),
    {
        self.find(path).is_some()
    }

    /// Removes the value stored for `path` and returns it.
    pub fn remove(&mut self, path: &RelPath) -> (r: Option<V>)
        ensures
            final(self)@ == old(self)@.remove(path@),
            r == (if old(self)@.contains_key(path@) {
                Some(old(self)@[path@])
            } else {
                None
            }),
    {
        let found = self.find(path);
        proof {
            use_type_invariant(&*self);
        }
        let ghost before = self.table@;
        match found {
            None => {
                assert(self@.remove(path@) =~= self@);
                None
            },
            Some((s, i)) => {
                let mut table: Vec<Vec<(RelPath, V)>> = Vec::new();
                std::mem::swap(&mut table, &mut self.table);
                let ghost b0 = before[s as int]@;
                let mut bucket: Vec<(RelPath, V)> = Vec::new();
                std::mem::swap(&mut bucket, &mut table[s]);
                let (_, value) = bucket.remove(i);
                std::mem::swap(&mut bucket, &mut table[s]);
                proof {
                    let ghost after = table@;
                    let b1 = after[s as int]@;
                    assert(b1 =~= b0.remove(i as int));
                    assert(after.len() == before.len());
                    assert(forall|t: int| 0 <= t < after.len() && t != s ==> after[t] == before[t]);
                    assert forall|t: int, k: int|
                        0 <= t < after.len() && 0 <= k < after[t]@.len() implies slot(
                        (#[trigger] after[t]@[k]).0@,
                        after.len(),
                    ) == t by {
                        if t == s {
                            let k0 = if k < i { k } else { k + 1 };
                            assert(after[t]@[k] == before[t]@[k0]);
                        } else {
                            assert(after[t]@[k] == before[t]@[k]);
                        }
                    }
                    assert forall|t: int, k: int, l: int|
                        0 <= t < after.len() && 0 <= k < l < after[t]@.len() implies (
                    #[trigger] after[t]@[k]).0@ != (#[trigger] after[t]@[l]).0@ by {
                        if t == s {
                            let k0 = if k < i { k } else { k + 1 };
                            let l0 = if l < i { l } else { l + 1 };
                            assert(after[t]@[k] == before[t]@[k0]);
                            assert(after[t]@[l] == before[t]@[l0]);
                            assert(before[t]@[k0].0@ != before[t]@[l0].0@);
                        } else {
                            assert(before[t]@[k].0@ != before[t]@[l].0@);
                        }
                    }
                    assert(table_wf(after));
                    lemma_views_agree(before, after, path@, s as int, i as int);
                }
                std::mem::swap(&mut table, &mut self.table);
                Some(value)
            },
        }
    }

    /// Stores `value` for `path`, replacing and returning what was there.
    pub fn insert(&mut self, path: RelPath, value: V) -> (r: Option<V>)
        ensures
            final(self)@ == old(self)@.insert(path@, value),
            r == (if old(self)@.contains_key(path@) {
                Some(old(self)@[path@])
            } else {
                None
            }),
    {
        let ghost start = self@;
        let previous = self.remove(&path);
        proof {
            use_type_invariant(&*self);
        }
        let mut table: Vec<Vec<(RelPath, V)>> = Vec::new();
        std::mem::swap(&mut table, &mut self.table);
        if table.len() == 0 {
            let ghost empty = table@;
            let mut i: usize = 0;
            while i < BUCKETS
                invariant
                    i <= BUCKETS,
                    table@.len() == i,
                    forall|t: int| 0 <= t < i ==> (#[trigger] table@[t])@.len() == 0,
                decreases BUCKETS - i,
            {
                table.push(Vec::new());
                i = i + 1;
            }
            assert(table_view(table@) =~= table_view(empty));
        }
        let ghost before = table@;
        assert(table_wf(before));
        assert(table_view(before) == start.remove(path@));
        let n: usize = table.len();
        let s: usize = (hash_path(&path) % n as u64) as usize;
        let ghost p = path@;
        let ghost b0 = before[s as int]@;
        let mut bucket: Vec<(RelPath, V)> = Vec::new();
        std::mem::swap(&mut bucket, &mut table[s]);
        bucket.push((path, value));
        std::mem::swap(&mut bucket, &mut table[s]);
        proof {
            let after = table@;
            assert(after[s as int]@.drop_last() =~= b0);
            lemma_push_view(before, after, p, value, s as int);
            assert(table_view(after) =~= start.insert(p, value));
        }
        std::mem::swap(&mut table, &mut self.table);
        previous
    }

    /// All paths that have a value, each once, in no particular order.
    pub fn keys(&self) -> (r: Vec<RelPath>)
        ensures
            forall|p: PathView|
                #[trigger] self@.contains_key(p) <==> exists|i: int|
                    0 <= i < r@.len() && (#[trigger] r@[i])@ == p,
            forall|i: int, j: int|
                0 <= i < j < r@.len() ==> (#[trigger] r@[i])@ != (#[trigger] r@[j])@,
    {
        proof {
            use_type_invariant(self);
        }
        let ghost table = self.table@;
        let mut out: Vec<RelPath> = Vec::new();
        let mut s: usize = 0;
        while s < self.table.len()
            invariant
                s <= self.table.len(),
                table == self.table@,
                table_wf(table),
                forall|k: int| 0 <= k < out@.len() ==> self@.contains_key((#[trigger] out@[k])@),
                forall|k: int|
                    0 <= k < out@.len() ==> slot((#[trigger] out@[k])@, table.len()) < s,
                forall|t: int, i: int|
                    0 <= t < s && 0 <= i < table[t]@.len() ==> listed(
                        out@,
                        (#[trigger] table[t]@[i]).0@,
                    ),
                forall|i: int, j: int|
                    0 <= i < j < out@.len() ==> (#[trigger] out@[i])@ != (#[trigger] out@[j])@,
            decreases self.table.len() - s,
        {
            let bucket: &Vec<(RelPath, V)> = &self.table[s];
            let mut i: usize = 0;
            while i < bucket.len()
                invariant
                    i <= bucket.len(),
                    s < table.len(),
                    table == self.table@,
                    table_wf(table),
                    *bucket == table[s as int],
                    forall|k: int|
                        0 <= k < out@.len() ==> self@.contains_key((#[trigger] out@[k])@),
                    forall|k: int|
                        0 <= k < out@.len() ==> slot((#[trigger] out@[k])@, table.len()) < s
                            || exists|l: int|
                            0 <= l < i && (#[trigger] bucket@[l]).0@ == out@[k]@,
                    forall|t: int, j: int|
                        0 <= t < s && 0 <= j < table[t]@.len() ==> listed(
                            out@,
                            (#[trigger] table[t]@[j]).0@,
                        ),
                    forall|j: int| 0 <= j < i ==> listed(out@, (#[trigger] bucket@[j]).0@),
                    forall|k: int, j: int|
                        0 <= k < j < out@.len() ==> (#[trigger] out@[k])@ != (#[trigger] out@[j])@,
                decreases bucket.len() - i,
            {
                let ghost before = out@;
                let copy = bucket[i].0.clone();
                out.push(copy);
                proof {
                    lemma_unique(table, s as int, i as int);
                    let p = bucket@[i as int].0@;
                    assert(table[s as int]@[i as int].0@ == p);
                    assert(slot(p, table.len()) == s);
                    assert(out@[before.len() as int]@ == p);
                    assert forall|q: PathView| listed(before, q) implies #[trigger] listed(
                        out@,
                        q,
                    ) by {
                        let k = choose|k: int| 0 <= k < before.len() && (#[trigger] before[k])@ == q;
                        assert(out@[k]@ == q);
                    }
                    assert forall|k: int| 0 <= k < before.len() implies (#[trigger] before[k])@
                        != p by {
                        if slot(before[k]@, table.len()) >= s {
                            let l = choose|l: int|
                                0 <= l < i && (#[trigger] bucket@[l]).0@ == before[k]@;
                            assert(table[s as int]@[l].0@ != table[s as int]@[i as int].0@);
                        }
                    }
                    assert forall|k: int|
                        0 <= k < out@.len() implies slot((#[trigger] out@[k])@, table.len()) < s
                        || exists|l: int|
                        0 <= l < i + 1 && (#[trigger] bucket@[l]).0@ == out@[k]@ by {
                        if k < before.len() {
                            assert(out@[k] == before[k]);
                        } else {
                            assert(bucket@[i as int].0@ == out@[k]@);
                        }
                    }
                }
                i = i + 1;
            }
            proof {
                assert forall|k: int| 0 <= k < out@.len() implies slot(
                    (#[trigger] out@[k])@,
                    table.len(),
                ) < s + 1 by {
                    if slot(out@[k]@, table.len()) >= s {
                        let l = choose|l: int|
                            0 <= l < bucket@.len() && (#[trigger] bucket@[l]).0@ == out@[k]@;
                        assert(slot(table[s as int]@[l].0@, table.len()) == s);
                    }
                }
                assert forall|t: int, j: int|
                    0 <= t < s + 1 && 0 <= j < table[t]@.len() implies listed(
                    out@,
                    (#[trigger] table[t]@[j]).0@,
                ) by {
                    if t == s {
                        assert(listed(out@, bucket@[j].0@));
                    }
                }
            }
            s = s + 1;
        }
        proof {
            assert forall|p: PathView| #[trigger] self@.contains_key(p) implies exists|i: int|
                0 <= i < out@.len() && (#[trigger] out@[i])@ == p by {
                let t = slot(p, table.len());
                let k = bucket_pos(table[t]@, p);
                assert(table[t]@[k].0@ == p);
                assert(listed(out@, p));
            }
        }
        out
    }
}

impl<V> PathMap<V> {
    /// Whether there are more than `limit` paths.
    pub fn has_more_than(&self, limit: usize) -> (r: bool)
        ensures
            self@.dom().finite(),
            r == (self@.dom().len() > limit),
    {
        proof {
            use_type_invariant(self);
        }
        let ghost table = self.table@;
        let mut total: u128 = 0;
        let mut s: usize = 0;
        let ghost mut all: Seq<PathView> = Seq::empty();
        while s < self.table.len()
            invariant
                s <= self.table.len(),
                table == self.table@,
                table_wf(table),
                total == all.len(),
                total <= s * usize::MAX,
                all.no_duplicates(),
                forall|k: int|
                    0 <= k < all.len() ==> self@.contains_key(#[trigger] all[k]) && slot(
                        all[k],
                        table.len(),
                    ) < s,
                forall|p: PathView| #[trigger]
                    self@.contains_key(p) && slot(p, table.len()) < s ==> all.contains(p),
            decreases self.table.len() - s,
        {
            let bucket: &Vec<(RelPath, V)> = &self.table[s];
            let ghost names = Seq::new(bucket@.len(), |i: int| bucket@[i].0@);
            proof {
                assert(s * usize::MAX + usize::MAX == (s + 1) * usize::MAX) by (nonlinear_arith);
                assert((s + 1) * usize::MAX <= 0xffff_ffff_ffff_ffffint
                    * 0xffff_ffff_ffff_ffffint) by (nonlinear_arith)
                    requires
                        s + 1 <= 0xffff_ffff_ffff_ffff,
                        usize::MAX <= 0xffff_ffff_ffff_ffff,
                ;
                let before = all;
                all = all + names;
                assert forall|k: int| 0 <= k < names.len() implies self@.contains_key(
                    #[trigger] names[k],
                ) && slot(names[k], table.len()) == s by {
                    assert(table[s as int]@[k].0@ == names[k]);
                    lemma_unique(table, s as int, k);
                }
                assert forall|i: int, j: int| 0 <= i < j < all.len() implies all[i] != all[j] by {
                    if i < before.len() && j >= before.len() {
                        assert(all[j] == names[j - before.len()]);
                    } else if i >= before.len() {
                        let a = i - before.len();
                        let b = j - before.len();
                        assert(table[s as int]@[a].0@ != table[s as int]@[b].0@);
                    }
                }
                assert forall|k: int| 0 <= k < all.len() implies self@.contains_key(
                    #[trigger] all[k],
                ) && slot(all[k], table.len()) < s + 1 by {
                    if k >= before.len() {
                        assert(all[k] == names[k - before.len()]);
                    }
                }
                assert forall|p: PathView| #[trigger]
                    self@.contains_key(p) && slot(p, table.len()) < s + 1 implies all.contains(
                    p,
                ) by {
                    if slot(p, table.len()) < s {
                        assert(before.contains(p));
                        let k = choose|k: int| 0 <= k < before.len() && before[k] == p;
                        assert(all[k] == p);
                    } else {
                        let k = bucket_pos(table[s as int]@, p);
                        assert(table[s as int]@[k].0@ == p);
                        assert(all[before.len() + k] == p);
                    }
                }
            }
            total = total + bucket.len() as u128;
            s = s + 1;
        }
        proof {
            assert(self@.dom() =~= all.to_set()) by {
                assert forall|p: PathView| self@.dom().contains(p) <==> all.to_set().contains(p) by {
                    if self@.contains_key(p) {
                        assert(slot(p, table.len()) < s);
                        assert(all.contains(p));
                    }
                }
            }
            all.unique_seq_to_set();
        }
        total > limit as u128
    }
}

spec fn listed(paths: Seq<RelPath>, p: PathView) -> bool {
    exists|k: int| 0 <= k < paths.len() && (#[trigger] paths[k])@ == p
}

proof fn lemma_push_view<V>(
    before: Seq<Vec<(RelPath, V)>>,
    after: Seq<Vec<(RelPath, V)>>,
    p: PathView,
    value: V,
    s: int,
)
    requires
        table_wf(before),
        before.len() == after.len(),
        0 <= s < before.len(),
        s == slot(p, before.len()),
        !table_view(before).contains_key(p),
        after[s]@.len() > 0,
        after[s]@.drop_last() == before[s]@,
        after[s]@.last().0@ == p,
        after[s]@.last().1 == value,
        forall|t: int| 0 <= t < after.len() && t != s ==> after[t] == before[t],
    ensures
        table_wf(after),
        table_view(after) == table_view(before).insert(p, value),
{
    let n = before.len();
    let last = before[s]@.len() as int;
    assert forall|k: int| 0 <= k < last implies after[s]@[k] == #[trigger] before[s]@[k] by {
        assert(after[s]@.drop_last()[k] == after[s]@[k]);
    }
    assert forall|t: int, k: int| 0 <= t < n && 0 <= k < after[t]@.len() implies slot(
        (#[trigger] after[t]@[k]).0@,
        n,
    ) == t by {
        if t != s || k < last {
            assert(after[t]@[k] == before[t]@[k]);
        }
    }
    assert forall|t: int, k: int, l: int|
        0 <= t < n && 0 <= k < l < after[t]@.len() implies (#[trigger] after[t]@[k]).0@ != (
    #[trigger] after[t]@[l]).0@ by {
        assert(after[t]@[k] == before[t]@[k]);
        if t == s && l == last {
            assert(bucket_has(before[s]@, before[t]@[k].0@));
        } else {
            assert(after[t]@[l] == before[t]@[l]);
            assert(before[t]@[k].0@ != before[t]@[l].0@);
        }
    }
    let lhs = table_view(after);
    let rhs = table_view(before).insert(p, value);
    assert forall|q: PathView|
        #![trigger lhs.contains_key(q)]
        #![trigger rhs.contains_key(q)]
        lhs.contains_key(q) == rhs.contains_key(q) && (lhs.contains_key(q) ==> lhs[q] == rhs[q]) by {
        let t = slot(q, n);
        if lhs.contains_key(q) {
            let k = bucket_pos(after[t]@, q);
            assert(after[t]@[k].0@ == q);
            lemma_unique(after, t, k);
            if t != s || k < last {
                assert(after[t]@[k] == before[t]@[k]);
                lemma_unique(before, t, k);
            }
        }
        if rhs.contains_key(q) {
            if q == p {
                lemma_unique(after, s, last);
            } else {
                let k = bucket_pos(before[t]@, q);
                assert(before[t]@[k].0@ == q);
                assert(after[t]@[k] == before[t]@[k]);
            }
        }
    }
    assert(lhs =~= rhs);
}

proof fn lemma_views_agree<V>(
    before: Seq<Vec<(RelPath, V)>>,
    after: Seq<Vec<(RelPath, V)>>,
    p: PathView,
    s: int,
    i: int,
)
    requires
        table_wf(before),
        table_wf(after),
        before.len() == after.len(),
        0 <= s < before.len(),
        0 <= i < before[s]@.len(),
        before[s]@[i].0@ == p,
        after[s]@ == before[s]@.remove(i),
        forall|t: int| 0 <= t < after.len() && t != s ==> after[t] == before[t],
    ensures
        table_view(after) == table_view(before).remove(p),
{
    let n = before.len();
    assert(slot(p, n) == s);
    let lhs = table_view(after);
    let rhs = table_view(before).remove(p);
    assert forall|q: PathView|
        #![trigger lhs.contains_key(q)]
        #![trigger rhs.contains_key(q)]
        lhs.contains_key(q) == rhs.contains_key(q) && (lhs.contains_key(q) ==> lhs[q] == rhs[q]) by {
        let t = slot(q, n);
        if table_view(after).contains_key(q) {
            let k = bucket_pos(after[t]@, q);
            lemma_unique(after, t, k);
            let k0 = if t == s && k >= i { k + 1 } else { k };
            assert(after[t]@[k] == before[t]@[k0]);
            lemma_unique(before, t, k0);
            if q == p {
                if k0 < i {
                    assert(before[s]@[k0].0@ != before[s]@[i].0@);
                } else {
                    assert(before[s]@[i].0@ != before[s]@[k0].0@);
                }
            }
        }
        if table_view(before).remove(p).contains_key(q) {
            let k0 = bucket_pos(before[t]@, q);
            assert(before[t]@[k0].0@ == q);
            let k = if t == s && k0 > i { k0 - 1 } else { k0 };
            assert(after[t]@[k] == before[t]@[k0]);
        }
    }
    assert(lhs =~= rhs);
}

} // verus!
