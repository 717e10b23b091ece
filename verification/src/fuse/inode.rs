//! Bidirectional map between FUSE inode numbers and relative file paths.

use crate::path;
use crate::path::{PathView, RelPath};
use crate::path_map::PathMap;
use std::collections::HashMap;
use vstd::prelude::*;

verus! {

broadcast use vstd::std_specs::hash::group_hash_axioms;

/// Root inode is always 1 in FUSE.
pub const ROOT_INO: u64 = 1;

struct InodeEntry {
    path: RelPath,
    refcount: u64,
}

/// Bidirectional map between FUSE inode numbers and relative file paths.
pub struct InodeTable {
    by_ino: HashMap<u64, InodeEntry>,
    by_path: PathMap<u64>,
    next_ino: u64,
}

/// What an inode table holds: each live inode with its path and lookup count, the inode
/// that each path resolves to, and the number that the next new inode gets.
#[verifier::ext_equal]
pub struct InodeModel {
    pub by_ino: Map<u64, (PathView, u64)>,
    pub by_path: Map<PathView, u64>,
    pub next_ino: u64,
}

impl InodeModel {
    /// Every path resolves to a live inode that carries that path, numbers are handed out
    /// in increasing order, and the root inode is always there. An inode whose path was
    /// taken over by a rename keeps its entry until it is forgotten.
    pub open spec fn wf(self) -> bool {
        &&& self.next_ino >= 2
        &&& self.by_ino.contains_key(ROOT_INO)
        &&& self.by_ino[ROOT_INO] == (PathView::empty(), u64::MAX)
        &&& forall|i: u64| #[trigger] self.by_ino.contains_key(i) ==> i < self.next_ino
        &&& forall|p: PathView| #[trigger]
            self.by_path.contains_key(p) ==> self.by_ino.contains_key(self.by_path[p])
                && self.by_ino[self.by_path[p]].0 == p
    }

    /// The table with the entry of one path dropped. The root cannot be dropped.
    pub open spec fn without(self, p: PathView) -> InodeModel {
        if p != PathView::empty() && self.by_path.contains_key(p) {
            InodeModel {
                by_ino: self.by_ino.remove(self.by_path[p]),
                by_path: self.by_path.remove(p),
                next_ino: self.next_ino,
            }
        } else {
            self
        }
    }

    /// The table with the inode of `from` resolved at `to` instead.
    pub open spec fn with_moved(self, from: PathView, to: PathView) -> InodeModel {
        if self.by_path.contains_key(from) {
            let ino = self.by_path[from];
            InodeModel {
                by_ino: self.by_ino.insert(ino, (to, self.by_ino[ino].1)),
                by_path: self.by_path.remove(from).insert(to, ino),
                next_ino: self.next_ino,
            }
        } else {
            self
        }
    }

    /// The table after moving the paths of `order`, one after another, from below
    /// `old_dir` to below `new_dir`.
    pub open spec fn with_all_moved(
        self,
        order: Seq<PathView>,
        old_dir: PathView,
        new_dir: PathView,
    ) -> InodeModel
        decreases order.len(),
    {
        if order.len() == 0 {
            self
        } else {
            self.with_all_moved(order.drop_last(), old_dir, new_dir).with_moved(
                order.last(),
                path::rebase(order.last(), old_dir, new_dir),
            )
        }
    }

    /// The first half of a rename: what was at `new_path` goes, and `old_path` itself moves.
    pub open spec fn with_entry_renamed(self, old_path: PathView, new_path: PathView) -> InodeModel {
        self.without(new_path).with_moved(old_path, new_path)
    }

    /// Whether `order` lists the known paths strictly below `dir`, each once.
    pub open spec fn lists_descendants(self, dir: PathView, order: Seq<PathView>) -> bool {
        &&& order.no_duplicates()
        &&& forall|q: PathView| #[trigger]
            order.contains(q) <==> self.by_path.contains_key(q) && path::under(q, dir) && q != dir
    }

    /// Path to inode map after a rename between places of which neither lies below the
    /// other: all of the old subtree is found below the new path, and other paths stay,
    /// except that nothing else is left at the new path itself.
    pub open spec fn renamed_by_path(self, old_path: PathView, new_path: PathView) -> Map<
        PathView,
        u64,
    > {
        Map::new(
            |q: PathView|
                {
                    &&& !path::under(q, old_path)
                    &&& (self.arrives_at(q, old_path, new_path) || (q != new_path
                        && self.by_path.contains_key(q)))
                },
            |q: PathView|
                if self.arrives_at(q, old_path, new_path) {
                    self.by_path[path::rebase(q, new_path, old_path)]
                } else {
                    self.by_path[q]
                },
        )
    }

    /// Live inodes after such a rename: the inode that was at `new_path` is gone, and the
    /// inodes that the old subtree resolved to carry their new paths.
    pub open spec fn renamed_by_ino(self, old_path: PathView, new_path: PathView) -> Map<
        u64,
        (PathView, u64),
    > {
        Map::new(
            |i: u64|
                self.by_ino.contains_key(i) && !(self.by_path.contains_key(new_path)
                    && self.by_path[new_path] == i),
            |i: u64|
                {
                    let (p, count) = self.by_ino[i];
                    if path::under(p, old_path) && self.resolves(p, i) {
                        (path::rebase(p, old_path, new_path), count)
                    } else {
                        (p, count)
                    }
                },
        )
    }

    /// Whether `p` resolves to inode `i`.
    pub open spec fn resolves(self, p: PathView, i: u64) -> bool {
        self.by_path.contains_key(p) && self.by_path[p] == i
    }

    /// The table after renaming between places of which neither lies below the other.
    pub open spec fn renamed_apart(self, old_path: PathView, new_path: PathView) -> InodeModel {
        InodeModel {
            by_ino: self.renamed_by_ino(old_path, new_path),
            by_path: self.renamed_by_path(old_path, new_path),
            next_ino: self.next_ino,
        }
    }

    /// The table with every path at or below `dir` dropped, together with its inode.
    pub open spec fn without_subtree(self, dir: PathView) -> InodeModel {
        InodeModel {
            by_ino: self.by_ino.restrict(
                Set::new(
                    |i: u64|
                        !(path::under(self.by_ino[i].0, dir) && self.resolves(
                            self.by_ino[i].0,
                            i,
                        )),
                ),
            ),
            by_path: self.by_path.restrict(Set::new(|p: PathView| !path::under(p, dir))),
            next_ino: self.next_ino,
        }
    }

    /// The table after one more lookup of `p`: a known path gets its count raised, an
    /// unknown one the next inode number.
    pub open spec fn looked_up(self, p: PathView) -> InodeModel {
        if self.by_path.contains_key(p) {
            let ino = self.by_path[p];
            let count = self.by_ino[ino].1;
            InodeModel {
                by_ino: self.by_ino.insert(
                    ino,
                    (p, if count < u64::MAX {
                        (count + 1) as u64
                    } else {
                        count
                    }),
                ),
                by_path: self.by_path,
                next_ino: self.next_ino,
            }
        } else {
            InodeModel {
                by_ino: self.by_ino.insert(self.next_ino, (p, 1)),
                by_path: self.by_path.insert(p, self.next_ino),
                next_ino: (self.next_ino + 1) as u64,
            }
        }
    }

    /// The table after the kernel drops `n` lookups of an inode: at zero the inode goes,
    /// and so does whatever its path resolves to. The root is never forgotten.
    pub open spec fn forgotten(self, ino: u64, n: u64) -> InodeModel {
        if ino == ROOT_INO || !self.by_ino.contains_key(ino) {
            self
        } else {
            let (p, count) = self.by_ino[ino];
            if count > n {
                InodeModel {
                    by_ino: self.by_ino.insert(ino, (p, (count - n) as u64)),
                    by_path: self.by_path,
                    next_ino: self.next_ino,
                }
            } else {
                InodeModel {
                    by_ino: self.by_ino.remove(ino),
                    by_path: self.by_path.remove(p),
                    next_ino: self.next_ino,
                }
            }
        }
    }

    /// Whether the two maps are inverse to each other: besides what always holds, every live
    /// inode is what its path resolves to.
    pub open spec fn inverse(self) -> bool {
        &&& self.wf()
        &&& forall|i: u64| #[trigger]
            self.by_ino.contains_key(i) ==> self.resolves(self.by_ino[i].0, i)
    }

    /// Whether resolving the inode of `from` at `to` takes no other path over.
    pub open spec fn move_is_free(self, from: PathView, to: PathView) -> bool {
        !self.by_path.contains_key(from) || from == to || !self.by_path.contains_key(to)
    }

    /// Whether none of the moves of `with_all_moved` takes another path over.
    pub open spec fn moves_are_free(
        self,
        order: Seq<PathView>,
        old_dir: PathView,
        new_dir: PathView,
    ) -> bool
        decreases order.len(),
    {
        order.len() == 0 || (self.moves_are_free(order.drop_last(), old_dir, new_dir)
            && self.with_all_moved(order.drop_last(), old_dir, new_dir).move_is_free(
            order.last(),
            path::rebase(order.last(), old_dir, new_dir),
        ))
    }

    /// A table that knows only the root.
    pub open spec fn initial() -> InodeModel {
        InodeModel {
            by_ino: map![ROOT_INO => (PathView::empty(), u64::MAX)],
            by_path: map![PathView::empty() => ROOT_INO],
            next_ino: 2,
        }
    }

    /// The table after one operation.
    pub open spec fn after(self, op: InodeOp) -> InodeModel {
        match op {
            InodeOp::Lookup { p } => self.looked_up(p),
            InodeOp::Forget { ino, n } => self.forgotten(ino, n),
            InodeOp::Remove { p } => self.without(p),
            InodeOp::RemoveSubtree { dir } => if dir == PathView::empty() {
                self
            } else {
                self.without_subtree(dir)
            },
            InodeOp::Rename { old_path, new_path, order } => if old_path == PathView::empty() {
                self
            } else {
                self.with_entry_renamed(old_path, new_path).with_all_moved(
                    order,
                    old_path,
                    new_path,
                )
            },
        }
    }

    /// Whether an operation can be performed and takes no path over: a new path
    /// needs a number, and a rename visits what lies below the old path and displaces nothing
    /// but what was at the new path itself.
    pub open spec fn takes_nothing_over(self, op: InodeOp) -> bool {
        match op {
            InodeOp::Lookup { p } => self.by_path.contains_key(p) || self.next_ino < u64::MAX,
            InodeOp::Rename { old_path, new_path, order } => old_path != PathView::empty() ==> {
                let half = self.with_entry_renamed(old_path, new_path);
                &&& half.lists_descendants(old_path, order)
                &&& self.without(new_path).move_is_free(old_path, new_path)
                &&& half.moves_are_free(order, old_path, new_path)
            },
            _ => true,
        }
    }

    /// The table after several operations, one after another.
    pub open spec fn after_all(self, ops: Seq<InodeOp>) -> InodeModel
        decreases ops.len(),
    {
        if ops.len() == 0 {
            self
        } else {
            self.after_all(ops.drop_last()).after(ops.last())
        }
    }

    /// The table after `k` lookups of one path.
    pub open spec fn looked_up_times(self, p: PathView, k: nat) -> InodeModel
        decreases k,
    {
        if k == 0 {
            self
        } else {
            self.looked_up_times(p, (k - 1) as nat).looked_up(p)
        }
    }

    /// The table after several forgets of one inode.
    pub open spec fn forgotten_all(self, ino: u64, ns: Seq<u64>) -> InodeModel
        decreases ns.len(),
    {
        if ns.len() == 0 {
            self
        } else {
            self.forgotten_all(ino, ns.drop_last()).forgotten(ino, ns.last())
        }
    }

    /// The inode that `p` resolves to, or would get if it were looked up.
    pub open spec fn ino_for(self, p: PathView) -> u64 {
        if self.by_path.contains_key(p) {
            self.by_path[p]
        } else {
            self.next_ino
        }
    }

    /// How many lookups of `p` are outstanding.
    pub open spec fn count_of(self, p: PathView) -> nat {
        if self.by_path.contains_key(p) {
            self.by_ino[self.by_path[p]].1 as nat
        } else {
            0
        }
    }

    /// Whether renaming `old_path` to `new_path` puts some inode at `q`.
    pub open spec fn arrives_at(self, q: PathView, old_path: PathView, new_path: PathView) -> bool {
        path::under(q, new_path) && self.by_path.contains_key(
            path::rebase(q, new_path, old_path),
        )
    }
}

/// An operation on an inode table. A rename comes with the order in which what lies below the
/// old path is visited.
pub enum InodeOp {
    Lookup { p: PathView },
    Forget { ino: u64, n: u64 },
    Remove { p: PathView },
    RemoveSubtree { dir: PathView },
    Rename { old_path: PathView, new_path: PathView, order: Seq<PathView> },
}

/// The sum of some numbers of lookups.
pub open spec fn total(ns: Seq<u64>) -> nat
    decreases ns.len(),
{
    if ns.len() == 0 {
        0
    } else {
        total(ns.drop_last()) + ns.last() as nat
    }
}

impl View for InodeTable {
    type V = InodeModel;

    closed spec fn view(&self) -> InodeModel {
        InodeModel {
            by_ino: self.by_ino@.map_values(|e: InodeEntry| (e.path@, e.refcount)),
            by_path: self.by_path@,
            next_ino: self.next_ino,
        }
    }
}

impl InodeTable {
    /// A table that knows only the root, which is never forgotten.
    pub fn new() -> (r: Self)
        ensures
            r@.wf(),
            r@ == InodeModel::initial(),
    {
        let mut by_ino: HashMap<u64, InodeEntry> = HashMap::new();
        let mut by_path: PathMap<u64> = PathMap::new();
        by_ino.insert(ROOT_INO, InodeEntry { path: RelPath::root(), refcount: u64::MAX });
        by_path.insert(RelPath::root(), ROOT_INO);
        let r = InodeTable { by_ino, by_path, next_ino: 2 };
        assert(r@.by_ino =~= map![ROOT_INO => (PathView::empty(), u64::MAX)]);
        assert(r@.by_path =~= map![PathView::empty() => ROOT_INO]);
        r
    }

    /// The inode number of the mount root.
    pub fn root_ino() -> (r: u64)
        ensures
            r == ROOT_INO,
    {
        ROOT_INO
    }

    /// The path that an inode was last seen at.
    pub fn get_path(&self, ino: u64) -> (r: Option<&RelPath>)
        ensures
            r matches Some(p) ==> self@.by_ino.contains_key(ino) && p@ == self@.by_ino[ino].0,
            r is None <==> !self@.by_ino.contains_key(ino),
    {
        match self.by_ino.get(&ino) {
            Some(e) => Some(&e.path),
            None => None,
        }
    }

    /// The inode that a path resolves to.
    pub fn get_path_ino(&self, path: &RelPath) -> (r: Option<u64>)
        ensures
            r == (if self@.by_path.contains_key(path@) {
                Some(self@.by_path[path@])
            } else {
                None
            }),
    {
        match self.by_path.get(path) {
            Some(ino) => Some(*ino),
            None => None,
        }
    }

    /// How many more inode numbers can be handed out.
    pub fn room(&self) -> (r: u64)
        ensures
            r == u64::MAX - self@.next_ino,
    {
        u64::MAX - self.next_ino
    }

    /// Drops a path and its inode. The root stays.
    pub fn remove_path(&mut self, path: &RelPath)
        requires
            old(self)@.wf(),
        ensures
            final(self)@.wf(),
            final(self)@ == old(self)@.without(path@),
    {
        if path.is_root() {
            return;
        }
        match self.by_path.remove(path) {
            Some(ino) => {
                self.by_ino.remove(&ino);
            },
            None => {},
        }
        proof {
            assert(self@ =~= old(self)@.without(path@));
            lemma_without_wf(old(self)@, path@);
        }
    }

    fn move_entry(&mut self, from: &RelPath, to: &RelPath)
        requires
            old(self)@.wf(),
            from@ != PathView::empty(),
        ensures
            final(self)@.wf(),
            final(self)@ == old(self)@.with_moved(from@, to@),
    {
        match self.by_path.remove(from) {
            Some(ino) => {
                assert(old(self)@.by_ino.contains_key(ino));
                match self.by_ino.remove(&ino) {
                    Some(entry) => {
                        self.by_ino.insert(
                            ino,
                            InodeEntry { path: to.clone(), refcount: entry.refcount },
                        );
                    },
                    None => {},
                }
                self.by_path.insert(to.clone(), ino);
            },
            None => {},
        }
        proof {
            assert(self@ =~= old(self)@.with_moved(from@, to@));
            lemma_moved_wf(old(self)@, from@, to@);
        }
    }

    /// Follows a rename of `old_path` to `new_path`: whatever was known at the new path is
    /// dropped, and the old path and everything below it carry their inodes along.
    pub fn rename_path(&mut self, old_path: &RelPath, new_path: &RelPath)
        requires
            old(self)@.wf(),
        ensures
            final(self)@.wf(),
            old_path@ == PathView::empty() ==> final(self)@ == old(self)@,
            old_path@ != PathView::empty() ==> {
                let halfway = old(self)@.with_entry_renamed(old_path@, new_path@);
                exists|order: Seq<PathView>| #[trigger]
                    halfway.lists_descendants(old_path@, order) && final(self)@
                        == halfway.with_all_moved(order, old_path@, new_path@)
            },
            old_path@ != PathView::empty() && !path::under(old_path@, new_path@) && !path::under(
                new_path@,
                old_path@,
            ) ==> final(self)@ == old(self)@.renamed_apart(old_path@, new_path@),
    {
        if old_path.is_root() {
            return;
        }
        self.remove_path(new_path);
        self.move_entry(old_path, new_path);
        let ghost halfway = old(self)@.with_entry_renamed(old_path@, new_path@);
        let descendants = self.paths_under(old_path, false);
        let ghost order = Seq::new(descendants@.len(), |i: int| descendants@[i]@);
        proof {
            assert forall|q: PathView| #[trigger] order.contains(q) implies halfway.by_path.contains_key(q)
                && path::under(q, old_path@) && q != old_path@ by {
                let k = choose|k: int| 0 <= k < order.len() && order[k] == q;
                assert(descendants@[k]@ == q);
            }
            assert forall|q: PathView|
                halfway.by_path.contains_key(q) && path::under(q, old_path@) && q
                    != old_path@ implies #[trigger] order.contains(q) by {
                assert(halfway.by_path.contains_key(q));
                let k = choose|k: int| 0 <= k < descendants@.len() && (#[trigger] descendants@[k])@ == q;
                assert(order[k] == q);
            }
            assert(halfway.lists_descendants(old_path@, order));
            assert(order.take(0) =~= Seq::<PathView>::empty());
        }
        assert(old_path@.len() > 0) by {
            if old_path@.len() == 0 {
                assert(old_path@ =~= PathView::empty());
            }
        }
        let mut i: usize = 0;
        while i < descendants.len()
            invariant
                i <= descendants.len(),
                order == Seq::new(descendants@.len(), |i: int| descendants@[i]@),
                halfway.lists_descendants(old_path@, order),
                old_path@.len() > 0,
                self@.wf(),
                self@ == halfway.with_all_moved(order.take(i as int), old_path@, new_path@),
            decreases descendants.len() - i,
        {
            let child = &descendants[i];
            assert(order[i as int] == child@);
            assert(order.contains(child@));
            assert(child@ != PathView::empty()) by {
                assert(child@.take(old_path@.len() as int) == old_path@);
                assert(child@ != old_path@);
                if child@.len() == 0 {
                    assert(old_path@ =~= child@);
                }
            }
            let target = child.rebased(old_path, new_path);
            self.move_entry(child, &target);
            assert(order.take(i + 1).drop_last() =~= order.take(i as int));
            i = i + 1;
        }
        proof {
            assert(order.take(order.len() as int) =~= order);
            if !path::under(old_path@, new_path@) && !path::under(new_path@, old_path@) {
                lemma_rename_apart(old(self)@, old_path@, new_path@, order);
            }
        }
    }

    /// The known paths below `dir`, `dir` itself only when asked for.
    fn paths_under(&self, dir: &RelPath, with_dir: bool) -> (r: Vec<RelPath>)
        ensures
            forall|i: int|
                0 <= i < r@.len() ==> self@.by_path.contains_key((#[trigger] r@[i])@)
                    && path::under(r@[i]@, dir@) && (with_dir || r@[i]@ != dir@),
            forall|q: PathView| #[trigger]
                self@.by_path.contains_key(q) && path::under(q, dir@) && (with_dir || q != dir@)
                    ==> exists|i: int| 0 <= i < r@.len() && (#[trigger] r@[i])@ == q,
            forall|i: int, j: int|
                0 <= i < j < r@.len() ==> (#[trigger] r@[i])@ != (#[trigger] r@[j])@,
    {
        let keys = self.by_path.keys();
        let mut out: Vec<RelPath> = Vec::new();
        let ghost mut from: Seq<int> = Seq::empty();
        let mut i: usize = 0;
        while i < keys.len()
            invariant
                i <= keys.len(),
                from.len() == out@.len(),
                forall|k: int|
                    0 <= k < out@.len() ==> 0 <= #[trigger] from[k] < i && out@[k]@
                        == keys@[from[k]]@ && path::under(out@[k]@, dir@) && (with_dir
                        || out@[k]@ != dir@),
                forall|k: int, l: int| 0 <= k < l < out@.len() ==> #[trigger] from[k] < #[trigger] from[l],
                forall|j: int|
                    0 <= j < i && path::under((#[trigger] keys@[j])@, dir@) && (with_dir || keys@[j]@
                        != dir@) ==> exists|k: int| 0 <= k < out@.len() && (#[trigger] out@[k])@ == keys@[j]@,
            decreases keys.len() - i,
        {
            let ghost before = out@;
            let candidate = &keys[i];
            if candidate.starts_with(dir) && (with_dir || !candidate.same_as(dir)) {
                out.push(candidate.clone());
                proof {
                    let sources = from;
                    from = from.push(i as int);
                    assert forall|k: int| 0 <= k < out@.len() implies 0 <= #[trigger] from[k] < i + 1
                        && out@[k]@ == keys@[from[k]]@ && path::under(out@[k]@, dir@) && (with_dir
                        || out@[k]@ != dir@) by {
                        if k < before.len() {
                            assert(from[k] == sources[k]);
                            assert(out@[k] == before[k]);
                        }
                    }
                    assert(out@[before.len() as int]@ == keys@[i as int]@);
                    assert forall|j: int|
                        0 <= j < i + 1 && path::under((#[trigger] keys@[j])@, dir@) && (with_dir
                            || keys@[j]@ != dir@) implies exists|k: int|
                        0 <= k < out@.len() && (#[trigger] out@[k])@ == keys@[j]@ by {
                        if j < i {
                            let k = choose|k: int|
                                0 <= k < before.len() && (#[trigger] before[k])@ == keys@[j]@;
                            assert(out@[k]@ == keys@[j]@);
                        }
                    }
                }
            }
            i = i + 1;
        }
        proof {
            assert forall|k: int| 0 <= k < out@.len() implies self@.by_path.contains_key(
                (#[trigger] out@[k])@,
            ) && path::under(out@[k]@, dir@) && (with_dir || out@[k]@ != dir@) by {
                let j = from[k];
                assert(keys@[j]@ == out@[k]@);
            }
            assert forall|k: int, l: int| 0 <= k < l < out@.len() implies (#[trigger] out@[k])@ != (
            #[trigger] out@[l])@ by {
                assert(from[k] < from[l]);
                assert(keys@[from[k]]@ != keys@[from[l]]@);
            }
        }
        out
    }

    /// Drops a directory with everything below it. The root is left alone.
    pub fn remove_subtree(&mut self, dir: &RelPath)
        requires
            old(self)@.wf(),
        ensures
            final(self)@.wf(),
            final(self)@ == (if dir@ == PathView::empty() {
                old(self)@
            } else {
                old(self)@.without_subtree(dir@)
            }),
    {
        if dir.is_root() {
            return;
        }
        let paths = self.paths_under(dir, true);
        let ghost start = self@;
        let mut i: usize = 0;
        while i < paths.len()
            invariant
                i <= paths.len(),
                start.wf(),
                self@.wf(),
                dir@ != PathView::empty(),
                self@.next_ino == start.next_ino,
                forall|k: int|
                    0 <= k < paths@.len() ==> start.by_path.contains_key((#[trigger] paths@[k])@)
                        && path::under(paths@[k]@, dir@),
                forall|k: int, l: int|
                    0 <= k < l < paths@.len() ==> (#[trigger] paths@[k])@ != (#[trigger] paths@[l])@,
                forall|q: PathView| #[trigger]
                    self@.by_path.contains_key(q) <==> start.by_path.contains_key(q)
                        && !listed_before(paths@, i as int, q),
                forall|q: PathView| #[trigger]
                    self@.by_path.contains_key(q) ==> self@.by_path[q] == start.by_path[q],
                forall|n: u64| #[trigger]
                    self@.by_ino.contains_key(n) <==> start.by_ino.contains_key(n) && !(start.resolves(
                        start.by_ino[n].0,
                        n,
                    ) && listed_before(paths@, i as int, start.by_ino[n].0)),
                forall|n: u64| #[trigger]
                    self@.by_ino.contains_key(n) ==> self@.by_ino[n] == start.by_ino[n],
            decreases paths.len() - i,
        {
            let ghost before = self@;
            let ghost p = paths@[i as int]@;
            proof {
                assert(!listed_before(paths@, i as int, p));
                assert(before.by_path.contains_key(p));
                assert(p != PathView::empty()) by {
                    if p.len() == 0 {
                        assert(dir@ =~= p);
                    }
                }
            }
            self.remove_path(&paths[i]);
            proof {
                assert forall|q: PathView| #[trigger] listed_before(paths@, i + 1, q) <==> listed_before(
                    paths@,
                    i as int,
                    q,
                ) || q == p by {
                    if listed_before(paths@, i + 1, q) && q != p {
                        let k = choose|k: int| 0 <= k < i + 1 && (#[trigger] paths@[k])@ == q;
                        assert(k < i);
                    }
                    if listed_before(paths@, i as int, q) {
                        let k = choose|k: int| 0 <= k < i && (#[trigger] paths@[k])@ == q;
                        assert(paths@[k]@ == q);
                    }
                    if q == p {
                        assert(paths@[i as int]@ == q);
                    }
                }
                assert(start.by_ino[start.by_path[p]].0 == p);
            }
            i = i + 1;
        }
        proof {
            let want = start.without_subtree(dir@);
            assert forall|q: PathView|
                start.by_path.contains_key(q) implies #[trigger] listed_before(
                paths@,
                paths@.len() as int,
                q,
            ) == path::under(q, dir@) by {
                if path::under(q, dir@) {
                    let k = choose|k: int| 0 <= k < paths@.len() && (#[trigger] paths@[k])@ == q;
                    assert(paths@[k]@ == q);
                }
            }
            assert(self@.by_path =~= want.by_path);
            assert(self@.by_ino =~= want.by_ino);
        }
    }

    /// The inode of `path`, with its lookup count raised by one. An unknown path gets the
    /// next inode number.
    pub fn get_or_create(&mut self, path: &RelPath) -> (r: u64)
        requires
            old(self)@.wf(),
            old(self)@.by_path.contains_key(path@) || old(self)@.next_ino < u64::MAX,
        ensures
            final(self)@.wf(),
            final(self)@ == old(self)@.looked_up(path@),
            r == (if old(self)@.by_path.contains_key(path@) {
                old(self)@.by_path[path@]
            } else {
                old(self)@.next_ino
            }),
            final(self)@.resolves(path@, r),
    {
        let known = self.get_path_ino(path);
        let ino = match known {
            Some(ino) => {
                match self.by_ino.remove(&ino) {
                    Some(entry) => {
                        let refcount: u64 = entry.refcount.saturating_add(1);
                        self.by_ino.insert(ino, InodeEntry { path: entry.path, refcount });
                    },
                    None => {},
                }
                ino
            },
            None => {
                let ino: u64 = self.next_ino;
                self.next_ino = self.next_ino + 1;
                self.by_ino.insert(ino, InodeEntry { path: path.clone(), refcount: 1 });
                self.by_path.insert(path.clone(), ino);
                ino
            },
        };
        proof {
            assert(self@ =~= old(self)@.looked_up(path@));
            let m = old(self)@;
            let r = self@;
            assert forall|q: PathView| #[trigger] r.by_path.contains_key(q) implies r.by_ino.contains_key(
                r.by_path[q],
            ) && r.by_ino[r.by_path[q]].0 == q by {
                if q != path@ {
                    assert(m.by_path.contains_key(q));
                }
            }
        }
        ino
    }

    /// Drops `nlookup` lookups of an inode; at zero the inode is removed. Root is never
    /// removed.
    pub fn forget(&mut self, ino: u64, nlookup: u64)
        requires
            old(self)@.wf(),
        ensures
            final(self)@.wf(),
            final(self)@ == old(self)@.forgotten(ino, nlookup),
    {
        if ino == ROOT_INO {
            return;
        }
        match self.by_ino.remove(&ino) {
            Some(entry) => {
                let refcount: u64 = entry.refcount.saturating_sub(nlookup);
                if refcount == 0 {
                    self.by_path.remove(&entry.path);
                } else {
                    self.by_ino.insert(ino, InodeEntry { path: entry.path, refcount });
                }
            },
            None => {},
        }
        proof {
            assert(self@ =~= old(self)@.forgotten(ino, nlookup));
            let m = old(self)@;
            let r = self@;
            assert forall|q: PathView| #[trigger] r.by_path.contains_key(q) implies r.by_ino.contains_key(
                r.by_path[q],
            ) && r.by_ino[r.by_path[q]].0 == q by {
                assert(m.by_path.contains_key(q));
            }
        }
    }
}

spec fn listed_before(paths: Seq<RelPath>, n: int, p: PathView) -> bool {
    exists|k: int| 0 <= k < n && (#[trigger] paths[k])@ == p
}

/// What the table looks like after the first `order.len()` descendants have moved, when
/// neither of the two places lies below the other.
spec fn partly_moved(
    half: InodeModel,
    order: Seq<PathView>,
    old_dir: PathView,
    new_dir: PathView,
    m: InodeModel,
) -> bool {
    &&& m.next_ino == half.next_ino
    &&& forall|q: PathView| #[trigger]
        m.by_path.contains_key(q) <==> if path::under(q, old_dir) {
            half.by_path.contains_key(q) && !order.contains(q)
        } else {
            half.by_path.contains_key(q) || (path::under(q, new_dir) && order.contains(
                path::rebase(q, new_dir, old_dir),
            ))
        }
    &&& forall|q: PathView| #[trigger]
        m.by_path.contains_key(q) ==> m.by_path[q] == if path::under(q, new_dir) && order.contains(
            path::rebase(q, new_dir, old_dir),
        ) {
            half.by_path[path::rebase(q, new_dir, old_dir)]
        } else {
            half.by_path[q]
        }
    &&& forall|i: u64| #[trigger] m.by_ino.contains_key(i) <==> half.by_ino.contains_key(i)
    &&& forall|i: u64| #[trigger]
        m.by_ino.contains_key(i) ==> m.by_ino[i] == if order.contains(half.by_ino[i].0)
            && half.resolves(half.by_ino[i].0, i) {
            (path::rebase(half.by_ino[i].0, old_dir, new_dir), half.by_ino[i].1)
        } else {
            half.by_ino[i]
        }
}

proof fn lemma_partly_moved(
    half: InodeModel,
    order: Seq<PathView>,
    old_dir: PathView,
    new_dir: PathView,
)
    requires
        half.wf(),
        order.no_duplicates(),
        forall|k: int|
            0 <= k < order.len() ==> half.by_path.contains_key(#[trigger] order[k]) && path::under(
                order[k],
                old_dir,
            ) && order[k] != old_dir,
        !path::under(old_dir, new_dir),
        !path::under(new_dir, old_dir),
    ensures
        partly_moved(
            half,
            order,
            old_dir,
            new_dir,
            half.with_all_moved(order, old_dir, new_dir),
        ),
    decreases order.len(),
{
    if order.len() > 0 {
        let init = order.drop_last();
        let c = order.last();
        let t = path::rebase(c, old_dir, new_dir);
        assert forall|k: int| 0 <= k < init.len() implies half.by_path.contains_key(
            #[trigger] init[k],
        ) && path::under(init[k], old_dir) && init[k] != old_dir by {
            assert(init[k] == order[k]);
        }
        lemma_partly_moved(half, init, old_dir, new_dir);
        let m0 = half.with_all_moved(init, old_dir, new_dir);
        let m1 = half.with_all_moved(order, old_dir, new_dir);
        assert(order[order.len() - 1] == c);
        assert forall|q: PathView| #[trigger] order.contains(q) <==> init.contains(q) || q == c by {
            if order.contains(q) && q != c {
                let k = choose|k: int| 0 <= k < order.len() && order[k] == q;
                assert(init[k] == q);
            }
            if init.contains(q) {
                let k = choose|k: int| 0 <= k < init.len() && init[k] == q;
                assert(order[k] == q);
            }
        }
        assert(!init.contains(c)) by {
            if init.contains(c) {
                let k = choose|k: int| 0 <= k < init.len() && init[k] == c;
                assert(order[k] == order[order.len() - 1]);
            }
        }
        path::lemma_rebase_round_trip(c, old_dir, new_dir);
        assert forall|q: PathView| path::under(q, new_dir) implies !#[trigger] path::under(
            q,
            old_dir,
        ) by {
            if path::under(q, old_dir) {
                path::lemma_common_descendant(q, old_dir, new_dir);
            }
        }
        assert(m0.by_path.contains_key(c));
        assert(m0.by_path[c] == half.by_path[c]);
        let ino = half.by_path[c];
        assert(half.by_ino[ino].0 == c);
        assert(m0.by_ino.contains_key(ino));
        assert forall|q: PathView|
            path::under(q, new_dir) && path::rebase(q, new_dir, old_dir) == c implies q == t by {
            path::lemma_rebase_round_trip(q, new_dir, old_dir);
        }
    }
}

/// Renaming between two places of which neither lies below the other gives one result,
/// whatever the order in which the descendants are visited.
pub proof fn lemma_rename_apart(
    m: InodeModel,
    old_path: PathView,
    new_path: PathView,
    order: Seq<PathView>,
)
    requires
        m.wf(),
        old_path != PathView::empty(),
        !path::under(old_path, new_path),
        !path::under(new_path, old_path),
        m.with_entry_renamed(old_path, new_path).lists_descendants(old_path, order),
    ensures
        m.with_entry_renamed(old_path, new_path).with_all_moved(order, old_path, new_path)
            == m.renamed_apart(old_path, new_path),
{
    let gone = m.without(new_path);
    let half = m.with_entry_renamed(old_path, new_path);
    lemma_without_wf(m, new_path);
    lemma_moved_wf(gone, old_path, new_path);
    assert forall|k: int| 0 <= k < order.len() implies half.by_path.contains_key(#[trigger] order[k])
        && path::under(order[k], old_path) && order[k] != old_path by {
        assert(order.contains(order[k]));
    }
    lemma_partly_moved(half, order, old_path, new_path);
    let done = half.with_all_moved(order, old_path, new_path);
    let want = m.renamed_apart(old_path, new_path);
    assert(path::under(old_path, old_path)) by {
        assert(old_path.take(old_path.len() as int) =~= old_path);
    }
    assert(path::under(new_path, new_path)) by {
        assert(new_path.take(new_path.len() as int) =~= new_path);
    }
    assert(new_path != PathView::empty()) by {
        if new_path == PathView::empty() {
            assert(old_path.take(0) =~= new_path);
        }
    }
    path::lemma_rebase_round_trip(old_path, old_path, new_path);
    path::lemma_rebase_round_trip(new_path, new_path, old_path);
    assert forall|q: PathView| path::under(q, new_path) implies !#[trigger] path::under(
        q,
        old_path,
    ) by {
        if path::under(q, old_path) {
            path::lemma_common_descendant(q, old_path, new_path);
        }
    }
    assert forall|q: PathView|
        #![trigger done.by_path.contains_key(q)]
        #![trigger want.by_path.contains_key(q)]
        done.by_path.contains_key(q) == want.by_path.contains_key(q) && (done.by_path.contains_key(q)
            ==> done.by_path[q] == want.by_path[q]) by {
        if path::under(q, new_path) {
            path::lemma_rebase_round_trip(q, new_path, old_path);
        }
    }
    assert(done.by_path =~= want.by_path);
    assert forall|i: u64|
        #![trigger done.by_ino.contains_key(i)]
        #![trigger want.by_ino.contains_key(i)]
        done.by_ino.contains_key(i) == want.by_ino.contains_key(i) && (done.by_ino.contains_key(i)
            ==> done.by_ino[i] == want.by_ino[i]) by {
    }
    assert(done.by_ino =~= want.by_ino);
}

/// Dropping a path keeps the table consistent.
pub proof fn lemma_without_wf(m: InodeModel, p: PathView)
    requires
        m.wf(),
    ensures
        m.without(p).wf(),
{
    let r = m.without(p);
    assert forall|q: PathView| #[trigger] r.by_path.contains_key(q) implies r.by_ino.contains_key(
        r.by_path[q],
    ) && r.by_ino[r.by_path[q]].0 == q by {
        assert(m.by_path.contains_key(q));
    }
}

/// Moving a path other than the root keeps the table consistent.
pub proof fn lemma_moved_wf(m: InodeModel, from: PathView, to: PathView)
    requires
        m.wf(),
        from != PathView::empty(),
    ensures
        m.with_moved(from, to).wf(),
{
    let r = m.with_moved(from, to);
    assert forall|q: PathView| #[trigger] r.by_path.contains_key(q) implies r.by_ino.contains_key(
        r.by_path[q],
    ) && r.by_ino[r.by_path[q]].0 == q by {
        if q != to {
            assert(m.by_path.contains_key(q));
        }
    }
}

/// Looking a path up twice in a row resolves to one inode and counts both lookups.
pub proof fn law_lookup_is_stable(m: InodeModel, p: PathView)
    requires
        m.wf(),
        !m.by_path.contains_key(p),
        m.next_ino < u64::MAX,
    ensures
        m.looked_up(p).looked_up(p).resolves(p, m.next_ino),
        m.looked_up(p).looked_up(p).by_ino[m.next_ino] == (p, 2u64),
        m.looked_up(p).looked_up(p).next_ino == m.next_ino + 1,
{
}

/// A new path never gets a number that is in use, and the inodes in use keep theirs.
pub proof fn law_new_inodes_are_fresh(m: InodeModel, p: PathView)
    requires
        m.wf(),
        !m.by_path.contains_key(p),
        m.next_ino < u64::MAX,
    ensures
        !m.by_ino.contains_key(m.next_ino),
        forall|i: u64| #[trigger]
            m.by_ino.contains_key(i) ==> m.looked_up(p).by_ino.contains_key(i)
                && m.looked_up(p).by_ino[i] == m.by_ino[i],
{
}

/// Different paths never resolve to one inode.
pub proof fn law_paths_do_not_share_inodes(m: InodeModel, p: PathView, q: PathView)
    requires
        m.wf(),
        m.by_path.contains_key(p),
        m.by_path.contains_key(q),
        m.by_path[p] == m.by_path[q],
    ensures
        p == q,
{
}

proof fn lemma_lookups(m: InodeModel, p: PathView, k: nat)
    requires
        m.wf(),
        k > 0,
        m.by_path.contains_key(p) || m.next_ino < u64::MAX,
        m.count_of(p) + k <= u64::MAX,
    ensures
        m.looked_up_times(p, k).by_ino == m.by_ino.insert(
            m.ino_for(p),
            (p, (m.count_of(p) + k) as u64),
        ),
        m.looked_up_times(p, k).by_path == m.by_path.insert(p, m.ino_for(p)),
    decreases k,
{
    let before = m.looked_up_times(p, (k - 1) as nat);
    let r = m.looked_up_times(p, k);
    if k > 1 {
        lemma_lookups(m, p, (k - 1) as nat);
        assert(before.by_path.contains_key(p));
    }
    assert(r.by_ino =~= m.by_ino.insert(m.ino_for(p), (p, (m.count_of(p) + k) as u64)));
    assert(r.by_path =~= m.by_path.insert(p, m.ino_for(p)));
}

proof fn lemma_forgets(m: InodeModel, ino: u64, ns: Seq<u64>)
    requires
        ino != ROOT_INO,
        m.by_ino.contains_key(ino),
        m.by_ino[ino].1 > 0,
    ensures
        total(ns) < m.by_ino[ino].1 ==> m.forgotten_all(ino, ns).by_ino == m.by_ino.insert(
            ino,
            (m.by_ino[ino].0, (m.by_ino[ino].1 - total(ns)) as u64),
        ) && m.forgotten_all(ino, ns).by_path == m.by_path,
        total(ns) >= m.by_ino[ino].1 ==> m.forgotten_all(ino, ns).by_ino == m.by_ino.remove(ino)
            && m.forgotten_all(ino, ns).by_path == m.by_path.remove(m.by_ino[ino].0),
    decreases ns.len(),
{
    let r = m.forgotten_all(ino, ns);
    let (p, count) = m.by_ino[ino];
    if ns.len() > 0 {
        lemma_forgets(m, ino, ns.drop_last());
    }
    if total(ns) < count {
        assert(r.by_ino =~= m.by_ino.insert(ino, (p, (count - total(ns)) as u64)));
        assert(r.by_path =~= m.by_path);
    } else {
        assert(r.by_ino =~= m.by_ino.remove(ino));
        assert(r.by_path =~= m.by_path.remove(p));
    }
}

/// After some lookups of a path, any forgets of its inode leave it as many lookups as there
/// are more of them, counting those from before, and it is gone, with its path, once there
/// are none left.
pub proof fn law_forgets_cancel_lookups(m: InodeModel, p: PathView, k: nat, ns: Seq<u64>)
    requires
        m.wf(),
        k > 0,
        m.by_path.contains_key(p) || m.next_ino < u64::MAX,
        m.ino_for(p) != ROOT_INO,
        m.count_of(p) + k <= u64::MAX,
    ensures
        ({
            let ino = m.ino_for(p);
            let r = m.looked_up_times(p, k).forgotten_all(ino, ns);
            if total(ns) < m.count_of(p) + k {
                &&& r.by_ino == m.by_ino.insert(ino, (p, (m.count_of(p) + k - total(ns)) as u64))
                &&& r.by_path == m.by_path.insert(p, ino)
            } else {
                &&& r.by_ino == m.by_ino.remove(ino)
                &&& r.by_path == m.by_path.remove(p)
            }
        }),
{
    let ino = m.ino_for(p);
    let held = m.looked_up_times(p, k);
    lemma_lookups(m, p, k);
    lemma_forgets(held, ino, ns);
    let r = held.forgotten_all(ino, ns);
    if total(ns) < m.count_of(p) + k {
        assert(r.by_ino =~= m.by_ino.insert(ino, (p, (m.count_of(p) + k - total(ns)) as u64)));
    } else {
        assert(r.by_ino =~= m.by_ino.remove(ino));
        assert(r.by_path =~= m.by_path.remove(p));
    }
}

/// A path that was unknown has its inode, after some lookups, until as many of them are
/// forgotten; then neither the inode nor the path is known. No other inode and no other path
/// changes, and forgetting more than there were lookups does no more.
pub proof fn law_new_path_lives_until_forgotten(m: InodeModel, p: PathView, k: nat, ns: Seq<u64>)
    requires
        m.wf(),
        !m.by_path.contains_key(p),
        m.next_ino < u64::MAX,
        0 < k <= u64::MAX,
    ensures
        ({
            let i = m.next_ino;
            let r = m.looked_up_times(p, k).forgotten_all(i, ns);
            &&& total(ns) < k ==> r.by_ino.contains_key(i) && r.by_ino[i] == (
                p,
                (k - total(ns)) as u64,
            ) && r.resolves(p, i)
            &&& total(ns) >= k ==> !r.by_ino.contains_key(i) && !r.by_path.contains_key(p)
            &&& forall|j: u64|
                j != i ==> (#[trigger] r.by_ino.contains_key(j) <==> m.by_ino.contains_key(j)) && (
                m.by_ino.contains_key(j) ==> r.by_ino[j] == m.by_ino[j])
            &&& forall|q: PathView|
                q != p ==> (#[trigger] r.by_path.contains_key(q) <==> m.by_path.contains_key(q)) && (
                m.by_path.contains_key(q) ==> r.by_path[q] == m.by_path[q])
        }),
{
    law_forgets_cancel_lookups(m, p, k, ns);
}

/// Forgets that add up to the lookups before them restore the table, but for the number that
/// a new path has spent. For a new path more than enough forgets do so too.
pub proof fn law_forget_undoes_lookup(m: InodeModel, p: PathView, k: nat, ns: Seq<u64>)
    requires
        m.wf(),
        k > 0,
        m.by_path.contains_key(p) ==> m.by_path[p] != ROOT_INO && m.count_of(p) > 0,
        !m.by_path.contains_key(p) ==> m.next_ino < u64::MAX,
        m.count_of(p) + k <= u64::MAX,
        total(ns) == k || (!m.by_path.contains_key(p) && total(ns) > k),
    ensures
        m.looked_up_times(p, k).forgotten_all(m.ino_for(p), ns).by_ino == m.by_ino,
        m.looked_up_times(p, k).forgotten_all(m.ino_for(p), ns).by_path == m.by_path,
{
    law_forgets_cancel_lookups(m, p, k, ns);
    let r = m.looked_up_times(p, k).forgotten_all(m.ino_for(p), ns);
    assert(r.by_ino =~= m.by_ino);
    assert(r.by_path =~= m.by_path);
}

proof fn lemma_moved_inverse(m: InodeModel, from: PathView, to: PathView)
    requires
        m.inverse(),
        from != PathView::empty(),
        m.move_is_free(from, to),
    ensures
        m.with_moved(from, to).inverse(),
{
    lemma_moved_wf(m, from, to);
    let r = m.with_moved(from, to);
    assert forall|i: u64| #[trigger] r.by_ino.contains_key(i) implies r.resolves(
        r.by_ino[i].0,
        i,
    ) by {
        assert(m.by_ino.contains_key(i));
        assert(m.resolves(m.by_ino[i].0, i));
    }
}

proof fn lemma_all_moved_inverse(
    m: InodeModel,
    order: Seq<PathView>,
    old_dir: PathView,
    new_dir: PathView,
)
    requires
        m.inverse(),
        forall|k: int| 0 <= k < order.len() ==> #[trigger] order[k] != PathView::empty(),
        m.moves_are_free(order, old_dir, new_dir),
    ensures
        m.with_all_moved(order, old_dir, new_dir).inverse(),
    decreases order.len(),
{
    if order.len() > 0 {
        assert forall|k: int| 0 <= k < order.drop_last().len() implies #[trigger] order.drop_last()[k]
            != PathView::empty() by {
            assert(order.drop_last()[k] == order[k]);
        }
        lemma_all_moved_inverse(m, order.drop_last(), old_dir, new_dir);
        assert(order[order.len() - 1] != PathView::empty());
        lemma_moved_inverse(
            m.with_all_moved(order.drop_last(), old_dir, new_dir),
            order.last(),
            path::rebase(order.last(), old_dir, new_dir),
        );
    }
}

proof fn lemma_without_inverse(m: InodeModel, p: PathView)
    requires
        m.inverse(),
    ensures
        m.without(p).inverse(),
{
    lemma_without_wf(m, p);
    let r = m.without(p);
    assert forall|i: u64| #[trigger] r.by_ino.contains_key(i) implies r.resolves(
        r.by_ino[i].0,
        i,
    ) by {
        assert(m.by_ino.contains_key(i));
        assert(m.resolves(m.by_ino[i].0, i));
    }
}

/// An operation that takes no path over keeps the two maps inverse to each other.
pub proof fn law_operations_keep_maps_inverse(m: InodeModel, op: InodeOp)
    requires
        m.inverse(),
        m.takes_nothing_over(op),
    ensures
        m.after(op).inverse(),
{
    let r = m.after(op);
    match op {
        InodeOp::Rename { old_path, new_path, order } => {
            if old_path != PathView::empty() {
                let half = m.with_entry_renamed(old_path, new_path);
                lemma_without_inverse(m, new_path);
                lemma_moved_inverse(m.without(new_path), old_path, new_path);
                assert forall|k: int| 0 <= k < order.len() implies #[trigger] order[k]
                    != PathView::empty() by {
                    assert(order.contains(order[k]));
                    assert(path::under(order[k], old_path));
                    if order[k].len() == 0 {
                        assert(old_path =~= PathView::empty());
                    }
                }
                lemma_all_moved_inverse(half, order, old_path, new_path);
            }
        },
        InodeOp::Remove { p } => {
            lemma_without_inverse(m, p);
        },
        _ => {
            if let InodeOp::RemoveSubtree { dir } = op {
                if path::under(PathView::empty(), dir) {
                    assert(dir =~= PathView::empty());
                }
            }
            assert forall|q: PathView| #[trigger]
                r.by_path.contains_key(q) implies r.by_ino.contains_key(r.by_path[q])
                && r.by_ino[r.by_path[q]].0 == q by {
                if m.by_path.contains_key(q) {
                    assert(m.by_ino.contains_key(m.by_path[q]));
                }
            }
            assert forall|i: u64| #[trigger] r.by_ino.contains_key(i) implies r.resolves(
                r.by_ino[i].0,
                i,
            ) by {
                if m.by_ino.contains_key(i) {
                    assert(m.resolves(m.by_ino[i].0, i));
                }
            }
        },
    }
}

/// In every state that a new table can come to by operations that take no path over, the two
/// maps are inverse to each other: every path resolves to a live inode that carries it, and
/// every live inode is what its path resolves to.
pub proof fn law_maps_are_inverse(ops: Seq<InodeOp>)
    requires
        forall|k: int|
            0 <= k < ops.len() ==> InodeModel::initial().after_all(
                ops.take(k),
            ).takes_nothing_over(#[trigger] ops[k]),
    ensures
        InodeModel::initial().after_all(ops).inverse(),
    decreases ops.len(),
{
    let start = InodeModel::initial();
    if ops.len() == 0 {
        assert(start.inverse());
    } else {
        let init = ops.drop_last();
        assert forall|k: int| 0 <= k < init.len() implies start.after_all(
            init.take(k),
        ).takes_nothing_over(#[trigger] init[k]) by {
            assert(init.take(k) =~= ops.take(k));
            assert(init[k] == ops[k]);
        }
        law_maps_are_inverse(init);
        assert(ops.take(ops.len() - 1) =~= init);
        assert(start.after_all(ops.take(ops.len() - 1)).takes_nothing_over(ops[ops.len() - 1]));
        law_operations_keep_maps_inverse(start.after_all(init), ops.last());
    }
}

/// A rename between two places of which neither lies below the other takes nothing over where
/// nothing is known below the new path.
pub proof fn law_rename_to_unknown_place_is_free(
    m: InodeModel,
    old_path: PathView,
    new_path: PathView,
    order: Seq<PathView>,
)
    requires
        m.wf(),
        old_path != PathView::empty(),
        !path::under(old_path, new_path),
        !path::under(new_path, old_path),
        forall|q: PathView| #[trigger]
            m.by_path.contains_key(q) && path::under(q, new_path) ==> q == new_path,
        m.with_entry_renamed(old_path, new_path).lists_descendants(old_path, order),
    ensures
        m.takes_nothing_over(InodeOp::Rename { old_path, new_path, order }),
{
    let gone = m.without(new_path);
    let half = m.with_entry_renamed(old_path, new_path);
    lemma_without_wf(m, new_path);
    lemma_moved_wf(gone, old_path, new_path);
    assert(new_path != PathView::empty()) by {
        if new_path == PathView::empty() {
            assert(old_path.take(0) =~= new_path);
        }
    }
    assert forall|k: int| 0 <= k < order.len() implies half.by_path.contains_key(#[trigger] order[k])
        && path::under(order[k], old_path) && order[k] != old_path by {
        assert(order.contains(order[k]));
    }
    assert forall|q: PathView|
        half.by_path.contains_key(q) && #[trigger] path::under(q, new_path) implies q == new_path by {
        if q != new_path {
            assert(m.by_path.contains_key(q));
        }
    }
    lemma_moves_are_free(half, order, old_path, new_path);
}

proof fn lemma_moves_are_free(
    half: InodeModel,
    order: Seq<PathView>,
    old_dir: PathView,
    new_dir: PathView,
)
    requires
        half.wf(),
        order.no_duplicates(),
        forall|k: int|
            0 <= k < order.len() ==> half.by_path.contains_key(#[trigger] order[k]) && path::under(
                order[k],
                old_dir,
            ) && order[k] != old_dir,
        !path::under(old_dir, new_dir),
        !path::under(new_dir, old_dir),
        forall|q: PathView|
            half.by_path.contains_key(q) && #[trigger] path::under(q, new_dir) ==> q == new_dir,
    ensures
        half.moves_are_free(order, old_dir, new_dir),
    decreases order.len(),
{
    if order.len() > 0 {
        let init = order.drop_last();
        let c = order.last();
        let t = path::rebase(c, old_dir, new_dir);
        assert forall|k: int| 0 <= k < init.len() implies half.by_path.contains_key(
            #[trigger] init[k],
        ) && path::under(init[k], old_dir) && init[k] != old_dir by {
            assert(init[k] == order[k]);
        }
        lemma_moves_are_free(half, init, old_dir, new_dir);
        lemma_partly_moved(half, init, old_dir, new_dir);
        let m0 = half.with_all_moved(init, old_dir, new_dir);
        assert(order[order.len() - 1] == c);
        path::lemma_rebase_round_trip(c, old_dir, new_dir);
        if m0.by_path.contains_key(t) {
            if path::under(t, old_dir) {
                path::lemma_common_descendant(t, old_dir, new_dir);
            }
            if init.contains(path::rebase(t, new_dir, old_dir)) {
                let k = choose|k: int| 0 <= k < init.len() && init[k] == c;
                assert(order[k] == order[order.len() - 1]);
            } else {
                assert(half.by_path.contains_key(t));
                assert(t == new_dir);
                assert(path::rebase(new_dir, new_dir, old_dir) =~= old_dir);
            }
        }
    }
}

/// A rename to a place outside the renamed directory keeps the inode number of everything
/// that moves, and nothing of it is left at the old place.
pub proof fn law_rename_keeps_inodes(
    m: InodeModel,
    old_path: PathView,
    new_path: PathView,
    p: PathView,
)
    requires
        m.wf(),
        !path::under(old_path, new_path),
        !path::under(new_path, old_path),
        m.by_path.contains_key(p),
        path::under(p, old_path),
    ensures
        m.renamed_apart(old_path, new_path).resolves(
            path::rebase(p, old_path, new_path),
            m.by_path[p],
        ),
        !m.renamed_apart(old_path, new_path).by_path.contains_key(p),
{
    path::lemma_rebase_round_trip(p, old_path, new_path);
    let q = path::rebase(p, old_path, new_path);
    if path::under(q, old_path) {
        path::lemma_common_descendant(q, old_path, new_path);
    }
}

/// Renaming there and back restores every path and every inode, when nothing was known below
/// the place that was used in between.
pub proof fn law_rename_there_and_back(m: InodeModel, old_path: PathView, new_path: PathView)
    requires
        m.wf(),
        !path::under(old_path, new_path),
        !path::under(new_path, old_path),
        forall|q: PathView| #[trigger] m.by_path.contains_key(q) ==> !path::under(q, new_path),
    ensures
        m.renamed_apart(old_path, new_path).renamed_apart(new_path, old_path) == m,
{
    let there = m.renamed_apart(old_path, new_path);
    let back = there.renamed_apart(new_path, old_path);
    assert(old_path.take(old_path.len() as int) =~= old_path);
    assert(new_path.take(new_path.len() as int) =~= new_path);
    assert forall|q: PathView|
        #![trigger back.by_path.contains_key(q)]
        #![trigger m.by_path.contains_key(q)]
        back.by_path.contains_key(q) == m.by_path.contains_key(q) && (m.by_path.contains_key(q)
            ==> back.by_path[q] == m.by_path[q]) by {
        if path::under(q, old_path) {
            path::lemma_rebase_round_trip(q, old_path, new_path);
            let r = path::rebase(q, old_path, new_path);
            if path::under(r, old_path) {
                path::lemma_common_descendant(r, old_path, new_path);
            }
            if path::under(q, new_path) {
                path::lemma_common_descendant(q, old_path, new_path);
            }
        }
    }
    assert(back.by_path =~= m.by_path);
    assert(path::under(old_path, old_path) && path::under(new_path, new_path));
    assert forall|i: u64|
        #![trigger back.by_ino.contains_key(i)]
        #![trigger m.by_ino.contains_key(i)]
        back.by_ino.contains_key(i) == m.by_ino.contains_key(i) && (m.by_ino.contains_key(i)
            ==> back.by_ino[i] == m.by_ino[i]) by {
        if m.by_ino.contains_key(i) {
            assert(!m.by_path.contains_key(new_path));
            assert(there.by_ino.contains_key(i));
            let p = m.by_ino[i].0;
            let q = there.by_ino[i].0;
            if path::under(p, old_path) && m.resolves(p, i) {
                path::lemma_rebase_round_trip(p, old_path, new_path);
                law_rename_keeps_inodes(m, old_path, new_path, p);
                assert(q == path::rebase(p, old_path, new_path));
                assert(there.resolves(q, i));
            } else if path::under(q, new_path) && there.resolves(q, i) {
                let origin = path::rebase(q, new_path, old_path);
                path::lemma_rebase_round_trip(q, new_path, old_path);
                assert(m.by_path.contains_key(origin));
                assert(m.by_path[origin] == i);
                assert(false);
            }
        }
    }
    assert(back.by_ino =~= m.by_ino);
}

/// A rename leaves paths outside both places as they are, leaves nothing at the new place but what
/// came from the old one, and keeps the lookup count of every inode that it moves.
pub proof fn law_rename_concerns_two_places(
    m: InodeModel,
    old_path: PathView,
    new_path: PathView,
    q: PathView,
)
    requires
        m.wf(),
        !path::under(old_path, new_path),
        !path::under(new_path, old_path),
    ensures
        ({
            let after = m.renamed_apart(old_path, new_path);
            &&& !path::under(q, old_path) && !path::under(q, new_path) ==> (
            after.by_path.contains_key(q) <==> m.by_path.contains_key(q)) && (
            m.by_path.contains_key(q) ==> after.by_path[q] == m.by_path[q])
            &&& path::under(q, old_path) ==> !after.by_path.contains_key(q)
            &&& m.by_path.contains_key(q) && path::under(q, old_path) ==> {
                let ino = m.by_path[q];
                &&& after.by_ino.contains_key(ino)
                &&& after.by_ino[ino].0 == new_path + q.skip(old_path.len() as int)
                &&& after.by_ino[ino].1 == m.by_ino[ino].1
            }
            &&& !m.by_path.contains_key(old_path) ==> !after.by_path.contains_key(new_path)
            &&& m.by_path.contains_key(new_path) ==> !after.by_ino.contains_key(
                m.by_path[new_path],
            )
            &&& after.next_ino == m.next_ino
        }),
{
    let after = m.renamed_apart(old_path, new_path);
    assert(new_path.take(new_path.len() as int) =~= new_path);
    if m.by_path.contains_key(q) && path::under(q, old_path) {
        assert(m.by_ino.contains_key(m.by_path[q]));
        if m.by_path.contains_key(new_path) && m.by_path[new_path] == m.by_path[q] {
            assert(q == new_path);
        }
    }
    if !m.by_path.contains_key(old_path) && after.by_path.contains_key(new_path) {
        assert(path::rebase(new_path, new_path, old_path) =~= old_path);
    }
}

/// Removing a path makes it and its inode unknown and nothing else; the root stays.
pub proof fn law_removal_concerns_one_path(m: InodeModel, p: PathView, q: PathView, i: u64)
    requires
        m.wf(),
    ensures
        p.len() > 0 ==> !m.without(p).by_path.contains_key(p),
        q != p ==> (m.without(p).by_path.contains_key(q) <==> m.by_path.contains_key(q)),
        q != p && m.by_path.contains_key(q) ==> m.without(p).by_path[q] == m.by_path[q],
        p.len() > 0 && m.by_path.contains_key(p) ==> !m.without(p).by_ino.contains_key(
            m.by_path[p],
        ),
        !(m.by_path.contains_key(p) && m.by_path[p] == i) ==> (m.without(p).by_ino.contains_key(i)
            <==> m.by_ino.contains_key(i)),
        m.without(PathView::empty()) == m,
{
    if p.len() == 0 {
        assert(p =~= PathView::empty());
    }
}

/// Removing a directory makes everything at or below it unknown, together with its inodes, and
/// nothing else.
pub proof fn law_subtree_removal(m: InodeModel, dir: PathView, q: PathView, i: u64)
    requires
        m.wf(),
    ensures
        m.without_subtree(dir).by_path.contains_key(q) <==> m.by_path.contains_key(q) && !(
        dir.len() <= q.len() && q.take(dir.len() as int) == dir),
        m.without_subtree(dir).by_path.contains_key(q) ==> m.without_subtree(dir).by_path[q]
            == m.by_path[q],
        m.by_path.contains_key(q) && dir.len() <= q.len() && q.take(dir.len() as int) == dir
            ==> !m.without_subtree(dir).by_ino.contains_key(m.by_path[q]),
        m.by_path.contains_key(q) && !(dir.len() <= q.len() && q.take(dir.len() as int) == dir)
            ==> m.without_subtree(dir).by_ino.contains_key(m.by_path[q]),
        m.without_subtree(dir).by_ino.contains_key(i) ==> m.by_ino.contains_key(i)
            && m.without_subtree(dir).by_ino[i] == m.by_ino[i],
{
    if m.by_path.contains_key(q) {
        assert(m.by_ino.contains_key(m.by_path[q]));
    }
}

} // verus!
