//! Walking through a directory tree for the cached files in it.

use crate::path;
use crate::path::{PathView, RelPath};
use crate::utils;
use vstd::prelude::*;

verus! {

/// What a directory lists: each name, and whether it is a directory.
pub type Listing = Seq<(Seq<u8>, bool)>;

/// The view of a list of directory entries.
pub open spec fn listing_view(entries: Seq<(Vec<u8>, bool)>) -> Listing {
    entries.map_values(|e: (Vec<u8>, bool)| (e.0@, e.1))
}

/// The paths that a directory lists, each with whether it is a directory.
pub open spec fn listed_in(dir: PathView, listing: Listing) -> Seq<(PathView, bool)> {
    listing.map_values(|e: (Seq<u8>, bool)| (path::joined(dir, e.0), e.1))
}

/// A walk through a directory tree, driven by directory listings. Files come in the order in which
/// they are listed, those of a directory in its place.
pub struct CacheWalk {
    /// What is still to be visited, the next one last.
    pending: Vec<(RelPath, bool)>,
    found: Vec<RelPath>,
}

/// View of a walk: what is still to be visited, the next one first, and the files found so far.
#[verifier::ext_equal]
pub struct WalkView {
    pub pending: Seq<(PathView, bool)>,
    pub found: Seq<PathView>,
}

/// The view of what is to be visited.
pub open spec fn pending_view(v: Seq<(RelPath, bool)>) -> Seq<(PathView, bool)> {
    v.map_values(|e: (RelPath, bool)| (e.0@, e.1))
}

impl View for CacheWalk {
    type V = WalkView;

    closed spec fn view(&self) -> WalkView {
        WalkView {
            pending: pending_view(self.pending@).reverse(),
            found: path::paths_view(self.found@),
        }
    }
}

/// The files that a visit of `p` leads to, when directories list as in `tree` and none is more than
/// `depth` levels deep: a file that counts itself, and what is listed below a directory.
pub open spec fn files_at(
    p: PathView,
    is_dir: bool,
    tree: spec_fn(PathView) -> Listing,
    depth: nat,
) -> Seq<PathView>
    decreases depth, 0nat, 1nat,
{
    if !is_dir {
        if utils::is_bookkeeping(p) {
            Seq::empty()
        } else {
            seq![p]
        }
    } else if depth == 0 {
        Seq::empty()
    } else {
        let inside = listed_in(p, tree(p));
        files_in(inside, tree, (depth - 1) as nat)
    }
}

/// The files that visits of several places lead to, in order.
pub open spec fn files_in(
    places: Seq<(PathView, bool)>,
    tree: spec_fn(PathView) -> Listing,
    depth: nat,
) -> Seq<PathView>
    decreases depth, places.len(), 2nat,
{
    if places.len() == 0 {
        Seq::empty()
    } else {
        files_at(places[0].0, places[0].1, tree, depth) + files_in(places.skip(1), tree, depth)
    }
}

/// Whether no directory at or below `p` is more than `depth` levels deep.
pub open spec fn shallow_at(
    p: PathView,
    is_dir: bool,
    tree: spec_fn(PathView) -> Listing,
    depth: nat,
) -> bool
    decreases depth,
{
    is_dir ==> depth > 0 && forall|k: int|
        0 <= k < tree(p).len() ==> shallow_at(
            (#[trigger] listed_in(p, tree(p))[k]).0,
            listed_in(p, tree(p))[k].1,
            tree,
            (depth - 1) as nat,
        )
}

/// Whether no directory at or below the places is more than `depth` levels deep.
pub open spec fn shallow(
    places: Seq<(PathView, bool)>,
    tree: spec_fn(PathView) -> Listing,
    depth: nat,
) -> bool {
    forall|k: int|
        0 <= k < places.len() ==> shallow_at(
            (#[trigger] places[k]).0,
            places[k].1,
            tree,
            depth,
        )
}

impl WalkView {
    /// The walk after the files before the next directory were visited.
    pub open spec fn swept(self) -> WalkView
        decreases self.pending.len(),
    {
        if self.pending.len() == 0 || self.pending[0].1 {
            self
        } else {
            let p = self.pending[0].0;
            WalkView {
                pending: self.pending.skip(1),
                found: if utils::is_bookkeeping(p) {
                    self.found
                } else {
                    self.found.push(p)
                },
            }.swept()
        }
    }

    /// The walk after a directory was listed.
    pub open spec fn with_listing(self, dir: PathView, listing: Listing) -> WalkView {
        WalkView { pending: listed_in(dir, listing) + self.pending, found: self.found }
    }

    /// What the walk finds in the end when directories list as in `tree`.
    pub open spec fn outcome(self, tree: spec_fn(PathView) -> Listing, depth: nat) -> Seq<PathView> {
        self.found + files_in(self.pending, tree, depth)
    }
}

impl CacheWalk {
    /// Begins a walk below `dir`.
    pub fn begin(dir: &RelPath) -> (r: Self)
        ensures
            r@.pending == seq![(dir@, true)],
            r@.found == Seq::<PathView>::empty(),
    {
        let mut pending: Vec<(RelPath, bool)> = Vec::new();
        pending.push((dir.clone(), true));
        let r = CacheWalk { pending, found: Vec::new() };
        assert(r@.pending =~= seq![(dir@, true)]);
        assert(r@.found =~= Seq::<PathView>::empty());
        r
    }

    /// Visits the files that come next, and tells the directory after them, which is to be listed.
    pub fn next_dir(&mut self) -> (r: Option<RelPath>)
        ensures
            match r {
                None => old(self)@.swept().pending.len() == 0 && final(self)@ == old(self)@.swept(),
                Some(dir) => old(self)@.swept().pending.len() > 0 && dir@
                    == old(self)@.swept().pending[0].0 && final(self)@ == (WalkView {
                    pending: old(self)@.swept().pending.skip(1),
                    found: old(self)@.swept().found,
                }),
            },
    {
        while self.pending.len() > 0
            invariant
                self@.swept() == old(self)@.swept(),
            decreases self.pending.len(),
        {
            let ghost before = self@;
            let ghost stack = self.pending@;
            assert(before.pending.len() == stack.len());
            match self.pending.pop() {
                None => {},
                Some((p, is_dir)) => {
                    proof {
                        assert(before.pending[0] == (p@, is_dir));
                        assert(self@.pending =~= before.pending.skip(1));
                    }
                    if is_dir {
                        assert(before.swept() == before);
                        assert(self@ =~= (WalkView {
                            pending: before.pending.skip(1),
                            found: before.found,
                        }));
                        return Some(p);
                    }
                    if !utils::is_non_media_file(&p) {
                        let ghost files = self.found@;
                        let ghost q = p@;
                        self.found.push(p);
                        assert(self@.found =~= before.found.push(q));
                        assert(self@.pending =~= before.pending.skip(1));
                    }
                },
            }
        }
        assert(self@.pending.len() == 0);
        None
    }

    /// Takes in the entries of a directory; they are visited next.
    pub fn listed(&mut self, dir: &RelPath, entries: &Vec<(Vec<u8>, bool)>)
        ensures
            final(self)@ == old(self)@.with_listing(dir@, listing_view(entries@)),
    {
        let ghost all = listed_in(dir@, listing_view(entries@));
        let mut i: usize = entries.len();
        assert(self@.pending =~= all.skip(all.len() as int) + old(self)@.pending);
        while i > 0
            invariant
                i <= entries.len(),
                all == listed_in(dir@, listing_view(entries@)),
                self@.found == old(self)@.found,
                self@.pending == all.skip(i as int) + old(self)@.pending,
            decreases i,
        {
            i = i - 1;
            let ghost before = self@.pending;
            let ghost stack = self.pending@;
            let (name, is_dir) = &entries[i];
            let child = dir.join(name);
            proof {
                assert(listing_view(entries@)[i as int] == (name@, *is_dir));
                assert(all[i as int] == (child@, *is_dir));
            }
            self.pending.push((child, *is_dir));
            proof {
                assert(pending_view(self.pending@) =~= pending_view(stack).push(all[i as int]));
                assert(self@.pending =~= seq![all[i as int]] + before);
                assert(self@.pending =~= all.skip(i as int) + old(self)@.pending);
            }
        }
        assert(all.skip(0) =~= all);
        assert(self@ =~= old(self)@.with_listing(dir@, listing_view(entries@)));
    }

    /// The files that were found.
    pub fn into_found(self) -> (r: Vec<RelPath>)
        ensures
            path::paths_view(r@) == self@.found,
    {
        self.found
    }
}

proof fn lemma_files_in_concat(
    a: Seq<(PathView, bool)>,
    b: Seq<(PathView, bool)>,
    tree: spec_fn(PathView) -> Listing,
    depth: nat,
)
    ensures
        files_in(a + b, tree, depth) == files_in(a, tree, depth) + files_in(b, tree, depth),
    decreases a.len(),
{
    if a.len() == 0 {
        assert(a + b =~= b);
        assert(files_in(a, tree, depth) + files_in(b, tree, depth) =~= files_in(b, tree, depth));
    } else {
        lemma_files_in_concat(a.skip(1), b, tree, depth);
        assert((a + b).skip(1) =~= a.skip(1) + b);
        assert(files_in(a + b, tree, depth) =~= files_in(a, tree, depth) + files_in(
            b,
            tree,
            depth,
        ));
    }
}

proof fn lemma_depth_is_enough_at(
    p: PathView,
    is_dir: bool,
    tree: spec_fn(PathView) -> Listing,
    depth: nat,
)
    requires
        shallow_at(p, is_dir, tree, depth),
    ensures
        files_at(p, is_dir, tree, depth) == files_at(p, is_dir, tree, depth + 1),
        shallow_at(p, is_dir, tree, depth + 1),
    decreases depth, 0nat, 1nat,
{
    if is_dir {
        let inside = listed_in(p, tree(p));
        let below = (depth - 1) as nat;
        assert forall|k: int| 0 <= k < inside.len() implies shallow_at(
            (#[trigger] inside[k]).0,
            inside[k].1,
            tree,
            below,
        ) && shallow_at(inside[k].0, inside[k].1, tree, depth) by {
            assert(shallow_at(listed_in(p, tree(p))[k].0, listed_in(p, tree(p))[k].1, tree, below));
            lemma_depth_is_enough_at(inside[k].0, inside[k].1, tree, below);
        }
        lemma_depth_is_enough(inside, tree, below);
    }
}

proof fn lemma_depth_is_enough(
    places: Seq<(PathView, bool)>,
    tree: spec_fn(PathView) -> Listing,
    depth: nat,
)
    requires
        shallow(places, tree, depth),
    ensures
        files_in(places, tree, depth) == files_in(places, tree, depth + 1),
    decreases depth, places.len(), 2nat,
{
    if places.len() > 0 {
        assert(shallow_at(places[0].0, places[0].1, tree, depth));
        lemma_depth_is_enough_at(places[0].0, places[0].1, tree, depth);
        assert forall|k: int| 0 <= k < places.skip(1).len() implies shallow_at(
            (#[trigger] places.skip(1)[k]).0,
            places.skip(1)[k].1,
            tree,
            depth,
        ) by {
            assert(shallow_at(places[k + 1].0, places[k + 1].1, tree, depth));
        }
        lemma_depth_is_enough(places.skip(1), tree, depth);
    }
}

/// A walk that begins below a directory will find the files of its tree, and one that has nothing
/// left to visit has found what it will find.
pub proof fn law_walk_finds_the_files(
    dir: PathView,
    ended: WalkView,
    tree: spec_fn(PathView) -> Listing,
    depth: nat,
)
    requires
        ended.pending.len() == 0,
    ensures
        (WalkView { pending: seq![(dir, true)], found: Seq::empty() }).outcome(tree, depth)
            == files_at(dir, true, tree, depth),
        ended.outcome(tree, depth) == ended.found,
{
    let places = seq![(dir, true)];
    let begun = WalkView { pending: places, found: Seq::empty() };
    assert(places.skip(1) =~= Seq::<(PathView, bool)>::empty());
    assert(files_in(places, tree, depth) == files_at(dir, true, tree, depth) + files_in(
        places.skip(1),
        tree,
        depth,
    ));
    assert(begun.outcome(tree, depth) =~= files_at(dir, true, tree, depth));
    assert(ended.outcome(tree, depth) =~= ended.found);
}

/// Visiting the files before the next directory does not change what a walk will find.
pub proof fn law_sweeping_keeps_outcome(
    m: WalkView,
    tree: spec_fn(PathView) -> Listing,
    depth: nat,
)
    ensures
        m.swept().outcome(tree, depth) == m.outcome(tree, depth),
    decreases m.pending.len(),
{
    if m.pending.len() > 0 && !m.pending[0].1 {
        let p = m.pending[0].0;
        let next = WalkView {
            pending: m.pending.skip(1),
            found: if utils::is_bookkeeping(p) {
                m.found
            } else {
                m.found.push(p)
            },
        };
        law_sweeping_keeps_outcome(next, tree, depth);
        assert(files_in(m.pending, tree, depth) == files_at(p, false, tree, depth) + files_in(
            next.pending,
            tree,
            depth,
        ));
        assert(files_at(p, false, tree, depth) == if utils::is_bookkeeping(p) {
            Seq::<PathView>::empty()
        } else {
            seq![p]
        });
        assert(next.outcome(tree, depth) =~= m.outcome(tree, depth));
    }
}

/// Answering a walk from a tree of directories does not change what it will find, when no
/// directory of the tree is deeper than `depth`.
pub proof fn law_listing_keeps_outcome(
    m: WalkView,
    tree: spec_fn(PathView) -> Listing,
    depth: nat,
)
    requires
        m.pending.len() > 0,
        m.pending[0].1,
        shallow(m.pending, tree, depth),
    ensures
        ({
            let dir = m.pending[0].0;
            let next = (WalkView { pending: m.pending.skip(1), found: m.found }).with_listing(
                dir,
                tree(dir),
            );
            next.outcome(tree, depth) == m.outcome(tree, depth) && shallow(
                next.pending,
                tree,
                depth,
            )
        }),
{
    let dir = m.pending[0].0;
    let rest = m.pending.skip(1);
    let inside = listed_in(dir, tree(dir));
    let next = (WalkView { pending: rest, found: m.found }).with_listing(dir, tree(dir));
    assert(shallow_at(m.pending[0].0, m.pending[0].1, tree, depth));
    let below = (depth - 1) as nat;
    assert forall|k: int| 0 <= k < inside.len() implies shallow_at(
        (#[trigger] inside[k]).0,
        inside[k].1,
        tree,
        below,
    ) && shallow_at(inside[k].0, inside[k].1, tree, depth) by {
        assert(shallow_at(
            listed_in(dir, tree(dir))[k].0,
            listed_in(dir, tree(dir))[k].1,
            tree,
            below,
        ));
        lemma_depth_is_enough_at(inside[k].0, inside[k].1, tree, below);
    }
    lemma_depth_is_enough(inside, tree, below);
    lemma_files_in_concat(inside, rest, tree, depth);
    assert(files_in(m.pending, tree, depth) == files_at(dir, true, tree, depth) + files_in(
        rest,
        tree,
        depth,
    ));
    assert(files_at(dir, true, tree, depth) == files_in(inside, tree, below));
    assert(next.outcome(tree, depth) =~= m.outcome(tree, depth));
    assert forall|k: int| 0 <= k < next.pending.len() implies shallow_at(
        (#[trigger] next.pending[k]).0,
        next.pending[k].1,
        tree,
        depth,
    ) by {
        if k < inside.len() {
            assert(next.pending[k] == inside[k]);
        } else {
            assert(next.pending[k] == m.pending[k - inside.len() + 1]);
        }
    }
}

proof fn lemma_visits_are_found(
    places: Seq<(PathView, bool)>,
    tree: spec_fn(PathView) -> Listing,
    depth: nat,
    k: int,
    q: PathView,
)
    requires
        0 <= k < places.len(),
        files_at(places[k].0, places[k].1, tree, depth).contains(q),
    ensures
        files_in(places, tree, depth).contains(q),
    decreases places.len(),
{
    let here = files_at(places[0].0, places[0].1, tree, depth);
    let there = files_in(places.skip(1), tree, depth);
    if k == 0 {
        let i = choose|i: int| 0 <= i < here.len() && here[i] == q;
        assert((here + there)[i] == q);
    } else {
        assert(places.skip(1)[k - 1] == places[k]);
        lemma_visits_are_found(places.skip(1), tree, depth, k - 1, q);
        let i = choose|i: int| 0 <= i < there.len() && there[i] == q;
        assert((here + there)[here.len() + i] == q);
    }
}

/// A walk finds every file that a directory lists and that is none of the cache's own, and
/// everything that it finds below a directory that is listed.
pub proof fn law_walk_misses_nothing(
    dir: PathView,
    tree: spec_fn(PathView) -> Listing,
    depth: nat,
    k: int,
    q: PathView,
)
    requires
        depth > 0,
        0 <= k < tree(dir).len(),
    ensures
        !tree(dir)[k].1 && !utils::is_bookkeeping(path::joined(dir, tree(dir)[k].0)) ==> files_at(
            dir,
            true,
            tree,
            depth,
        ).contains(path::joined(dir, tree(dir)[k].0)),
        tree(dir)[k].1 && files_at(
            path::joined(dir, tree(dir)[k].0),
            true,
            tree,
            (depth - 1) as nat,
        ).contains(q) ==> files_at(dir, true, tree, depth).contains(q),
{
    let inside = listed_in(dir, tree(dir));
    let p = path::joined(dir, tree(dir)[k].0);
    assert(inside[k] == (p, tree(dir)[k].1));
    if !tree(dir)[k].1 && !utils::is_bookkeeping(p) {
        assert(files_at(p, false, tree, (depth - 1) as nat) == seq![p]);
        assert(seq![p][0] == p);
        lemma_visits_are_found(inside, tree, (depth - 1) as nat, k, p);
    }
    if tree(dir)[k].1 && files_at(p, true, tree, (depth - 1) as nat).contains(q) {
        lemma_visits_are_found(inside, tree, (depth - 1) as nat, k, q);
    }
}

/// A walk never finds the cache's own files.
pub proof fn law_walk_skips_bookkeeping(
    p: PathView,
    is_dir: bool,
    tree: spec_fn(PathView) -> Listing,
    depth: nat,
    i: int,
)
    requires
        0 <= i < files_at(p, is_dir, tree, depth).len(),
    ensures
        !utils::is_bookkeeping(files_at(p, is_dir, tree, depth)[i]),
    decreases depth, 0nat, 1nat,
{
    if is_dir {
        lemma_files_skip_bookkeeping(listed_in(p, tree(p)), tree, (depth - 1) as nat, i);
    }
}

proof fn lemma_files_skip_bookkeeping(
    places: Seq<(PathView, bool)>,
    tree: spec_fn(PathView) -> Listing,
    depth: nat,
    i: int,
)
    requires
        0 <= i < files_in(places, tree, depth).len(),
    ensures
        !utils::is_bookkeeping(files_in(places, tree, depth)[i]),
    decreases depth, places.len(), 2nat,
{
    let here = files_at(places[0].0, places[0].1, tree, depth);
    let there = files_in(places.skip(1), tree, depth);
    if i < here.len() {
        law_walk_skips_bookkeeping(places[0].0, places[0].1, tree, depth, i);
        assert((here + there)[i] == here[i]);
    } else {
        lemma_files_skip_bookkeeping(places.skip(1), tree, depth, i - here.len());
        assert((here + there)[i] == there[i - here.len()]);
    }
}

/// What a walk visits first is found first: files before the next directory are found in their
/// order, and the entries of a listed directory come before everything that waits.
pub proof fn law_walk_keeps_the_order(m: WalkView, dir: PathView, listing: Listing, k: int)
    ensures
        m.found.is_prefix_of(m.swept().found),
        m.swept().pending.len() > 0 ==> m.swept().pending[0].1,
        0 <= k < listing.len() ==> m.with_listing(dir, listing).pending[k] == (
            path::joined(dir, listing[k].0),
            listing[k].1,
        ),
        0 <= k < m.pending.len() ==> m.with_listing(dir, listing).pending[listing.len() + k]
            == m.pending[k],
        m.with_listing(dir, listing).found == m.found,
    decreases m.pending.len(),
{
    if m.pending.len() == 0 || m.pending[0].1 {
        assert(m.found =~= m.found.take(m.found.len() as int));
    } else {
        let p = m.pending[0].0;
        let next = WalkView {
            pending: m.pending.skip(1),
            found: if utils::is_bookkeeping(p) {
                m.found
            } else {
                m.found.push(p)
            },
        };
        law_walk_keeps_the_order(next, dir, listing, k);
        let end = m.swept().found;
        assert(next.found =~= end.take(next.found.len() as int));
        assert(m.found =~= end.take(m.found.len() as int));
    }
}

} // verus!
