//! Paths as lists of components, most of them below a mount point.

use crate::text;
use vstd::prelude::*;

verus! {

/// A path as the sequence of its components: names, and in front, where the path has them, one
/// for the root of the file system or for a leading ".".
pub type PathView = Seq<Seq<u8>>;

/// The component that stands for the root of the file system.
pub open spec fn root_part() -> Seq<u8> {
    seq![0x2fu8]
}

/// The component that stands for a leading ".".
pub open spec fn dot_part() -> Seq<u8> {
    seq![0x2eu8]
}

/// Whether `name` may stand anywhere in a path as one component.
pub open spec fn is_component(name: Seq<u8>) -> bool {
    name.len() > 0 && !name.contains(0x2fu8) && name != dot_part()
}

/// Whether `part` may stand at position `i` of a path.
pub open spec fn is_part(part: Seq<u8>, i: int) -> bool {
    is_component(part) || (i == 0 && (part == root_part() || part == dot_part()))
}

/// Whether a path starts at the root of the file system.
pub open spec fn is_absolute(bytes: Seq<u8>) -> bool {
    bytes.len() > 0 && bytes[0] == 0x2f
}

/// The names in a slash-separated byte string: empty pieces and "." are dropped.
pub open spec fn names_in(bytes: Seq<u8>) -> PathView {
    text::split_at_sep(bytes, 0x2fu8).filter(|name: Seq<u8>| is_component(name))
}

/// What stands in front of the names: the root of the file system for an absolute path, and "."
/// where that is the first piece.
pub open spec fn lead(bytes: Seq<u8>) -> PathView {
    if is_absolute(bytes) {
        seq![root_part()]
    } else if text::split_at_sep(bytes, 0x2fu8)[0] == dot_part() {
        seq![dot_part()]
    } else {
        PathView::empty()
    }
}

/// Components of a slash-separated byte string. Repeated slashes, slashes at the end and "."
/// anywhere but at the start make no difference.
pub open spec fn components(bytes: Seq<u8>) -> PathView {
    lead(bytes) + names_in(bytes)
}

/// A path appended to a directory: an absolute one stands for itself.
pub open spec fn joined(dir: PathView, tail: Seq<u8>) -> PathView {
    if dir.len() == 0 || is_absolute(tail) {
        components(tail)
    } else {
        dir + names_in(tail)
    }
}

/// Whether a path ends in a name: it is not empty and does not end in "..", the root of the file
/// system or ".".
pub open spec fn has_name(p: PathView) -> bool {
    &&& p.len() > 0
    &&& p.last() != seq![0x2eu8, 0x2eu8]
    &&& p.last() != root_part()
    &&& p.last() != dot_part()
}

/// The slash-separated form of a path.
pub open spec fn spelled(p: PathView) -> Seq<u8> {
    if p.len() > 0 && p[0] == root_part() {
        root_part() + text::join_with(p.skip(1), seq![0x2fu8])
    } else {
        text::join_with(p, seq![0x2fu8])
    }
}

/// The path's directory; the empty path where there is none.
pub open spec fn parent_or_root(p: PathView) -> PathView {
    if p.len() == 0 {
        p
    } else {
        p.drop_last()
    }
}

/// Whether `prefix` is an ancestor of `path` or `path` itself.
pub open spec fn under(path: PathView, prefix: PathView) -> bool {
    prefix.len() <= path.len() && path.take(prefix.len() as int) == prefix
}

/// `path` with its leading `old_prefix` replaced by `new_prefix`.
pub open spec fn rebase(path: PathView, old_prefix: PathView, new_prefix: PathView) -> PathView {
    new_prefix + path.skip(old_prefix.len() as int)
}

/// Two ancestors of one path are comparable.
pub proof fn lemma_common_descendant(path: PathView, a: PathView, b: PathView)
    requires
        under(path, a),
        under(path, b),
    ensures
        under(a, b) || under(b, a),
{
    if a.len() >= b.len() {
        assert(a.take(b.len() as int) =~= path.take(b.len() as int));
    } else {
        assert(b.take(a.len() as int) =~= path.take(a.len() as int));
    }
}

/// A rebased path lies below its new place, and moving it back restores it.
pub proof fn lemma_rebase_round_trip(path: PathView, a: PathView, b: PathView)
    requires
        under(path, a),
    ensures
        under(rebase(path, a, b), b),
        rebase(rebase(path, a, b), b, a) == path,
        rebase(path, a, b) == b <==> path == a,
        path != a ==> rebase(path, a, b) != b,
{
    let r = rebase(path, a, b);
    assert(r.take(b.len() as int) =~= b);
    assert(rebase(r, b, a) =~= path);
    if path == a {
        assert(r =~= b);
    }
    if r == b {
        assert(path =~= a);
    }
}

/// A path, as a rule relative to the root of the mount. The root itself has no components.
#[derive(Debug, PartialEq, Eq)]
pub struct RelPath {
    parts: Vec<Vec<u8>>,
}

impl View for RelPath {
    type V = PathView;

    closed spec fn view(&self) -> PathView {
        text::byte_strings(self.parts@)
    }
}

/// The view of one path, as a function.
pub open spec fn path_fn() -> spec_fn(RelPath) -> PathView {
    |p: RelPath| p@
}

/// Element-wise view of a list of paths.
pub open spec fn paths_view(v: Seq<RelPath>) -> Seq<PathView> {
    v.map_values(path_fn())
}

impl RelPath {
    #[verifier::type_invariant]
    closed spec fn well_formed(self) -> bool {
        forall|i: int| 0 <= i < self@.len() ==> is_part(#[trigger] self@[i], i)
    }

    /// The mount root.
    pub fn root() -> (r: Self)
        ensures
            r@ == PathView::empty(),
    {
        let r = RelPath { parts: Vec::new() };
        assert(r@ =~= PathView::empty());
        r
    }

    /// Reads a slash-separated path.
    pub fn from_bytes(bytes: &[u8]) -> (r: Self)
        ensures
            r@ == components(bytes@),
    {
        let root = RelPath::root();
        root.join(bytes)
    }

    /// Appends a path; an absolute one stands for itself.
    pub fn join(&self, tail: &[u8]) -> (r: Self)
        ensures
            r@ == joined(self@, tail@),
    {
        proof {
            use_type_invariant(self);
        }
        let pieces = text::split_bytes(tail, 0x2f);
        let ghost keep = |name: Seq<u8>| is_component(name);
        let ghost all = text::split_at_sep(tail@, 0x2fu8);
        proof {
            text::lemma_split_nonempty(tail@, 0x2fu8);
            assert(all[0] == pieces@[0]@);
        }
        let mut parts: Vec<Vec<u8>> = Vec::new();
        if tail.len() > 0 && tail[0] == 0x2f {
            parts.push(single(0x2f));
            assert(text::byte_strings(parts@) =~= seq![root_part()]);
        } else if self.parts.len() > 0 {
            parts = clone_parts(&self.parts);
        } else if is_dot(&pieces[0]) {
            parts.push(single(0x2e));
            assert(text::byte_strings(parts@) =~= seq![dot_part()]);
        } else {
            assert(text::byte_strings(parts@) =~= PathView::empty());
        }
        let ghost base = text::byte_strings(parts@);
        let mut i: usize = 0;
        proof {
            assert(self@.len() == self.parts.len());
            text::lemma_split_pieces_free_of_sep(tail@, 0x2fu8);
            reveal(Seq::filter);
            assert(all.take(0).filter(keep) =~= PathView::empty());
            assert(text::byte_strings(parts@) =~= base + all.take(0).filter(keep));
            assert(joined(self@, tail@) == base + all.filter(keep));
        }
        while i < pieces.len()
            invariant
                i <= pieces.len(),
                text::byte_strings(pieces@) == all,
                keep == (|name: Seq<u8>| is_component(name)),
                forall|k: int, j: int|
                    0 <= k < all.len() && 0 <= j < all[k].len() ==> #[trigger] all[k][j] != 0x2fu8,
                text::byte_strings(parts@) == base + all.take(i as int).filter(keep),
                forall|k: int|
                    0 <= k < parts.len() ==> is_part(#[trigger] text::byte_strings(parts@)[k], k),
            decreases pieces.len() - i,
        {
            let piece: &Vec<u8> = &pieces[i];
            let ghost before = parts@;
            proof {
                assert(all[i as int] == piece@);
                assert(!piece@.contains(0x2fu8)) by {
                    if piece@.contains(0x2fu8) {
                        let j = choose|j: int| 0 <= j < piece@.len() && piece@[j] == 0x2fu8;
                        assert(all[i as int][j] != 0x2fu8);
                    }
                }
                assert(all.take(i + 1) =~= all.take(i as int).push(piece@));
                text::lemma_filter_push(all.take(i as int), piece@, keep);
            }
            if piece.len() > 0 && !is_dot(piece) {
                assert(is_component(piece@));
                let copy = text::bytes_clone(piece);
                parts.push(copy);
                assert(text::byte_strings(parts@) =~= text::byte_strings(before).push(piece@));
            } else {
                assert(!is_component(piece@));
            }
            i = i + 1;
            assert(text::byte_strings(parts@) =~= base + all.take(i as int).filter(keep));
        }
        assert(all.take(all.len() as int) =~= all);
        RelPath { parts }
    }

    /// Slash-separated form. The mount root is the empty string.
    pub fn to_bytes(&self) -> (r: Vec<u8>)
        ensures
            r@ == spelled(self@),
            components(r@) == self@,
    {
        proof {
            use_type_invariant(self);
            lemma_components_of_spelled(self@);
        }
        if self.parts.len() > 0 && is_slash(&self.parts[0]) {
            let mut names: Vec<Vec<u8>> = Vec::new();
            let mut i: usize = 1;
            assert(text::byte_strings(names@) =~= self@.subrange(1, 1));
            while i < self.parts.len()
                invariant
                    1 <= i <= self.parts.len(),
                    text::byte_strings(names@) == self@.subrange(1, i as int),
                decreases self.parts.len() - i,
            {
                let ghost before = names@;
                names.push(text::bytes_clone(&self.parts[i]));
                assert(text::byte_strings(names@) =~= text::byte_strings(before).push(
                    self@[i as int],
                ));
                i = i + 1;
                assert(text::byte_strings(names@) =~= self@.subrange(1, i as int));
            }
            assert(self@.subrange(1, self@.len() as int) =~= self@.skip(1));
            let mut out = single(0x2f);
            let mut rest = text::join_bytes(&names, 0x2f);
            out.append(&mut rest);
            out
        } else {
            text::join_bytes(&self.parts, 0x2f)
        }
    }

    /// Number of components.
    pub fn depth(&self) -> (r: usize)
        ensures
            r == self@.len(),
    {
        self.parts.len()
    }

    /// The component at position `i`.
    pub fn component(&self, i: usize) -> (r: &Vec<u8>)
        requires
            i < self@.len(),
        ensures
            r@ == self@[i as int],
    {
        &self.parts[i]
    }

    /// Whether this is the mount root.
    pub fn is_root(&self) -> (r: bool)
        ensures
            r == (self@ == PathView::empty()),
    {
        let r = self.parts.len() == 0;
        proof {
            assert(self@.len() == self.parts.len());
            if r {
                assert(self@ =~= PathView::empty());
            }
        }
        r
    }

    /// The containing directory; neither the mount root nor the root of the file system has one.
    pub fn parent(&self) -> (r: Option<RelPath>)
        ensures
            r matches Some(p) ==> self@.len() > 0 && p@ == self@.drop_last(),
            r is None <==> self@.len() == 0 || self@.last() == root_part(),
    {
        let n = self.parts.len();
        if n == 0 || is_slash(&self.parts[n - 1]) {
            None
        } else {
            Some(self.prefix(self.parts.len() - 1))
        }
    }

    /// The containing directory; the mount root where there is none.
    pub fn parent_or_root(&self) -> (r: RelPath)
        ensures
            r@ == parent_or_root(self@),
    {
        proof {
            use_type_invariant(self);
        }
        match self.parent() {
            Some(p) => p,
            None => {
                let r = RelPath::root();
                proof {
                    if self@.len() > 0 {
                        let last = self@.len() - 1;
                        assert(is_part(self@[last], last));
                        assert(root_part()[0] == 0x2f);
                        assert(last == 0);
                    }
                    assert(r@ =~= parent_or_root(self@));
                }
                r
            },
        }
    }

    /// The first `n` components.
    pub fn prefix(&self, n: usize) -> (r: RelPath)
        requires
            n <= self@.len(),
        ensures
            r@ == self@.take(n as int),
    {
        proof {
            use_type_invariant(self);
        }
        let mut parts: Vec<Vec<u8>> = Vec::new();
        let mut i: usize = 0;
        while i < n
            invariant
                i <= n,
                n <= self.parts.len(),
                text::byte_strings(parts@) == self@.take(i as int),
            decreases n - i,
        {
            let ghost before = parts@;
            parts.push(text::bytes_clone(&self.parts[i]));
            assert(text::byte_strings(parts@) =~= text::byte_strings(before).push(self@[i as int]));
            i = i + 1;
            assert(text::byte_strings(parts@) =~= self@.take(i as int));
        }
        assert(forall|k: int| 0 <= k < n ==> self@.take(n as int)[k] == self@[k]);
        RelPath { parts }
    }

    /// The name that the path ends in. There is none at the root, nor where the path ends in "..",
    /// "." or the root of the file system.
    pub fn file_name(&self) -> (r: Option<&Vec<u8>>)
        ensures
            r matches Some(name) ==> name@ == self@.last(),
            r is Some <==> has_name(self@),
    {
        let n = self.parts.len();
        if n == 0 {
            return None;
        }
        let last = &self.parts[n - 1];
        let up: bool = last.len() == 2 && last[0] == 0x2e && last[1] == 0x2e;
        proof {
            if up {
                assert(last@ =~= seq![0x2eu8, 0x2eu8]);
            }
        }
        if up || is_slash(last) || is_dot(last) {
            None
        } else {
            Some(last)
        }
    }

    /// Whether `prefix` is this path or one of its ancestors.
    pub fn starts_with(&self, prefix: &RelPath) -> (r: bool)
        ensures
            r == under(self@, prefix@),
    {
        if prefix.parts.len() > self.parts.len() {
            return false;
        }
        let mut i: usize = 0;
        while i < prefix.parts.len()
            invariant
                i <= prefix.parts.len() <= self.parts.len(),
                forall|k: int| 0 <= k < i ==> self@[k] == prefix@[k],
            decreases prefix.parts.len() - i,
        {
            if !text::bytes_eq(&self.parts[i], &prefix.parts[i]) {
                assert(self@.take(prefix@.len() as int)[i as int] != prefix@[i as int]);
                return false;
            }
            i = i + 1;
        }
        assert(self@.take(prefix@.len() as int) =~= prefix@);
        true
    }

    /// Whether both are the same path.
    pub fn same_as(&self, other: &RelPath) -> (r: bool)
        ensures
            r == (self@ == other@),
    {
        let r = self.parts.len() == other.parts.len() && self.starts_with(other);
        assert(self@.take(self@.len() as int) =~= self@);
        r
    }

    /// Moves a path from below `old_prefix` to below `new_prefix`.
    pub fn rebased(&self, old_prefix: &RelPath, new_prefix: &RelPath) -> (r: RelPath)
        requires
            old_prefix@.len() > 0,
            under(self@, old_prefix@),
        ensures
            r@ == rebase(self@, old_prefix@, new_prefix@),
    {
        proof {
            use_type_invariant(self);
            use_type_invariant(new_prefix);
        }
        let mut parts = clone_parts(&new_prefix.parts);
        let start = old_prefix.parts.len();
        let mut i: usize = start;
        assert(text::byte_strings(parts@) =~= new_prefix@ + self@.subrange(start as int, i as int));
        while i < self.parts.len()
            invariant
                start <= i <= self.parts.len(),
                text::byte_strings(parts@) == new_prefix@ + self@.subrange(start as int, i as int),
            decreases self.parts.len() - i,
        {
            let ghost before = parts@;
            parts.push(text::bytes_clone(&self.parts[i]));
            assert(text::byte_strings(parts@) =~= text::byte_strings(before).push(self@[i as int]));
            i = i + 1;
            assert(text::byte_strings(parts@) =~= new_prefix@ + self@.subrange(
                start as int,
                i as int,
            ));
        }
        assert(text::byte_strings(parts@) =~= rebase(self@, old_prefix@, new_prefix@));
        assert forall|k: int| 0 <= k < parts@.len() implies is_part(
            #[trigger] text::byte_strings(parts@)[k],
            k,
        ) by {
            if k < new_prefix@.len() {
                assert(is_part(new_prefix@[k], k));
            } else {
                let j = k - new_prefix@.len() + old_prefix@.len();
                assert(is_part(self@[j], j));
            }
        }
        RelPath { parts }
    }
}

impl Clone for RelPath {
    fn clone(&self) -> (r: Self)
        ensures
            r@ == self@,
    {
        proof {
            use_type_invariant(self);
        }
        let parts = clone_parts(&self.parts);
        assert(forall|i: int|
            0 <= i < self@.len() ==> is_part(#[trigger] text::byte_strings(parts@)[i], i));
        RelPath { parts }
    }
}

fn single(b: u8) -> (r: Vec<u8>)
    ensures
        r@ == seq![b],
{
    let mut r: Vec<u8> = Vec::new();
    r.push(b);
    assert(r@ =~= seq![b]);
    r
}

fn is_dot(part: &Vec<u8>) -> (r: bool)
    ensures
        r == (part@ == dot_part()),
{
    let r = part.len() == 1 && part[0] == 0x2e;
    proof {
        if r {
            assert(part@ =~= dot_part());
        }
    }
    r
}

fn is_slash(part: &Vec<u8>) -> (r: bool)
    ensures
        r == (part@ == root_part()),
{
    let r = part.len() == 1 && part[0] == 0x2f;
    proof {
        if r {
            assert(part@ =~= root_part());
        }
    }
    r
}

fn clone_parts(parts: &Vec<Vec<u8>>) -> (r: Vec<Vec<u8>>)
    ensures
        text::byte_strings(r@) == text::byte_strings(parts@),
{
    let mut out: Vec<Vec<u8>> = Vec::new();
    let mut i: usize = 0;
    while i < parts.len()
        invariant
            i <= parts.len(),
            out.len() == i,
            forall|k: int| 0 <= k < i ==> (#[trigger] out@[k])@ == parts@[k]@,
        decreases parts.len() - i,
    {
        out.push(text::bytes_clone(&parts[i]));
        i = i + 1;
    }
    assert(text::byte_strings(out@) =~= text::byte_strings(parts@));
    out
}

/// Spelling a path out and reading it again gives it back.
pub proof fn lemma_components_of_spelled(path: PathView)
    requires
        forall|i: int| 0 <= i < path.len() ==> is_part(#[trigger] path[i], i),
    ensures
        components(spelled(path)) == path,
{
    let keep = |name: Seq<u8>| is_component(name);
    let bytes = spelled(path);
    reveal_with_fuel(Seq::filter, 3);
    if path.len() == 0 {
        assert(text::split_at_sep(Seq::<u8>::empty(), 0x2fu8) == seq![Seq::<u8>::empty()]);
        assert(seq![Seq::<u8>::empty()].drop_last() =~= PathView::empty());
        assert(path =~= PathView::empty());
        assert(components(bytes) =~= path);
    } else if path[0] == root_part() {
        let names = path.skip(1);
        assert forall|i: int| 0 <= i < names.len() implies is_component(#[trigger] names[i]) by {
            assert(is_part(path[i + 1], i + 1));
        }
        lemma_names_after_slash(names);
        assert(components(bytes) =~= path);
    } else {
        assert(is_part(path[0], 0));
        assert forall|i: int| 0 <= i < path.len() implies !(#[trigger] path[i]).contains(0x2fu8) by {
            assert(is_part(path[i], i));
        }
        text::lemma_split_join(path, 0x2fu8);
        lemma_join_starts(path, 0x2fu8);
        assert(path[0].contains(path[0][0]));
        let names = path.skip(1);
        assert forall|i: int| 0 <= i < names.len() implies keep(#[trigger] names[i]) by {
            assert(is_part(path[i + 1], i + 1));
        }
        lemma_filter_keeps_all(names, keep);
        assert(path =~= seq![path[0]] + names);
        lemma_filter_front(path[0], names, keep);
        assert(components(bytes) =~= path);
    }
}

proof fn lemma_join_starts(pieces: PathView, sep: u8)
    requires
        pieces.len() > 0,
        pieces[0].len() > 0,
    ensures
        text::join_with(pieces, seq![sep]).len() > 0,
        text::join_with(pieces, seq![sep])[0] == pieces[0][0],
    decreases pieces.len(),
{
    if pieces.len() > 1 {
        lemma_join_starts(pieces.drop_last(), sep);
    }
}

proof fn lemma_filter_front(x: Seq<u8>, rest: PathView, keep: spec_fn(Seq<u8>) -> bool)
    ensures
        (seq![x] + rest).filter(keep) == (if keep(x) {
            seq![x]
        } else {
            PathView::empty()
        }) + rest.filter(keep),
    decreases rest.len(),
{
    reveal(Seq::filter);
    let all = seq![x] + rest;
    if rest.len() == 0 {
        assert(all.drop_last() =~= PathView::empty());
        assert(all.last() == x);
        assert(all.filter(keep) =~= (if keep(x) {
            seq![x]
        } else {
            PathView::empty()
        }) + rest.filter(keep));
    } else {
        lemma_filter_front(x, rest.drop_last(), keep);
        assert(all.drop_last() =~= seq![x] + rest.drop_last());
        assert(all.last() == rest.last());
        assert(all.filter(keep) =~= (if keep(x) {
            seq![x]
        } else {
            PathView::empty()
        }) + rest.filter(keep));
    }
}

proof fn lemma_names_after_slash(names: PathView)
    requires
        forall|i: int| 0 <= i < names.len() ==> is_component(#[trigger] names[i]),
    ensures
        names_in(root_part() + text::join_with(names, seq![0x2fu8])) == names,
{
    let keep = |name: Seq<u8>| is_component(name);
    let rest = text::join_with(names, seq![0x2fu8]);
    let empty = Seq::<u8>::empty();
    if names.len() == 0 {
        assert(root_part() + rest =~= empty + seq![0x2fu8] + empty);
        text::lemma_split_concat(empty, 0x2fu8, empty);
        assert(text::split_at_sep(empty, 0x2fu8) == seq![empty]);
        lemma_filter_front(empty, seq![empty], keep);
        lemma_filter_front(empty, PathView::empty(), keep);
        assert(seq![empty] + PathView::empty() =~= seq![empty]);
        assert(seq![empty] + seq![empty] =~= seq![empty].push(empty));
        reveal(Seq::filter);
        assert(names =~= PathView::empty());
        assert(names_in(root_part() + rest) =~= names);
    } else {
        let pieces = seq![empty] + names;
        assert forall|i: int| 0 <= i < pieces.len() implies !(#[trigger] pieces[i]).contains(
            0x2fu8,
        ) by {
            if i > 0 {
                assert(is_component(names[i - 1]));
            }
        }
        lemma_join_front(empty, names);
        text::lemma_split_join(pieces, 0x2fu8);
        assert(text::join_with(pieces, seq![0x2fu8]) =~= root_part() + rest);
        lemma_filter_front(empty, names, keep);
        lemma_filter_keeps_all(names, keep);
        assert(names_in(root_part() + rest) =~= names);
    }
}

proof fn lemma_join_front(first: Seq<u8>, rest: PathView)
    requires
        rest.len() > 0,
    ensures
        text::join_with(seq![first] + rest, seq![0x2fu8]) == first + seq![0x2fu8]
            + text::join_with(rest, seq![0x2fu8]),
    decreases rest.len(),
{
    let all = seq![first] + rest;
    assert(all.drop_last() =~= seq![first] + rest.drop_last());
    assert(all.last() == rest.last());
    if rest.len() == 1 {
        assert(all.drop_last() =~= seq![first]);
        assert(text::join_with(all.drop_last(), seq![0x2fu8]) == first);
    } else {
        lemma_join_front(first, rest.drop_last());
    }
    assert(text::join_with(all, seq![0x2fu8]) =~= first + seq![0x2fu8] + text::join_with(
        rest,
        seq![0x2fu8],
    ));
}

/// A plain name read back is the path of that one name, and joining it appends it.
pub proof fn lemma_single_component(dir: PathView, name: Seq<u8>)
    requires
        is_component(name),
    ensures
        components(name) == seq![name],
        joined(dir, name) == dir.push(name),
{
    let keep = |n: Seq<u8>| is_component(n);
    text::lemma_split_without_sep(name, 0x2fu8);
    assert(name.contains(name[0]));
    lemma_filter_keeps_all(seq![name], keep);
    assert(components(name) =~= seq![name]);
    assert(joined(dir, name) =~= dir.push(name));
}

/// Filtering removes nothing when everything qualifies.
pub proof fn lemma_filter_keeps_all<T>(s: Seq<T>, keep: spec_fn(T) -> bool)
    requires
        forall|i: int| 0 <= i < s.len() ==> keep(#[trigger] s[i]),
    ensures
        s.filter(keep) == s,
    decreases s.len(),
{
    reveal(Seq::filter);
    if s.len() > 0 {
        assert forall|i: int| 0 <= i < s.drop_last().len() implies keep(#[trigger] s.drop_last()[i]) by {
            assert(s.drop_last()[i] == s[i]);
        }
        lemma_filter_keeps_all(s.drop_last(), keep);
        assert(s.drop_last().push(s.last()) =~= s);
    }
}

/// A path lies under another exactly where it is the other with something behind it, and moving
/// it exchanges the part in front and keeps what is behind.
pub proof fn law_moving_keeps_what_is_below(prefix: PathView, rest: PathView, place: PathView)
    ensures
        under(prefix + rest, prefix),
        rebase(prefix + rest, prefix, place) == place + rest,
        forall|p: PathView| #[trigger]
            under(p, prefix) ==> p == prefix + p.skip(prefix.len() as int),
{
    let whole = prefix + rest;
    assert(whole.take(prefix.len() as int) =~= prefix);
    assert(whole.skip(prefix.len() as int) =~= rest);
    assert forall|p: PathView| #[trigger] under(p, prefix) implies p == prefix + p.skip(
        prefix.len() as int,
    ) by {
        assert(p =~= p.take(prefix.len() as int) + p.skip(prefix.len() as int));
    }
}

/// A plain name behind a directory has that directory as its parent and ends in a name, whatever
/// the directory is; joining it to the directory gives just this path, and spelling it out puts a
/// slash between a relative directory and the name.
pub proof fn law_child_path(dir: PathView, name: Seq<u8>)
    requires
        name.len() > 0,
        !name.contains(0x2fu8),
        name != seq![0x2eu8],
    ensures
        joined(dir, name) == dir.push(name),
        parent_or_root(joined(dir, name)) == dir,
        name != seq![0x2eu8, 0x2eu8] ==> has_name(joined(dir, name)),
        dir.len() > 0 && dir[0] != seq![0x2fu8] ==> spelled(joined(dir, name)) == spelled(dir)
            + seq![0x2fu8] + name,
        dir.len() == 0 ==> spelled(joined(dir, name)) == name,
{
    lemma_single_component(dir, name);
    let p = dir.push(name);
    assert(p.drop_last() =~= dir);
    assert(name.contains(name[0]));
    assert(seq![0x2fu8][0] == 0x2fu8);
    if name == root_part() {
        assert(name.contains(0x2fu8));
    }
    if dir.len() == 0 {
        assert(p =~= seq![name]);
    }
}

/// Joining an absolute path gives that path, whatever the directory is, and joining nothing leaves
/// a directory that is not empty as it is.
pub proof fn law_absolute_paths_stand_for_themselves(dir: PathView, tail: Seq<u8>)
    ensures
        tail.len() > 0 && tail[0] == 0x2f ==> joined(dir, tail) == joined(PathView::empty(), tail),
        tail.len() > 0 && tail[0] == 0x2f ==> joined(dir, tail).len() > 0 && joined(dir, tail)[0]
            == seq![0x2fu8],
        dir.len() > 0 && tail.len() == 0 ==> joined(dir, tail) == dir,
{
    if tail.len() == 0 {
        let keep = |name: Seq<u8>| is_component(name);
        reveal_with_fuel(Seq::filter, 2);
        assert(text::split_at_sep(tail, 0x2fu8) == seq![Seq::<u8>::empty()]);
        assert(seq![Seq::<u8>::empty()].drop_last() =~= PathView::empty());
        assert(names_in(tail) =~= PathView::empty());
        assert(dir + names_in(tail) =~= dir);
    }
}

/// The empty path is its own parent, and every other path lies one name below its parent.
pub proof fn law_parent(p: PathView)
    ensures
        p.len() == 0 ==> parent_or_root(p) == p,
        p.len() > 0 ==> parent_or_root(p).push(p.last()) == p,
{
    if p.len() > 0 {
        assert(p.drop_last().push(p.last()) =~= p);
    }
}

/// Two plain names with a slash between them are two names; further slashes, a slash at the end and
/// a "." between them make no difference.
pub proof fn law_slashes_separate_names(dir: PathView, a: Seq<u8>, b: Seq<u8>)
    requires
        a.len() > 0,
        !a.contains(0x2fu8),
        a != seq![0x2eu8],
        b.len() > 0,
        !b.contains(0x2fu8),
        b != seq![0x2eu8],
    ensures
        joined(dir, a + seq![0x2fu8] + b) == dir.push(a).push(b),
        joined(dir, a + seq![0x2fu8] + (seq![0x2fu8] + b)) == dir.push(a).push(b),
        joined(dir, a + seq![0x2fu8]) == dir.push(a),
        joined(dir, a + seq![0x2fu8] + (seq![0x2eu8] + seq![0x2fu8] + b)) == dir.push(a).push(b),
{
    let keep = |n: Seq<u8>| is_component(n);
    let none = Seq::<u8>::empty();
    let dot = seq![0x2eu8];
    assert(a.contains(a[0]));
    text::lemma_split_without_sep(a, 0x2fu8);
    text::lemma_split_without_sep(b, 0x2fu8);
    assert(text::split_at_sep(none, 0x2fu8) == seq![none]);
    assert(!dot.contains(0x2fu8));
    text::lemma_split_without_sep(dot, 0x2fu8);
    text::lemma_split_concat(a, 0x2fu8, b);
    text::lemma_split_concat(a, 0x2fu8, none);
    text::lemma_split_concat(a, 0x2fu8, dot);
    text::lemma_split_concat(a + seq![0x2fu8] + none, 0x2fu8, b);
    text::lemma_split_concat(a + seq![0x2fu8] + dot, 0x2fu8, b);
    assert(a + seq![0x2fu8] + none =~= a + seq![0x2fu8]);
    let t1 = a + seq![0x2fu8] + b;
    let t2 = a + seq![0x2fu8] + (seq![0x2fu8] + b);
    let t3 = a + seq![0x2fu8];
    let t4 = a + seq![0x2fu8] + (dot + seq![0x2fu8] + b);
    assert(t1[0] == a[0] && t2[0] == a[0] && t3[0] == a[0] && t4[0] == a[0]);
    assert(t2 =~= a + seq![0x2fu8] + none + seq![0x2fu8] + b);
    assert(t4 =~= a + seq![0x2fu8] + dot + seq![0x2fu8] + b);
    assert(text::split_at_sep(t1, 0x2fu8) =~= seq![a, b]);
    assert(text::split_at_sep(t2, 0x2fu8) =~= seq![a, none, b]);
    assert(text::split_at_sep(t3, 0x2fu8) =~= seq![a, none]);
    assert(text::split_at_sep(t4, 0x2fu8) =~= seq![a, dot, b]);
    lemma_filter_three(a, none, b, keep);
    lemma_filter_three(a, dot, b, keep);
    assert(seq![a, b].filter(keep) =~= seq![a, b]) by {
        lemma_filter_keeps_all(seq![a, b], keep);
    }
    assert(seq![a].push(none) =~= seq![a, none]);
    text::lemma_filter_push(seq![a], none, keep);
    lemma_filter_keeps_all(seq![a], keep);
    assert(names_in(t1) =~= seq![a, b]);
    assert(names_in(t3) =~= seq![a]);
    assert(joined(dir, t1) =~= dir.push(a).push(b));
    assert(joined(dir, t2) =~= dir.push(a).push(b));
    assert(joined(dir, t3) =~= dir.push(a));
    assert(joined(dir, t4) =~= dir.push(a).push(b));
}

proof fn lemma_filter_three(
    a: Seq<u8>,
    x: Seq<u8>,
    b: Seq<u8>,
    keep: spec_fn(Seq<u8>) -> bool,
)
    requires
        keep(a),
        !keep(x),
        keep(b),
    ensures
        seq![a, x, b].filter(keep) == seq![a, b],
{
    lemma_filter_keeps_all(seq![a], keep);
    text::lemma_filter_push(seq![a], x, keep);
    text::lemma_filter_push(seq![a].push(x), b, keep);
    assert(seq![a].push(x).push(b) =~= seq![a, x, b]);
    assert(seq![a].push(b) =~= seq![a, b]);
}

} // verus!
