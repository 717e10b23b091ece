//! Watching the backing directories for changes from outside.
//!
//! The root is watched from the start, other directories from their first lookup on. Events
//! are gathered for a short window, so that a burst of them leads to one reaction, and the
//! number of watched directories is bounded: the one touched longest ago gives way.

use crate::cache::io::{CacheJobKind, JobView, PipelineModel, PipelineState};
use crate::fuse::util;
use crate::lru_map;
use crate::lru_map::RecencyMap;
use crate::path;
use crate::path::{PathView, RelPath};
use crate::text;
use std::collections::HashMap;
use vstd::prelude::*;

verus! {

broadcast use vstd::std_specs::hash::group_hash_axioms;

/// A directory was looked up and should be watched.
pub enum WatchRequest {
    Touch { rel_path: RelPath, ino: u64 },
}

/// Severity ordering for coalescing: the highest severity within a window wins.
#[derive(Clone, Copy, Debug, PartialEq, Eq, Structural)]
pub enum Severity {
    CreateOrMovedIn,
    Attr,
    Modify,
    Delete,
}

impl Severity {
    pub open spec fn rank(self) -> int {
        match self {
            Severity::CreateOrMovedIn => 0,
            Severity::Attr => 1,
            Severity::Modify => 2,
            Severity::Delete => 3,
        }
    }

    /// The more severe of two; this one where they are equal.
    pub open spec fn merged(self, other: Severity) -> Severity {
        if other.rank() > self.rank() {
            other
        } else {
            self
        }
    }

    fn level(self) -> (r: u8)
        ensures
            r == self.rank(),
    {
        match self {
            Severity::CreateOrMovedIn => 0,
            Severity::Attr => 1,
            Severity::Modify => 2,
            Severity::Delete => 3,
        }
    }

    /// The name of the change.
    pub fn kind_str(self) -> (r: &'static str)
        ensures
            r@ == (match self {
                Severity::Delete => "delete"@,
                Severity::Modify => "modify"@,
                Severity::Attr => "attr"@,
                Severity::CreateOrMovedIn => "create"@,
            }),
    {
        match self {
            Severity::Delete => "delete",
            Severity::Modify => "modify",
            Severity::Attr => "attr",
            Severity::CreateOrMovedIn => "create",
        }
    }
}

/// A file's content was changed.
pub const IN_MODIFY: u32 = 0x2;

/// A file's metadata was changed.
pub const IN_ATTRIB: u32 = 0x4;

/// A file was moved away.
pub const IN_MOVED_FROM: u32 = 0x40;

/// A file was moved in.
pub const IN_MOVED_TO: u32 = 0x80;

/// A file was created.
pub const IN_CREATE: u32 = 0x100;

/// A file was deleted.
pub const IN_DELETE: u32 = 0x200;

/// The severity of an event: what takes a name away comes first, then changes of content and
/// of metadata; everything else adds or replaces a name.
pub open spec fn severity_of(mask: u32) -> Severity {
    if mask & IN_DELETE != 0 || mask & IN_MOVED_FROM != 0 {
        Severity::Delete
    } else if mask & IN_MODIFY != 0 {
        Severity::Modify
    } else if mask & IN_ATTRIB != 0 {
        Severity::Attr
    } else {
        Severity::CreateOrMovedIn
    }
}

/// Classifies an event by its mask.
pub fn classify(mask: u32) -> (r: Severity)
    ensures
        r == severity_of(mask),
{
    if mask & IN_DELETE != 0 || mask & IN_MOVED_FROM != 0 {
        Severity::Delete
    } else if mask & IN_MODIFY != 0 {
        Severity::Modify
    } else if mask & IN_ATTRIB != 0 {
        Severity::Attr
    } else {
        Severity::CreateOrMovedIn
    }
}

/// A change that waits for its window to close.
#[derive(Debug, PartialEq, Eq)]
pub struct PendingEvent {
    pub parent_ino: u64,
    pub name: Vec<u8>,
    /// Milliseconds on the watcher's clock.
    pub deadline: u64,
    pub severity: Severity,
    pub parent_rel: RelPath,
}

/// View of a pending change.
pub struct PendingView {
    pub parent_ino: u64,
    pub name: Seq<u8>,
    pub deadline: u64,
    pub severity: Severity,
    pub parent_rel: PathView,
}

impl View for PendingEvent {
    type V = PendingView;

    open spec fn view(&self) -> PendingView {
        PendingView {
            parent_ino: self.parent_ino,
            name: self.name@,
            deadline: self.deadline,
            severity: self.severity,
            parent_rel: self.parent_rel@,
        }
    }
}

impl PendingView {
    /// Changes of one name in one directory are gathered together.
    pub open spec fn key(self) -> (u64, Seq<u8>) {
        (self.parent_ino, self.name)
    }
}

/// Element-wise view of pending changes.
pub open spec fn pending_view(v: Seq<PendingEvent>) -> Seq<PendingView> {
    v.map_values(|p: PendingEvent| p@)
}

struct WdEntry {
    rel_path: RelPath,
    ino: u64,
}

/// The watched directories and the changes that were seen in them.
pub struct BackingWatcher {
    lru: RecencyMap,
    wd_map: HashMap<i64, WdEntry>,
    debounce: Vec<PendingEvent>,
    debounce_ms: u64,
}

/// What a watcher holds: watched paths with their watch descriptors in order of use, the
/// directory behind each descriptor, the pending changes, and its two limits.
#[verifier::ext_equal]
pub struct WatcherModel {
    pub dirs: Seq<(Seq<u8>, i64)>,
    pub watches: Map<i64, (PathView, u64)>,
    pub pending: Seq<PendingView>,
    pub capacity: nat,
    pub debounce_ms: u64,
}

/// How a path is written in the list of watched paths.
pub open spec fn dir_key(p: PathView) -> Seq<u8> {
    path::spelled(p)
}

/// The first pending change of a name, by position.
pub open spec fn pending_at(pending: Seq<PendingView>, key: (u64, Seq<u8>), i: int) -> bool {
    0 <= i < pending.len() && pending[i].key() == key
}

impl WatcherModel {
    /// No path is watched twice, no more paths are watched than allowed, and no change waits
    /// twice.
    pub open spec fn wf(self) -> bool {
        &&& self.capacity >= 1
        &&& self.dirs.len() <= self.capacity
        &&& lru_map::distinct_keys(self.dirs)
        &&& forall|i: int, j: int|
            0 <= i < j < self.pending.len() ==> (#[trigger] self.pending[i]).key() != (
            #[trigger] self.pending[j]).key()
    }

    /// A watcher that has seen nothing yet.
    pub open spec fn fresh(max_dirs: usize, debounce_ms: u64) -> WatcherModel {
        WatcherModel {
            dirs: Seq::empty(),
            watches: Map::empty(),
            pending: Seq::empty(),
            capacity: if max_dirs == 0 {
                1
            } else {
                max_dirs as nat
            },
            debounce_ms,
        }
    }

    /// The watcher after a directory was touched: a watched one is now the one used last. An
    /// unwatched one needs room, for which the one used longest ago gives way.
    pub open spec fn touched(self, p: PathView) -> WatcherModel {
        if lru_map::holds(self.dirs, dir_key(p)) {
            WatcherModel { dirs: lru_map::refreshed(self.dirs, dir_key(p)), ..self }
        } else if self.dirs.len() >= self.capacity {
            WatcherModel {
                dirs: self.dirs.drop_first(),
                watches: self.watches.remove(self.dirs[0].1),
                ..self
            }
        } else {
            self
        }
    }

    /// The watcher after a watch was set up.
    pub open spec fn watching(self, p: PathView, ino: u64, wd: i64) -> WatcherModel {
        WatcherModel {
            dirs: lru_map::stored(self.dirs, self.capacity, dir_key(p), wd),
            watches: self.watches.insert(wd, (p, ino)),
            ..self
        }
    }

    /// The pending changes after one more event. Within an open window the severity can only
    /// rise and the deadline stays.
    pub open spec fn gathered(
        self,
        dir: (PathView, u64),
        name: Seq<u8>,
        severity: Severity,
        now: u64,
    ) -> Seq<PendingView> {
        let key = (dir.1, name);
        if exists|i: int| #[trigger] pending_at(self.pending, key, i) {
            let i = choose|i: int| #[trigger] pending_at(self.pending, key, i);
            let p = self.pending[i];
            self.pending.update(i, PendingView { severity: p.severity.merged(severity), ..p })
        } else {
            self.pending.push(
                PendingView {
                    parent_ino: dir.1,
                    name,
                    deadline: (now + self.debounce_ms) as u64,
                    severity,
                    parent_rel: dir.0,
                },
            )
        }
    }
}

impl View for BackingWatcher {
    type V = WatcherModel;

    closed spec fn view(&self) -> WatcherModel {
        WatcherModel {
            dirs: self.lru@.entries,
            watches: self.wd_map@.map_values(|e: WdEntry| (e.rel_path@, e.ino)),
            pending: pending_view(self.debounce@),
            capacity: self.lru@.capacity,
            debounce_ms: self.debounce_ms,
        }
    }
}

/// How to reach a directory in order to watch it.
#[derive(Debug, PartialEq, Eq)]
pub enum WatchTarget {
    /// The backing directory itself.
    Root,
    /// A directory below it, by name.
    Dir(Vec<u8>),
    /// The name cannot be expressed; the directory stays unwatched.
    Unusable,
}

/// What a touch calls for.
#[derive(Debug, PartialEq, Eq)]
pub enum TouchStep {
    /// The directory is watched already.
    Known,
    /// Remove the watch that gave way, if any, and set up a new one.
    Watch { evicted: Option<i64>, target: WatchTarget },
}

impl BackingWatcher {
    /// The model is consistent, and the map of watched paths has the watcher's limit.
    pub closed spec fn wf(&self) -> bool {
        self@.wf() && self.lru.wf()
    }

    /// What consistency means for what the watcher holds.
    pub proof fn lemma_wf(&self)
        requires
            self.wf(),
        ensures
            self@.wf(),
    {
    }

    /// A watcher for at most `max_dirs` directories, but at least one.
    pub fn new(max_dirs: usize, debounce_ms: u64) -> (r: Self)
        requires
            max_dirs <= lru_map::MAX_CAPACITY,
        ensures
            r@ == WatcherModel::fresh(max_dirs, debounce_ms),
            r.wf(),
    {
        let capacity: usize = if max_dirs == 0 {
            1
        } else {
            max_dirs
        };
        let r = BackingWatcher {
            lru: RecencyMap::new(capacity),
            wd_map: HashMap::new(),
            debounce: Vec::new(),
            debounce_ms,
        };
        assert(r@ =~= WatcherModel::fresh(max_dirs, debounce_ms));
        r
    }

    /// Marks a directory as used. A directory that is not watched yet makes room for itself
    /// and asks for a watch.
    pub fn touch(&mut self, rel_path: &RelPath) -> (r: TouchStep)
        requires
            old(self).wf(),
        ensures
            final(self).wf(),
            final(self)@ == old(self)@.touched(rel_path@),
            lru_map::holds(old(self)@.dirs, dir_key(rel_path@)) <==> r is Known,
            r matches TouchStep::Watch { evicted, target } ==> {
                &&& final(self)@.dirs.len() < final(self)@.capacity
                &&& !lru_map::holds(final(self)@.dirs, dir_key(rel_path@))
                &&& evicted == (if old(self)@.dirs.len() >= old(self)@.capacity {
                    Some(old(self)@.dirs[0].1)
                } else {
                    None
                })
                &&& match target {
                    WatchTarget::Root => rel_path@ == PathView::empty(),
                    WatchTarget::Dir(name) => rel_path@ != PathView::empty() && name@ == dir_key(
                        rel_path@,
                    ) && util::free_of_nul(name@),
                    WatchTarget::Unusable => rel_path@ != PathView::empty() && !util::free_of_nul(
                        dir_key(rel_path@),
                    ),
                }
            },
    {
        let key = rel_path.to_bytes();
        let ghost start = self@;
        let known = self.lru.get(&key);
        if known.is_some() {
            assert(self@ =~= start.touched(rel_path@));
            return TouchStep::Known;
        }
        assert(self@ =~= start);
        let mut evicted: Option<i64> = None;
        if self.lru.len() >= self.lru.capacity() {
            match self.lru.pop() {
                Some((_, wd)) => {
                    self.wd_map.remove(&wd);
                    evicted = Some(wd);
                    proof {
                        assert(self@.watches =~= start.watches.remove(wd));
                        assert(self@ =~= start.touched(rel_path@));
                        assert forall|i: int| !lru_map::holds_at(self@.dirs, key@, i) by {
                            if lru_map::holds_at(self@.dirs, key@, i) {
                                assert(lru_map::holds_at(start.dirs, key@, i + 1));
                            }
                        }
                    }
                },
                None => {},
            }
        }
        let target = if rel_path.is_root() {
            WatchTarget::Root
        } else {
            match util::path_to_cstring(&key) {
                Some(name) => WatchTarget::Dir(name),
                None => WatchTarget::Unusable,
            }
        };
        TouchStep::Watch { evicted, target }
    }

    /// Records that a directory is watched under descriptor `wd`.
    pub fn watch_added(&mut self, rel_path: &RelPath, ino: u64, wd: i64)
        requires
            old(self).wf(),
        ensures
            final(self).wf(),
            final(self)@ == old(self)@.watching(rel_path@, ino, wd),
    {
        let key = rel_path.to_bytes();
        let ghost start = self@;
        self.lru.put(key, wd);
        self.wd_map.insert(wd, WdEntry { rel_path: rel_path.clone(), ino });
        proof {
            self.lru.lemma_wf();
            assert(self@.watches =~= start.watches.insert(wd, (rel_path@, ino)));
            assert(self@ =~= start.watching(rel_path@, ino, wd));
        }
    }

    /// Takes in one raw event. Events without a name concern a watched directory itself and
    /// are skipped, as are events of a watch that is gone.
    pub fn handle_event(&mut self, wd: i64, name: Option<Vec<u8>>, mask: u32, now: u64)
        requires
            old(self).wf(),
            now + old(self)@.debounce_ms <= u64::MAX,
        ensures
            final(self).wf(),
            final(self)@ == (WatcherModel {
                pending: if name is Some && old(self)@.watches.contains_key(wd) {
                    old(self)@.gathered(
                        old(self)@.watches[wd],
                        name->0@,
                        severity_of(mask),
                        now,
                    )
                } else {
                    old(self)@.pending
                },
                ..old(self)@
            }),
    {
        let ghost start = self@;
        let name = match name {
            Some(name) => name,
            None => {
                return;
            },
        };
        let (parent_rel, parent_ino) = match self.wd_map.get(&wd) {
            Some(entry) => (entry.rel_path.clone(), entry.ino),
            None => {
                return;
            },
        };
        let severity = classify(mask);
        let ghost dir = (parent_rel@, parent_ino);
        let ghost key = (parent_ino, name@);
        assert(start.watches[wd] == dir);
        let mut i: usize = 0;
        while i < self.debounce.len()
            invariant
                i <= self.debounce@.len(),
                self.wf(),
                self@ == start,
                key == (parent_ino, name@),
                dir == (parent_rel@, parent_ino),
                start.watches.contains_key(wd),
                start.watches[wd] == dir,
                severity == severity_of(mask),
                forall|k: int| 0 <= k < i ==> !#[trigger] pending_at(start.pending, key, k),
            ensures
                i <= self.debounce@.len(),
                i < self.debounce@.len() ==> pending_at(start.pending, key, i as int),
                i == self.debounce@.len() ==> forall|k: int| !#[trigger]
                    pending_at(start.pending, key, k),
            decreases self.debounce@.len() - i,
        {
            let p: &PendingEvent = &self.debounce[i];
            assert(start.pending[i as int] == p@);
            if p.parent_ino == parent_ino && text::bytes_eq(&p.name, &name) {
                assert(pending_at(start.pending, key, i as int));
                break;
            }
            assert(!pending_at(start.pending, key, i as int));
            i = i + 1;
        }
        if i < self.debounce.len() {
            proof {
                lemma_pending_position(start, key, i as int);
                assert(start.pending[i as int] == self.debounce@[i as int]@);
            }
            let ghost before = self.debounce@;
            if severity.level() > self.debounce[i].severity.level() {
                let mut p = self.debounce.remove(i);
                p.severity = severity;
                self.debounce.insert(i, p);
            }
            proof {
                assert(self@.pending =~= start.gathered(dir, name@, severity, now));
                assert(forall|k: int|
                    0 <= k < start.pending.len() ==> (#[trigger] self@.pending[k]).key()
                        == start.pending[k].key());
            }
        } else {
            let ghost n = name@;
            let ghost before = self.debounce@;
            self.debounce.push(
                PendingEvent {
                    parent_ino,
                    name,
                    deadline: now + self.debounce_ms,
                    severity,
                    parent_rel,
                },
            );
            proof {
                assert(self@.pending =~= start.gathered(dir, n, severity, now));
                assert forall|a: int, b: int| 0 <= a < b < self@.pending.len() implies (
                #[trigger] self@.pending[a]).key() != (#[trigger] self@.pending[b]).key() by {
                    assert(self@.pending[a] == start.pending[a]);
                    if b < start.pending.len() {
                        assert(self@.pending[b] == start.pending[b]);
                    } else {
                        assert(!pending_at(start.pending, key, a));
                    }
                }
            }
        }
    }

    /// Takes out the changes whose window has closed at `now`.
    pub fn take_expired(&mut self, now: u64) -> (r: Vec<PendingEvent>)
        requires
            old(self).wf(),
        ensures
            final(self).wf(),
            pending_view(r@) == old(self)@.pending.filter(|p: PendingView| p.deadline <= now),
            final(self)@ == (WatcherModel {
                pending: old(self)@.pending.filter(|p: PendingView| p.deadline > now),
                ..old(self)@
            }),
    {
        let ghost start = self@;
        let ghost due = |p: PendingView| p.deadline <= now;
        let ghost open = |p: PendingView| p.deadline > now;
        let mut queue: Vec<PendingEvent> = Vec::new();
        std::mem::swap(&mut queue, &mut self.debounce);
        let ghost all = queue@;
        let mut expired: Vec<PendingEvent> = Vec::new();
        let mut kept: Vec<PendingEvent> = Vec::new();
        let n: usize = queue.len();
        let mut i: usize = 0;
        proof {
            reveal(Seq::filter);
            assert(pending_view(all.take(0)).filter(due) =~= pending_view(expired@));
            assert(pending_view(all.take(0)).filter(open) =~= pending_view(kept@));
            assert(all.skip(0) =~= all);
        }
        while i < n
            invariant
                i <= n,
                n == all.len(),
                queue@ == all.skip(i as int),
                due == (|p: PendingView| p.deadline <= now),
                open == (|p: PendingView| p.deadline > now),
                pending_view(all.take(i as int)).filter(due) == pending_view(expired@),
                pending_view(all.take(i as int)).filter(open) == pending_view(kept@),
            decreases n - i,
        {
            let p = queue.remove(0);
            proof {
                assert(p == all[i as int]);
                assert(queue@ =~= all.skip(i + 1));
                assert(pending_view(all.take(i + 1)) =~= pending_view(all.take(i as int)).push(
                    p@,
                ));
                text::lemma_filter_push(pending_view(all.take(i as int)), p@, due);
                text::lemma_filter_push(pending_view(all.take(i as int)), p@, open);
            }
            if p.deadline <= now {
                let ghost e0 = expired@;
                let ghost pv = p@;
                expired.push(p);
                assert(pending_view(expired@) =~= pending_view(e0).push(pv));
            } else {
                let ghost k0 = kept@;
                let ghost pv = p@;
                kept.push(p);
                assert(pending_view(kept@) =~= pending_view(k0).push(pv));
            }
            i = i + 1;
        }
        proof {
            assert(all.take(n as int) =~= all);
            lemma_filter_distinct(start.pending, open);
        }
        self.debounce = kept;
        expired
    }
}

proof fn lemma_pending_position(m: WatcherModel, key: (u64, Seq<u8>), i: int)
    requires
        m.wf(),
        pending_at(m.pending, key, i),
    ensures
        i == (choose|k: int| #[trigger] pending_at(m.pending, key, k)),
{
    let k = choose|k: int| #[trigger] pending_at(m.pending, key, k);
    if i < k {
        assert(m.pending[i].key() != m.pending[k].key());
    } else if k < i {
        assert(m.pending[k].key() != m.pending[i].key());
    }
}

proof fn lemma_filter_distinct(pending: Seq<PendingView>, keep: spec_fn(PendingView) -> bool)
    requires
        forall|i: int, j: int|
            0 <= i < j < pending.len() ==> (#[trigger] pending[i]).key() != (
            #[trigger] pending[j]).key(),
    ensures
        forall|i: int, j: int|
            0 <= i < j < pending.filter(keep).len() ==> (#[trigger] pending.filter(keep)[i]).key()
                != (#[trigger] pending.filter(keep)[j]).key(),
        forall|i: int|
            0 <= i < pending.filter(keep).len() ==> exists|k: int|
                0 <= k < pending.len() && pending[k] == #[trigger] pending.filter(keep)[i],
    decreases pending.len(),
{
    reveal(Seq::filter);
    if pending.len() > 0 {
        let init = pending.drop_last();
        assert forall|i: int, j: int| 0 <= i < j < init.len() implies (#[trigger] init[i]).key()
            != (#[trigger] init[j]).key() by {
            assert(init[i] == pending[i]);
            assert(init[j] == pending[j]);
        }
        lemma_filter_distinct(init, keep);
        let f = pending.filter(keep);
        let g = init.filter(keep);
        assert forall|i: int| 0 <= i < f.len() implies exists|k: int|
            0 <= k < pending.len() && pending[k] == #[trigger] f[i] by {
            if i < g.len() {
                assert(f[i] == g[i]);
                let k = choose|k: int| 0 <= k < init.len() && init[k] == g[i];
                assert(pending[k] == f[i]);
            } else {
                assert(pending[pending.len() - 1] == f[i]);
            }
        }
        assert forall|i: int, j: int| 0 <= i < j < f.len() implies (#[trigger] f[i]).key() != (
        #[trigger] f[j]).key() by {
            assert(f[i] == g[i]);
            if j < g.len() {
                assert(f[j] == g[j]);
            } else {
                let k = choose|k: int| 0 <= k < init.len() && init[k] == g[i];
                assert(pending[k] == g[i]);
                assert(pending[k].key() != pending[pending.len() - 1].key());
            }
        }
    }
}

/// One thing that the watcher loop can wake up for.
pub enum WatcherInput {
    /// The program shuts down.
    Shutdown,
    /// Time to look for closed windows.
    Tick { now: u64 },
    /// A request, or the end of all requests.
    Request(Option<WatchRequest>),
    /// An event of a watched directory.
    Event { wd: i64, name: Option<Vec<u8>>, mask: u32, now: u64 },
    /// An event could not be read.
    EventError,
    /// There will be no more events.
    EventsEnded,
}

/// What the watcher loop does before it waits again.
pub enum WatcherStep {
    /// Leave the loop.
    Stop,
    /// Wait for the next input.
    Wait,
    /// Dispatch these changes.
    Dispatch(Vec<PendingEvent>),
    /// Remove the watch that gave way, if any, and set one up for a directory.
    AddWatch { rel_path: RelPath, ino: u64, evicted: Option<i64>, target: WatchTarget },
}

/// Where the next input is taken from when several are ready.
#[derive(Clone, Copy, Debug, PartialEq, Eq, Structural)]
pub enum WatcherSource {
    Shutdown,
    Tick,
    Request,
    Event,
    Nothing,
}

/// A shutdown comes before everything, a tick before requests, requests before events.
pub fn next_source(shutdown: bool, tick: bool, request: bool, event: bool) -> (r: WatcherSource)
    ensures
        r == (if shutdown {
            WatcherSource::Shutdown
        } else if tick {
            WatcherSource::Tick
        } else if request {
            WatcherSource::Request
        } else if event {
            WatcherSource::Event
        } else {
            WatcherSource::Nothing
        }),
{
    if shutdown {
        WatcherSource::Shutdown
    } else if tick {
        WatcherSource::Tick
    } else if request {
        WatcherSource::Request
    } else if event {
        WatcherSource::Event
    } else {
        WatcherSource::Nothing
    }
}

impl WatcherInput {
    /// Whether the loop ends here.
    pub open spec fn ends(self) -> bool {
        ||| self is Shutdown
        ||| self is EventsEnded
        ||| self matches WatcherInput::Request(None)
    }
}

impl BackingWatcher {
    /// One round of the watcher loop.
    pub fn step(&mut self, input: WatcherInput) -> (r: WatcherStep)
        requires
            old(self).wf(),
            input matches WatcherInput::Event { now, .. } ==> now + old(self)@.debounce_ms
                <= u64::MAX,
        ensures
            final(self).wf(),
            input.ends() <==> r is Stop,
            match input {
                WatcherInput::Tick { now } => {
                    &&& r matches WatcherStep::Dispatch(due) && pending_view(due@) == old(
                        self,
                    )@.pending.filter(|p: PendingView| p.deadline <= now)
                    &&& final(self)@ == (WatcherModel {
                        pending: old(self)@.pending.filter(|p: PendingView| p.deadline > now),
                        ..old(self)@
                    })
                },
                WatcherInput::Request(Some(WatchRequest::Touch { rel_path, ino })) => {
                    &&& final(self)@ == old(self)@.touched(rel_path@)
                    &&& if lru_map::holds(old(self)@.dirs, dir_key(rel_path@)) {
                        r is Wait
                    } else {
                        r matches WatcherStep::AddWatch {
                            rel_path: p,
                            ino: i,
                            evicted,
                            target,
                        } && p@ == rel_path@ && i == ino && evicted == (if old(self)@.dirs.len()
                            >= old(self)@.capacity {
                            Some(old(self)@.dirs[0].1)
                        } else {
                            None
                        }) && (target is Root <==> rel_path@ == PathView::empty()) && (target
                            is Unusable <==> rel_path@ != PathView::empty() && !util::free_of_nul(
                            dir_key(rel_path@),
                        )) && (target matches WatchTarget::Dir(name) ==> name@ == dir_key(
                            rel_path@,
                        ))
                    }
                },
                WatcherInput::Event { wd, name, mask, now } => {
                    &&& r is Wait
                    &&& final(self)@ == (WatcherModel {
                        pending: if name is Some && old(self)@.watches.contains_key(wd) {
                            old(self)@.gathered(
                                old(self)@.watches[wd],
                                name->0@,
                                severity_of(mask),
                                now,
                            )
                        } else {
                            old(self)@.pending
                        },
                        ..old(self)@
                    })
                },
                WatcherInput::EventError => r is Wait && final(self)@ == old(self)@,
                _ => final(self)@ == old(self)@,
            },
    {
        match input {
            WatcherInput::Shutdown => WatcherStep::Stop,
            WatcherInput::EventsEnded => WatcherStep::Stop,
            WatcherInput::EventError => WatcherStep::Wait,
            WatcherInput::Tick { now } => WatcherStep::Dispatch(self.take_expired(now)),
            WatcherInput::Request(None) => WatcherStep::Stop,
            WatcherInput::Request(Some(WatchRequest::Touch { rel_path, ino })) => {
                match self.touch(&rel_path) {
                    TouchStep::Known => WatcherStep::Wait,
                    TouchStep::Watch { evicted, target } => WatcherStep::AddWatch {
                        rel_path,
                        ino,
                        evicted,
                        target,
                    },
                }
            },
            WatcherInput::Event { wd, name, mask, now } => {
                self.handle_event(wd, name, mask, now);
                WatcherStep::Wait
            },
        }
    }
}

/// A change as it is reported.
pub struct ChangeReport {
    pub path: RelPath,
    pub kind: &'static str,
    pub action: &'static str,
}

/// The file that a change concerns.
pub fn changed_path(change: &PendingEvent) -> (r: RelPath)
    ensures
        r@ == path::joined(change.parent_rel@, change.name@),
{
    change.parent_rel.join(&change.name)
}

/// Reacts to a change, after the kernel was told of it: a cached file has its copies aborted
/// and is queued for validation.
pub fn dispatch(st: &mut PipelineState, change: &PendingEvent, is_cached: bool, now: u64) -> (r:
    ChangeReport)
    requires
        old(st)@.wf(),
    ensures
        final(st)@.wf(),
        r.path@ == path::joined(change.parent_rel@, change.name@),
        r.kind@ == (match change.severity {
            Severity::Delete => "delete"@,
            Severity::Modify => "modify"@,
            Severity::Attr => "attr"@,
            Severity::CreateOrMovedIn => "create"@,
        }),
        r.action@ == (if is_cached {
            "kernel_notified_validation_queued"@
        } else {
            "kernel_notified"@
        }),
        final(st)@ == (if is_cached {
            validation_requested(old(st)@.aborting(r.path@), r.path@, now)
        } else {
            old(st)@
        }),
{
    let child = changed_path(change);
    let action = if is_cached {
        st.mark_abort(&child);
        st.submit_job(&child, CacheJobKind::Validate, is_cached, now);
        "kernel_notified_validation_queued"
    } else {
        "kernel_notified"
    };
    ChangeReport { path: child, kind: change.severity.kind_str(), action }
}

/// The pipeline after a validation of `p` was submitted.
pub open spec fn validation_requested(m: PipelineModel, p: PathView, now: u64) -> PipelineModel {
    if m.known.contains_key((p, CacheJobKind::Validate)) {
        m
    } else {
        m.with_job(JobView { path: p, kind: CacheJobKind::Validate, ts: now })
    }
}

/// Within a window the deadline stays where the first event put it, and the severity is the
/// highest seen: windows do not slide.
pub proof fn law_window_is_fixed(
    m: WatcherModel,
    dir: (PathView, u64),
    name: Seq<u8>,
    severity: Severity,
    now: u64,
    i: int,
)
    requires
        m.wf(),
        pending_at(m.pending, (dir.1, name), i),
    ensures
        m.gathered(dir, name, severity, now).len() == m.pending.len(),
        m.gathered(dir, name, severity, now)[i].deadline == m.pending[i].deadline,
        m.gathered(dir, name, severity, now)[i].severity.rank() >= m.pending[i].severity.rank(),
        m.gathered(dir, name, severity, now)[i].severity.rank() >= severity.rank(),
        forall|k: int|
            0 <= k < m.pending.len() && k != i ==> m.gathered(dir, name, severity, now)[k]
                == #[trigger] m.pending[k],
{
    lemma_pending_position(m, (dir.1, name), i);
}

/// Once touched, a watched directory is the last to give way.
pub proof fn law_touched_is_last_to_give_way(m: WatcherModel, p: PathView)
    requires
        m.wf(),
        lru_map::holds(m.dirs, dir_key(p)),
    ensures
        m.touched(p).dirs.len() == m.dirs.len(),
        m.touched(p).dirs.last().0 == dir_key(p),
{
    let i = choose|i: int| lru_map::holds_at(m.dirs, dir_key(p), i);
    assert(lru_map::holds_at(m.dirs, dir_key(p), i));
}

/// Touching a watched directory again changes nothing more.
pub proof fn law_touch_is_idempotent(m: WatcherModel, p: PathView)
    requires
        m.wf(),
        lru_map::holds(m.dirs, dir_key(p)),
    ensures
        lru_map::holds(m.touched(p).dirs, dir_key(p)),
        m.touched(p).touched(p) == m.touched(p),
{
    let key = dir_key(p);
    let i = choose|i: int| lru_map::holds_at(m.dirs, key, i);
    assert(lru_map::holds_at(m.dirs, key, i));
    let once = m.touched(p);
    let n = once.dirs.len() - 1;
    assert(once.dirs == m.dirs.remove(i).push(m.dirs[i]));
    assert(lru_map::holds_at(once.dirs, key, n));
    let j = choose|j: int| lru_map::holds_at(once.dirs, key, j);
    if j != n {
        let k = if j < i {
            j
        } else {
            j + 1
        };
        assert(once.dirs[j] == m.dirs[k]);
        assert(m.dirs[k].0 == m.dirs[i].0);
    }
    assert(once.dirs.remove(n).push(once.dirs[n]) =~= once.dirs);
}

/// Touching a directory that is not watched and then watching it never exceeds the limit, and
/// nothing else gives way on the second step.
pub proof fn law_watches_are_bounded(m: WatcherModel, p: PathView, ino: u64, wd: i64)
    requires
        m.wf(),
        !lru_map::holds(m.dirs, dir_key(p)),
    ensures
        m.touched(p).watching(p, ino, wd).dirs.len() <= m.capacity,
        m.touched(p).watching(p, ino, wd).dirs == m.touched(p).dirs.push((dir_key(p), wd)),
{
    let t = m.touched(p);
    if lru_map::holds(t.dirs, dir_key(p)) {
        let i = choose|i: int| lru_map::holds_at(t.dirs, dir_key(p), i);
        assert(lru_map::holds_at(m.dirs, dir_key(p), i + 1) || lru_map::holds_at(
            m.dirs,
            dir_key(p),
            i,
        ));
    }
}

/// Each kind of event outranks the ones below it, whatever else the mask holds.
pub proof fn law_severity_order(mask: u32)
    ensures
        mask & IN_DELETE != 0 ==> severity_of(mask) == Severity::Delete,
        mask & IN_MOVED_FROM != 0 ==> severity_of(mask) == Severity::Delete,
        mask & IN_MODIFY != 0 ==> severity_of(mask).rank() >= Severity::Modify.rank(),
        mask & IN_ATTRIB != 0 ==> severity_of(mask).rank() >= Severity::Attr.rank(),
{
}

/// The severity of an event by the bits of its mask: deleting (0x200) and moving away (0x40) come
/// first, then a change of content (0x2), then one of metadata (0x4); everything else adds a name.
pub proof fn law_severity_by_bits(mask: u32)
    ensures
        severity_of(mask) == Severity::Delete <==> mask & 0x200 != 0 || mask & 0x40 != 0,
        mask & 0x200 == 0 && mask & 0x40 == 0 && mask & 0x2 != 0 ==> severity_of(mask)
            == Severity::Modify,
        mask & 0x200 == 0 && mask & 0x40 == 0 && mask & 0x2 == 0 && mask & 0x4 != 0
            ==> severity_of(mask) == Severity::Attr,
        severity_of(mask) == Severity::CreateOrMovedIn <==> mask & 0x200 == 0 && mask & 0x40 == 0
            && mask & 0x2 == 0 && mask & 0x4 == 0,
        IN_MOVED_TO == 0x80 && IN_CREATE == 0x100,
{
}

/// Of two severities the merged one is the more severe: a deletion outranks everything, then
/// comes a change of content, then one of metadata. Merging does not depend on the order.
pub proof fn law_merging_takes_the_more_severe(a: Severity, b: Severity)
    ensures
        a.merged(b) == a || a.merged(b) == b,
        a.merged(b) == b.merged(a),
        a.merged(b) == Severity::Delete <==> a == Severity::Delete || b == Severity::Delete,
        a.merged(b) == Severity::CreateOrMovedIn <==> a == Severity::CreateOrMovedIn && b
            == Severity::CreateOrMovedIn,
        a == Severity::Modify && b == Severity::Attr ==> a.merged(b) == Severity::Modify,
{
}

/// The first event on a name waits as long as the window from its own time on, with its own
/// severity, behind the changes that wait already; those stay as they are.
pub proof fn law_first_event_opens_a_window(
    m: WatcherModel,
    dir: (PathView, u64),
    name: Seq<u8>,
    severity: Severity,
    now: u64,
)
    requires
        now + m.debounce_ms <= u64::MAX,
        forall|i: int|
            0 <= i < m.pending.len() ==> (#[trigger] m.pending[i]).parent_ino != dir.1
                || m.pending[i].name != name,
    ensures
        ({
            let after = m.gathered(dir, name, severity, now);
            &&& after.len() == m.pending.len() + 1
            &&& after.drop_last() == m.pending
            &&& after.last().deadline == now + m.debounce_ms
            &&& after.last().severity == severity
            &&& after.last().name == name
            &&& after.last().parent_ino == dir.1
            &&& after.last().parent_rel == dir.0
        }),
{
    let key = (dir.1, name);
    assert forall|i: int| !#[trigger] pending_at(m.pending, key, i) by {
        if 0 <= i < m.pending.len() {
            assert(m.pending[i].key() == (m.pending[i].parent_ino, m.pending[i].name));
        }
    }
    assert(m.gathered(dir, name, severity, now).drop_last() =~= m.pending);
}

/// A further event on a name that waits keeps its place and its deadline and leaves it with the
/// more severe of the two; all other changes stay as they are.
pub proof fn law_further_event_only_raises_severity(
    m: WatcherModel,
    dir: (PathView, u64),
    name: Seq<u8>,
    severity: Severity,
    now: u64,
    i: int,
)
    requires
        m.wf(),
        0 <= i < m.pending.len(),
        m.pending[i].parent_ino == dir.1,
        m.pending[i].name == name,
    ensures
        m.gathered(dir, name, severity, now) == m.pending.update(
            i,
            PendingView {
                severity: m.pending[i].severity.merged(severity),
                ..m.pending[i]
            },
        ),
{
    assert(pending_at(m.pending, (dir.1, name), i));
    lemma_pending_position(m, (dir.1, name), i);
}

/// Touching a directory that is not watched makes room for it where the limit is reached: the one
/// touched longest ago gives way, with its descriptor, and no other. Below the limit nothing
/// changes.
pub proof fn law_oldest_watch_gives_way(m: WatcherModel, p: PathView, i: int, wd: i64)
    requires
        m.wf(),
        forall|k: int| 0 <= k < m.dirs.len() ==> (#[trigger] m.dirs[k]).0 != dir_key(p),
    ensures
        m.dirs.len() < m.capacity ==> m.touched(p) == m,
        m.dirs.len() >= m.capacity ==> {
            let after = m.touched(p);
            &&& after.dirs.len() == m.dirs.len() - 1
            &&& 1 <= i < m.dirs.len() ==> after.dirs[i - 1] == m.dirs[i]
            &&& !after.watches.contains_key(m.dirs[0].1)
            &&& wd != m.dirs[0].1 ==> (after.watches.contains_key(wd) <==> m.watches.contains_key(
                wd,
            )) && (m.watches.contains_key(wd) ==> after.watches[wd] == m.watches[wd])
        },
        m.touched(p).pending == m.pending,
{
    assert forall|k: int| !#[trigger] lru_map::holds_at(m.dirs, dir_key(p), k) by {}
}

/// A watch that was set up is the one used last, stands for its directory and inode, and leaves
/// other watches as they are.
pub proof fn law_new_watch_is_used_last(m: WatcherModel, p: PathView, ino: u64, wd: i64, other: i64)
    requires
        m.wf(),
        other != wd,
    ensures
        m.watching(p, ino, wd).dirs.last() == (dir_key(p), wd),
        m.watching(p, ino, wd).watches.contains_key(wd),
        m.watching(p, ino, wd).watches[wd] == (p, ino),
        m.watching(p, ino, wd).watches.contains_key(other) <==> m.watches.contains_key(other),
        m.watches.contains_key(other) ==> m.watching(p, ino, wd).watches[other]
            == m.watches[other],
        m.watching(p, ino, wd).pending == m.pending,
        m.watching(p, ino, wd).capacity == m.capacity,
        m.watching(p, ino, wd).debounce_ms == m.debounce_ms,
{
}

/// A watcher begins with nothing, room for at least one directory, and the window that it is
/// given.
pub proof fn law_fresh_watcher(max_dirs: usize, debounce_ms: u64)
    ensures
        WatcherModel::fresh(max_dirs, debounce_ms).dirs.len() == 0,
        WatcherModel::fresh(max_dirs, debounce_ms).pending.len() == 0,
        WatcherModel::fresh(max_dirs, debounce_ms).debounce_ms == debounce_ms,
        max_dirs > 0 ==> WatcherModel::fresh(max_dirs, debounce_ms).capacity == max_dirs,
        max_dirs == 0 ==> WatcherModel::fresh(max_dirs, debounce_ms).capacity == 1,
{
}

/// The loop ends exactly on a shutdown, when requests end or when events end.
pub proof fn law_loop_ends(input: WatcherInput)
    ensures
        input.ends() <==> (input is Shutdown || input is EventsEnded || (input matches
            WatcherInput::Request(request) && request is None)),
{
}

/// A change of a cached file leaves its validation known and all its copies in flight told to
/// abort; a validation that is not known yet is queued last, at the time of the change.
pub proof fn law_changed_files_are_validated(m: PipelineModel, p: PathView, now: u64, kind: CacheJobKind)
    requires
        m.wf(),
    ensures
        ({
            let after = validation_requested(m.aborting(p), p, now);
            &&& after.known.contains_key((p, CacheJobKind::Validate))
            &&& kind != CacheJobKind::Validate && m.known.contains_key((p, kind)) && m.known[(
                p,
                kind,
            )] is Some ==> (after.known[(p, kind)] matches Some(control) && control.abort)
            &&& m.known.contains_key((p, CacheJobKind::Validate)) ==> after.queue == m.queue
            &&& !m.known.contains_key((p, CacheJobKind::Validate)) ==> after.queue == m.queue.push(
                JobView { path: p, kind: CacheJobKind::Validate, ts: now },
            )
        }),
{
}

} // verus!
