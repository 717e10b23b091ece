//! All pending and in-flight cache work: queueing, expiry, dispatch and the course of a job.

use crate::path;
use crate::path::{PathView, RelPath};
use crate::path_map::PathMap;
use std::collections::VecDeque;
use vstd::prelude::*;

verus! {

pub struct CacheIoConfig {
    /// Maximum number of copies from the backing store that run at once.
    pub max_concurrent_copies: usize,
    /// How often the autonomous eviction worker runs (seconds). 0 disables it.
    pub eviction_interval_secs: u64,
    /// Deferred jobs older than this many minutes are discarded on startup and during the
    /// expiry sweep. 0 keeps them forever.
    pub deferred_ttl_minutes: u64,
}

/// Coordination between one in-flight copy and the backing watcher, which sets `abort` when
/// the source changes under the copy.
#[derive(Clone, Copy, Debug, PartialEq, Eq, Structural)]
pub struct CopyControl {
    pub abort: bool,
}

#[derive(Debug, Clone, Copy, PartialEq, Eq, Hash, Structural)]
pub enum CacheJobKind {
    Populate,
    Validate,
    Replace,
}

/// One piece of work.
#[derive(Debug, PartialEq, Eq)]
pub struct CacheJob {
    pub rel_path: RelPath,
    pub kind: CacheJobKind,
    /// Seconds since the Unix epoch.
    pub enqueue_ts: u64,
}

/// View of a job.
pub struct JobView {
    pub path: PathView,
    pub kind: CacheJobKind,
    pub ts: u64,
}

/// What a job is known by: validation of a file does not suppress its replacement.
pub type JobKey = (PathView, CacheJobKind);

impl JobView {
    pub open spec fn key(self) -> JobKey {
        (self.path, self.kind)
    }
}

impl View for CacheJob {
    type V = JobView;

    open spec fn view(&self) -> JobView {
        JobView { path: self.rel_path@, kind: self.kind, ts: self.enqueue_ts }
    }
}

/// Element-wise view of a queue.
pub open spec fn jobs_view(v: Seq<CacheJob>) -> Seq<JobView> {
    v.map_values(|j: CacheJob| j@)
}

/// Single source of truth for all pending and in-flight cache work.
///
/// The queue is a FIFO of jobs that wait to be dispatched. Every job that is queued or in
/// flight is known, which keeps it from being submitted twice; it stops being known only
/// when its worker finishes. An in-flight copy has a control, a queued job has none.
pub struct PipelineState {
    queue: VecDeque<CacheJob>,
    populate: PathMap<Option<CopyControl>>,
    validate: PathMap<Option<CopyControl>>,
    replace: PathMap<Option<CopyControl>>,
}

/// What the pipeline holds.
#[verifier::ext_equal]
pub struct PipelineModel {
    pub queue: Seq<JobView>,
    pub known: Map<JobKey, Option<CopyControl>>,
}

/// The keys of some jobs.
pub open spec fn keys_of(jobs: Seq<JobView>) -> Set<JobKey> {
    Set::new(|k: JobKey| exists|i: int| 0 <= i < jobs.len() && (#[trigger] jobs[i]).key() == k)
}

/// The number of leading jobs that were queued before `cutoff`.
pub open spec fn stale_count(queue: Seq<JobView>, cutoff: u64) -> nat
    decreases queue.len(),
{
    if queue.len() == 0 || queue[0].ts >= cutoff {
        0
    } else {
        1 + stale_count(queue.skip(1), cutoff)
    }
}

/// The paths of the populate jobs, in order.
pub open spec fn populate_paths(jobs: Seq<JobView>) -> Seq<PathView>
    decreases jobs.len(),
{
    if jobs.len() == 0 {
        Seq::empty()
    } else {
        let before = populate_paths(jobs.drop_last());
        if jobs.last().kind == CacheJobKind::Populate {
            before.push(jobs.last().path)
        } else {
            before
        }
    }
}

/// The position of the first validation job at or behind `i`.
pub open spec fn first_validation(queue: Seq<JobView>, i: int) -> Option<int>
    decreases queue.len() - i,
{
    if i < 0 || i >= queue.len() {
        None
    } else if queue[i].kind == CacheJobKind::Validate {
        Some(i)
    } else {
        first_validation(queue, i + 1)
    }
}

/// The position of the job to dispatch next: the front while copies are allowed, else the
/// first validation.
pub open spec fn next_index(queue: Seq<JobView>, copy_allowed: bool) -> Option<int> {
    if copy_allowed {
        if queue.len() > 0 {
            Some(0)
        } else {
            None
        }
    } else {
        first_validation(queue, 0)
    }
}

impl PipelineModel {
    /// No job is queued twice, and every queued job is known.
    pub open spec fn wf(self) -> bool {
        &&& forall|i: int, j: int|
            0 <= i < j < self.queue.len() ==> (#[trigger] self.queue[i]).key() != (
            #[trigger] self.queue[j]).key()
        &&& forall|i: int|
            0 <= i < self.queue.len() ==> self.known.contains_key((#[trigger] self.queue[i]).key())
    }

    /// Whether a job with this key waits in the queue.
    pub open spec fn queued(self, key: JobKey) -> bool {
        keys_of(self.queue).contains(key)
    }

    /// The pipeline with one more queued job.
    pub open spec fn with_job(self, job: JobView) -> PipelineModel {
        PipelineModel { queue: self.queue.push(job), known: self.known.insert(job.key(), None) }
    }

    /// The pipeline with jobs that were queued before `cutoff` taken off the front.
    pub open spec fn without_stale(self, cutoff: u64) -> PipelineModel {
        let n = stale_count(self.queue, cutoff) as int;
        PipelineModel {
            queue: self.queue.skip(n),
            known: self.known.remove_keys(keys_of(self.queue.take(n))),
        }
    }

    /// The pipeline with the job at position `i` dispatched.
    pub open spec fn popped(self, i: int) -> PipelineModel {
        PipelineModel { queue: self.queue.remove(i), known: self.known }
    }

    /// The pipeline with a dispatched copy given its control.
    pub open spec fn promoted(self, key: JobKey) -> PipelineModel {
        PipelineModel {
            queue: self.queue,
            known: self.known.insert(key, Some(CopyControl { abort: false })),
        }
    }

    /// The pipeline with a dispatched job ended.
    pub open spec fn finished(self, key: JobKey) -> PipelineModel {
        PipelineModel { queue: self.queue, known: self.known.remove(key) }
    }

    /// The state after acting on a validation: a file whose source has changed is queued for
    /// replacement, unless its replacement is known already.
    pub open spec fn validated(self, p: PathView, result: StaleResult, now: u64) -> PipelineModel {
        if result == StaleResult::Stale && !self.known.contains_key((p, CacheJobKind::Replace)) {
            self.with_job(JobView { path: p, kind: CacheJobKind::Replace, ts: now })
        } else {
            self
        }
    }

    /// The pipeline with a validation of each path queued, where none is known yet.
    pub open spec fn with_validations(self, paths: Seq<PathView>, ts: u64) -> PipelineModel
        decreases paths.len(),
    {
        if paths.len() == 0 {
            self
        } else {
            let before = self.with_validations(paths.drop_last(), ts);
            let job = JobView { path: paths.last(), kind: CacheJobKind::Validate, ts };
            if before.known.contains_key(job.key()) {
                before
            } else {
                before.with_job(job)
            }
        }
    }

    /// Whether jobs wait in the order in which they were queued.
    pub open spec fn in_order(self) -> bool {
        forall|i: int, j: int|
            0 <= i <= j < self.queue.len() ==> (#[trigger] self.queue[i]).ts <= (
            #[trigger] self.queue[j]).ts
    }

    /// The pipeline with every in-flight copy of `p` told to abort.
    pub open spec fn aborting(self, p: PathView) -> PipelineModel {
        PipelineModel {
            queue: self.queue,
            known: Map::new(
                |k: JobKey| self.known.contains_key(k),
                |k: JobKey|
                    if k.0 == p && k.1 != CacheJobKind::Validate && self.known[k] is Some {
                        Some(CopyControl { abort: true })
                    } else {
                        self.known[k]
                    },
            ),
        }
    }

    /// The restored pipeline after reading `jobs`: each path is taken over once.
    pub open spec fn restored(jobs: Seq<(PathView, u64)>) -> PipelineModel
        decreases jobs.len(),
    {
        if jobs.len() == 0 {
            PipelineModel { queue: Seq::empty(), known: Map::empty() }
        } else {
            let before = PipelineModel::restored(jobs.drop_last());
            let (p, ts) = jobs.last();
            if before.known.contains_key((p, CacheJobKind::Populate)) {
                before
            } else {
                before.with_job(JobView { path: p, kind: CacheJobKind::Populate, ts })
            }
        }
    }
}

impl View for PipelineState {
    type V = PipelineModel;

    closed spec fn view(&self) -> PipelineModel {
        PipelineModel {
            queue: jobs_view(self.queue@),
            known: Map::new(
                |k: JobKey| self.known_of(k.1).contains_key(k.0),
                |k: JobKey| self.known_of(k.1)[k.0],
            ),
        }
    }
}

/// What became of a submission.
#[derive(Clone, Copy, Debug, PartialEq, Eq, Structural)]
pub enum SubmitOutcome {
    /// The file is cached already; nothing is queued.
    AlreadyCached,
    /// The job is queued or in flight already; nothing is queued.
    AlreadyKnown,
    /// The job was queued, and the queue now has this length. Only populate jobs are
    /// persisted across a restart.
    Queued { len: usize, persist: bool },
}

impl PipelineState {
    spec fn known_of(&self, kind: CacheJobKind) -> Map<PathView, Option<CopyControl>> {
        match kind {
            CacheJobKind::Populate => self.populate@,
            CacheJobKind::Validate => self.validate@,
            CacheJobKind::Replace => self.replace@,
        }
    }

    /// An empty pipeline.
    pub fn new() -> (r: Self)
        ensures
            r@.wf(),
            r@ == PipelineModel::restored(Seq::empty()),
    {
        let r = PipelineState {
            queue: VecDeque::new(),
            populate: PathMap::new(),
            validate: PathMap::new(),
            replace: PathMap::new(),
        };
        assert(r@ =~= PipelineModel::restored(Seq::empty()));
        r
    }

    fn get_known(&self, p: &RelPath, kind: CacheJobKind) -> (r: Option<Option<CopyControl>>)
        ensures
            r == (if self@.known.contains_key((p@, kind)) {
                Some(self@.known[(p@, kind)])
            } else {
                None
            }),
    {
        let entry = match kind {
            CacheJobKind::Populate => self.populate.get(p),
            CacheJobKind::Validate => self.validate.get(p),
            CacheJobKind::Replace => self.replace.get(p),
        };
        match entry {
            Some(control) => Some(*control),
            None => None,
        }
    }

    fn set_known(&mut self, p: &RelPath, kind: CacheJobKind, control: Option<CopyControl>)
        ensures
            final(self)@.queue == old(self)@.queue,
            final(self)@.known == old(self)@.known.insert((p@, kind), control),
    {
        match kind {
            CacheJobKind::Populate => {
                self.populate.insert(p.clone(), control);
            },
            CacheJobKind::Validate => {
                self.validate.insert(p.clone(), control);
            },
            CacheJobKind::Replace => {
                self.replace.insert(p.clone(), control);
            },
        }
        assert(self@.known =~= old(self)@.known.insert((p@, kind), control));
    }

    fn unset_known(&mut self, p: &RelPath, kind: CacheJobKind)
        ensures
            final(self)@.queue == old(self)@.queue,
            final(self)@.known == old(self)@.known.remove((p@, kind)),
    {
        match kind {
            CacheJobKind::Populate => {
                self.populate.remove(p);
            },
            CacheJobKind::Validate => {
                self.validate.remove(p);
            },
            CacheJobKind::Replace => {
                self.replace.remove(p);
            },
        }
        assert(self@.known =~= old(self)@.known.remove((p@, kind)));
    }

    fn enqueue(&mut self, job: CacheJob)
        requires
            old(self)@.wf(),
            !old(self)@.known.contains_key(job@.key()),
        ensures
            final(self)@ == old(self)@.with_job(job@),
            final(self)@.wf(),
    {
        self.set_known(&job.rel_path, job.kind, None);
        let ghost known = self@.known;
        let ghost j = job@;
        self.queue.push_back(job);
        proof {
            assert(self@.queue =~= old(self)@.queue.push(j));
            assert(self@.known =~= known);
            let m = self@;
            assert forall|a: int, b: int| 0 <= a < b < m.queue.len() implies (
            #[trigger] m.queue[a]).key() != (#[trigger] m.queue[b]).key() by {
                assert(m.queue[a] == old(self)@.queue[a]);
                if b < old(self)@.queue.len() {
                    assert(m.queue[b] == old(self)@.queue[b]);
                }
            }
            assert forall|a: int| 0 <= a < m.queue.len() implies m.known.contains_key(
                (#[trigger] m.queue[a]).key(),
            ) by {
                if a < old(self)@.queue.len() {
                    assert(m.queue[a] == old(self)@.queue[a]);
                }
            }
        }
    }

    /// Number of waiting jobs.
    pub fn queue_len(&self) -> (r: usize)
        ensures
            r == self@.queue.len(),
    {
        self.queue.len()
    }

    /// Whether a job waits in the queue.
    pub fn is_queued(&self, p: &RelPath, kind: CacheJobKind) -> (r: bool)
        ensures
            r == self@.queued((p@, kind)),
    {
        let mut i: usize = 0;
        while i < self.queue.len()
            invariant
                i <= self.queue@.len(),
                forall|k: int| 0 <= k < i ==> (#[trigger] self@.queue[k]).key() != (p@, kind),
            decreases self.queue@.len() - i,
        {
            let job: &CacheJob = &self.queue[i];
            assert(self@.queue[i as int] == job@);
            if job.kind == kind && job.rel_path.same_as(p) {
                assert(self@.queue[i as int].key() == (p@, kind));
                return true;
            }
            i = i + 1;
        }
        false
    }

    /// Restores the populate jobs that an earlier run left behind, as `(path, enqueue time)`
    /// in order. A path that occurs again is skipped.
    pub fn restore(loaded: &Vec<(RelPath, u64)>) -> (r: Self)
        ensures
            r@.wf(),
            r@ == PipelineModel::restored(loaded@.map_values(|e: (RelPath, u64)| (e.0@, e.1))),
    {
        let mut st = PipelineState::new();
        let ghost all = loaded@.map_values(|e: (RelPath, u64)| (e.0@, e.1));
        let mut i: usize = 0;
        assert(all.take(0) =~= Seq::<(PathView, u64)>::empty());
        while i < loaded.len()
            invariant
                i <= loaded.len(),
                all == loaded@.map_values(|e: (RelPath, u64)| (e.0@, e.1)),
                st@.wf(),
                st@ == PipelineModel::restored(all.take(i as int)),
            decreases loaded.len() - i,
        {
            let entry: &(RelPath, u64) = &loaded[i];
            proof {
                assert(all.take(i + 1).drop_last() =~= all.take(i as int));
                assert(all.take(i + 1).last() == (entry.0@, entry.1));
            }
            if st.get_known(&entry.0, CacheJobKind::Populate).is_none() {
                st.enqueue(
                    CacheJob {
                        rel_path: entry.0.clone(),
                        kind: CacheJobKind::Populate,
                        enqueue_ts: entry.1,
                    },
                );
            }
            i = i + 1;
        }
        assert(all.take(all.len() as int) =~= all);
        st
    }

    /// Submits a job at time `now`. Every job is queued, whatever the caching window: a file
    /// that is cached needs no populating, and a job that is queued or in flight is not
    /// queued again.
    pub fn submit_job(&mut self, rel_path: &RelPath, kind: CacheJobKind, is_cached: bool, now: u64)
        -> (r: SubmitOutcome)
        requires
            old(self)@.wf(),
        ensures
            final(self)@.wf(),
            ({
                let key = (rel_path@, kind);
                if kind == CacheJobKind::Populate && is_cached {
                    r == SubmitOutcome::AlreadyCached && final(self)@ == old(self)@
                } else if old(self)@.known.contains_key(key) {
                    r == SubmitOutcome::AlreadyKnown && final(self)@ == old(self)@
                } else {
                    &&& final(self)@ == old(self)@.with_job(
                        JobView { path: rel_path@, kind, ts: now },
                    )
                    &&& r matches SubmitOutcome::Queued { len, persist } && len
                        == final(self)@.queue.len() && persist == (kind == CacheJobKind::Populate)
                }
            }),
    {
        if kind == CacheJobKind::Populate && is_cached {
            return SubmitOutcome::AlreadyCached;
        }
        if self.get_known(rel_path, kind).is_some() {
            return SubmitOutcome::AlreadyKnown;
        }
        self.enqueue(CacheJob { rel_path: rel_path.clone(), kind, enqueue_ts: now });
        SubmitOutcome::Queued {
            len: self.queue.len(),
            persist: kind == CacheJobKind::Populate,
        }
    }

    /// Submits a validation of every file in the records at time `now`. Returns how many were queued.
    pub fn submit_maintenance_validation(&mut self, recorded: &Vec<RelPath>, now: u64) -> (r: usize)
        requires
            old(self)@.wf(),
        ensures
            final(self)@.wf(),
            final(self)@ == old(self)@.with_validations(path::paths_view(recorded@), now),
            r == final(self)@.queue.len() - old(self)@.queue.len(),
    {
        let ghost paths = path::paths_view(recorded@);
        let mut queued: usize = 0;
        let mut i: usize = 0;
        assert(paths.take(0) =~= Seq::<PathView>::empty());
        while i < recorded.len()
            invariant
                i <= recorded@.len(),
                queued <= i,
                paths == path::paths_view(recorded@),
                self@.wf(),
                self@ == old(self)@.with_validations(paths.take(i as int), now),
                queued == self@.queue.len() - old(self)@.queue.len(),
            decreases recorded.len() - i,
        {
            proof {
                assert(paths.take(i + 1).drop_last() =~= paths.take(i as int));
                assert(paths.take(i + 1).last() == recorded@[i as int]@);
            }
            match self.submit_job(&recorded[i], CacheJobKind::Validate, true, now) {
                SubmitOutcome::Queued { .. } => {
                    queued = queued + 1;
                },
                _ => {},
            }
            i = i + 1;
        }
        assert(paths.take(paths.len() as int) =~= paths);
        queued
    }

    /// Tells in-flight copies of `rel_path` to abort before they commit. Queued jobs and
    /// validations are not affected.
    pub fn mark_abort(&mut self, rel_path: &RelPath)
        requires
            old(self)@.wf(),
        ensures
            final(self)@.wf(),
            final(self)@ == old(self)@.aborting(rel_path@),
    {
        match self.get_known(rel_path, CacheJobKind::Populate) {
            Some(Some(_)) => {
                self.set_known(
                    rel_path,
                    CacheJobKind::Populate,
                    Some(CopyControl { abort: true }),
                );
            },
            _ => {},
        }
        match self.get_known(rel_path, CacheJobKind::Replace) {
            Some(Some(_)) => {
                self.set_known(
                    rel_path,
                    CacheJobKind::Replace,
                    Some(CopyControl { abort: true }),
                );
            },
            _ => {},
        }
        assert(self@.known =~= old(self)@.aborting(rel_path@).known);
    }

    /// Whether the copy of a job was told to abort.
    pub fn is_aborted(&self, rel_path: &RelPath, kind: CacheJobKind) -> (r: bool)
        ensures
            r == (self@.known.contains_key((rel_path@, kind)) && self@.known[(rel_path@, kind)]
                == Some(CopyControl { abort: true })),
    {
        match self.get_known(rel_path, kind) {
            Some(Some(control)) => control.abort,
            _ => false,
        }
    }

    /// Takes jobs off the front of the queue that are older than the deferral limit at time
    /// `now`, and returns the paths of the populate jobs among them, which are to be dropped
    /// from the database too. A limit of 0 keeps everything.
    pub fn expire_stale(&mut self, now: u64, ttl_minutes: u64) -> (r: Vec<RelPath>)
        requires
            old(self)@.wf(),
        ensures
            final(self)@.wf(),
            ttl_minutes == 0 ==> final(self)@ == old(self)@ && r@.len() == 0,
            ttl_minutes > 0 ==> {
                let cutoff = expiry_cutoff(now, ttl_minutes);
                &&& final(self)@ == old(self)@.without_stale(cutoff)
                &&& path::paths_view(r@) == populate_paths(
                    old(self)@.queue.take(stale_count(old(self)@.queue, cutoff) as int),
                )
            },
    {
        let mut expired: Vec<RelPath> = Vec::new();
        if ttl_minutes == 0 {
            return expired;
        }
        let ttl: u128 = ttl_minutes as u128 * 60;
        let cutoff: u64 = if now as u128 > ttl {
            (now as u128 - ttl) as u64
        } else {
            0
        };
        let ghost start = self@;
        let ghost total = stale_count(start.queue, cutoff);
        let ghost mut done: int = 0;
        proof {
            lemma_stale_count_bounded(start.queue, cutoff);
            assert(start.queue.skip(0) =~= start.queue);
            assert(path::paths_view(expired@) =~= populate_paths(start.queue.take(0)));
            assert(self@.known =~= start.known.remove_keys(keys_of(start.queue.take(0))));
        }
        loop
            invariant_except_break
                start.wf(),
                self@.wf(),
                0 <= done <= start.queue.len(),
                self@.queue == start.queue.skip(done),
                self@.known == start.known.remove_keys(keys_of(start.queue.take(done))),
                total == stale_count(start.queue, cutoff),
                done + stale_count(start.queue.skip(done), cutoff) == total,
                path::paths_view(expired@) == populate_paths(start.queue.take(done)),
            ensures
                self@.wf(),
                self@ == start.without_stale(cutoff),
                path::paths_view(expired@) == populate_paths(
                    start.queue.take(stale_count(start.queue, cutoff) as int),
                ),
            decreases self.queue@.len(),
        {
            let stale = self.queue.len() > 0 && self.queue[0].enqueue_ts < cutoff;
            proof {
                if self.queue@.len() > 0 {
                    assert(self@.queue[0] == self.queue@[0]@);
                }
            }
            if !stale {
                proof {
                    assert(stale_count(start.queue.skip(done), cutoff) == 0);
                    assert(self@ =~= start.without_stale(cutoff));
                }
                break;
            }
            let ghost before = self@;
            let front = self.queue.pop_front();
            match front {
                Some(job) => {
                    let ghost j = job@;
                    proof {
                        assert(j == before.queue[0]);
                        assert(j == start.queue[done]);
                        assert(self@.queue =~= before.queue.skip(1));
                        assert(self@.known =~= before.known);
                    }
                    self.unset_known(&job.rel_path, job.kind);
                    proof {
                        assert(start.queue.skip(done).skip(1) =~= start.queue.skip(done + 1));
                        assert(start.queue.take(done + 1).drop_last() =~= start.queue.take(done));
                        assert(start.queue.take(done + 1).last() == j);
                        lemma_keys_push(start.queue.take(done), j);
                        assert(start.queue.take(done + 1) =~= start.queue.take(done).push(j));
                        assert(self@.known =~= start.known.remove_keys(
                            keys_of(start.queue.take(done + 1)),
                        ));
                        lemma_skip_wf(before, self@, j);
                    }
                    if job.kind == CacheJobKind::Populate {
                        let ghost e0 = expired@;
                        expired.push(job.rel_path);
                        assert(path::paths_view(expired@) =~= path::paths_view(e0).push(j.path));
                    }
                    proof {
                        done = done + 1;
                    }
                },
                None => {},
            }
        }
        expired
    }

    /// Takes the next job off the queue: the oldest one while copies are allowed, else the
    /// oldest validation.
    pub fn pop_next_job(&mut self, copy_allowed: bool) -> (r: Option<CacheJob>)
        requires
            old(self)@.wf(),
        ensures
            final(self)@.wf(),
            match next_index(old(self)@.queue, copy_allowed) {
                None => r is None && final(self)@ == old(self)@,
                Some(i) => {
                    &&& 0 <= i < old(self)@.queue.len()
                    &&& r is Some
                    &&& (r->0)@ == old(self)@.queue[i]
                    &&& final(self)@ == old(self)@.popped(i)
                    &&& !final(self)@.queued((r->0)@.key())
                },
            },
    {
        let ghost start = self@;
        let mut i: usize = 0;
        if !copy_allowed {
            while i < self.queue.len() && self.queue[i].kind != CacheJobKind::Validate
                invariant
                    i <= self.queue@.len(),
                    self@ == start,
                    first_validation(start.queue, 0) == first_validation(start.queue, i as int),
                decreases self.queue@.len() - i,
            {
                assert(start.queue[i as int] == self.queue@[i as int]@);
                i = i + 1;
            }
            proof {
                if i < self.queue@.len() {
                    assert(start.queue[i as int] == self.queue@[i as int]@);
                }
            }
        }
        let r = self.queue.remove(i);
        proof {
            assert(self@.known =~= start.known);
            if r is Some {
                assert((r->0)@ == start.queue[i as int]);
                assert(self@.queue =~= start.queue.remove(i as int));
                lemma_remove_wf(start, self@, i as int);
            } else {
                assert(self@.queue =~= start.queue);
            }
        }
        r
    }

    /// Gives the copy of a job that was just dispatched its control, so that it can be told to
    /// abort.
    pub fn promote(&mut self, rel_path: &RelPath, kind: CacheJobKind)
        requires
            old(self)@.wf(),
        ensures
            final(self)@.wf(),
            final(self)@ == old(self)@.promoted((rel_path@, kind)),
    {
        self.set_known(rel_path, kind, Some(CopyControl { abort: false }));
    }

    /// Ends a dispatched job, so that it can be submitted again. Returns whether its deferral
    /// is to be dropped from the database.
    pub fn finish(&mut self, rel_path: &RelPath, kind: CacheJobKind) -> (r: bool)
        requires
            old(self)@.wf(),
            !old(self)@.queued((rel_path@, kind)),
        ensures
            final(self)@.wf(),
            final(self)@ == old(self)@.finished((rel_path@, kind)),
            r == (kind == CacheJobKind::Populate),
    {
        self.unset_known(rel_path, kind);
        kind == CacheJobKind::Populate
    }

    /// Moves a dispatched populate or replace job on, with the answer to its stage. The job is
    /// promoted and ended here; the flag says whether its deferral is to be dropped from the
    /// database.
    pub fn populate_step(
        &mut self,
        rel_path: &RelPath,
        kind: CacheJobKind,
        stage: PopulateStage,
        ok: bool,
    ) -> (r: (PopulateStage, bool))
        requires
            old(self)@.wf(),
            !old(self)@.queued((rel_path@, kind)),
        ensures
            final(self)@.wf(),
            !final(self)@.queued((rel_path@, kind)),
            r.0 == stage.after(ok),
            final(self)@ == (if stage == PopulateStage::Promote {
                old(self)@.promoted((rel_path@, kind))
            } else if r.0 == PopulateStage::Finish {
                old(self)@.finished((rel_path@, kind))
            } else {
                old(self)@
            }),
            r.1 == (r.0 == PopulateStage::Finish && kind == CacheJobKind::Populate),
    {
        let next = stage.next(ok);
        if stage == PopulateStage::Promote {
            self.promote(rel_path, kind);
            (next, false)
        } else if next == PopulateStage::Finish {
            let drop_deferred = self.finish(rel_path, kind);
            (next, drop_deferred)
        } else {
            (next, false)
        }
    }

    /// Decides what a dispatched validation calls for. A file whose source has changed is queued
    /// for replacement here. The validation itself stays known, so that it is not queued again
    /// before the caller has acted and has ended it with `finish`.
    pub fn validate_step(&mut self, rel_path: &RelPath, result: StaleResult, now: u64) -> (r:
        ValidationAction)
        requires
            old(self)@.wf(),
        ensures
            final(self)@.wf(),
            r == validation_of(result),
            final(self)@ == old(self)@.validated(rel_path@, result, now),
            !old(self)@.queued((rel_path@, CacheJobKind::Validate)) ==> !final(self)@.queued(
                (rel_path@, CacheJobKind::Validate),
            ),
    {
        let action = validation_action(result);
        if action == ValidationAction::SubmitReplace {
            self.submit_job(rel_path, CacheJobKind::Replace, false, now);
            proof {
                let key = (rel_path@, CacheJobKind::Validate);
                if self@.queued(key) {
                    let i = choose|i: int|
                        0 <= i < self@.queue.len() && (#[trigger] self@.queue[i]).key() == key;
                    assert(i < old(self)@.queue.len());
                    assert(old(self)@.queue[i].key() == key);
                }
            }
        }
        action
    }

    /// One round of the dispatcher: nothing is started once a shutdown was requested, and a
    /// validation needs no copy permit.
    pub fn dispatch(&mut self, shutdown: bool, copy_allowed: bool) -> (r: DispatchStep)
        requires
            old(self)@.wf(),
        ensures
            final(self)@.wf(),
            shutdown ==> r is Stop && final(self)@ == old(self)@,
            !shutdown ==> match next_index(old(self)@.queue, copy_allowed) {
                None => r is Idle && final(self)@ == old(self)@,
                Some(i) => {
                    &&& 0 <= i < old(self)@.queue.len()
                    &&& final(self)@ == old(self)@.popped(i)
                    &&& r matches DispatchStep::Run { job, needs_permit } && job@
                        == old(self)@.queue[i] && needs_permit == (job.kind
                        != CacheJobKind::Validate)
                },
            },
    {
        if shutdown {
            return DispatchStep::Stop;
        }
        match self.pop_next_job(copy_allowed) {
            None => DispatchStep::Idle,
            Some(job) => {
                let needs_permit = job.kind != CacheJobKind::Validate;
                DispatchStep::Run { job, needs_permit }
            },
        }
    }
}

/// What the dispatcher does next.
pub enum DispatchStep {
    /// Leave the loop: a shutdown was requested.
    Stop,
    /// Wait for work, for the window to open or for the next sweep.
    Idle,
    /// Start a worker, after taking a copy permit where one is needed.
    Run { job: CacheJob, needs_permit: bool },
}

/// What to set up when the pipeline starts.
#[derive(Clone, Copy, Debug, PartialEq, Eq, Structural)]
pub struct StartupPlan {
    /// Jobs restored from an earlier run.
    pub restored: usize,
    /// Whether to wake the dispatcher at once.
    pub wake: bool,
    /// Copies that may run at once.
    pub permits: usize,
    /// How often to run the eviction worker, where it runs at all.
    pub evict_every_secs: Option<u64>,
}

/// Builds the pipeline at startup: deferred jobs are restored, and they wake the dispatcher
/// at once.
pub fn spawn(cfg: &CacheIoConfig, loaded: &Vec<(RelPath, u64)>) -> (r: (
    PipelineState,
    StartupPlan,
))
    ensures
        r.0@.wf(),
        r.0@ == PipelineModel::restored(loaded@.map_values(|e: (RelPath, u64)| (e.0@, e.1))),
        r.1.restored == r.0@.queue.len(),
        r.1.wake == (r.0@.queue.len() > 0),
        r.1.permits == cfg.max_concurrent_copies,
        r.1.evict_every_secs == (if cfg.eviction_interval_secs > 0 {
            Some(cfg.eviction_interval_secs)
        } else {
            None
        }),
{
    let state = PipelineState::restore(loaded);
    let restored: usize = state.queue_len();
    let plan = StartupPlan {
        restored,
        wake: restored > 0,
        permits: cfg.max_concurrent_copies,
        evict_every_secs: if cfg.eviction_interval_secs > 0 {
            Some(cfg.eviction_interval_secs)
        } else {
            None
        },
    };
    (state, plan)
}

/// The course of a populate or replace job. Each stage names what to do next; a stage that
/// asks or tries something moves on with the answer.
#[derive(Clone, Copy, Debug, PartialEq, Eq, Structural)]
pub enum PopulateStage {
    /// Ask whether the file is cached already.
    AskCached,
    /// Give the job its abort control.
    Promote,
    /// Ask whether there is free space.
    AskSpace,
    /// Take the eviction lock, so that workers do not evict for one another, and ask again.
    AskSpaceLocked,
    /// Evict enough to fit the file, then release the lock.
    EvictToFit,
    /// Ask once more, with the lock released.
    AskSpaceAgain,
    /// Copy the file.
    Copy,
    /// Record the file as cached.
    MarkCached,
    /// Report that there is not enough space.
    ReportNoSpace,
    /// Report that the copy failed.
    ReportCopyFailed,
    /// End the job in the pipeline.
    Finish,
}

impl PopulateStage {
    /// The first stage: only populate jobs are skipped for files that are cached already.
    pub open spec fn first(kind: CacheJobKind) -> PopulateStage {
        if kind == CacheJobKind::Populate {
            PopulateStage::AskCached
        } else {
            PopulateStage::Promote
        }
    }

    /// The stage that follows, given the answer where one was asked for.
    pub open spec fn after(self, ok: bool) -> PopulateStage {
        match self {
            PopulateStage::AskCached => if ok {
                PopulateStage::Finish
            } else {
                PopulateStage::Promote
            },
            PopulateStage::Promote => PopulateStage::AskSpace,
            PopulateStage::AskSpace => if ok {
                PopulateStage::AskSpaceAgain
            } else {
                PopulateStage::AskSpaceLocked
            },
            PopulateStage::AskSpaceLocked => if ok {
                PopulateStage::AskSpaceAgain
            } else {
                PopulateStage::EvictToFit
            },
            PopulateStage::EvictToFit => PopulateStage::AskSpaceAgain,
            PopulateStage::AskSpaceAgain => if ok {
                PopulateStage::Copy
            } else {
                PopulateStage::ReportNoSpace
            },
            PopulateStage::Copy => if ok {
                PopulateStage::MarkCached
            } else {
                PopulateStage::ReportCopyFailed
            },
            _ => PopulateStage::Finish,
        }
    }

    /// How many stages can still follow, at most.
    pub open spec fn left(self) -> nat {
        match self {
            PopulateStage::AskCached => 8,
            PopulateStage::Promote => 7,
            PopulateStage::AskSpace => 6,
            PopulateStage::AskSpaceLocked => 5,
            PopulateStage::EvictToFit => 4,
            PopulateStage::AskSpaceAgain => 3,
            PopulateStage::Copy => 2,
            PopulateStage::MarkCached => 1,
            PopulateStage::ReportNoSpace => 1,
            PopulateStage::ReportCopyFailed => 1,
            PopulateStage::Finish => 0,
        }
    }

    /// The stage in which a job of this kind begins.
    pub fn start(kind: CacheJobKind) -> (r: PopulateStage)
        ensures
            r == PopulateStage::first(kind),
    {
        if kind == CacheJobKind::Populate {
            PopulateStage::AskCached
        } else {
            PopulateStage::Promote
        }
    }

    /// The stage that follows, given the answer where one was asked for.
    pub fn next(self, ok: bool) -> (r: PopulateStage)
        ensures
            r == self.after(ok),
    {
        match self {
            PopulateStage::AskCached => {
                if ok {
                    PopulateStage::Finish
                } else {
                    PopulateStage::Promote
                }
            },
            PopulateStage::Promote => PopulateStage::AskSpace,
            PopulateStage::AskSpace => {
                if ok {
                    PopulateStage::AskSpaceAgain
                } else {
                    PopulateStage::AskSpaceLocked
                }
            },
            PopulateStage::AskSpaceLocked => {
                if ok {
                    PopulateStage::AskSpaceAgain
                } else {
                    PopulateStage::EvictToFit
                }
            },
            PopulateStage::EvictToFit => PopulateStage::AskSpaceAgain,
            PopulateStage::AskSpaceAgain => {
                if ok {
                    PopulateStage::Copy
                } else {
                    PopulateStage::ReportNoSpace
                }
            },
            PopulateStage::Copy => {
                if ok {
                    PopulateStage::MarkCached
                } else {
                    PopulateStage::ReportCopyFailed
                }
            },
            _ => PopulateStage::Finish,
        }
    }
}

/// Every populate job comes to its end, and goes through no stage twice: each step leaves
/// fewer stages to come.
pub proof fn law_populate_ends(stage: PopulateStage, ok: bool)
    ensures
        stage != PopulateStage::Finish ==> stage.after(ok).left() < stage.left(),
        stage == PopulateStage::Finish ==> stage.after(ok) == stage,
{
}

/// A file is recorded as cached only after its copy succeeded, copied only after free space
/// was found, and evicted for only under the lock.
pub proof fn law_populate_is_guarded(stage: PopulateStage, ok: bool)
    ensures
        stage.after(ok) == PopulateStage::MarkCached ==> stage == PopulateStage::Copy && ok,
        stage.after(ok) == PopulateStage::Copy ==> stage == PopulateStage::AskSpaceAgain && ok,
        stage.after(ok) == PopulateStage::EvictToFit ==> stage == PopulateStage::AskSpaceLocked
            && !ok,
{
}

/// How a cached file compares with its source.
#[derive(Clone, Copy, Debug, PartialEq, Eq, Structural)]
pub enum StaleResult {
    /// The source has not changed.
    Fresh,
    /// The file is not tracked.
    NotTracked,
    /// The file is tracked without a fingerprint of its source.
    NeedsBackfill,
    /// The source is gone.
    BackingGone,
    /// The source has changed.
    Stale,
}

/// What a validation leads to.
#[derive(Clone, Copy, Debug, PartialEq, Eq, Structural)]
pub enum ValidationAction {
    Nothing,
    BackfillFingerprint,
    DropStale,
    SubmitReplace,
}

/// What a validated file calls for.
pub open spec fn validation_of(result: StaleResult) -> ValidationAction {
    match result {
        StaleResult::Fresh => ValidationAction::Nothing,
        StaleResult::NotTracked => ValidationAction::Nothing,
        StaleResult::NeedsBackfill => ValidationAction::BackfillFingerprint,
        StaleResult::BackingGone => ValidationAction::DropStale,
        StaleResult::Stale => ValidationAction::SubmitReplace,
    }
}

/// Decides what to do with a validated file.
pub fn validation_action(result: StaleResult) -> (r: ValidationAction)
    ensures
        r == validation_of(result),
{
    match result {
        StaleResult::Fresh => ValidationAction::Nothing,
        StaleResult::NotTracked => ValidationAction::Nothing,
        StaleResult::NeedsBackfill => ValidationAction::BackfillFingerprint,
        StaleResult::BackingGone => ValidationAction::DropStale,
        StaleResult::Stale => ValidationAction::SubmitReplace,
    }
}

/// A submitted job stays known while it is dispatched and copied, so that it is not queued
/// again until it is finished.
pub proof fn law_known_until_finished(m: PipelineModel, job: JobView, i: int)
    requires
        m.wf(),
        0 <= i <= m.queue.len(),
    ensures
        m.with_job(job).known.contains_key(job.key()),
        m.with_job(job).popped(i).known.contains_key(job.key()),
        m.with_job(job).popped(i).promoted(job.key()).known.contains_key(job.key()),
        !m.with_job(job).popped(i).promoted(job.key()).finished(job.key()).known.contains_key(
            job.key(),
        ),
{
}

/// A validation stays known while its result is acted on, and only ending it lets the file be
/// validated again. The replacement it may have led to outlasts it.
pub proof fn law_validation_known_until_finished(
    m: PipelineModel,
    p: PathView,
    result: StaleResult,
    now: u64,
)
    requires
        m.wf(),
        m.known.contains_key((p, CacheJobKind::Validate)),
    ensures
        m.validated(p, result, now).known.contains_key((p, CacheJobKind::Validate)),
        !m.validated(p, result, now).finished((p, CacheJobKind::Validate)).known.contains_key(
            (p, CacheJobKind::Validate),
        ),
        result == StaleResult::Stale ==> m.validated(p, result, now).finished(
            (p, CacheJobKind::Validate),
        ).known.contains_key((p, CacheJobKind::Replace)),
{
}

/// While the window is closed a waiting validation is dispatched all the same, and never a
/// copy.
pub proof fn law_validation_ignores_window(queue: Seq<JobView>)
    ensures
        next_index(queue, false) is None <==> forall|i: int|
            0 <= i < queue.len() ==> (#[trigger] queue[i]).kind != CacheJobKind::Validate,
        next_index(queue, false) matches Some(i) ==> 0 <= i < queue.len() && queue[i].kind
            == CacheJobKind::Validate,
{
    lemma_first_validation(queue, 0);
}

proof fn lemma_first_validation(queue: Seq<JobView>, i: int)
    requires
        0 <= i,
    ensures
        match first_validation(queue, i) {
            Some(k) => i <= k < queue.len() && queue[k].kind == CacheJobKind::Validate && (
            forall|l: int| i <= l < k ==> (#[trigger] queue[l]).kind != CacheJobKind::Validate),
            None => forall|l: int|
                i <= l < queue.len() ==> (#[trigger] queue[l]).kind != CacheJobKind::Validate,
        },
    decreases queue.len() - i,
{
    if i < queue.len() && queue[i].kind != CacheJobKind::Validate {
        lemma_first_validation(queue, i + 1);
    }
}

/// In a queue that is ordered by time, the sweep removes every job that is too old and no
/// other, though it looks at the front only.
pub proof fn law_sweep_is_complete(m: PipelineModel, cutoff: u64)
    requires
        m.in_order(),
    ensures
        forall|i: int|
            0 <= i < m.without_stale(cutoff).queue.len() ==> (
            #[trigger] m.without_stale(cutoff).queue[i]).ts >= cutoff,
        forall|i: int|
            0 <= i < stale_count(m.queue, cutoff) ==> (#[trigger] m.queue[i]).ts < cutoff,
{
    lemma_stale_count_bounded(m.queue, cutoff);
    lemma_stale_stop(m.queue, cutoff);
    let n = stale_count(m.queue, cutoff) as int;
    assert forall|i: int| 0 <= i < m.queue.skip(n).len() implies (#[trigger] m.queue.skip(n)[i]).ts
        >= cutoff by {
        assert(m.queue[n].ts <= m.queue[n + i].ts);
    }
}

proof fn lemma_stale_stop(queue: Seq<JobView>, cutoff: u64)
    ensures
        stale_count(queue, cutoff) < queue.len() ==> queue[stale_count(queue, cutoff) as int].ts
            >= cutoff,
    decreases queue.len(),
{
    if queue.len() > 0 && queue[0].ts < cutoff {
        lemma_stale_stop(queue.skip(1), cutoff);
    }
}

/// Submissions at times that do not run backwards keep the queue in order, and so do
/// dispatching and sweeping.
pub proof fn law_order_is_kept(m: PipelineModel, job: JobView, i: int, cutoff: u64)
    requires
        m.in_order(),
        m.queue.len() > 0 ==> m.queue.last().ts <= job.ts,
    ensures
        m.with_job(job).in_order(),
        0 <= i < m.queue.len() ==> m.popped(i).in_order(),
        m.without_stale(cutoff).in_order(),
{
    let a = m.with_job(job);
    assert forall|x: int, y: int| 0 <= x <= y < a.queue.len() implies (#[trigger] a.queue[x]).ts <= (
    #[trigger] a.queue[y]).ts by {
        if y == m.queue.len() && x < y {
            assert(m.queue[x].ts <= m.queue[m.queue.len() - 1].ts);
        }
    }
    if 0 <= i < m.queue.len() {
        let b = m.popped(i);
        assert forall|x: int, y: int| 0 <= x <= y < b.queue.len() implies (
        #[trigger] b.queue[x]).ts <= (#[trigger] b.queue[y]).ts by {
            let x0 = if x < i { x } else { x + 1 };
            let y0 = if y < i { y } else { y + 1 };
            assert(b.queue[x] == m.queue[x0]);
            assert(b.queue[y] == m.queue[y0]);
        }
    }
    lemma_stale_count_bounded(m.queue, cutoff);
}

/// The time before which deferred jobs are too old.
pub open spec fn expiry_cutoff(now: u64, ttl_minutes: u64) -> u64 {
    if now > ttl_minutes * 60 {
        (now - ttl_minutes * 60) as u64
    } else {
        0
    }
}

proof fn lemma_stale_count_bounded(queue: Seq<JobView>, cutoff: u64)
    ensures
        stale_count(queue, cutoff) <= queue.len(),
        forall|i: int| 0 <= i < stale_count(queue, cutoff) ==> (#[trigger] queue[i]).ts < cutoff,
    decreases queue.len(),
{
    if queue.len() > 0 && queue[0].ts < cutoff {
        lemma_stale_count_bounded(queue.skip(1), cutoff);
        assert forall|i: int| 0 <= i < stale_count(queue, cutoff) implies (#[trigger] queue[i]).ts
            < cutoff by {
            if i > 0 {
                assert(queue.skip(1)[i - 1] == queue[i]);
            }
        }
    }
}

proof fn lemma_keys_push(jobs: Seq<JobView>, j: JobView)
    ensures
        keys_of(jobs.push(j)) == keys_of(jobs).insert(j.key()),
{
    assert forall|k: JobKey| keys_of(jobs.push(j)).contains(k) <==> keys_of(jobs).insert(
        j.key(),
    ).contains(k) by {
        if keys_of(jobs).contains(k) {
            let i = choose|i: int| 0 <= i < jobs.len() && (#[trigger] jobs[i]).key() == k;
            assert(jobs.push(j)[i].key() == k);
        }
        if k == j.key() {
            assert(jobs.push(j)[jobs.len() as int].key() == k);
        }
        if keys_of(jobs.push(j)).contains(k) {
            let i = choose|i: int|
                0 <= i < jobs.push(j).len() && (#[trigger] jobs.push(j)[i]).key() == k;
            if i < jobs.len() {
                assert(jobs[i].key() == k);
            }
        }
    }
    assert(keys_of(jobs.push(j)) =~= keys_of(jobs).insert(j.key()));
}

proof fn lemma_skip_wf(before: PipelineModel, after: PipelineModel, j: JobView)
    requires
        before.wf(),
        before.queue.len() > 0,
        j == before.queue[0],
        after.queue == before.queue.skip(1),
        after.known == before.known.remove(j.key()),
    ensures
        after.wf(),
{
    assert forall|a: int, b: int| 0 <= a < b < after.queue.len() implies (
    #[trigger] after.queue[a]).key() != (#[trigger] after.queue[b]).key() by {
        assert(after.queue[a] == before.queue[a + 1]);
        assert(after.queue[b] == before.queue[b + 1]);
    }
    assert forall|a: int| 0 <= a < after.queue.len() implies after.known.contains_key(
        (#[trigger] after.queue[a]).key(),
    ) by {
        assert(after.queue[a] == before.queue[a + 1]);
        assert(before.queue[0].key() != before.queue[a + 1].key());
    }
}

proof fn lemma_remove_wf(before: PipelineModel, after: PipelineModel, i: int)
    requires
        before.wf(),
        0 <= i < before.queue.len(),
        after.queue == before.queue.remove(i),
        after.known == before.known,
    ensures
        after.wf(),
        !after.queued(before.queue[i].key()),
{
    assert forall|a: int, b: int| 0 <= a < b < after.queue.len() implies (
    #[trigger] after.queue[a]).key() != (#[trigger] after.queue[b]).key() by {
        let a0 = if a < i { a } else { a + 1 };
        let b0 = if b < i { b } else { b + 1 };
        assert(after.queue[a] == before.queue[a0]);
        assert(after.queue[b] == before.queue[b0]);
    }
    assert forall|a: int| 0 <= a < after.queue.len() implies after.known.contains_key(
        (#[trigger] after.queue[a]).key(),
    ) by {
        let a0 = if a < i { a } else { a + 1 };
        assert(after.queue[a] == before.queue[a0]);
    }
    if after.queued(before.queue[i].key()) {
        let a = choose|a: int|
            0 <= a < after.queue.len() && (#[trigger] after.queue[a]).key() == before.queue[i].key();
        let a0 = if a < i { a } else { a + 1 };
        assert(after.queue[a] == before.queue[a0]);
    }
}

/// Jobs that are not dispatched while the window is closed stay in the queue, in their order,
/// and the oldest job is the next one as soon as the window is open.
pub proof fn law_closed_window_buffers(m: PipelineModel, k: int)
    requires
        m.wf(),
        0 <= k < m.queue.len(),
        m.queue[k].kind != CacheJobKind::Validate,
    ensures
        next_index(m.queue, false) matches Some(i) ==> i != k && m.popped(i).queue.len()
            == m.queue.len() - 1 && m.popped(i).queue[if k < i {
            k
        } else {
            k - 1
        }] == m.queue[k],
        next_index(m.queue, true) == Some(0int),
{
    lemma_first_validation(m.queue, 0);
}

/// A job of one kind does not keep a job of another kind for the same file from being queued.
pub proof fn law_kinds_do_not_suppress_each_other(
    m: PipelineModel,
    job: JobView,
    kind: CacheJobKind,
)
    requires
        kind != job.kind,
    ensures
        m.with_job(job).known.contains_key((job.path, kind)) == m.known.contains_key(
            (job.path, kind),
        ),
{
}

/// Eviction is always followed by asking for free space once more. That no space is left is
/// reported only where this last question is answered no, and the file is copied exactly where it
/// is answered yes.
pub proof fn law_space_is_asked_after_eviction(stage: PopulateStage, ok: bool)
    ensures
        PopulateStage::EvictToFit.after(ok) == PopulateStage::AskSpaceAgain,
        stage.after(ok) == PopulateStage::ReportNoSpace <==> stage == PopulateStage::AskSpaceAgain
            && !ok,
        stage.after(ok) == PopulateStage::Copy <==> stage == PopulateStage::AskSpaceAgain && ok,
        stage.after(ok) == PopulateStage::EvictToFit <==> stage == PopulateStage::AskSpaceLocked
            && !ok,
        stage.after(ok) == PopulateStage::ReportCopyFailed <==> stage == PopulateStage::Copy && !ok,
        stage.after(ok) == PopulateStage::MarkCached <==> stage == PopulateStage::Copy && ok,
{
}

/// The course of a job, whatever is answered on the way: a cached file is not populated again but
/// always replaced, space is asked for before anything is evicted and again under the lock, and a
/// job that got its space copies the file and ends.
pub proof fn law_populate_course(space: bool, locked: bool, any: bool)
    ensures
        PopulateStage::first(CacheJobKind::Populate) == PopulateStage::AskCached,
        PopulateStage::first(CacheJobKind::Replace) == PopulateStage::Promote,
        PopulateStage::AskCached.after(true) == PopulateStage::Finish,
        PopulateStage::AskCached.after(false) == PopulateStage::Promote,
        ({
            let asked = PopulateStage::Promote.after(any);
            let settled = if space {
                asked.after(true)
            } else if locked {
                asked.after(false).after(true)
            } else {
                asked.after(false).after(false).after(any)
            };
            &&& asked == PopulateStage::AskSpace
            &&& asked.after(false) == PopulateStage::AskSpaceLocked
            &&& asked.after(false).after(false) == PopulateStage::EvictToFit
            &&& settled == PopulateStage::AskSpaceAgain
            &&& settled.after(true) == PopulateStage::Copy
            &&& settled.after(true).after(true) == PopulateStage::MarkCached
            &&& settled.after(true).after(true).after(any) == PopulateStage::Finish
            &&& settled.after(true).after(false) == PopulateStage::ReportCopyFailed
            &&& settled.after(true).after(false).after(any) == PopulateStage::Finish
            &&& settled.after(false) == PopulateStage::ReportNoSpace
            &&& settled.after(false).after(any) == PopulateStage::Finish
        }),
{
}

/// A cached file is dropped exactly where its source is gone, replaced exactly where its source
/// has changed, and given a fingerprint exactly where it has none.
pub proof fn law_validation_outcomes(result: StaleResult)
    ensures
        validation_of(result) == ValidationAction::DropStale <==> result
            == StaleResult::BackingGone,
        validation_of(result) == ValidationAction::SubmitReplace <==> result == StaleResult::Stale,
        validation_of(result) == ValidationAction::BackfillFingerprint <==> result
            == StaleResult::NeedsBackfill,
        validation_of(result) == ValidationAction::Nothing <==> result == StaleResult::Fresh
            || result == StaleResult::NotTracked,
{
}

/// A file whose source has changed is queued for replacement, last and with the time at which
/// that was found, unless its replacement is known already; no other result changes anything.
pub proof fn law_stale_files_are_replaced(
    m: PipelineModel,
    p: PathView,
    result: StaleResult,
    now: u64,
)
    ensures
        result != StaleResult::Stale ==> m.validated(p, result, now) == m,
        m.known.contains_key((p, CacheJobKind::Replace)) ==> m.validated(p, result, now) == m,
        result == StaleResult::Stale ==> m.validated(p, result, now).known.contains_key(
            (p, CacheJobKind::Replace),
        ),
        result == StaleResult::Stale && !m.known.contains_key((p, CacheJobKind::Replace)) ==> {
            let q = m.validated(p, result, now).queue;
            &&& q.len() == m.queue.len() + 1
            &&& q.drop_last() == m.queue
            &&& q.last().path == p
            &&& q.last().kind == CacheJobKind::Replace
            &&& q.last().ts == now
        },
{
    if result == StaleResult::Stale && !m.known.contains_key((p, CacheJobKind::Replace)) {
        assert(m.validated(p, result, now).queue.drop_last() =~= m.queue);
    }
}

/// A submitted job waits behind all others, which keep their places; it is known and has not been
/// told to abort, and what was known of other jobs stays.
pub proof fn law_submitted_job_waits_last(m: PipelineModel, job: JobView, key: JobKey)
    ensures
        m.with_job(job).queue.len() == m.queue.len() + 1,
        m.with_job(job).queue.last() == job,
        m.with_job(job).queue.drop_last() == m.queue,
        m.with_job(job).known.contains_key((job.path, job.kind)),
        m.with_job(job).known[(job.path, job.kind)] is None,
        key != (job.path, job.kind) ==> (m.with_job(job).known.contains_key(key)
            <==> m.known.contains_key(key)),
        key != (job.path, job.kind) && m.known.contains_key(key) ==> m.with_job(job).known[key]
            == m.known[key],
{
    assert(m.with_job(job).queue.drop_last() =~= m.queue);
}

/// While copies are allowed the oldest job is dispatched; otherwise the oldest validation, before
/// which only copies wait.
pub proof fn law_oldest_job_goes_first(queue: Seq<JobView>, k: int)
    ensures
        queue.len() > 0 ==> next_index(queue, true) == Some(0int),
        queue.len() == 0 ==> next_index(queue, true) is None,
        0 <= k < queue.len() && queue[k].kind == CacheJobKind::Validate ==> (next_index(
            queue,
            false,
        ) matches Some(i) && 0 <= i <= k && queue[i].kind == CacheJobKind::Validate),
{
    lemma_first_validation(queue, 0);
}

/// Dispatching takes one job out of the queue and leaves all others in their order; it stays known
/// as it was, and so does everything else.
pub proof fn law_dispatch_takes_one_job(m: PipelineModel, i: int, k: int)
    requires
        0 <= i < m.queue.len(),
        0 <= k < m.queue.len(),
        k != i,
    ensures
        m.popped(i).known == m.known,
        m.popped(i).queue.len() == m.queue.len() - 1,
        k < i ==> m.popped(i).queue[k] == m.queue[k],
        k > i ==> m.popped(i).queue[k - 1] == m.queue[k],
{
}

/// A copy is told to abort only after it was promoted, and by an event on its own file: telling
/// the copies of a file to abort reaches its populating and its replacing copy and no other job,
/// and neither a queued job nor a validation.
pub proof fn law_abort_reaches_copies_in_flight(m: PipelineModel, p: PathView, key: JobKey)
    ensures
        m.aborting(p).queue == m.queue,
        m.aborting(p).known.contains_key(key) <==> m.known.contains_key(key),
        m.known.contains_key(key) && m.known[key] is Some && key.0 == p && (key.1
            == CacheJobKind::Populate || key.1 == CacheJobKind::Replace) ==> m.aborting(
            p,
        ).known[key] == Some(CopyControl { abort: true }),
        m.known.contains_key(key) && (m.known[key] is None || key.0 != p || key.1
            == CacheJobKind::Validate) ==> m.aborting(p).known[key] == m.known[key],
        m.promoted(key).queue == m.queue,
        m.promoted(key).known.contains_key(key),
        m.promoted(key).known[key] == Some(CopyControl { abort: false }),
        key.0 == p && key.1 != CacheJobKind::Validate ==> m.promoted(key).aborting(p).known[key]
            == Some(CopyControl { abort: true }),
{
}

/// Promoting and ending a job concern that job alone: an ended job is not known any more.
pub proof fn law_ending_concerns_one_job(m: PipelineModel, key: JobKey, other: JobKey)
    requires
        other != key,
    ensures
        m.finished(key).queue == m.queue,
        !m.finished(key).known.contains_key(key),
        m.finished(key).known.contains_key(other) <==> m.known.contains_key(other),
        m.known.contains_key(other) ==> m.finished(key).known[other] == m.known[other],
        m.promoted(key).known.contains_key(other) <==> m.known.contains_key(other),
        m.known.contains_key(other) ==> m.promoted(key).known[other] == m.known[other],
{
}

/// In a queue that is ordered by time, the sweep takes out exactly the jobs that were queued more
/// than the given number of minutes ago; they are no longer known. Jobs in flight stay known.
pub proof fn law_sweep_goes_by_age(
    m: PipelineModel,
    now: u64,
    ttl_minutes: u64,
    i: int,
    key: JobKey,
)
    requires
        m.wf(),
        m.in_order(),
        0 <= i < m.queue.len(),
    ensures
        ({
            let after = m.without_stale(expiry_cutoff(now, ttl_minutes));
            let gone = m.queue.len() - after.queue.len();
            &&& 0 <= gone <= m.queue.len()
            &&& after.queue == m.queue.skip(gone)
            &&& i < gone <==> m.queue[i].ts + ttl_minutes * 60 < now
            &&& after.known.contains_key((m.queue[i].path, m.queue[i].kind)) <==> m.queue[i].ts
                + ttl_minutes * 60 >= now
            &&& after.known.contains_key(key) ==> m.known.contains_key(key) && after.known[key]
                == m.known[key]
            &&& m.known.contains_key(key) && !m.queued(key) ==> after.known.contains_key(key)
        }),
{
    let cutoff = expiry_cutoff(now, ttl_minutes);
    lemma_stale_count_bounded(m.queue, cutoff);
    law_sweep_is_complete(m, cutoff);
    let n = stale_count(m.queue, cutoff) as int;
    let after = m.without_stale(cutoff);
    assert(m.queue.len() - after.queue.len() == n);
    let job = m.queue[i];
    if i < n {
        assert(m.queue.take(n)[i].key() == job.key());
        assert(keys_of(m.queue.take(n)).contains(job.key()));
    } else {
        assert(after.queue[i - n].ts >= cutoff);
        if keys_of(m.queue.take(n)).contains(job.key()) {
            let k = choose|k: int|
                0 <= k < m.queue.take(n).len() && (#[trigger] m.queue.take(n)[k]).key()
                    == job.key();
            assert(m.queue[k].key() == m.queue[i].key());
        }
    }
    if keys_of(m.queue.take(n)).contains(key) {
        let k = choose|k: int|
            0 <= k < m.queue.take(n).len() && (#[trigger] m.queue.take(n)[k]).key() == key;
        assert(m.queue[k].key() == key);
        assert(m.queued(key));
    }
}

/// The expired paths that are dropped from the database are those of the populate jobs, in order.
pub proof fn law_expired_paths_are_deferred_copies(jobs: Seq<JobView>)
    ensures
        populate_paths(jobs) == jobs.filter(
            |j: JobView| j.kind == CacheJobKind::Populate,
        ).map_values(|j: JobView| j.path),
    decreases jobs.len(),
{
    let keep = |j: JobView| j.kind == CacheJobKind::Populate;
    let path = |j: JobView| j.path;
    reveal(Seq::filter);
    if jobs.len() > 0 {
        let init = jobs.drop_last();
        law_expired_paths_are_deferred_copies(init);
        crate::text::lemma_filter_push(init, jobs.last(), keep);
        assert(init.push(jobs.last()) =~= jobs);
        assert(populate_paths(jobs) =~= jobs.filter(keep).map_values(path));
    } else {
        assert(populate_paths(jobs) =~= jobs.filter(keep).map_values(path));
    }
}

/// A maintenance run leaves a validation known for every path, keeps what waits in its place, and
/// adds nothing but validations of given paths that were not known, at the given time, each once.
pub proof fn law_maintenance_validates_every_path(
    m: PipelineModel,
    paths: Seq<PathView>,
    ts: u64,
    k: int,
    i: int,
    key: JobKey,
)
    requires
        m.wf(),
    ensures
        ({
            let after = m.with_validations(paths, ts);
            &&& after.wf()
            &&& m.queue.len() <= after.queue.len() <= m.queue.len() + paths.len()
            &&& 0 <= k < paths.len() ==> after.known.contains_key(
                (paths[k], CacheJobKind::Validate),
            )
            &&& 0 <= i < m.queue.len() ==> after.queue[i] == m.queue[i]
            &&& m.queue.len() <= i < after.queue.len() ==> {
                &&& after.queue[i].kind == CacheJobKind::Validate
                &&& after.queue[i].ts == ts
                &&& paths.contains(after.queue[i].path)
                &&& !m.known.contains_key((after.queue[i].path, CacheJobKind::Validate))
            }
            &&& m.known.contains_key(key) ==> after.known.contains_key(key) && after.known[key]
                == m.known[key]
        }),
    decreases paths.len(),
{
    let after = m.with_validations(paths, ts);
    if paths.len() > 0 {
        let init = paths.drop_last();
        law_maintenance_validates_every_path(m, init, ts, k, i, key);
        let before = m.with_validations(init, ts);
        let job = JobView { path: paths.last(), kind: CacheJobKind::Validate, ts };
        law_maintenance_validates_every_path(m, init, ts, k, i, job.key());
        assert(paths[paths.len() - 1] == job.path);
        assert(paths.contains(job.path));
        if !before.known.contains_key(job.key()) {
            assert forall|a: int, b: int| 0 <= a < b < after.queue.len() implies (
            #[trigger] after.queue[a]).key() != (#[trigger] after.queue[b]).key() by {
                assert(after.queue[a] == before.queue[a]);
                if b < before.queue.len() {
                    assert(after.queue[b] == before.queue[b]);
                }
            }
            assert forall|a: int| 0 <= a < after.queue.len() implies after.known.contains_key(
                (#[trigger] after.queue[a]).key(),
            ) by {
                if a < before.queue.len() {
                    assert(after.queue[a] == before.queue[a]);
                }
            }
        }
        if m.queue.len() <= i < before.queue.len() {
            let q = before.queue[i].path;
            let w = choose|w: int| 0 <= w < init.len() && init[w] == q;
            assert(paths[w] == q);
        }
    }
}

/// A restart takes every path that was left behind over once, as a populate job with the time
/// that its first entry has, in the order of the entries, and knows nothing else.
pub proof fn law_restart_restores_each_path_once(jobs: Seq<(PathView, u64)>, k: int, i: int, key: JobKey)
    ensures
        ({
            let m = PipelineModel::restored(jobs);
            &&& m.wf()
            &&& m.queue.len() <= jobs.len()
            &&& 0 <= k < jobs.len() ==> m.queued((jobs[k].0, CacheJobKind::Populate))
            &&& 0 <= i < m.queue.len() ==> {
                &&& m.queue[i].kind == CacheJobKind::Populate
                &&& exists|f: int|
                    0 <= f < jobs.len() && #[trigger] jobs[f] == (m.queue[i].path, m.queue[i].ts)
                        && forall|g: int| 0 <= g < f ==> (#[trigger] jobs[g]).0 != m.queue[i].path
            }
            &&& m.known.contains_key(key) <==> m.queued(key)
            &&& m.known.contains_key(key) ==> m.known[key] is None
        }),
    decreases jobs.len(),
{
    let m = PipelineModel::restored(jobs);
    if jobs.len() == 0 {
        if m.queued(key) {
            let w = choose|w: int| 0 <= w < m.queue.len() && (#[trigger] m.queue[w]).key() == key;
            assert(false);
        }
    } else {
        let init = jobs.drop_last();
        let before = PipelineModel::restored(init);
        let (p, ts) = jobs.last();
        let new = (p, CacheJobKind::Populate);
        law_restart_restores_each_path_once(init, k, i, key);
        law_restart_restores_each_path_once(init, k, i, new);
        if before.known.contains_key(new) {
            assert(m == before);
            if 0 <= i < m.queue.len() {
                let f = choose|f: int|
                    0 <= f < init.len() && #[trigger] init[f] == (m.queue[i].path, m.queue[i].ts)
                        && forall|g: int| 0 <= g < f ==> (#[trigger] init[g]).0 != m.queue[i].path;
                assert(jobs[f] == (m.queue[i].path, m.queue[i].ts));
                assert forall|g: int| 0 <= g < f implies (#[trigger] jobs[g]).0
                    != m.queue[i].path by {
                    assert(jobs[g] == init[g]);
                }
            }
        } else {
            let job = JobView { path: p, kind: CacheJobKind::Populate, ts };
            assert(m == before.with_job(job));
            assert(m.queue[before.queue.len() as int].key() == new);
            assert(m.queued(new));
            assert forall|x: JobKey| #[trigger] before.queued(x) implies m.queued(x) by {
                let w = choose|w: int|
                    0 <= w < before.queue.len() && (#[trigger] before.queue[w]).key() == x;
                assert(m.queue[w].key() == x);
            }
            if m.queued(key) && key != new {
                let w = choose|w: int|
                    0 <= w < m.queue.len() && (#[trigger] m.queue[w]).key() == key;
                assert(before.queue[w].key() == key);
                assert(before.queued(key));
            }
            assert forall|a: int, b: int| 0 <= a < b < m.queue.len() implies (
            #[trigger] m.queue[a]).key() != (#[trigger] m.queue[b]).key() by {
                assert(m.queue[a] == before.queue[a]);
                if b < before.queue.len() {
                    assert(m.queue[b] == before.queue[b]);
                } else {
                    assert(before.queue[a].key() != new) by {
                        if before.queue[a].key() == new {
                            assert(before.queued(new));
                        }
                    }
                }
            }
            assert forall|a: int| 0 <= a < m.queue.len() implies m.known.contains_key(
                (#[trigger] m.queue[a]).key(),
            ) by {
                if a < before.queue.len() {
                    assert(m.queue[a] == before.queue[a]);
                }
            }
            if 0 <= i < before.queue.len() {
                let f = choose|f: int|
                    0 <= f < init.len() && #[trigger] init[f] == (m.queue[i].path, m.queue[i].ts)
                        && forall|g: int| 0 <= g < f ==> (#[trigger] init[g]).0 != m.queue[i].path;
                assert(jobs[f] == (m.queue[i].path, m.queue[i].ts));
                assert forall|g: int| 0 <= g < f implies (#[trigger] jobs[g]).0
                    != m.queue[i].path by {
                    assert(jobs[g] == init[g]);
                }
            } else if i == before.queue.len() {
                let f = jobs.len() - 1;
                assert(jobs[f] == (m.queue[i].path, m.queue[i].ts));
                assert forall|g: int| 0 <= g < f implies (#[trigger] jobs[g]).0
                    != m.queue[i].path by {
                    law_restart_restores_each_path_once(init, g, i, new);
                    assert(jobs[g] == init[g]);
                }
            }
        }
    }
}

/// A job is queued exactly where one for the same file and of the same kind waits.
pub proof fn law_queued_jobs_are_found(m: PipelineModel, p: PathView, kind: CacheJobKind)
    ensures
        m.queued((p, kind)) <==> exists|i: int|
            0 <= i < m.queue.len() && (#[trigger] m.queue[i]).path == p && m.queue[i].kind == kind,
{
    if m.queued((p, kind)) {
        let i = choose|i: int|
            0 <= i < m.queue.len() && (#[trigger] m.queue[i]).key() == (p, kind);
        assert(m.queue[i].path == p && m.queue[i].kind == kind);
    }
    if exists|i: int|
        0 <= i < m.queue.len() && (#[trigger] m.queue[i]).path == p && m.queue[i].kind == kind {
        let i = choose|i: int|
            0 <= i < m.queue.len() && (#[trigger] m.queue[i]).path == p && m.queue[i].kind == kind;
        assert(m.queue[i].key() == (p, kind));
    }
}

} // verus!
