use fscache::cache::copy::{
    chunk_step, copied_mode, partial_path, ChunkStep, CopyAction, CopyEvent, CopyFailure, CopyRun,
    SourceAttributes, SourceStamp,
};
use fscache::cache::io::{
    spawn, validation_action, CacheIoConfig, CacheJobKind, DispatchStep, PipelineState,
    PopulateStage, StaleResult, SubmitOutcome, ValidationAction,
};
use fscache::copier::CopyToCache;
use fscache::path::RelPath;

fn p(s: &str) -> RelPath {
    RelPath::from_bytes(s.as_bytes())
}

#[test]
fn jobs_are_queued_once() {
    let mut st = PipelineState::new();
    assert_eq!(st.submit_job(&p("a"), CacheJobKind::Populate, true, 5), SubmitOutcome::AlreadyCached);
    assert_eq!(
        st.submit_job(&p("a"), CacheJobKind::Populate, false, 5),
        SubmitOutcome::Queued { len: 1, persist: true }
    );
    assert_eq!(st.submit_job(&p("a"), CacheJobKind::Populate, false, 6), SubmitOutcome::AlreadyKnown);
    assert_eq!(
        st.submit_job(&p("a"), CacheJobKind::Validate, true, 6),
        SubmitOutcome::Queued { len: 2, persist: false }
    );
    assert_eq!(
        st.submit_job(&p("a"), CacheJobKind::Replace, true, 6),
        SubmitOutcome::Queued { len: 3, persist: false }
    );
    assert_eq!(st.queue_len(), 3);
}

#[test]
fn a_job_is_known_until_it_is_finished() {
    let mut st = PipelineState::new();
    st.submit_job(&p("a"), CacheJobKind::Populate, false, 5);
    let job = st.pop_next_job(true).expect("one job waits");
    assert_eq!(job.enqueue_ts, 5);
    assert!(!st.is_queued(&p("a"), CacheJobKind::Populate));
    assert_eq!(st.submit_job(&p("a"), CacheJobKind::Populate, false, 6), SubmitOutcome::AlreadyKnown);
    assert!(st.finish(&p("a"), CacheJobKind::Populate));
    assert_eq!(
        st.submit_job(&p("a"), CacheJobKind::Populate, false, 7),
        SubmitOutcome::Queued { len: 1, persist: true }
    );
}

#[test]
fn closed_window_lets_validations_pass() {
    let mut st = PipelineState::new();
    st.submit_job(&p("a"), CacheJobKind::Populate, false, 1);
    st.submit_job(&p("b"), CacheJobKind::Validate, true, 2);
    st.submit_job(&p("c"), CacheJobKind::Validate, true, 3);
    let job = st.pop_next_job(false).expect("a validation waits");
    assert_eq!(job.rel_path, p("b"));
    assert_eq!(st.pop_next_job(true).expect("the oldest job").rel_path, p("a"));
    assert_eq!(st.pop_next_job(false).expect("the other validation").rel_path, p("c"));
    assert!(st.pop_next_job(true).is_none());
}

#[test]
fn dispatching_copies_needs_a_permit() {
    let mut st = PipelineState::new();
    st.submit_job(&p("a"), CacheJobKind::Populate, false, 1);
    st.submit_job(&p("b"), CacheJobKind::Validate, true, 2);
    assert!(matches!(st.dispatch(true, true), DispatchStep::Stop));
    assert!(matches!(st.dispatch(false, false), DispatchStep::Run { needs_permit: false, .. }));
    assert!(matches!(st.dispatch(false, false), DispatchStep::Idle));
    assert!(matches!(st.dispatch(false, true), DispatchStep::Run { needs_permit: true, .. }));
}

#[test]
fn stale_jobs_leave_from_the_front() {
    let mut st = PipelineState::new();
    st.submit_job(&p("a"), CacheJobKind::Populate, false, 100);
    st.submit_job(&p("b"), CacheJobKind::Validate, true, 110);
    st.submit_job(&p("c"), CacheJobKind::Populate, false, 940);
    assert!(st.expire_stale(10_000, 0).is_empty());
    let expired = st.expire_stale(1000, 1);
    assert_eq!(expired, vec![p("a")]);
    assert_eq!(st.queue_len(), 1);
    assert!(st.is_queued(&p("c"), CacheJobKind::Populate));
    assert!(st.expire_stale(1000, u64::MAX).is_empty());
    assert_eq!(
        st.submit_job(&p("a"), CacheJobKind::Populate, false, 1000),
        SubmitOutcome::Queued { len: 2, persist: true }
    );
}

#[test]
fn aborting_reaches_copies_in_flight_only() {
    let mut st = PipelineState::new();
    st.submit_job(&p("a"), CacheJobKind::Replace, true, 1);
    st.mark_abort(&p("a"));
    assert!(!st.is_aborted(&p("a"), CacheJobKind::Replace));
    st.pop_next_job(true);
    st.promote(&p("a"), CacheJobKind::Replace);
    assert!(!st.is_aborted(&p("a"), CacheJobKind::Replace));
    st.mark_abort(&p("a"));
    assert!(st.is_aborted(&p("a"), CacheJobKind::Replace));
    st.finish(&p("a"), CacheJobKind::Replace);
    assert!(!st.is_aborted(&p("a"), CacheJobKind::Replace));
}

#[test]
fn restart_restores_each_path_once() {
    let cfg = CacheIoConfig {
        max_concurrent_copies: 3,
        eviction_interval_secs: 0,
        deferred_ttl_minutes: 1440,
    };
    let (mut st, plan) = spawn(&cfg, &vec![(p("a"), 7), (p("b"), 8), (p("a"), 9)]);
    assert_eq!(plan.restored, 2);
    assert!(plan.wake);
    assert_eq!(plan.permits, 3);
    assert_eq!(plan.evict_every_secs, None);
    assert_eq!(st.pop_next_job(true).unwrap().enqueue_ts, 7);
    let cfg = CacheIoConfig { eviction_interval_secs: 60, ..cfg };
    let (_, plan) = spawn(&cfg, &vec![]);
    assert!(!plan.wake);
    assert_eq!(plan.evict_every_secs, Some(60));
}

#[test]
fn populating_evicts_only_without_space() {
    assert_eq!(PopulateStage::start(CacheJobKind::Populate), PopulateStage::AskCached);
    assert_eq!(PopulateStage::start(CacheJobKind::Replace), PopulateStage::Promote);
    assert_eq!(PopulateStage::AskCached.next(true), PopulateStage::Finish);
    assert_eq!(PopulateStage::AskCached.next(false), PopulateStage::Promote);
    let mut stage = PopulateStage::Promote;
    let mut seen = vec![stage];
    for ok in [true, true, true, true] {
        stage = stage.next(ok);
        seen.push(stage);
    }
    assert!(seen.contains(&PopulateStage::Copy));
    assert!(!seen.contains(&PopulateStage::EvictToFit));
    assert_eq!(PopulateStage::AskSpace.next(false), PopulateStage::AskSpaceLocked);
    assert_eq!(PopulateStage::AskSpaceLocked.next(false), PopulateStage::EvictToFit);
    assert_eq!(PopulateStage::AskSpaceAgain.next(false), PopulateStage::ReportNoSpace);
    assert_eq!(PopulateStage::Copy.next(false), PopulateStage::ReportCopyFailed);
    assert_eq!(PopulateStage::Copy.next(true), PopulateStage::MarkCached);
}

#[test]
fn finished_populating_drops_the_deferral() {
    let mut st = PipelineState::new();
    st.submit_job(&p("a"), CacheJobKind::Populate, false, 1);
    st.pop_next_job(true);
    let mut stage = PopulateStage::start(CacheJobKind::Populate);
    let mut dropped = false;
    let mut rounds = 0;
    while stage != PopulateStage::Finish {
        let ok = stage != PopulateStage::AskCached;
        let (next, drop_now) = st.populate_step(&p("a"), CacheJobKind::Populate, stage, ok);
        stage = next;
        dropped = drop_now;
        rounds += 1;
        assert!(rounds < 20);
    }
    assert!(dropped);
    assert_eq!(
        st.submit_job(&p("a"), CacheJobKind::Populate, false, 9),
        SubmitOutcome::Queued { len: 1, persist: true }
    );
}

#[test]
fn validation_results_are_acted_on() {
    assert_eq!(validation_action(StaleResult::Fresh), ValidationAction::Nothing);
    assert_eq!(validation_action(StaleResult::NotTracked), ValidationAction::Nothing);
    assert_eq!(validation_action(StaleResult::NeedsBackfill), ValidationAction::BackfillFingerprint);
    assert_eq!(validation_action(StaleResult::BackingGone), ValidationAction::DropStale);
    assert_eq!(validation_action(StaleResult::Stale), ValidationAction::SubmitReplace);
    let mut st = PipelineState::new();
    st.submit_job(&p("a"), CacheJobKind::Validate, true, 1);
    st.pop_next_job(false);
    assert_eq!(st.validate_step(&p("a"), StaleResult::Stale, 2), ValidationAction::SubmitReplace);
    assert!(st.is_queued(&p("a"), CacheJobKind::Replace));
    // Until it is ended, the validation is not queued again.
    assert_eq!(
        st.submit_job(&p("a"), CacheJobKind::Validate, true, 3),
        SubmitOutcome::AlreadyKnown
    );
    assert!(!st.finish(&p("a"), CacheJobKind::Validate));
    assert_eq!(
        st.submit_job(&p("a"), CacheJobKind::Validate, true, 4),
        SubmitOutcome::Queued { len: 2, persist: false }
    );
    assert!(st.is_queued(&p("a"), CacheJobKind::Replace));
}

#[test]
fn known_replacements_are_not_queued_again() {
    let mut st = PipelineState::new();
    st.submit_job(&p("a"), CacheJobKind::Replace, true, 1);
    st.submit_job(&p("a"), CacheJobKind::Validate, true, 1);
    assert_eq!(st.validate_step(&p("a"), StaleResult::Stale, 2), ValidationAction::SubmitReplace);
    assert_eq!(st.queue_len(), 2);
    assert_eq!(st.validate_step(&p("a"), StaleResult::BackingGone, 3), ValidationAction::DropStale);
    assert_eq!(st.queue_len(), 2);
}

fn source() -> SourceAttributes {
    SourceAttributes {
        stamp: SourceStamp { size: 10, mtime: 20, mtime_nsec: 30 },
        mode: 0o100644,
        uid: 1,
        gid: 2,
        atime: 40,
        atime_nsec: 50,
    }
}

fn until_check() -> CopyRun {
    let mut run = CopyRun::begin(true);
    loop {
        let event = match run.action() {
            CopyAction::StatSource => CopyEvent::Source(source()),
            CopyAction::CheckSource => return run,
            CopyAction::SetMode { mode } => {
                assert_eq!(mode, 0o644);
                CopyEvent::Done
            }
            CopyAction::SetOwner { uid, gid } => {
                assert_eq!((uid, gid), (1, 2));
                CopyEvent::Error
            }
            CopyAction::SetTimes { atime, atime_nsec, mtime, mtime_nsec } => {
                assert_eq!((atime, atime_nsec, mtime, mtime_nsec), (40, 50, 20, 30));
                CopyEvent::Done
            }
            _ => CopyEvent::Done,
        };
        run = run.advance(event);
    }
}

#[test]
fn unchanged_sources_are_committed() {
    let stamp = source().stamp;
    let run = until_check().advance(CopyEvent::Checked { aborted: false, now: Some(stamp) });
    assert_eq!(run.action(), CopyAction::Rename);
    assert_eq!(run.advance(CopyEvent::Done).action(), CopyAction::Succeeded);
    assert_eq!(run.advance(CopyEvent::Error).action(), CopyAction::RemovePartial);
    let gone = until_check().advance(CopyEvent::Checked { aborted: false, now: None });
    assert_eq!(gone.action(), CopyAction::Rename);
    assert_eq!(gone.source(), Some(source()));
}

#[test]
fn changed_sources_are_not_committed() {
    let mut stamp = source().stamp;
    stamp.mtime_nsec += 1;
    for event in [
        CopyEvent::Checked { aborted: false, now: Some(stamp) },
        CopyEvent::Checked { aborted: true, now: Some(source().stamp) },
    ] {
        let run = until_check().advance(event);
        assert_eq!(run.action(), CopyAction::RemovePartial);
        assert_eq!(
            run.advance(CopyEvent::Error).action(),
            CopyAction::Failed { cause: CopyFailure::SourceChanged }
        );
    }
}

#[test]
fn failed_copies_remove_their_partial_file() {
    let run = CopyRun::begin(false);
    assert_eq!(run.action(), CopyAction::OpenSource);
    let run = run.advance(CopyEvent::Error);
    assert_eq!(run.action(), CopyAction::RemovePartial);
    assert_eq!(run.advance(CopyEvent::Done).action(), CopyAction::Failed { cause: CopyFailure::Io });
    let early = CopyRun::begin(true).advance(CopyEvent::Error);
    assert_eq!(early.action(), CopyAction::Failed { cause: CopyFailure::Io });
}

#[test]
fn pieces_are_counted() {
    let mut copied = 0u64;
    assert_eq!(chunk_step(&mut copied, Some(5)), ChunkStep::Write { count: 5 });
    assert_eq!(chunk_step(&mut copied, Some(7)), ChunkStep::Write { count: 7 });
    assert_eq!(copied, 12);
    assert_eq!(chunk_step(&mut copied, Some(0)), ChunkStep::Complete);
    assert_eq!(chunk_step(&mut copied, None), ChunkStep::Failed);
    assert_eq!(copied, 12);
    let mut full = u64::MAX;
    chunk_step(&mut full, Some(2));
    assert_eq!(full, 1);
}

#[test]
fn partial_files_stand_beside_their_destination() {
    assert_eq!(partial_path(b"/cache/a.mkv"), b"/cache/a.mkv.partial".to_vec());
    assert_eq!(copied_mode(0o104755), 0o4755);
}

#[test]
fn plain_copies_close_the_source_either_way() {
    assert_eq!(CopyToCache::begin(false), CopyToCache::OpenSource);
    assert_eq!(CopyToCache::begin(true).next(true), CopyToCache::OpenSource);
    let copied = CopyToCache::CopyBytes.next(true);
    assert_eq!(copied, CopyToCache::CloseSource { copied: true });
    assert_eq!(copied.next(false), CopyToCache::Sync);
    let torn = CopyToCache::CopyBytes.next(false);
    assert_eq!(torn, CopyToCache::CloseSource { copied: false });
    assert_eq!(torn.next(true), CopyToCache::Failed);
    assert_eq!(CopyToCache::Sync.next(true), CopyToCache::Rename);
    assert_eq!(CopyToCache::Rename.next(true), CopyToCache::Succeeded);
    assert_eq!(CopyToCache::Rename.next(false), CopyToCache::Failed);
}

#[test]
fn maintenance_validates_every_recorded_file() {
    let mut st = PipelineState::new();
    st.submit_job(&p("b"), CacheJobKind::Validate, true, 1);
    let queued = st.submit_maintenance_validation(&vec![p("a"), p("b"), p("a"), p("c")], 2);
    assert_eq!(queued, 2);
    assert!(st.is_queued(&p("a"), CacheJobKind::Validate));
    assert!(st.is_queued(&p("c"), CacheJobKind::Validate));
    assert_eq!(st.queue_len(), 3);
}

#[test]
fn buffered_copies_wait_for_the_window() {
    let mut st = PipelineState::new();
    st.submit_job(&p("a"), CacheJobKind::Populate, false, 1);
    st.submit_job(&p("v"), CacheJobKind::Validate, true, 2);
    st.submit_job(&p("b"), CacheJobKind::Replace, true, 3);
    assert_eq!(st.pop_next_job(false).unwrap().rel_path, p("v"));
    assert!(st.pop_next_job(false).is_none());
    assert_eq!(st.pop_next_job(true).unwrap().rel_path, p("a"));
    assert_eq!(st.pop_next_job(true).unwrap().rel_path, p("b"));
}
