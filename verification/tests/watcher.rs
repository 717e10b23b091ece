use fscache::backing_store::{
    backing_proc_path, chown_id, is_dir, is_dot_name, list_dir, list_dir_name, rename_call,
    stat_target, syscall_unit, xattr_reply, RenameCall, StatTarget, KEEP_ID,
};
use fscache::backing_watch::{
    changed_path, classify, dispatch, next_source, BackingWatcher, PendingEvent, Severity, TouchStep,
    WatchRequest, WatchTarget, WatcherInput, WatcherSource, WatcherStep, IN_ATTRIB, IN_CREATE,
    IN_DELETE, IN_MODIFY, IN_MOVED_FROM, IN_MOVED_TO,
};
use fscache::cache::io::{CacheJobKind, PipelineState};
use fscache::lru_map::RecencyMap;
use fscache::path::RelPath;

fn p(s: &str) -> RelPath {
    RelPath::from_bytes(s.as_bytes())
}

#[test]
fn masks_match_the_system() {
    assert_eq!(IN_MODIFY, libc::IN_MODIFY);
    assert_eq!(IN_ATTRIB, libc::IN_ATTRIB);
    assert_eq!(IN_MOVED_FROM, libc::IN_MOVED_FROM);
    assert_eq!(IN_MOVED_TO, libc::IN_MOVED_TO);
    assert_eq!(IN_CREATE, libc::IN_CREATE);
    assert_eq!(IN_DELETE, libc::IN_DELETE);
}

#[test]
fn events_are_classified_by_their_worst_bit() {
    assert!(matches!(classify(IN_DELETE | IN_MODIFY), Severity::Delete));
    assert!(matches!(classify(IN_MOVED_FROM), Severity::Delete));
    assert!(matches!(classify(IN_MODIFY | IN_ATTRIB), Severity::Modify));
    assert!(matches!(classify(IN_ATTRIB), Severity::Attr));
    assert!(matches!(classify(IN_CREATE), Severity::CreateOrMovedIn));
    assert!(matches!(classify(0), Severity::CreateOrMovedIn));
    assert_eq!(Severity::Delete.kind_str(), "delete");
    assert_eq!(Severity::Modify.kind_str(), "modify");
    assert_eq!(Severity::Attr.kind_str(), "attr");
    assert_eq!(Severity::CreateOrMovedIn.kind_str(), "create");
}

#[test]
fn recency_map_lets_the_oldest_go() {
    let mut map = RecencyMap::new(2);
    map.put(b"a".to_vec(), 1);
    map.put(b"b".to_vec(), 2);
    assert_eq!(map.get(&b"a".to_vec()), Some(1));
    map.put(b"c".to_vec(), 3);
    assert_eq!(map.len(), 2);
    assert_eq!(map.capacity(), 2);
    assert_eq!(map.get(&b"b".to_vec()), None);
    assert_eq!(map.pop(), Some((b"a".to_vec(), 1)));
    assert_eq!(map.pop(), Some((b"c".to_vec(), 3)));
    assert_eq!(map.pop(), None);
}

#[test]
fn touched_directories_are_watched_once() {
    let mut watcher = BackingWatcher::new(2, 100);
    match watcher.touch(&p("")) {
        TouchStep::Watch { evicted: None, target: WatchTarget::Root } => {}
        _ => panic!("the root is watched first"),
    }
    watcher.watch_added(&p(""), 1, 10);
    assert!(matches!(watcher.touch(&p("")), TouchStep::Known));
    match watcher.touch(&p("dir")) {
        TouchStep::Watch { evicted: None, target: WatchTarget::Dir(name) } => {
            assert_eq!(name, b"dir".to_vec());
        }
        _ => panic!("a directory is watched by name"),
    }
    watcher.watch_added(&p("dir"), 2, 11);
    watcher.touch(&p(""));
    match watcher.touch(&p("other")) {
        TouchStep::Watch { evicted: Some(11), .. } => {}
        _ => panic!("the directory that was not touched gives way"),
    }
    assert!(matches!(
        watcher.touch(&RelPath::from_bytes(b"nul\0name")),
        TouchStep::Watch { target: WatchTarget::Unusable, .. }
    ));
}

#[test]
fn bursts_fall_together_in_a_fixed_window() {
    let mut watcher = BackingWatcher::new(4, 100);
    watcher.touch(&p("dir"));
    watcher.watch_added(&p("dir"), 7, 10);
    watcher.handle_event(10, Some(b"f".to_vec()), IN_ATTRIB, 1000);
    watcher.handle_event(10, Some(b"f".to_vec()), IN_DELETE, 1050);
    watcher.handle_event(10, Some(b"f".to_vec()), IN_MODIFY, 1090);
    watcher.handle_event(10, None, IN_DELETE, 1000);
    watcher.handle_event(99, Some(b"g".to_vec()), IN_DELETE, 1000);
    assert!(watcher.take_expired(1099).is_empty());
    let due = watcher.take_expired(1100);
    assert_eq!(due.len(), 1);
    assert!(matches!(due[0].severity, Severity::Delete));
    assert_eq!(due[0].parent_ino, 7);
    assert_eq!(due[0].deadline, 1100);
    assert_eq!(changed_path(&due[0]).to_bytes(), b"dir/f".to_vec());
    assert!(watcher.take_expired(5000).is_empty());
}

#[test]
fn watcher_steps_follow_their_input() {
    let mut watcher = BackingWatcher::new(4, 100);
    assert!(matches!(watcher.step(WatcherInput::Shutdown), WatcherStep::Stop));
    assert!(matches!(watcher.step(WatcherInput::Request(None)), WatcherStep::Stop));
    assert!(matches!(watcher.step(WatcherInput::EventsEnded), WatcherStep::Stop));
    assert!(matches!(watcher.step(WatcherInput::EventError), WatcherStep::Wait));
    let touch = WatchRequest::Touch { rel_path: p("d"), ino: 5 };
    match watcher.step(WatcherInput::Request(Some(touch))) {
        WatcherStep::AddWatch { rel_path, ino, evicted, .. } => {
            assert_eq!(rel_path, p("d"));
            assert_eq!(ino, 5);
            assert_eq!(evicted, None);
            watcher.watch_added(&rel_path, ino, 3);
        }
        _ => panic!("a new directory is watched"),
    }
    let event = WatcherInput::Event { wd: 3, name: Some(b"x".to_vec()), mask: IN_CREATE, now: 10 };
    assert!(matches!(watcher.step(event), WatcherStep::Wait));
    match watcher.step(WatcherInput::Tick { now: 110 }) {
        WatcherStep::Dispatch(due) => assert_eq!(due.len(), 1),
        _ => panic!("a tick hands out what is due"),
    }
}

#[test]
fn shutdown_comes_before_everything() {
    assert!(matches!(next_source(true, true, true, true), WatcherSource::Shutdown));
    assert!(matches!(next_source(false, true, true, true), WatcherSource::Tick));
    assert!(matches!(next_source(false, false, true, true), WatcherSource::Request));
    assert!(matches!(next_source(false, false, false, true), WatcherSource::Event));
    assert!(matches!(next_source(false, false, false, false), WatcherSource::Nothing));
}

#[test]
fn changes_to_cached_files_are_validated() {
    let change = PendingEvent {
        parent_ino: 1,
        name: b"movie.mkv".to_vec(),
        deadline: 0,
        severity: Severity::Modify,
        parent_rel: p(""),
    };
    let mut st = PipelineState::new();
    let report = dispatch(&mut st, &change, false, 5);
    assert_eq!(report.action, "kernel_notified");
    assert_eq!(report.kind, "modify");
    assert_eq!(st.queue_len(), 0);
    st.submit_job(&p("movie.mkv"), CacheJobKind::Replace, true, 1);
    st.pop_next_job(true);
    st.promote(&p("movie.mkv"), CacheJobKind::Replace);
    let report = dispatch(&mut st, &change, true, 5);
    assert_eq!(report.action, "kernel_notified_validation_queued");
    assert_eq!(report.path, p("movie.mkv"));
    assert!(st.is_queued(&p("movie.mkv"), CacheJobKind::Validate));
    assert!(st.is_aborted(&p("movie.mkv"), CacheJobKind::Replace));
}

#[test]
fn names_go_to_the_backing_store() {
    assert!(matches!(stat_target(b""), StatTarget::Descriptor));
    match stat_target(b"/a/b") {
        StatTarget::Name(name) => assert_eq!(name, b"a/b".to_vec()),
        _ => panic!("a name is examined by name"),
    }
    assert_eq!(list_dir_name(b""), b".".to_vec());
    assert_eq!(list_dir_name(b"/a"), b"a".to_vec());
    assert_eq!(list_dir_name(b"a\0b"), b".".to_vec());
    assert!(is_dot_name(b"."));
    assert!(is_dot_name(b".."));
    assert!(!is_dot_name(b"..."));
    let raw = vec![b".".to_vec(), b"a".to_vec(), b"..".to_vec(), b"b".to_vec()];
    assert_eq!(list_dir(&raw), vec![b"a".to_vec(), b"b".to_vec()]);
    assert!(is_dir(Some(0o040755)));
    assert!(!is_dir(Some(0o100644)));
    assert!(!is_dir(None));
    assert_eq!(backing_proc_path(12, b"a/b"), b"/proc/self/fd/12/a/b".to_vec());
    assert_eq!(backing_proc_path(12, b"/a/b"), b"/a/b".to_vec());
    assert_eq!(backing_proc_path(12, b""), b"/proc/self/fd/12/".to_vec());
    assert_eq!(chown_id(None), KEEP_ID);
    assert_eq!(chown_id(Some(7)), 7);
    assert!(matches!(rename_call(0), RenameCall::Plain));
    assert!(matches!(rename_call(1), RenameCall::WithFlags(1)));
    assert_eq!(syscall_unit(0, 5), Ok(()));
    assert_eq!(syscall_unit(-1, 5), Err(5));
    assert_eq!(xattr_reply(0, vec![], 3), vec![0, 0, 0]);
    assert_eq!(xattr_reply(4, vec![1, 2, 3, 4], 2), vec![1, 2]);
}

#[test]
fn touching_again_changes_nothing() {
    let mut watcher = BackingWatcher::new(2, 100);
    for (name, wd) in [("a", 1), ("b", 2)] {
        watcher.touch(&p(name));
        watcher.watch_added(&p(name), wd as u64, wd);
    }
    assert!(matches!(watcher.touch(&p("a")), TouchStep::Known));
    assert!(matches!(watcher.touch(&p("a")), TouchStep::Known));
    assert!(matches!(watcher.touch(&p("c")), TouchStep::Watch { evicted: Some(2), .. }));
}
