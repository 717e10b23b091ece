use fscache::fuse::attr::{
    dirent_filetype, mode_to_filetype, source_metadata_to_attr, stat_to_attr, FileStat, FileType,
    SourceMetadata, Timestamp, DT_BLK, DT_CHR, DT_DIR, DT_FIFO, DT_LNK, DT_SOCK, S_IFBLK, S_IFCHR,
    S_IFDIR, S_IFIFO, S_IFLNK, S_IFMT, S_IFSOCK,
};
use fscache::fuse::credentials::{CredentialCall, CredentialStage, DeniedId};
use fscache::fuse::fusefs::{
    apply_umask, is_write_intent, EngineEvent, FsCache, OpenOutcome, OpenPlan, RawEntry, Released,
    ENOENT, O_ACCMODE, O_APPEND, O_CREAT, O_RDWR, O_TRUNC, O_WRONLY, TTL_SECS,
};
use fscache::fuse::read::{
    begin_lookup, entry_offset, log_open_outcome, opendir_name, readdir_start, reply_attr,
    xattr_reply, AttrReply, LogLevel, TryOpen, XattrReply,
};
use fscache::fuse::util::{abs_to_cstring, io_to_errno, path_to_cstring, rel_to_cstring, EIO};
use fscache::fuse::write::{
    authorize, begin_create, begin_setxattr, call_done, finish_create, first_check, resolve,
    time_or_now_to_timespec, write_call, CreateReply, FirstCheck, NodeCall, NodeFollowUp,
    NodeRequest, SetattrAction, SetattrEvent, SetattrRequest, TimeOrNow, Timespec, WriteCall, ENOSYS,
};
use fscache::path::RelPath;

fn p(s: &str) -> RelPath {
    RelPath::from_bytes(s.as_bytes())
}

fn stat(mode: u32) -> FileStat {
    FileStat {
        mode,
        size: 100,
        blocks: 8,
        atime: 1,
        atime_nsec: 2,
        mtime: 3,
        mtime_nsec: 4,
        ctime: 5,
        ctime_nsec: 6,
        nlink: 1,
        uid: 1000,
        gid: 1000,
        rdev: 0,
        blksize: 4096,
    }
}

fn metadata() -> SourceMetadata {
    SourceMetadata {
        mode: 0o100640,
        size: 7,
        blocks: 1,
        atime_sec: -5,
        atime_nsec: -1,
        mtime_sec: 9,
        mtime_nsec: 10,
        ctime_sec: 11,
        ctime_nsec: 12,
        nlink: 2,
        uid: 3,
        gid: 4,
        rdev: 5,
        blksize: 512,
    }
}

#[test]
fn numbers_match_the_system() {
    assert_eq!(ENOENT, libc::ENOENT);
    assert_eq!(ENOSYS, libc::ENOSYS);
    assert_eq!(EIO, libc::EIO);
    assert_eq!(TTL_SECS, 1);
    assert_eq!((O_ACCMODE, O_WRONLY, O_RDWR), (libc::O_ACCMODE, libc::O_WRONLY, libc::O_RDWR));
    assert_eq!((O_CREAT, O_TRUNC, O_APPEND), (libc::O_CREAT, libc::O_TRUNC, libc::O_APPEND));
    assert_eq!((S_IFMT, S_IFDIR, S_IFLNK), (libc::S_IFMT, libc::S_IFDIR, libc::S_IFLNK));
    assert_eq!((S_IFBLK, S_IFCHR), (libc::S_IFBLK, libc::S_IFCHR));
    assert_eq!((S_IFIFO, S_IFSOCK), (libc::S_IFIFO, libc::S_IFSOCK));
    assert_eq!((DT_DIR, DT_LNK, DT_BLK), (libc::DT_DIR, libc::DT_LNK, libc::DT_BLK));
    assert_eq!((DT_CHR, DT_FIFO, DT_SOCK), (libc::DT_CHR, libc::DT_FIFO, libc::DT_SOCK));
}

#[test]
fn file_types_go_by_mode() {
    assert_eq!(mode_to_filetype(0o040755), FileType::Directory);
    assert_eq!(mode_to_filetype(0o120777), FileType::Symlink);
    assert_eq!(mode_to_filetype(0o060000), FileType::BlockDevice);
    assert_eq!(mode_to_filetype(0o020000), FileType::CharDevice);
    assert_eq!(mode_to_filetype(0o010000), FileType::NamedPipe);
    assert_eq!(mode_to_filetype(0o140000), FileType::Socket);
    assert_eq!(mode_to_filetype(0o100644), FileType::RegularFile);
    assert_eq!(dirent_filetype(DT_LNK), Some(FileType::Symlink));
    assert_eq!(dirent_filetype(0), None);
    assert_eq!(dirent_filetype(8), None);
}

#[test]
fn attributes_come_from_the_file() {
    let s = stat(0o104755);
    assert!(s.is_in_range());
    let attr = stat_to_attr(42, &s);
    assert_eq!(attr.ino, 42);
    assert_eq!(attr.size, 100);
    assert_eq!(attr.perm, 0o4755);
    assert_eq!(attr.kind, FileType::RegularFile);
    assert_eq!(attr.mtime, Timestamp { secs: 3, nanos: 4 });
    let mut early = s;
    early.mtime = -1;
    assert!(!early.is_in_range());
}

#[test]
fn recorded_attributes_are_cut_off_at_the_epoch() {
    let m = metadata();
    assert!(m.is_in_range());
    let attr = source_metadata_to_attr(7, &m);
    assert_eq!(attr.atime, Timestamp { secs: 0, nanos: 0 });
    assert_eq!(attr.mtime, Timestamp { secs: 9, nanos: 10 });
    assert_eq!(attr.kind, FileType::RegularFile);
    assert_eq!(attr.perm, 0o640);
    assert_eq!(attr.nlink, 2);
}

#[test]
fn flags_tell_write_intent() {
    assert!(!is_write_intent(libc::O_RDONLY));
    assert!(is_write_intent(libc::O_WRONLY));
    assert!(is_write_intent(libc::O_RDWR));
    assert!(is_write_intent(libc::O_RDONLY | libc::O_TRUNC));
    assert!(is_write_intent(libc::O_RDONLY | libc::O_APPEND));
    assert!(!is_write_intent(libc::O_RDONLY | libc::O_CREAT));
    assert_eq!(apply_umask(0o777, 0o022), 0o755);
}

#[test]
fn repeated_logs_are_suppressed_for_a_while() {
    let mut fs = FsCache::new();
    assert_eq!(fs.repeat_log_window_ms, 60_000);
    assert!(!fs.should_suppress_log(&p("a"), 1_000));
    assert!(fs.should_suppress_log(&p("a"), 60_999));
    assert!(!fs.should_suppress_log(&p("a"), 61_000));
    assert!(!fs.should_suppress_log(&p("b"), 61_000));
    fs.repeat_log_window_ms = 0;
    assert!(!fs.should_suppress_log(&p("a"), 61_001));
    assert!(!fs.should_suppress_log(&p("a"), 61_001));
}

#[test]
fn paths_are_found_through_inodes() {
    let mut fs = FsCache::new();
    assert_eq!(fs.child_path(1, b"a").unwrap(), p("a"));
    assert_eq!(fs.child_path(9, b"a"), Err(ENOENT));
    assert_eq!(fs.path_for_ino(9), Err(ENOENT));
    assert!(fs.has_inode_room(1000));
    let (child, ino) = begin_lookup(&mut fs, 1, b"dir").unwrap();
    assert_eq!(child, p("dir"));
    assert_eq!(fs.path_for_ino(ino).unwrap(), p("dir"));
    assert_eq!(fs.child_path(ino, b"x").unwrap(), p("dir/x"));
    assert_eq!(begin_lookup(&mut fs, 77, b"x"), Err(ENOENT));
    fs.forget(ino, 1);
    assert_eq!(fs.path_for_ino(ino), Err(ENOENT));
}

#[test]
fn listings_begin_with_dots() {
    let mut fs = FsCache::new();
    let (_, dir) = begin_lookup(&mut fs, 1, b"dir").unwrap();
    let raw = vec![
        RawEntry { name: b".".to_vec(), d_type: DT_DIR, mode: None },
        RawEntry { name: b"sub".to_vec(), d_type: DT_DIR, mode: None },
        RawEntry { name: b"odd".to_vec(), d_type: 0, mode: Some(0o120777) },
        RawEntry { name: b"gone".to_vec(), d_type: 0, mode: None },
    ];
    let list = fs.list_dir_entries(&p("dir"), &raw);
    let shown: Vec<(&[u8], FileType)> = list.iter().map(|e| (e.name.as_slice(), e.kind)).collect();
    assert_eq!(
        shown,
        vec![
            (&b"."[..], FileType::Directory),
            (&b".."[..], FileType::Directory),
            (&b"sub"[..], FileType::Directory),
            (&b"odd"[..], FileType::Symlink),
            (&b"gone"[..], FileType::RegularFile),
        ]
    );
    assert_eq!(list[0].ino, dir);
    assert_eq!(list[1].ino, 1);
    assert_eq!(fs.path_for_ino(list[2].ino).unwrap(), p("dir/sub"));
}

#[test]
fn reading_directories_resumes() {
    assert_eq!(readdir_start(5, 0), 0);
    assert_eq!(readdir_start(5, 3), 3);
    assert_eq!(readdir_start(5, 9), 5);
    assert_eq!(entry_offset(0), 1);
    assert_eq!(readdir_start(5, entry_offset(2)), 3);
}

#[test]
fn reads_are_counted_until_closed() {
    let mut fs = FsCache::new();
    let (path, ino) = begin_lookup(&mut fs, 1, b"a").unwrap();
    match fs.begin_open(ino, libc::O_RDONLY, 0) {
        OpenPlan::Read { path: q, suppress } => {
            assert_eq!(q, path);
            assert!(!suppress);
        }
        _ => panic!("reading was asked for"),
    }
    assert!(matches!(fs.finish_open(5, &path, OpenOutcome::Miss, false), Some(EngineEvent::Miss)));
    fs.bytes_read(5, 10);
    fs.bytes_read(5, 20);
    fs.bytes_read(6, 99);
    match fs.release(5) {
        Released::Read { bytes_read, notify } => {
            assert_eq!(bytes_read, 30);
            assert_eq!(notify, Some(p("a")));
        }
        _ => panic!("a reader was closed"),
    }
    match fs.release(5) {
        Released::Read { bytes_read: 0, notify: None } => {}
        _ => panic!("an unknown handle has read nothing"),
    }
    assert!(matches!(fs.begin_open(99, 0, 0), OpenPlan::NotFound));
}

#[test]
fn filtered_and_passed_through_opens_stay_quiet() {
    let mut fs = FsCache::new();
    let path = p("a");
    assert!(fs.finish_open(5, &path, OpenOutcome::Filtered, true).is_none());
    assert!(fs.finish_open(5, &path, OpenOutcome::Hit, true).is_none());
    assert!(matches!(fs.finish_open(6, &path, OpenOutcome::Hit, false), Some(EngineEvent::Hit)));
    fs.passthrough_mode = true;
    assert!(fs.finish_open(7, &path, OpenOutcome::Miss, false).is_none());
    assert!(matches!(fs.release(7), Released::Read { notify: None, .. }));
}

#[test]
fn writers_remember_appending() {
    let mut fs = FsCache::new();
    fs.write_opened(5, &p("a"), libc::O_WRONLY | libc::O_APPEND);
    fs.write_opened(6, &p("b"), libc::O_WRONLY);
    assert!(fs.appends(5, 0));
    assert!(!fs.appends(6, 0));
    assert!(fs.appends(6, libc::O_APPEND));
    assert!(matches!(write_call(&fs, 5, 10, 0), WriteCall::Append));
    assert!(matches!(write_call(&fs, 6, 10, 0), WriteCall::At { offset: 10 }));
    match fs.release(5) {
        Released::Write { path } => assert_eq!(path, p("a")),
        _ => panic!("a writer was closed"),
    }
    assert!(!fs.appends(5, 0));
    fs.write_abandoned(6);
    assert!(matches!(fs.release(6), Released::Read { .. }));
}

#[test]
fn cached_copies_are_tried_first() {
    assert_eq!(TryOpen::begin(false, true), TryOpen::Cache);
    assert_eq!(TryOpen::begin(true, true), TryOpen::Backing);
    assert_eq!(TryOpen::begin(false, false), TryOpen::Backing);
    assert_eq!(TryOpen::Cache.next(Ok(3), true), TryOpen::Opened { fh: 3, outcome: OpenOutcome::Hit });
    assert_eq!(TryOpen::Cache.next(Err(2), false), TryOpen::Backing);
    assert_eq!(
        TryOpen::Backing.next(Ok(3), true),
        TryOpen::Opened { fh: 3, outcome: OpenOutcome::Filtered }
    );
    assert_eq!(
        TryOpen::Backing.next(Ok(3), false),
        TryOpen::Opened { fh: 3, outcome: OpenOutcome::Miss }
    );
    assert_eq!(TryOpen::Backing.next(Err(13), false), TryOpen::Failed { errno: 13 });
}

#[test]
fn opens_are_logged() {
    let hit = log_open_outcome("\"a\"", None, 1, OpenOutcome::Hit, true);
    assert_eq!(hit.message, "cache HIT: \"a\" (serving from SSD)");
    assert_eq!(hit.event, Some("cache_hit"));
    assert_eq!(hit.level, LogLevel::Info);
    let miss = log_open_outcome("\"a\"", Some("vlc"), 12, OpenOutcome::Miss, true);
    assert_eq!(miss.message, "cache MISS: \"a\" (serving from backing store) [opener: vlc pid=12]");
    assert_eq!(miss.level, LogLevel::Debug);
    let filtered = log_open_outcome("\"a\"", None, 12, OpenOutcome::Filtered, true);
    assert_eq!(
        filtered.message,
        "ignored process access: \"a\" (filtered by preset, not caching) [opener: ? pid=12]"
    );
    assert_eq!(filtered.event, None);
    assert_eq!(filtered.level, LogLevel::Info);
}

#[test]
fn attributes_are_replied() {
    match reply_attr(3, Some(metadata()), None) {
        AttrReply::Attr { attr, watch } => {
            assert_eq!(attr.size, 7);
            assert!(!watch);
        }
        _ => panic!("recorded attributes serve"),
    }
    assert!(matches!(
        reply_attr(3, None, Some(stat(0o040755))),
        AttrReply::Attr { watch: true, .. }
    ));
    assert!(matches!(
        reply_attr(3, None, Some(stat(0o100644))),
        AttrReply::Attr { watch: false, .. }
    ));
    assert_eq!(reply_attr(3, None, None), AttrReply::Error { errno: ENOENT });
}

#[test]
fn extended_attributes_are_sized_or_sent() {
    assert!(matches!(xattr_reply(0, Ok(vec![0; 5])), XattrReply::Size(5)));
    match xattr_reply(8, Ok(vec![1, 2])) {
        XattrReply::Data(data) => assert_eq!(data, vec![1, 2]),
        _ => panic!("data was asked for"),
    }
    assert!(matches!(xattr_reply(8, Err(61)), XattrReply::Error(61)));
    assert_eq!(opendir_name(&p("")), b".".to_vec());
    assert_eq!(opendir_name(&p("a/b")), b"a/b".to_vec());
}

#[test]
fn c_names_hold_no_nul() {
    assert_eq!(rel_to_cstring(b"/a/b"), b"a/b".to_vec());
    assert_eq!(rel_to_cstring(b"a\0b"), b".".to_vec());
    assert_eq!(abs_to_cstring(b"/a"), b"/a".to_vec());
    assert_eq!(abs_to_cstring(b"\0"), b"/dev/null".to_vec());
    assert_eq!(path_to_cstring(b"a\0"), None);
    assert_eq!(path_to_cstring(b"a"), Some(b"a".to_vec()));
    assert_eq!(io_to_errno(None), EIO);
    assert_eq!(io_to_errno(Some(13)), 13);
}

#[test]
fn times_are_set_or_kept() {
    let given = TimeOrNow::SpecificTime(Some(Timestamp { secs: 5, nanos: 6 }));
    let now = Some(Timestamp { secs: 100, nanos: 0 });
    assert_eq!(time_or_now_to_timespec(Some(given), 1, 2, now), Timespec { tv_sec: 5, tv_nsec: 6 });
    assert_eq!(
        time_or_now_to_timespec(Some(TimeOrNow::Now), 1, 2, now),
        Timespec { tv_sec: 100, tv_nsec: 0 }
    );
    assert_eq!(time_or_now_to_timespec(None, -1, 2, now), Timespec { tv_sec: -1, tv_nsec: 2 });
    assert_eq!(
        time_or_now_to_timespec(Some(TimeOrNow::SpecificTime(None)), 1, 2, now),
        Timespec { tv_sec: 0, tv_nsec: 0 }
    );
}

#[test]
fn attributes_are_changed_in_order() {
    let request = SetattrRequest {
        mode: Some(0o600),
        uid: None,
        gid: Some(7),
        size: Some(10),
        atime: Some(TimeOrNow::Now),
        mtime: None,
        fh: None,
    };
    let now = Some(Timestamp { secs: 50, nanos: 0 });
    let mut action = request.begin();
    assert_eq!(action, SetattrAction::Chmod { mode: 0o600 });
    action = request.next(3, action, SetattrEvent::Done);
    assert_eq!(action, SetattrAction::Chown { uid: None, gid: Some(7) });
    action = request.next(3, action, SetattrEvent::Done);
    assert_eq!(action, SetattrAction::TruncatePath { size: 10 });
    action = request.next(3, action, SetattrEvent::Done);
    assert_eq!(action, SetattrAction::StatForTimes);
    action = request.next(3, action, SetattrEvent::Examined { stat: Some(stat(0o100600)), now });
    assert_eq!(
        action,
        SetattrAction::SetTimes {
            atime: Timespec { tv_sec: 50, tv_nsec: 0 },
            mtime: Timespec { tv_sec: 3, tv_nsec: 4 },
        }
    );
    action = request.next(3, action, SetattrEvent::Done);
    assert_eq!(action, SetattrAction::StatForReply);
    action = request.next(3, action, SetattrEvent::Examined { stat: Some(stat(0o100600)), now });
    assert!(matches!(action, SetattrAction::Reply { .. }));
    let failed = request.next(3, request.begin(), SetattrEvent::Failed { errno: 1 });
    assert_eq!(failed, SetattrAction::Error { errno: 1 });
    let nothing = SetattrRequest {
        mode: None,
        uid: None,
        gid: None,
        size: None,
        atime: None,
        mtime: None,
        fh: Some(9),
    };
    assert_eq!(nothing.begin(), SetattrAction::StatForReply);
    let gone = nothing.next(3, nothing.begin(), SetattrEvent::Examined { stat: None, now });
    assert_eq!(gone, SetattrAction::Error { errno: ENOENT });
    let shorten = SetattrRequest { size: Some(4), ..nothing };
    assert_eq!(shorten.begin(), SetattrAction::TruncateHandle { fh: 9, size: 4 });
}

#[test]
fn nodes_are_made_and_moved() {
    let mut fs = FsCache::new();
    let mkdir = NodeRequest::Mkdir { parent: 1, name: b"d".to_vec(), mode: 0o777, umask: 0o022 };
    match resolve(&fs, &mkdir) {
        Ok(NodeCall::Mkdir { path, mode }) => {
            assert_eq!(path, p("d"));
            assert_eq!(mode, 0o755);
        }
        _ => panic!("a directory is made"),
    }
    assert!(matches!(first_check(&mkdir), FirstCheck::Identity));
    let unlink = NodeRequest::Unlink { parent: 9, name: b"x".to_vec() };
    assert!(matches!(first_check(&unlink), FirstCheck::Inodes));
    assert!(matches!(authorize(&fs, &unlink, Err(5)), Err(ENOENT)));
    let rmdir = NodeRequest::Rmdir { parent: 1, name: b"x".to_vec() };
    assert!(matches!(authorize(&fs, &rmdir, Err(5)), Err(5)));
    let lost = NodeRequest::Mkdir { parent: 9, name: b"d".to_vec(), mode: 0, umask: 0 };
    assert!(matches!(authorize(&fs, &lost, Err(5)), Err(5)));
    assert!(matches!(authorize(&fs, &lost, Ok(())), Err(ENOENT)));

    let (_, dir) = begin_lookup(&mut fs, 1, b"dir").unwrap();
    let (_, file) = begin_lookup(&mut fs, dir, b"file").unwrap();
    let rename = NodeRequest::Rename {
        parent: 1,
        name: b"dir".to_vec(),
        new_parent: 1,
        new_name: b"dir2".to_vec(),
        flags: 0,
    };
    let call = resolve(&fs, &rename).ok().unwrap();
    assert!(matches!(call_done(&mut fs, call), NodeFollowUp::ReplyOk));
    assert_eq!(fs.path_for_ino(file).unwrap(), p("dir2/file"));
    let link = NodeRequest::Link { ino: file, parent: 1, name: b"hard".to_vec() };
    let call = resolve(&fs, &link).ok().unwrap();
    match call_done(&mut fs, call) {
        NodeFollowUp::Examine { path } => assert_eq!(path, p("hard")),
        _ => panic!("a new name is examined"),
    }
    let attr = fs.fresh_attr_for_path(&p("hard"), Some(stat(0o100644))).unwrap();
    assert_eq!(fs.path_for_ino(attr.ino).unwrap(), p("hard"));
    assert_eq!(fs.fresh_attr_for_path(&p("none"), None), Err(ENOENT));
    let call = resolve(&fs, &NodeRequest::Rmdir { parent: 1, name: b"dir2".to_vec() }).ok().unwrap();
    assert!(matches!(call_done(&mut fs, call), NodeFollowUp::ReplyOk));
    assert_eq!(fs.path_for_ino(file), Err(ENOENT));
}

#[test]
fn failed_creation_is_cleaned_up() {
    let mut fs = FsCache::new();
    let plan = begin_create(&fs, 1, b"new", 0o666, 0o022, libc::O_WRONLY).ok().unwrap();
    assert_eq!(plan.mode, 0o644);
    assert_eq!(plan.flags, libc::O_WRONLY | libc::O_CREAT);
    fs.write_opened(8, &plan.path, plan.flags);
    match finish_create(&mut fs, &plan, 8, Some(stat(0o100644))) {
        CreateReply::Created { fh: 8, .. } => {}
        _ => panic!("the file was created"),
    }
    assert!(matches!(fs.release(8), Released::Write { .. }));
    fs.write_opened(9, &plan.path, plan.flags);
    assert!(matches!(
        finish_create(&mut fs, &plan, 9, None),
        CreateReply::CleanUp { errno: ENOENT }
    ));
    assert!(matches!(fs.release(9), Released::Read { .. }));
    assert!(matches!(begin_create(&fs, 55, b"new", 0, 0, 0), Err(ENOENT)));
    assert!(matches!(begin_setxattr(&fs, 1, 3), Err(ENOSYS)));
    assert!(begin_setxattr(&fs, 1, 0).ok().unwrap().is_root());
    assert!(matches!(begin_setxattr(&fs, 66, 0), Err(ENOENT)));
}

fn run(stage: CredentialStage, answers: &[u32]) -> (CredentialStage, Vec<CredentialCall>) {
    let mut stage = stage;
    let mut calls = vec![];
    for a in answers {
        calls.push(stage.call());
        stage = stage.answered(*a);
    }
    (stage, calls)
}

#[test]
fn identity_is_taken_and_given_back() {
    let (stage, calls) = run(CredentialStage::enter(1000, 100), &[0, 1000, 0, 100]);
    assert_eq!(
        calls,
        vec![
            CredentialCall::SetFsUid(1000),
            CredentialCall::SetFsUid(1000),
            CredentialCall::SetFsGid(100),
            CredentialCall::SetFsGid(100),
        ]
    );
    assert_eq!(stage, CredentialStage::Entered { old_uid: 0, old_gid: 0 });
    let (left, calls) = run(stage.leave(), &[0, 0]);
    assert_eq!(calls, vec![CredentialCall::SetFsGid(0), CredentialCall::SetFsUid(0)]);
    assert_eq!(left, CredentialStage::Left { denied: None });
    let (denied, calls) = run(CredentialStage::enter(1000, 100), &[0, 0, 0]);
    assert_eq!(calls[2], CredentialCall::SetFsUid(0));
    assert_eq!(denied, CredentialStage::Left { denied: Some(DeniedId::Uid(1000)) });
    let (denied, calls) = run(CredentialStage::enter(1000, 100), &[0, 1000, 5, 5, 100, 1000]);
    assert_eq!(calls[4], CredentialCall::SetFsGid(5));
    assert_eq!(calls[5], CredentialCall::SetFsUid(0));
    assert_eq!(denied, CredentialStage::Left { denied: Some(DeniedId::Gid(100)) });
    assert_eq!(denied.call(), CredentialCall::Nothing);
}
