use fscache::cli::{
    checked_window_secs, connecting_line, db_instance_name, format_recording, format_recording_at,
    instance_line, parse_selection, read_selection, recording_line, recording_line_at, report,
    resolve_instance_name, resolve_socket, table_header, table_row, trim, window_fits, window_from,
    window_secs, Instance, RecordingAnswer, ReportRow, SelectionError, SocketChoice,
};
use fscache::daemon::{
    db_path, fs_name, is_stale_mount, look_back, look_back_fits, maintenance_enabled, mount_info,
    mount_info_named, mount_label, prune_cutoff, prune_cutoff_fits, socket_path, unmount_step,
    MountStep, ShutdownStep, StartStep, UnmountStep,
};
use fscache::path::RelPath;
use fscache::utils::mount_cache_name;

fn instance(name: &str, targets: &[&str]) -> Instance {
    Instance { name: name.to_string(), targets: targets.iter().map(|t| t.to_string()).collect() }
}

fn some(s: &str) -> Option<String> {
    Some(s.to_string())
}

#[test]
fn sockets_are_found() {
    let one = vec![instance("media", &["/mnt/a"])];
    let two = vec![instance("media", &["/mnt/a"]), instance("music", &[])];
    assert_eq!(
        resolve_socket(&some("x"), &some("/tmp/s.sock"), &two),
        SocketChoice::Connect("/tmp/s.sock".to_string())
    );
    assert_eq!(
        resolve_socket(&some("x"), &None, &two),
        SocketChoice::Connect("/run/fscache/x.sock".to_string())
    );
    assert_eq!(resolve_socket(&None, &None, &vec![]), SocketChoice::NoInstance);
    assert_eq!(
        resolve_socket(&None, &None, &one),
        SocketChoice::OnlyInstance { index: 0, socket: "/run/fscache/media.sock".to_string() }
    );
    assert_eq!(resolve_socket(&None, &None, &two), SocketChoice::Ask);
}

#[test]
fn selections_count_from_one() {
    assert_eq!(read_selection(" 2\n", 3), Ok(1));
    assert_eq!(parse_selection("2", 3), Ok(1));
    assert_eq!(parse_selection("2 ", 3), Err(SelectionError::Invalid));
    assert_eq!(read_selection("0", 3), Err(SelectionError::OutOfRange));
    assert_eq!(read_selection("4", 3), Err(SelectionError::OutOfRange));
    assert_eq!(read_selection("x", 3), Err(SelectionError::Invalid));
    assert_eq!(read_selection("", 3), Err(SelectionError::Invalid));
}

#[test]
fn instances_are_listed() {
    assert_eq!(
        instance_line(0, &instance("media", &["/mnt/a", "/mnt/b"])),
        format!("  1. {:<20}  2 mount(s)  /mnt/a, /mnt/b", "media")
    );
    assert_eq!(
        connecting_line(&instance("media", &["/mnt/a"])),
        "Connecting to instance 'media' (1 mount(s))"
    );
}

#[test]
fn instance_names_are_resolved() {
    let list = |names: &[&str]| names.iter().map(|n| n.to_string()).collect::<Vec<_>>();
    assert_eq!(resolve_instance_name(&some("a"), &list(&["b", "c"]), &vec![]), Ok("a".to_string()));
    assert_eq!(resolve_instance_name(&None, &list(&["b"]), &list(&["c"])), Ok("b".to_string()));
    assert_eq!(
        resolve_instance_name(&None, &list(&["b", "c"]), &vec![]),
        Err("Multiple instances running: b, c. Use -i INSTANCE to specify one.".to_string())
    );
    assert_eq!(
        resolve_instance_name(&None, &vec![], &vec![]),
        Err("No running fscache instances and no DB files found. \
             Use -i INSTANCE to specify one by name."
            .to_string())
    );
    assert_eq!(resolve_instance_name(&None, &vec![], &list(&["d"])), Ok("d".to_string()));
    assert_eq!(
        resolve_instance_name(&None, &vec![], &list(&["d", "e"])),
        Err("Multiple DB files found: d, e. Use -i INSTANCE to specify one.".to_string())
    );
}

#[test]
fn databases_belong_to_instances() {
    assert_eq!(db_instance_name("media.db"), some("media"));
    assert_eq!(db_instance_name("a.b.db"), some("a.b"));
    assert_eq!(db_instance_name(".db"), None);
    assert_eq!(db_instance_name("media.db-wal"), None);
    assert_eq!(db_instance_name("mediadb"), None);
    assert_eq!(db_path("media"), "/var/lib/fscache/db/media.db");
    assert_eq!(socket_path("media"), "/run/fscache/media.sock");
    assert_eq!(fs_name("media"), "fscache-media");
}

#[test]
fn recording_is_worded() {
    assert_eq!(format_recording(false, Some(5)), "Recording: off");
    assert_eq!(format_recording(true, None), "Recording: on");
    assert_eq!(format_recording_at(true, Some(100), 190), "Recording: on (started 1m 30s ago)");
    assert_eq!(format_recording_at(true, Some(100), 50), "Recording: on (started 0s ago)");
    assert!(format_recording(true, Some(0)).starts_with("Recording: on (started "));
    assert_eq!(recording_line(true, &some("1h")), "Recording: on (started 1h ago)");
    assert_eq!(
        recording_line_at(&RecordingAnswer::Unreachable, 0),
        "Recording: unknown (daemon not running)"
    );
    assert_eq!(recording_line_at(&RecordingAnswer::Unanswered, 0), "Recording: unknown");
    let told = RecordingAnswer::Told { enabled: true, started_at: Some(0) };
    assert_eq!(recording_line_at(&told, 3600), "Recording: on (started 1h ago)");
}

#[test]
fn windows_out_of_range_are_told_apart() {
    // All of these are in range: not too long, one unit, or nothing below a second.
    for words in [
        "5m",
        "1h 30m 15s 200ms",
        "99999999999s",
        "100000000000s 5ms",
        "584542046000y 1000ms",
        "1000000000000 ns 1000000000000 us 18446744073s",
        "18446744073709551615s",
        "18446744073709551615s 1m",
        "1000000000000ms",
        "1000000000000000ms",
        "1.500000000000s",
        "1000000 minutes 1000000 months",
        "18446744073709551612s 1.500s",
        "soon",
        "",
    ] {
        assert!(window_fits(&some(words)), "{words}");
        assert_eq!(checked_window_secs(&some(words)), Some(window_secs(&some(words))), "{words}");
    }
    assert!(window_fits(&None));
    assert_eq!(checked_window_secs(&None), Some(Ok(3600)));
    assert_eq!(window_secs(&some("18446744073709551615s")), Ok(u64::MAX));
    assert_eq!(window_secs(&some("1000000000000ms")), Ok(1_000_000_000));
    assert_eq!(window_secs(&some("100000000000s 5ms")), Ok(100_000_000_000));
    assert_eq!(window_secs(&some("584542046000y 1000ms")), Ok(584_542_046_000 * 31_557_600 + 1));

    // Two units, a part below a second and more seconds than can be counted.
    for words in [
        "18446744073709551615s 1000ms",
        "18446744073709551615s 1000millis",
        "18446744073709551615s1000000us",
        "18446744073709551615s 1000000µs",
        "18446744073709551615s 1000000000ns",
        "18446744073709551614.5s 1.5s",
        "307445734561825860m 15s 1000ms",
        "99999999999999999999999999999999999999999999y 1ms",
        "1ms 999999999999y",
    ] {
        assert!(!window_fits(&some(words)), "{words}");
        assert_eq!(checked_window_secs(&some(words)), None, "{words}");
    }
}

#[test]
fn windows_are_parsed() {
    assert_eq!(window_secs(&None), Ok(3600));
    assert_eq!(window_secs(&some("5m")), Ok(300));
    assert_eq!(window_secs(&some("1h 30m")), Ok(5400));
    let error = window_secs(&some("soon")).unwrap_err();
    assert!(error.starts_with("invalid window \"soon\": "));
    assert!(error.len() > "invalid window \"soon\": ".len());
    assert_eq!(
        window_from("a\"b", Err("bad".to_string())),
        Err("invalid window \"a\\\"b\": bad".to_string())
    );
    assert_eq!(window_from("x", Ok(7)), Ok(7));
}

#[test]
fn reports_are_tables() {
    let row = ReportRow { process_name: "cat".to_string(), hit: 1, miss: 2, meta: 3, total: 6 };
    let line = format!("{:<32}  {:>8}  {:>8}  {:>8}  {:>8}", "cat", 1, 2, 3, 6);
    assert_eq!(table_row(&row), line);
    let header = format!("{:<32}  {:>8}  {:>8}  {:>8}  {:>8}", "PROCESS", "HIT", "MISS", "META", "TOTAL");
    assert_eq!(table_header(), header);
    assert_eq!(
        report("Recording: off", &None, &vec![row]),
        vec![
            "Recording: off".to_string(),
            "Window: last 1h".to_string(),
            String::new(),
            header.clone(),
            "-".repeat(72),
            line,
        ]
    );
    assert_eq!(
        report("r", &some("5m"), &vec![]),
        vec![
            "r".to_string(),
            "Window: last 5m".to_string(),
            String::new(),
            header,
            "-".repeat(72),
            "(no data in the last 5m)".to_string(),
        ]
    );
}

#[test]
fn times_reach_back() {
    assert!(look_back_fits(100, 3600));
    assert_eq!(look_back(100, 3600), -3500);
    assert!(!look_back_fits(100, 1 << 63));
    assert_eq!(look_back(0, u64::MAX), 1);
    assert!(prune_cutoff_fits(1_000_000, 7));
    assert_eq!(prune_cutoff(1_000_000, 7), 1_000_000 - 604_800);
    assert!(!prune_cutoff_fits(0, u64::MAX));
}

#[test]
fn a_mount_covers_its_target_last() {
    let mut step = MountStep::FindHolder;
    let mut seen = vec![step];
    while step != MountStep::Mounted && step != MountStep::Failed {
        step = step.next(true);
        seen.push(step);
    }
    assert_eq!(
        seen,
        vec![
            MountStep::FindHolder,
            MountStep::DetachStale,
            MountStep::LockTarget,
            MountStep::CreateCacheDir,
            MountStep::OpenBacking,
            MountStep::StartWorkers,
            MountStep::Mount,
            MountStep::Mounted,
        ]
    );
    assert_eq!(MountStep::FindHolder.next(false), MountStep::LockTarget);
    assert_eq!(MountStep::DetachStale.next(false), MountStep::LockTarget);
    assert_eq!(MountStep::LockTarget.next(false), MountStep::Failed);
    assert_eq!(MountStep::OpenBacking.next(false), MountStep::Failed);
    assert!(is_stale_mount(&some("media"), "media"));
    assert!(!is_stale_mount(&some("other"), "media"));
    assert!(!is_stale_mount(&None, "media"));
}

#[test]
fn shutdown_drops_mounts_after_the_workers() {
    let mut step = ShutdownStep::Cancel;
    let mut seen = vec![];
    while step != ShutdownStep::Complete {
        seen.push(step);
        step = step.next(2, false);
    }
    assert_eq!(
        seen,
        vec![
            ShutdownStep::Cancel,
            ShutdownStep::Unmount { index: 0 },
            ShutdownStep::Unmount { index: 1 },
            ShutdownStep::Drain,
            ShutdownStep::AbortWorkers,
            ShutdownStep::DropMounts,
        ]
    );
    assert_eq!(ShutdownStep::Cancel.next(0, true), ShutdownStep::Drain);
    assert_eq!(ShutdownStep::Drain.next(1, true), ShutdownStep::DropMounts);
}

#[test]
fn unmounting_falls_back() {
    assert_eq!(unmount_step(true, true), UnmountStep::Detached);
    assert_eq!(unmount_step(true, false), UnmountStep::WarnExit);
    assert_eq!(unmount_step(false, false), UnmountStep::TryUmount);
    assert_eq!(mount_label(&RelPath::from_bytes(b"/mnt/media")), "media");
    assert_eq!(mount_label(&RelPath::from_bytes(b"/")), "mount");
    assert_eq!(mount_label(&RelPath::from_bytes(b"/mnt/\xff")), "mount");
    assert!(maintenance_enabled(60, true));
    assert!(!maintenance_enabled(0, true));
    assert!(!maintenance_enabled(60, false));
}

#[test]
fn the_daemon_starts_in_order() {
    let mut step = StartStep::LoadConfig;
    let mut seen = vec![];
    while step != StartStep::Running {
        seen.push(step);
        let ok = step != StartStep::OpenDatabase;
        step = step.next(2, true, ok);
    }
    assert_eq!(
        seen,
        vec![
            StartStep::LoadConfig,
            StartStep::LockInstance,
            StartStep::ValidateTargets,
            StartStep::CreateCacheDir,
            StartStep::CreateDbDir,
            StartStep::OpenDatabase,
            StartStep::OpenMemoryDatabase,
            StartStep::ArmDiscovery,
            StartStep::BindSocket,
            StartStep::StartPruning,
            StartStep::MountTarget { index: 0 },
            StartStep::MountTarget { index: 1 },
        ]
    );
    assert_eq!(StartStep::ValidateTargets.next(2, true, false), StartStep::Failed);
    assert_eq!(StartStep::MountTarget { index: 0 }.next(2, true, false), StartStep::Failed);
    assert_eq!(StartStep::OpenDatabase.next(2, false, true), StartStep::BindSocket);
    assert_eq!(StartStep::ArmDiscovery.next(2, true, false), StartStep::BindSocket);
    assert_eq!(StartStep::StartPruning.next(0, true, true), StartStep::Running);
}

#[test]
fn mounts_are_announced() {
    let info = mount_info("/mnt/a", "/ssd");
    assert_eq!(info.target, "/mnt/a");
    assert!(info.active);
    assert!(info.cache_dir.starts_with("/ssd/mnt-a-"));
    assert!(mount_info("/mnt/a", "/ssd/").cache_dir.starts_with("/ssd/mnt-a-"));
    assert!(mount_info("/mnt/a", "").cache_dir.starts_with("mnt-a-"));
    let named = mount_info_named("/mnt/a", "/ssd", "mnt-a-00000001");
    assert_eq!(named.target, "/mnt/a");
    assert_eq!(named.cache_dir, "/ssd/mnt-a-00000001");
    assert!(named.active);
    assert_eq!(
        info.cache_dir,
        mount_info_named("/mnt/a", "/ssd", &mount_cache_name("/mnt/a")).cache_dir
    );
}

#[test]
fn cache_names_are_single_components() {
    for target in ["/mnt/a", "/", "..", "/x/../y", "a b", "\u{e4}/\u{1f600}"] {
        let name = mount_cache_name(target);
        assert!(name.len() >= 9, "{name}");
        assert!(name.chars().all(|c| c.is_ascii_alphanumeric() || c == '-'), "{name}");
        assert_eq!(name, mount_cache_name(target));
    }
}

#[test]
fn white_space_is_trimmed() {
    assert_eq!(trim(" \t a b \u{3000}\n"), "a b");
    assert_eq!(trim(" \u{a0} "), "");
    assert_eq!(trim(""), "");
    for c in (0..0x3100u32).filter_map(char::from_u32) {
        let s = format!("{c}x{c}");
        assert_eq!(trim(&s), s.trim());
    }
}
