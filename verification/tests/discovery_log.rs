use fscache::discovery::{
    bucket_interval, emit_new, emit_snap, format_process_info, now_unix_sec, shorten, unquote,
    utc_time_hms, DiscoveryController, DiscoveryFormatter, LastSeen, MsgCapture, OpKind,
    ProcessAccessRow, TouchOutcome,
};
use fscache::fuse::fusefs::OpenOutcome;
use fscache::preset::ProcessInfo;

fn process(pid: u32, name: &str) -> ProcessInfo {
    ProcessInfo {
        pid,
        name: Some(name.to_string()),
        cmdline: Some(format!("{name}\0--scan\0").into_bytes()),
        ancestors: vec!["sh".to_string(), "systemd".to_string()],
    }
}

fn row(name: &str, op_kind: OpKind, count: u64) -> ProcessAccessRow {
    ProcessAccessRow {
        bucket_epoch: 0,
        process_name: name.to_string(),
        op_kind,
        count,
        sample_cmdline: None,
        sample_ancestors: None,
    }
}

#[test]
fn operations_have_names() {
    assert_eq!(OpKind::Hit.as_str(), "hit");
    assert_eq!(OpKind::Miss.as_str(), "miss");
    assert_eq!(OpKind::Meta.as_str(), "meta");
}

#[test]
fn clock_runs() {
    let now = now_unix_sec();
    assert!(now > 1_600_000_000);
    assert!(now_unix_sec() >= now);
}

#[test]
fn time_of_day_is_written_in_utc() {
    assert_eq!(utc_time_hms(0), "00:00:00");
    assert_eq!(utc_time_hms(86_399), "23:59:59");
    assert_eq!(utc_time_hms(86_400 + 3_661), "01:01:01");
}

#[test]
fn long_command_lines_are_cut() {
    assert_eq!(shorten(&"a".repeat(100)), Some("a".repeat(100)));
    assert_eq!(shorten(&"a".repeat(101)), Some(format!("{}…", "a".repeat(100))));
    let astride = format!("{}é{}", "a".repeat(99), "b".repeat(10));
    assert_eq!(shorten(&astride), None);
    let even = format!("{}é{}", "a".repeat(98), "b".repeat(10));
    assert_eq!(shorten(&even), Some(format!("{}é…", "a".repeat(98))));
}

#[test]
fn processes_are_described() {
    let info = process(1, "cat");
    assert_eq!(
        format_process_info(&info),
        Some(("cat --scan".to_string(), "sh>systemd".to_string()))
    );
    let bare = ProcessInfo { pid: 1, name: None, cmdline: None, ancestors: vec![] };
    assert_eq!(format_process_info(&bare), Some((String::new(), String::new())));
    let odd = ProcessInfo {
        pid: 1,
        name: None,
        cmdline: Some(vec![0xff, 0, b'x']),
        ancestors: vec![],
    };
    assert_eq!(format_process_info(&odd), Some(("\u{fffd} x".to_string(), String::new())));
}

#[test]
fn new_lines_are_aligned() {
    assert_eq!(
        emit_new(61, "cat", "sh>systemd", "cat \"x\"", true),
        format!(
            "00:01:01  NEW     {:<32}  *     -      -      -       -  pid=? anc=sh>systemd cmd=\"cat \\\"x\\\"\"",
            "cat"
        )
    );
    assert_eq!(
        emit_new(0, "cat", "", "", false),
        format!("00:00:00  NEW     {:<32}  -     -      -      -       -  pid=?", "cat")
    );
}

#[test]
fn snapshots_list_busiest_first() {
    let rows = vec![
        row("cat", OpKind::Hit, 1),
        row("vlc", OpKind::Miss, 5),
        row("cat", OpKind::Meta, 2),
        row("vlc", OpKind::Hit, 1),
    ];
    let lines = emit_snap(3_600, &rows);
    assert_eq!(
        lines,
        vec![
            format!("01:00:00  SNAP    {:<32}  -  {:>6}  {:>6}  {:>6}  {:>8}", "vlc", 1, 5, 0, 6),
            format!("01:00:00  SNAP    {:<32}  -  {:>6}  {:>6}  {:>6}  {:>8}", "cat", 1, 0, 2, 3),
        ]
    );
    assert!(emit_snap(0, &vec![]).is_empty());
}

#[test]
fn interval_is_at_least_a_second() {
    assert_eq!(bucket_interval(0), 1);
    assert_eq!(bucket_interval(60), 60);
}

#[test]
fn disabled_controller_counts_nothing() {
    let mut ctrl = DiscoveryController::new(8, vec![]);
    assert!(!ctrl.status().enabled);
    assert_eq!(ctrl.status().started_at, None);
    let mut last = LastSeen::new();
    assert!(matches!(ctrl.log_touch(&mut last, 7, OpKind::Meta), TouchOutcome::Disabled));
    assert!(matches!(ctrl.log_open(&process(7, "cat"), OpenOutcome::Hit, 0), Ok(None)));
    assert!(ctrl.flush(5).is_empty());
    assert!(ctrl.stop().is_none());
}

#[test]
fn starting_twice_keeps_the_first_session() {
    let mut ctrl = DiscoveryController::new(8, vec![]);
    assert!(ctrl.start(1000));
    assert!(!ctrl.start(2000));
    assert!(ctrl.status().enabled);
    assert_eq!(ctrl.status().started_at, Some(1000));
    assert!(ctrl.stop().is_some());
    assert!(!ctrl.status().enabled);
}

#[test]
fn each_process_is_reported_once() {
    let mut ctrl = DiscoveryController::new(8, vec!["systemd".to_string()]);
    ctrl.start(0);
    let first = ctrl.log_open(&process(7, "cat"), OpenOutcome::Hit, 0);
    let line = match first {
        Ok(Some(line)) => line,
        _ => panic!("expected a line"),
    };
    assert!(line.contains("NEW     cat"));
    assert!(line.contains("  *     -"));
    assert!(matches!(ctrl.log_open(&process(8, "cat"), OpenOutcome::Filtered, 1), Ok(None)));
    let rows = ctrl.flush(42);
    assert_eq!(rows.len(), 2);
    for r in &rows {
        assert_eq!(r.process_name, "cat");
        assert_eq!(r.bucket_epoch, 42);
        assert_eq!(r.count, 1);
        assert_eq!(r.sample_cmdline.as_deref(), Some("cat --scan"));
        assert_eq!(r.sample_ancestors.as_deref(), Some("sh>systemd"));
    }
    assert!(rows.iter().any(|r| r.op_kind == OpKind::Hit));
    assert!(rows.iter().any(|r| r.op_kind == OpKind::Miss));
    assert!(ctrl.flush(43).is_empty());
}

#[test]
fn touches_are_described_once_per_process() {
    let mut ctrl = DiscoveryController::new(1, vec![]);
    ctrl.start(0);
    let mut last = LastSeen::new();
    assert!(matches!(ctrl.log_touch(&mut last, 7, OpKind::Meta), TouchOutcome::NeedsProcess));
    let reported = ctrl.log_touch_described(&mut last, 7, &process(7, "cat"), OpKind::Meta, 0);
    assert!(matches!(reported, Ok(Some(_))));
    assert!(matches!(ctrl.log_touch(&mut last, 7, OpKind::Meta), TouchOutcome::Counted));
    assert!(matches!(ctrl.log_touch(&mut last, 9, OpKind::Meta), TouchOutcome::NeedsProcess));
    let reported = ctrl.log_touch_described(&mut last, 9, &process(9, "cat"), OpKind::Meta, 0);
    assert!(matches!(reported, Ok(None)));
    let mut elsewhere = LastSeen::new();
    assert!(matches!(ctrl.log_touch(&mut elsewhere, 9, OpKind::Hit), TouchOutcome::Counted));
    assert!(matches!(ctrl.log_touch(&mut elsewhere, 7, OpKind::Hit), TouchOutcome::NeedsProcess));
    let rows = ctrl.flush(1);
    let meta = rows.iter().find(|r| r.op_kind == OpKind::Meta).unwrap();
    assert_eq!(meta.count, 3);
    let hit = rows.iter().find(|r| r.op_kind == OpKind::Hit).unwrap();
    assert_eq!(hit.count, 1);
}

#[test]
fn stopped_session_can_still_be_flushed() {
    let mut ctrl = DiscoveryController::new(8, vec![]);
    ctrl.start(0);
    let _ = ctrl.log_open(&process(7, "cat"), OpenOutcome::Miss, 0);
    let mut session = ctrl.stop().expect("a session was running");
    let rows = session.flush_bucket(9);
    assert_eq!(rows.len(), 1);
    assert_eq!(rows[0].op_kind, OpKind::Miss);
}

#[test]
fn unprintable_command_lines_are_reported() {
    let mut ctrl = DiscoveryController::new(8, vec![]);
    ctrl.start(0);
    let mut info = process(7, "cat");
    info.cmdline = Some(format!("{}é", "a".repeat(99)).into_bytes());
    assert!(ctrl.log_open(&info, OpenOutcome::Hit, 0).is_err());
}

#[test]
fn messages_are_unquoted() {
    assert_eq!(unquote("\"a \\\"b\\\" \\\\ c\\n\\t\""), "a \"b\" \\ c\n\t");
    assert_eq!(unquote("plain"), "plain");
    assert_eq!(unquote("\""), "\"");
    let mut captured = MsgCapture::new();
    captured.record_str("other", "x");
    captured.record_debug("message", "\"first\"");
    captured.record_str("message", "second");
    assert_eq!(DiscoveryFormatter.format_event(&captured), "first\n");
    let mut direct = MsgCapture::new();
    direct.record_str("message", "said \"so\"");
    assert_eq!(DiscoveryFormatter.format_event(&direct), "said \"so\"\n");
}
