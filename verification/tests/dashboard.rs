use fscache::config::{
    effective_lookahead, merge_blocklists, parse_time_of_day, window_open, CacheConfig, LoggingConfig,
    PlexConfig, PresetConfig, ScheduleConfig,
};
use fscache::ipc::protocol::{
    recv_discovery_status, DaemonMessage, LogLine, StatusWait, TelemetryEvent,
};
use fscache::ipc::recent_logs::RecentLogs;
use fscache::path::RelPath;
use fscache::telemetry;
use fscache::tui::logging::{LogSink, LoggingLayer, MessageVisitor, Severity};
use fscache::tui::metrics_layer::{EventVisitor, MetricsLayer};
use fscache::tui::state::DashboardState;
use fscache::utils::{
    cache_name_with_hash, find_file_near_binary, is_non_media_file, mount_cache_name,
    target_error_message, validate_targets, NearBinary, TargetCheck, TargetError,
};

fn p(s: &str) -> RelPath {
    RelPath::from_bytes(s.as_bytes())
}

fn event(name: &str) -> EventVisitor {
    let mut v = EventVisitor::new();
    v.record_str("event", name);
    v
}

#[test]
fn handles_balance() {
    let mut layer = MetricsLayer::new(DashboardState::new());
    layer.on_event(&event(telemetry::EVENT_FUSE_OPEN), 0);
    layer.on_event(&event(telemetry::EVENT_FUSE_OPEN), 0);
    let mut closed = event(telemetry::EVENT_HANDLE_CLOSED);
    closed.record_u64("bytes_read", 500);
    layer.on_event(&closed, 0);
    layer.on_event(&closed, 0);
    layer.on_event(&event(telemetry::EVENT_HANDLE_CLOSED), 0);
    let c = layer.state.counters();
    assert_eq!(c.fuse_opens, 2);
    assert_eq!(c.open_handles, 0);
    assert_eq!(c.bytes_read, 1000);
}

#[test]
fn copies_are_followed() {
    let mut layer = MetricsLayer::new(DashboardState::new());
    let mut queued = event(telemetry::EVENT_COPY_QUEUED);
    queued.record_debug("path", "\"tv/a\"");
    layer.on_event(&queued, 0);
    let mut started = event(telemetry::EVENT_COPY_STARTED);
    started.record_debug("path", "\"tv/a\"");
    started.record_u64("size_bytes", 77);
    layer.on_event(&started, 12);
    let copy = layer.state.active_copy(&p("tv/a")).expect("the copy is running");
    assert_eq!((copy.size_bytes, copy.started_at), (77, 12));
    assert_eq!(layer.state.counters().in_flight_count, 1);
    let mut done = event(telemetry::EVENT_COPY_COMPLETE);
    done.record_str("path", "tv/a");
    layer.on_event(&done, 20);
    assert!(layer.state.active_copy(&p("tv/a")).is_none());
    let c = layer.state.counters();
    assert_eq!((c.in_flight_count, c.completed_copies), (0, 1));
    layer.on_event(&event(telemetry::EVENT_COPY_FAILED), 20);
    assert_eq!(layer.state.counters().failed_copies, 1);
}

#[test]
fn other_events_set_counters() {
    let mut layer = MetricsLayer::new(DashboardState::new());
    layer.on_event(&event(telemetry::EVENT_CACHE_HIT), 0);
    layer.on_event(&event(telemetry::EVENT_CACHE_MISS), 0);
    let mut deferred = event(telemetry::EVENT_DEFERRED_CHANGED);
    deferred.record_u64("count", 9);
    layer.on_event(&deferred, 0);
    let mut budget = event(telemetry::EVENT_BUDGET_UPDATED);
    budget.record_u64("used_bytes", 5);
    budget.record_u64("max_bytes", 10);
    layer.on_event(&budget, 0);
    let mut window = event(telemetry::EVENT_CACHING_WINDOW);
    window.record_bool("allowed", true);
    layer.on_event(&window, 0);
    for reason in ["expired", "size_limit", "other"] {
        let mut evicted = event(telemetry::EVENT_EVICTION);
        evicted.record_str("reason", reason);
        layer.on_event(&evicted, 0);
    }
    layer.on_event(&EventVisitor::new(), 0);
    let c = layer.state.counters();
    assert_eq!((c.cache_hits, c.cache_misses, c.deferred_count), (1, 1, 9));
    assert_eq!((c.budget_used_bytes, c.budget_max_bytes), (5, 10));
    assert!(c.caching_allowed);
    assert_eq!((c.evictions_expired, c.evictions_size), (1, 1));
    layer.on_event(&event(telemetry::EVENT_CACHING_WINDOW), 0);
    assert!(!layer.state.counters().caching_allowed);
}

#[test]
fn log_lines_are_composed() {
    let mut fields = MessageVisitor::new();
    fields.record_debug("message", "\"evicted\"");
    fields.record_str("path", "a/b");
    fields.record_str("reason", "expired");
    assert_eq!(fields.compose(), "evicted  [a/b]  (expired)");
    match LoggingLayer::new(false).on_event(Severity::Warn, &fields, "12:00:00") {
        LogSink::Panel(entry) => {
            assert_eq!(entry.level, "WARN ");
            assert_eq!(entry.timestamp, "12:00:00");
            assert_eq!(entry.message, "evicted  [a/b]  (expired)");
        }
        _ => panic!("the panel shows the line"),
    }
    match LoggingLayer::new(true).on_event(Severity::Warn, &fields, "12:00:00") {
        LogSink::Terminal(line) => assert_eq!(line, "12:00:00 WARN evicted  [a/b]  (expired)"),
        _ => panic!("the terminal shows the line"),
    }
}

fn line(n: usize) -> LogLine {
    LogLine { timestamp: String::new(), level: String::new(), message: n.to_string() }
}

#[test]
fn ring_keeps_the_last_lines() {
    let mut ring = RecentLogs::new();
    for n in 0..150 {
        ring.record(DaemonMessage::Log(line(n)));
        ring.record(DaemonMessage::Event(TelemetryEvent::CacheHit));
    }
    assert_eq!(ring.len(), 100);
    assert_eq!(ring.line(0).message, "50");
    assert_eq!(ring.line(99).message, "149");
}

#[test]
fn status_is_waited_for() {
    let status = TelemetryEvent::DiscoveryStatus { enabled: true, started_at: Some(4) };
    assert!(matches!(
        recv_discovery_status(&Some(DaemonMessage::Event(status))),
        StatusWait::Arrived { enabled: true, started_at: Some(4) }
    ));
    assert!(matches!(recv_discovery_status(&Some(DaemonMessage::Goodbye)), StatusWait::Disconnected));
    assert!(matches!(recv_discovery_status(&None), StatusWait::Disconnected));
    assert!(matches!(
        recv_discovery_status(&Some(DaemonMessage::Log(line(0)))),
        StatusWait::Waiting
    ));
}

#[test]
fn settings_have_defaults() {
    let cache = CacheConfig::default();
    assert_eq!(cache.max_size_bytes, 200 * 1_073_741_824);
    assert_eq!(cache.min_free_space_bytes, 10 * 1_073_741_824);
    assert_eq!((cache.expiry_hours, cache.deferred_ttl_minutes), (72, 1440));
    let plex = PlexConfig::default();
    assert_eq!((plex.lookahead, plex.mode.as_str()), (4, "miss-only"));
    assert!(!plex.rolling_buffer());
    let rolling = PlexConfig { mode: "rolling-buffer".to_string(), ..PlexConfig::default() };
    assert!(rolling.rolling_buffer());
    let preset = PresetConfig::default();
    assert_eq!(preset.name, "plex-episode-prediction");
    assert_eq!(effective_lookahead(&preset, &plex), 4);
    let schedule = ScheduleConfig::default();
    assert_eq!(schedule.cache_window_start, "08:00");
    assert_eq!(schedule.cache_window_end, "02:00");
    let logging = LoggingConfig::default();
    assert_eq!((logging.console_level.as_str(), logging.file_level.as_str()), ("info", "debug"));
    let merged = merge_blocklists(
        &vec!["a".to_string(), "b".to_string()],
        &vec!["b".to_string(), "c".to_string()],
    );
    assert_eq!(merged, vec!["a".to_string(), "b".to_string(), "c".to_string()]);
}

#[test]
fn caching_windows_reach_past_midnight() {
    assert_eq!(parse_time_of_day("08:00"), Some(480));
    assert_eq!(parse_time_of_day("23:59"), Some(1439));
    assert_eq!(parse_time_of_day("24:00"), None);
    assert_eq!(parse_time_of_day("08:60"), None);
    assert_eq!(parse_time_of_day("8:00"), None);
    assert_eq!(parse_time_of_day("ab:cd"), None);
    assert!(window_open(480, 120, 480));
    assert!(window_open(480, 120, 1439));
    assert!(window_open(480, 120, 119));
    assert!(!window_open(480, 120, 120));
    assert!(!window_open(480, 120, 479));
    assert!(window_open(60, 120, 60));
    assert!(!window_open(60, 120, 120));
    for now in 0..1440 {
        assert_ne!(window_open(480, 120, now), window_open(120, 480, now));
    }
}

#[test]
fn copies_expire() {
    let cache = CacheConfig::default();
    assert!(!cache.is_expired(1000, 1000 + 72 * 3600));
    assert!(cache.is_expired(1000, 1001 + 72 * 3600));
}

#[test]
fn cache_names_are_readable_and_distinct() {
    assert_eq!(cache_name_with_hash("/mnt/a/media", 0x3f2b1c4d), "mnt-a-media-3f2b1c4d");
    assert_eq!(cache_name_with_hash("//mnt/My Movies!/", 1), "mnt-My-Movies-00000001");
    let a = mount_cache_name("/mnt/a/media");
    let b = mount_cache_name("/mnt/b/media");
    assert_ne!(a, b);
    assert!(a.starts_with("mnt-a-media-"));
    assert_eq!(a.len(), "mnt-a-media-".len() + 8);
    assert_eq!(a, mount_cache_name("/mnt/a/media"));
    assert_ne!(mount_cache_name("/x-y"), mount_cache_name("/x/y"));
}

#[test]
fn bookkeeping_files_are_no_media() {
    assert!(is_non_media_file(&p("a/b.mkv.partial")));
    assert!(is_non_media_file(&p("x.db")));
    assert!(is_non_media_file(&p("x.db-wal")));
    assert!(is_non_media_file(&p("x.db-shm")));
    assert!(!is_non_media_file(&p("a/b.mkv")));
    assert!(!is_non_media_file(&p("")));
    let copy = fscache::cache::copy::partial_path(b"cache/movie.mkv");
    assert!(is_non_media_file(&RelPath::from_bytes(&copy)));
}

fn target(path: &str, exists: bool) -> TargetCheck {
    TargetCheck {
        display: path.to_string(),
        exists,
        canonical: p(path),
    }
}

#[test]
fn targets_are_validated() {
    assert_eq!(validate_targets(&vec![]), Err(TargetError::Empty));
    let good = vec![target("/a", true), target("/b", true)];
    assert_eq!(validate_targets(&good), Ok(()));
    let missing = vec![target("/a", true), target("/b", false)];
    assert_eq!(validate_targets(&missing), Err(TargetError::Missing { index: 1 }));
    assert_eq!(
        target_error_message(&missing, TargetError::Missing { index: 1 }),
        "target_directory does not exist: /b"
    );
    assert_eq!(validate_targets(&vec![target("/a", true), target("a", true)]), Ok(()));
    let twice = vec![target("/a", true), target("/a/", true)];
    assert_eq!(validate_targets(&twice), Err(TargetError::Duplicate { index: 1 }));
    assert_eq!(
        target_error_message(&twice, TargetError::Duplicate { index: 1 }),
        "duplicate target_directory: /a/"
    );
    assert_eq!(
        target_error_message(&vec![], TargetError::Empty),
        "target_directories is empty — add at least one path"
    );
    assert_eq!(find_file_near_binary(true, true), NearBinary::BesideBinary);
    assert_eq!(find_file_near_binary(false, true), NearBinary::CurrentDirectory);
    assert_eq!(find_file_near_binary(false, false), NearBinary::NotFound);
}
