//! What the daemon and its clients say to each other.

use crate::path::RelPath;
use vstd::prelude::*;

verus! {

/// A message of the daemon.
#[derive(Clone, Debug)]
pub enum DaemonMessage {
    /// Sent as soon as a client connects.
    Hello(HelloPayload),
    Event(TelemetryEvent),
    Log(LogLine),
    /// The daemon shuts down; the client should exit.
    Goodbye,
}

/// What a client learns first about an instance.
#[derive(Clone, Debug)]
pub struct HelloPayload {
    pub version: String,
    pub instance_name: String,
    pub mounts: Vec<MountInfoWire>,
    pub window_start: String,
    pub window_end: String,
    pub preset_name: String,
    pub budget_max_bytes: u64,
    pub min_free_bytes: u64,
    pub expiry_secs: u64,
    /// Absolute path of the instance's database.
    pub db_path: String,
    /// Base cache directory, for display.
    pub cache_directory: String,
}

/// A message of a client.
#[derive(Clone, Debug)]
pub enum ClientMessage {
    /// Shut the daemon down cleanly.
    Shutdown,
    /// Evict files from the cache.
    EvictFiles { files: Vec<FileTarget> },
    /// Count files as used just now, which puts their eviction off.
    RefreshLease { files: Vec<FileTarget> },
    /// Begin to record processes.
    DiscoveryStart,
    /// Stop recording processes.
    DiscoveryStop,
}

/// One cached file.
#[derive(Clone, Debug)]
pub struct FileTarget {
    /// Path below the mount's cache directory.
    pub rel_path: RelPath,
    /// The mount's cache directory.
    pub mount_id: String,
}

/// Something that happened, with what is known of it.
#[derive(Clone, Debug)]
pub enum TelemetryEvent {
    FuseOpen,
    CacheHit,
    CacheMiss,
    HandleClosed { bytes_read: Option<u64> },
    CopyQueued,
    CopyStarted { path: Option<String>, size_bytes: Option<u64> },
    CopyComplete { path: Option<String> },
    CopyFailed { path: Option<String> },
    DeferredChanged { count: Option<u64> },
    BudgetUpdated { used_bytes: Option<u64>, max_bytes: Option<u64> },
    CachingWindow { allowed: Option<bool> },
    Eviction { path: Option<String>, reason: Option<String> },
    /// Whether processes are being recorded, and since when.
    DiscoveryStatus { enabled: bool, started_at: Option<i64> },
}

/// One line of the log.
#[derive(Clone, Debug)]
pub struct LogLine {
    pub timestamp: String,
    pub level: String,
    pub message: String,
}

/// One mount.
#[derive(Clone, Debug)]
pub struct MountInfoWire {
    pub target: String,
    /// The mount's cache directory, which names it in the database.
    pub cache_dir: String,
    pub active: bool,
}

/// Where a client stands in waiting for the recording status.
#[derive(Clone, Copy, Debug, PartialEq, Eq, Structural)]
pub enum StatusWait {
    /// The status arrived.
    Arrived { enabled: bool, started_at: Option<i64> },
    /// The daemon went away.
    Disconnected,
    /// Something else arrived; wait on.
    Waiting,
}

/// Looks for the recording status in one message; no message means that the connection is
/// closed.
pub fn recv_discovery_status(message: &Option<DaemonMessage>) -> (r: StatusWait)
    ensures
        r == (match *message {
            None => StatusWait::Disconnected,
            Some(DaemonMessage::Goodbye) => StatusWait::Disconnected,
            Some(DaemonMessage::Event(TelemetryEvent::DiscoveryStatus { enabled, started_at })) =>
                StatusWait::Arrived { enabled, started_at },
            Some(_) => StatusWait::Waiting,
        }),
{
    match message {
        None => StatusWait::Disconnected,
        Some(DaemonMessage::Goodbye) => StatusWait::Disconnected,
        Some(DaemonMessage::Event(TelemetryEvent::DiscoveryStatus { enabled, started_at })) => {
            StatusWait::Arrived { enabled: *enabled, started_at: *started_at }
        },
        Some(_) => StatusWait::Waiting,
    }
}

} // verus!
