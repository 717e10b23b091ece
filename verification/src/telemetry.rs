//! Names of telemetry events and of the reasons that go with them.

use vstd::prelude::*;

verus! {

/// A file was opened for reading.
pub const EVENT_FUSE_OPEN: &'static str = "fuse_open";

/// An open was served from the cache.
pub const EVENT_CACHE_HIT: &'static str = "cache_hit";

/// An open was served from the backing store.
pub const EVENT_CACHE_MISS: &'static str = "cache_miss";

/// A handle was closed.
pub const EVENT_HANDLE_CLOSED: &'static str = "handle_closed";

/// A job was queued.
pub const EVENT_COPY_QUEUED: &'static str = "copy_queued";

/// A copy began.
pub const EVENT_COPY_STARTED: &'static str = "copy_started";

/// A copy went on.
pub const EVENT_COPY_PROGRESS: &'static str = "copy_progress";

/// A copy is complete.
pub const EVENT_COPY_COMPLETE: &'static str = "copy_complete";

/// A copy failed.
pub const EVENT_COPY_FAILED: &'static str = "copy_failed";

/// The number of waiting jobs changed.
pub const EVENT_DEFERRED_CHANGED: &'static str = "deferred_changed";

/// The use of the cache's space changed.
pub const EVENT_BUDGET_UPDATED: &'static str = "budget_updated";

/// The caching window was looked at.
pub const EVENT_CACHING_WINDOW: &'static str = "caching_window";

/// A file was evicted.
pub const EVENT_EVICTION: &'static str = "eviction";

/// A file changed on the backing store.
pub const EVENT_BACKING_CHANGED: &'static str = "backing_changed";

/// A cached file was dropped because a periodic check found its source gone.
pub const EVICTION_REASON_STALE_PERIODIC: &'static str = "stale_periodic";

} // verus!
