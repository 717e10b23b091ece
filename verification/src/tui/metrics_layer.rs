//! Turns telemetry events into numbers on the dashboard.

use crate::path;
use crate::path::RelPath;
use crate::telemetry;
use crate::text;
use crate::tui::state::{CopyProgress, Counters, DashboardModel, DashboardState};
use vstd::prelude::*;

verus! {

/// The fields of an event that matter here.
pub struct EventVisitor {
    pub event: Option<String>,
    pub path: Option<String>,
    pub reason: Option<String>,
    pub bytes_read: Option<u64>,
    pub size_bytes: Option<u64>,
    pub used_bytes: Option<u64>,
    pub max_bytes: Option<u64>,
    pub count: Option<u64>,
    pub allowed: Option<bool>,
}

/// View of the fields of an event.
pub struct FieldsView {
    pub event: Option<Seq<char>>,
    pub path: Option<Seq<char>>,
    pub reason: Option<Seq<char>>,
    pub bytes_read: Option<u64>,
    pub size_bytes: Option<u64>,
    pub used_bytes: Option<u64>,
    pub max_bytes: Option<u64>,
    pub count: Option<u64>,
    pub allowed: Option<bool>,
}

impl View for EventVisitor {
    type V = FieldsView;

    open spec fn view(&self) -> FieldsView {
        FieldsView {
            event: text::opt_view(self.event),
            path: text::opt_view(self.path),
            reason: text::opt_view(self.reason),
            bytes_read: self.bytes_read,
            size_bytes: self.size_bytes,
            used_bytes: self.used_bytes,
            max_bytes: self.max_bytes,
            count: self.count,
            allowed: self.allowed,
        }
    }
}

impl FieldsView {
    /// The fields with a text field recorded; unknown ones are passed over.
    pub open spec fn with_text(self, field: Seq<char>, value: Seq<char>) -> FieldsView {
        if field == "event"@ {
            FieldsView { event: Some(value), ..self }
        } else if field == "path"@ {
            FieldsView { path: Some(value), ..self }
        } else if field == "reason"@ {
            FieldsView { reason: Some(value), ..self }
        } else {
            self
        }
    }

    /// The fields with a number recorded; unknown ones are passed over.
    pub open spec fn with_number(self, field: Seq<char>, value: u64) -> FieldsView {
        if field == "bytes_read"@ {
            FieldsView { bytes_read: Some(value), ..self }
        } else if field == "size_bytes"@ {
            FieldsView { size_bytes: Some(value), ..self }
        } else if field == "used_bytes"@ {
            FieldsView { used_bytes: Some(value), ..self }
        } else if field == "max_bytes"@ {
            FieldsView { max_bytes: Some(value), ..self }
        } else if field == "count"@ {
            FieldsView { count: Some(value), ..self }
        } else {
            self
        }
    }
}

impl EventVisitor {
    /// No field is known yet.
    pub fn new() -> (r: Self)
        ensures
            r@ == (FieldsView {
                event: None,
                path: None,
                reason: None,
                bytes_read: None,
                size_bytes: None,
                used_bytes: None,
                max_bytes: None,
                count: None,
                allowed: None,
            }),
    {
        EventVisitor {
            event: None,
            path: None,
            reason: None,
            bytes_read: None,
            size_bytes: None,
            used_bytes: None,
            max_bytes: None,
            count: None,
            allowed: None,
        }
    }

    pub fn record_str(&mut self, field: &str, value: &str)
        ensures
            final(self)@ == old(self)@.with_text(field@, value@),
    {
        if text::str_eq(field, "event") {
            self.event = Some(value.to_owned());
        } else if text::str_eq(field, "path") {
            self.path = Some(value.to_owned());
        } else if text::str_eq(field, "reason") {
            self.reason = Some(value.to_owned());
        }
    }

    pub fn record_u64(&mut self, field: &str, value: u64)
        ensures
            final(self)@ == old(self)@.with_number(field@, value),
    {
        if text::str_eq(field, "bytes_read") {
            self.bytes_read = Some(value);
        } else if text::str_eq(field, "size_bytes") {
            self.size_bytes = Some(value);
        } else if text::str_eq(field, "used_bytes") {
            self.used_bytes = Some(value);
        } else if text::str_eq(field, "max_bytes") {
            self.max_bytes = Some(value);
        } else if text::str_eq(field, "count") {
            self.count = Some(value);
        }
    }

    pub fn record_bool(&mut self, field: &str, value: bool)
        ensures
            final(self)@ == (if field@ == "allowed"@ {
                FieldsView { allowed: Some(value), ..old(self)@ }
            } else {
                old(self)@
            }),
    {
        if text::str_eq(field, "allowed") {
            self.allowed = Some(value);
        }
    }

    /// Records a text field that was written for debugging, with its quotes taken off.
    pub fn record_debug(&mut self, field: &str, raw: &str)
        ensures
            final(self)@ == old(self)@.with_text(field@, text::without_quotes(raw@)),
    {
        let bare = text::trim_quotes(raw);
        self.record_str(field, bare.as_str());
    }
}

/// Updates the dashboard from structured events. The code that emits them knows nothing of it.
pub struct MetricsLayer {
    pub state: DashboardState,
}

/// A counter that goes up; it wraps around at its end.
pub open spec fn up(n: u64, by: u64) -> u64 {
    if n + by > u64::MAX {
        (n + by - 0x1_0000_0000_0000_0000) as u64
    } else {
        (n + by) as u64
    }
}

/// A counter that goes down by one, but not below zero.
pub open spec fn down(n: u64) -> u64 {
    if n == 0 {
        0
    } else {
        (n - 1) as u64
    }
}

/// The dashboard after a copy of `path` ended.
pub open spec fn copy_gone(m: DashboardModel, path: Option<Seq<char>>) -> DashboardModel {
    match path {
        None => m,
        Some(p) => DashboardModel {
            counters: Counters { in_flight_count: down(m.counters.in_flight_count), ..m.counters },
            copies: m.copies.remove(path::components(vstd::utf8::encode_utf8(p))),
        },
    }
}

/// The dashboard after an event.
pub open spec fn applied(m: DashboardModel, f: FieldsView, now: u64) -> DashboardModel {
    let c = m.counters;
    match f.event {
        None => m,
        Some(e) => if e == "fuse_open"@ {
            DashboardModel {
                counters: Counters {
                    fuse_opens: up(c.fuse_opens, 1),
                    open_handles: up(c.open_handles, 1),
                    ..c
                },
                ..m
            }
        } else if e == "cache_hit"@ {
            DashboardModel { counters: Counters { cache_hits: up(c.cache_hits, 1), ..c }, ..m }
        } else if e == "cache_miss"@ {
            DashboardModel { counters: Counters { cache_misses: up(c.cache_misses, 1), ..c }, ..m }
        } else if e == "handle_closed"@ {
            DashboardModel {
                counters: Counters {
                    open_handles: down(c.open_handles),
                    bytes_read: match f.bytes_read {
                        Some(n) => up(c.bytes_read, n),
                        None => c.bytes_read,
                    },
                    ..c
                },
                ..m
            }
        } else if e == "copy_queued"@ {
            DashboardModel {
                counters: Counters { in_flight_count: up(c.in_flight_count, 1), ..c },
                ..m
            }
        } else if e == "copy_started"@ {
            match f.path {
                None => m,
                Some(p) => DashboardModel {
                    copies: m.copies.insert(
                        path::components(vstd::utf8::encode_utf8(p)),
                        CopyProgress {
                            size_bytes: match f.size_bytes {
                                Some(n) => n,
                                None => 0,
                            },
                            started_at: now,
                        },
                    ),
                    ..m
                },
            }
        } else if e == "copy_complete"@ {
            copy_gone(
                DashboardModel {
                    counters: Counters { completed_copies: up(c.completed_copies, 1), ..c },
                    ..m
                },
                f.path,
            )
        } else if e == "copy_failed"@ {
            copy_gone(
                DashboardModel {
                    counters: Counters { failed_copies: up(c.failed_copies, 1), ..c },
                    ..m
                },
                f.path,
            )
        } else if e == "deferred_changed"@ {
            match f.count {
                Some(n) => DashboardModel { counters: Counters { deferred_count: n, ..c }, ..m },
                None => m,
            }
        } else if e == "budget_updated"@ {
            DashboardModel {
                counters: Counters {
                    budget_used_bytes: match f.used_bytes {
                        Some(n) => n,
                        None => c.budget_used_bytes,
                    },
                    budget_max_bytes: match f.max_bytes {
                        Some(n) => n,
                        None => c.budget_max_bytes,
                    },
                    ..c
                },
                ..m
            }
        } else if e == "caching_window"@ {
            DashboardModel {
                counters: Counters {
                    caching_allowed: match f.allowed {
                        Some(b) => b,
                        None => false,
                    },
                    ..c
                },
                ..m
            }
        } else if e == "eviction"@ {
            if f.reason == Some("expired"@) {
                DashboardModel {
                    counters: Counters { evictions_expired: up(c.evictions_expired, 1), ..c },
                    ..m
                }
            } else if f.reason == Some("size_limit"@) {
                DashboardModel {
                    counters: Counters { evictions_size: up(c.evictions_size, 1), ..c },
                    ..m
                }
            } else {
                m
            }
        } else {
            m
        },
    }
}

fn count_up(n: u64, by: u64) -> (r: u64)
    ensures
        r == up(n, by),
{
    n.wrapping_add(by)
}

fn count_down(n: u64) -> (r: u64)
    ensures
        r == down(n),
{
    n.saturating_sub(1)
}

fn reason_is(reason: &Option<String>, name: &str) -> (r: bool)
    ensures
        r == (text::opt_view(*reason) == Some(name@)),
{
    match reason {
        Some(s) => text::str_eq(s.as_str(), name),
        None => false,
    }
}

impl MetricsLayer {
    pub fn new(state: DashboardState) -> (r: Self)
        ensures
            r.state == state,
    {
        MetricsLayer { state }
    }

    fn remove_active_copy(&mut self, path: &Option<String>)
        ensures
            final(self).state@ == copy_gone(old(self).state@, text::opt_view(*path)),
    {
        match path {
            Some(p) => {
                let mut c = self.state.counters();
                c.in_flight_count = count_down(c.in_flight_count);
                self.state.set_counters(c);
                let rel = RelPath::from_bytes(p.as_str().as_bytes());
                self.state.copy_ended(&rel);
            },
            None => {},
        }
    }

    /// Takes in one event at time `now`.
    pub fn on_event(&mut self, fields: &EventVisitor, now: u64)
        ensures
            final(self).state@ == applied(old(self).state@, fields@, now),
    {
        let event = match &fields.event {
            Some(e) => e.as_str(),
            None => {
                return;
            },
        };
        let mut c = self.state.counters();
        if text::str_eq(event, telemetry::EVENT_FUSE_OPEN) {
            c.fuse_opens = count_up(c.fuse_opens, 1);
            c.open_handles = count_up(c.open_handles, 1);
            self.state.set_counters(c);
        } else if text::str_eq(event, telemetry::EVENT_CACHE_HIT) {
            c.cache_hits = count_up(c.cache_hits, 1);
            self.state.set_counters(c);
        } else if text::str_eq(event, telemetry::EVENT_CACHE_MISS) {
            c.cache_misses = count_up(c.cache_misses, 1);
            self.state.set_counters(c);
        } else if text::str_eq(event, telemetry::EVENT_HANDLE_CLOSED) {
            c.open_handles = count_down(c.open_handles);
            match fields.bytes_read {
                Some(n) => {
                    c.bytes_read = count_up(c.bytes_read, n);
                },
                None => {},
            }
            self.state.set_counters(c);
        } else if text::str_eq(event, telemetry::EVENT_COPY_QUEUED) {
            c.in_flight_count = count_up(c.in_flight_count, 1);
            self.state.set_counters(c);
        } else if text::str_eq(event, telemetry::EVENT_COPY_STARTED) {
            match &fields.path {
                Some(p) => {
                    let size_bytes: u64 = match fields.size_bytes {
                        Some(n) => n,
                        None => 0,
                    };
                    let rel = RelPath::from_bytes(p.as_str().as_bytes());
                    self.state.copy_started(rel, CopyProgress { size_bytes, started_at: now });
                },
                None => {},
            }
        } else if text::str_eq(event, telemetry::EVENT_COPY_COMPLETE) {
            c.completed_copies = count_up(c.completed_copies, 1);
            self.state.set_counters(c);
            self.remove_active_copy(&fields.path);
        } else if text::str_eq(event, telemetry::EVENT_COPY_FAILED) {
            c.failed_copies = count_up(c.failed_copies, 1);
            self.state.set_counters(c);
            self.remove_active_copy(&fields.path);
        } else if text::str_eq(event, telemetry::EVENT_DEFERRED_CHANGED) {
            match fields.count {
                Some(n) => {
                    c.deferred_count = n;
                    self.state.set_counters(c);
                },
                None => {},
            }
        } else if text::str_eq(event, telemetry::EVENT_BUDGET_UPDATED) {
            match fields.used_bytes {
                Some(n) => {
                    c.budget_used_bytes = n;
                },
                None => {},
            }
            match fields.max_bytes {
                Some(n) => {
                    c.budget_max_bytes = n;
                },
                None => {},
            }
            self.state.set_counters(c);
        } else if text::str_eq(event, telemetry::EVENT_CACHING_WINDOW) {
            c.caching_allowed = match fields.allowed {
                Some(b) => b,
                None => false,
            };
            self.state.set_counters(c);
        } else if text::str_eq(event, telemetry::EVENT_EVICTION) {
            if reason_is(&fields.reason, "expired") {
                c.evictions_expired = count_up(c.evictions_expired, 1);
                self.state.set_counters(c);
            } else if reason_is(&fields.reason, "size_limit") {
                c.evictions_size = count_up(c.evictions_size, 1);
                self.state.set_counters(c);
            }
        }
    }
}

/// An open and the closing of its handle leave the number of open handles as it was.
pub proof fn law_handles_balance(
    m: DashboardModel,
    open: FieldsView,
    close: FieldsView,
    now: u64,
)
    requires
        m.counters.open_handles < u64::MAX,
        open.event == Some("fuse_open"@),
        close.event == Some("handle_closed"@),
    ensures
        applied(applied(m, open, now), close, now).counters.open_handles
            == m.counters.open_handles,
{
    reveal_strlit("fuse_open");
    reveal_strlit("cache_hit");
    reveal_strlit("cache_miss");
    reveal_strlit("handle_closed");
    assert("fuse_open"@.len() == 9);
    assert("handle_closed"@.len() == 13);
    assert("cache_hit"@.len() == 9);
    assert("cache_miss"@.len() == 10);
}

/// A copy that was started and ended is no longer shown as running, however it ended.
pub proof fn law_ended_copies_disappear(
    m: DashboardModel,
    start: FieldsView,
    end: FieldsView,
    now: u64,
    later: u64,
)
    requires
        start.event == Some("copy_started"@),
        end.event == Some("copy_complete"@) || end.event == Some("copy_failed"@),
        start.path is Some,
        end.path == start.path,
        !m.copies.contains_key(path::components(vstd::utf8::encode_utf8(start.path->0))),
    ensures
        applied(applied(m, start, now), end, later).copies == m.copies,
{
    lemma_event_names_differ();
    let key = path::components(vstd::utf8::encode_utf8(start.path->0));
    let between = applied(m, start, now);
    assert(between.copies.remove(key) =~= m.copies);
}

proof fn lemma_event_names_differ()
    ensures
        "copy_started"@ != "fuse_open"@,
        "copy_started"@ != "cache_hit"@,
        "copy_started"@ != "cache_miss"@,
        "copy_started"@ != "handle_closed"@,
        "copy_started"@ != "copy_queued"@,
        "copy_complete"@ != "fuse_open"@,
        "copy_complete"@ != "cache_hit"@,
        "copy_complete"@ != "cache_miss"@,
        "copy_complete"@ != "handle_closed"@,
        "copy_complete"@ != "copy_queued"@,
        "copy_complete"@ != "copy_started"@,
        "copy_failed"@ != "fuse_open"@,
        "copy_failed"@ != "cache_hit"@,
        "copy_failed"@ != "cache_miss"@,
        "copy_failed"@ != "handle_closed"@,
        "copy_failed"@ != "copy_queued"@,
        "copy_failed"@ != "copy_started"@,
        "copy_failed"@ != "copy_complete"@,
{
    reveal_strlit("fuse_open");
    reveal_strlit("cache_hit");
    reveal_strlit("cache_miss");
    reveal_strlit("handle_closed");
    reveal_strlit("copy_queued");
    reveal_strlit("copy_started");
    reveal_strlit("copy_complete");
    reveal_strlit("copy_failed");
    assert("fuse_open"@.len() == 9 && "cache_hit"@.len() == 9 && "cache_miss"@.len() == 10);
    assert("copy_queued"@.len() == 11 && "copy_failed"@.len() == 11 && "copy_started"@.len()
        == 12);
    assert("copy_complete"@.len() == 13 && "handle_closed"@.len() == 13);
    assert("copy_complete"@[0] != "handle_closed"@[0]);
    assert("copy_failed"@[5] != "copy_queued"@[5]);
}

proof fn lemma_all_event_names_differ()
    ensures
        "fuse_open"@.len() == 9 && "fuse_open"@[0] == 'f',
        "cache_hit"@.len() == 9 && "cache_hit"@[0] == 'c',
        "cache_miss"@.len() == 10,
        "handle_closed"@.len() == 13 && "handle_closed"@[0] == 'h',
        "copy_queued"@.len() == 11 && "copy_queued"@[5] == 'q',
        "copy_started"@.len() == 12,
        "copy_complete"@.len() == 13 && "copy_complete"@[0] == 'c',
        "copy_failed"@.len() == 11 && "copy_failed"@[5] == 'f',
        "deferred_changed"@.len() == 16,
        "budget_updated"@.len() == 14 && "budget_updated"@[0] == 'b',
        "caching_window"@.len() == 14 && "caching_window"@[0] == 'c',
        "eviction"@.len() == 8,
        "expired"@.len() == 7,
        "size_limit"@.len() == 10,
{
    reveal_strlit("fuse_open");
    reveal_strlit("cache_hit");
    reveal_strlit("cache_miss");
    reveal_strlit("handle_closed");
    reveal_strlit("copy_queued");
    reveal_strlit("copy_started");
    reveal_strlit("copy_complete");
    reveal_strlit("copy_failed");
    reveal_strlit("deferred_changed");
    reveal_strlit("budget_updated");
    reveal_strlit("caching_window");
    reveal_strlit("eviction");
    reveal_strlit("expired");
    reveal_strlit("size_limit");
}

/// Opens, hits, misses and queued copies are counted one by one, each on its own counter; an open
/// also adds an open handle. Nothing else changes.
pub proof fn law_accesses_are_counted(m: DashboardModel, f: FieldsView, now: u64)
    requires
        m.counters.fuse_opens < u64::MAX,
        m.counters.open_handles < u64::MAX,
        m.counters.cache_hits < u64::MAX,
        m.counters.cache_misses < u64::MAX,
        m.counters.in_flight_count < u64::MAX,
    ensures
        f.event == Some("fuse_open"@) ==> applied(m, f, now) == (DashboardModel {
            counters: Counters {
                fuse_opens: (m.counters.fuse_opens + 1) as u64,
                open_handles: (m.counters.open_handles + 1) as u64,
                ..m.counters
            },
            ..m
        }),
        f.event == Some("cache_hit"@) ==> applied(m, f, now) == (DashboardModel {
            counters: Counters {
                cache_hits: (m.counters.cache_hits + 1) as u64,
                ..m.counters
            },
            ..m
        }),
        f.event == Some("cache_miss"@) ==> applied(m, f, now) == (DashboardModel {
            counters: Counters {
                cache_misses: (m.counters.cache_misses + 1) as u64,
                ..m.counters
            },
            ..m
        }),
        f.event == Some("copy_queued"@) ==> applied(m, f, now) == (DashboardModel {
            counters: Counters {
                in_flight_count: (m.counters.in_flight_count + 1) as u64,
                ..m.counters
            },
            ..m
        }),
{
    lemma_all_event_names_differ();
}

/// Closing a handle takes one open handle away, where there is one, and adds the bytes that were
/// read through it; nothing else changes.
pub proof fn law_closed_handles_are_counted(m: DashboardModel, f: FieldsView, now: u64)
    requires
        f.event == Some("handle_closed"@),
        f.bytes_read matches Some(n) ==> m.counters.bytes_read + n <= u64::MAX,
    ensures
        applied(m, f, now).counters.open_handles == (if m.counters.open_handles > 0 {
            m.counters.open_handles - 1
        } else {
            0
        }),
        f.bytes_read matches Some(n) ==> applied(m, f, now).counters.bytes_read
            == m.counters.bytes_read + n,
        f.bytes_read is None ==> applied(m, f, now).counters.bytes_read == m.counters.bytes_read,
        applied(m, f, now) == (DashboardModel {
            counters: Counters {
                open_handles: applied(m, f, now).counters.open_handles,
                bytes_read: applied(m, f, now).counters.bytes_read,
                ..m.counters
            },
            ..m
        }),
{
    lemma_all_event_names_differ();
}

/// A copy that starts is shown under its path with its size and time. One that ends, well or
/// badly, is counted as such, is no longer shown and no longer in flight; other copies stay.
pub proof fn law_copies_are_followed(
    m: DashboardModel,
    f: FieldsView,
    now: u64,
    p: Seq<char>,
    other: Seq<Seq<u8>>,
)
    requires
        f.path == Some(p),
        m.counters.completed_copies < u64::MAX,
        m.counters.failed_copies < u64::MAX,
        m.counters.in_flight_count > 0,
        other != path::components(vstd::utf8::encode_utf8(p)),
    ensures
        f.event == Some("copy_started"@) ==> {
            let after = applied(m, f, now);
            let key = path::components(vstd::utf8::encode_utf8(p));
            &&& after.counters == m.counters
            &&& after.copies.contains_key(key)
            &&& after.copies[key].started_at == now
            &&& f.size_bytes matches Some(n) ==> after.copies[key].size_bytes == n
            &&& f.size_bytes is None ==> after.copies[key].size_bytes == 0
        },
        f.event == Some("copy_complete"@) ==> applied(m, f, now).counters == (Counters {
            completed_copies: (m.counters.completed_copies + 1) as u64,
            in_flight_count: (m.counters.in_flight_count - 1) as u64,
            ..m.counters
        }),
        f.event == Some("copy_failed"@) ==> applied(m, f, now).counters == (Counters {
            failed_copies: (m.counters.failed_copies + 1) as u64,
            in_flight_count: (m.counters.in_flight_count - 1) as u64,
            ..m.counters
        }),
        f.event == Some("copy_complete"@) || f.event == Some("copy_failed"@) ==> !applied(
            m,
            f,
            now,
        ).copies.contains_key(path::components(vstd::utf8::encode_utf8(p))),
        applied(m, f, now).copies.contains_key(other) <==> m.copies.contains_key(other),
        m.copies.contains_key(other) ==> applied(m, f, now).copies[other] == m.copies[other],
{
    lemma_all_event_names_differ();
}

/// Events that tell a state set it: the number of waiting jobs, the used and the available space,
/// and whether the caching window is open. A number that is not told stays.
pub proof fn law_states_are_taken_over(m: DashboardModel, f: FieldsView, now: u64)
    ensures
        f.event == Some("deferred_changed"@) ==> applied(m, f, now) == (DashboardModel {
            counters: Counters {
                deferred_count: match f.count {
                    Some(n) => n,
                    None => m.counters.deferred_count,
                },
                ..m.counters
            },
            ..m
        }),
        f.event == Some("budget_updated"@) ==> {
            let after = applied(m, f, now);
            &&& f.used_bytes matches Some(n) ==> after.counters.budget_used_bytes == n
            &&& f.used_bytes is None ==> after.counters.budget_used_bytes
                == m.counters.budget_used_bytes
            &&& f.max_bytes matches Some(n) ==> after.counters.budget_max_bytes == n
            &&& f.max_bytes is None ==> after.counters.budget_max_bytes
                == m.counters.budget_max_bytes
            &&& after == (DashboardModel {
                counters: Counters {
                    budget_used_bytes: after.counters.budget_used_bytes,
                    budget_max_bytes: after.counters.budget_max_bytes,
                    ..m.counters
                },
                ..m
            })
        },
        f.event == Some("caching_window"@) ==> applied(m, f, now) == (DashboardModel {
            counters: Counters { caching_allowed: f.allowed == Some(true), ..m.counters },
            ..m
        }),
{
    lemma_all_event_names_differ();
}

/// Evictions are counted by their reason: for age or for space; others, and all events without a
/// known name, change nothing.
pub proof fn law_evictions_are_counted_by_reason(m: DashboardModel, f: FieldsView, now: u64)
    requires
        f.event is None || f.event == Some("eviction"@),
        m.counters.evictions_expired < u64::MAX,
        m.counters.evictions_size < u64::MAX,
    ensures
        f.event is None ==> applied(m, f, now) == m,
        f.event is Some && f.reason == Some("expired"@) ==> applied(m, f, now) == (DashboardModel {
            counters: Counters {
                evictions_expired: (m.counters.evictions_expired + 1) as u64,
                ..m.counters
            },
            ..m
        }),
        f.event is Some && f.reason == Some("size_limit"@) ==> applied(m, f, now) == (
        DashboardModel {
            counters: Counters {
                evictions_size: (m.counters.evictions_size + 1) as u64,
                ..m.counters
            },
            ..m
        }),
        f.reason != Some("expired"@) && f.reason != Some("size_limit"@) ==> applied(m, f, now) == m,
{
    lemma_all_event_names_differ();
}

/// A field is recorded under its own name and leaves all others as they are; a field without a
/// known name is passed over.
pub proof fn law_fields_are_recorded_by_name(
    f: FieldsView,
    field: Seq<char>,
    value: Seq<char>,
    n: u64,
)
    ensures
        f.with_text("event"@, value) == (FieldsView { event: Some(value), ..f }),
        f.with_text("path"@, value) == (FieldsView { path: Some(value), ..f }),
        f.with_text("reason"@, value) == (FieldsView { reason: Some(value), ..f }),
        field != "event"@ && field != "path"@ && field != "reason"@ ==> f.with_text(field, value)
            == f,
        f.with_number("bytes_read"@, n) == (FieldsView { bytes_read: Some(n), ..f }),
        f.with_number("size_bytes"@, n) == (FieldsView { size_bytes: Some(n), ..f }),
        f.with_number("used_bytes"@, n) == (FieldsView { used_bytes: Some(n), ..f }),
        f.with_number("max_bytes"@, n) == (FieldsView { max_bytes: Some(n), ..f }),
        f.with_number("count"@, n) == (FieldsView { count: Some(n), ..f }),
        field != "bytes_read"@ && field != "size_bytes"@ && field != "used_bytes"@ && field
            != "max_bytes"@ && field != "count"@ ==> f.with_number(field, n) == f,
{
    reveal_strlit("event");
    reveal_strlit("path");
    reveal_strlit("reason");
    reveal_strlit("bytes_read");
    reveal_strlit("size_bytes");
    reveal_strlit("used_bytes");
    reveal_strlit("max_bytes");
    reveal_strlit("count");
    assert("event"@.len() == 5 && "path"@.len() == 4 && "reason"@.len() == 6);
    assert("bytes_read"@[0] == 'b' && "size_bytes"@[0] == 's' && "used_bytes"@[0] == 'u'
        && "max_bytes"@[0] == 'm' && "count"@[0] == 'c');
}

/// A counter adds up as long as the sum can be written, and goes round once where it cannot; going
/// down stops at zero.
pub proof fn law_counters(n: u64, by: u64)
    ensures
        n + by <= u64::MAX ==> up(n, by) == n + by,
        n + by > u64::MAX ==> up(n, by) + 0x1_0000_0000_0000_0000 == n + by,
        n > 0 ==> down(n) == n - 1,
        n == 0 ==> down(n) == 0,
{
}

} // verus!
