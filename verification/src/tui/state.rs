//! Counters and running copies.

use crate::path::{PathView, RelPath};
use crate::path_map::PathMap;
use vstd::prelude::*;

verus! {

/// A copy that is under way.
#[derive(Clone, Copy, Debug, PartialEq, Eq, Structural)]
pub struct CopyProgress {
    pub size_bytes: u64,
    /// Milliseconds on the dashboard's clock.
    pub started_at: u64,
}

/// The numbers on the dashboard.
#[derive(Clone, Copy, Debug, PartialEq, Eq, Structural)]
pub struct Counters {
    pub fuse_opens: u64,
    pub open_handles: u64,
    pub cache_hits: u64,
    pub cache_misses: u64,
    pub bytes_read: u64,
    pub in_flight_count: u64,
    pub completed_copies: u64,
    pub failed_copies: u64,
    pub deferred_count: u64,
    pub budget_used_bytes: u64,
    pub budget_max_bytes: u64,
    pub caching_allowed: bool,
    pub evictions_expired: u64,
    pub evictions_size: u64,
}

/// Everything on the dashboard.
pub struct DashboardState {
    pub counters: Counters,
    pub(crate) active_copies: PathMap<CopyProgress>,
}

/// View of the dashboard.
#[verifier::ext_equal]
pub struct DashboardModel {
    pub counters: Counters,
    pub copies: Map<PathView, CopyProgress>,
}

impl View for DashboardState {
    type V = DashboardModel;

    closed spec fn view(&self) -> DashboardModel {
        DashboardModel { counters: self.counters, copies: self.active_copies@ }
    }
}

impl DashboardState {
    /// A dashboard on which nothing has happened.
    pub fn new() -> (r: Self)
        ensures
            r@.counters == (Counters {
                fuse_opens: 0,
                open_handles: 0,
                cache_hits: 0,
                cache_misses: 0,
                bytes_read: 0,
                in_flight_count: 0,
                completed_copies: 0,
                failed_copies: 0,
                deferred_count: 0,
                budget_used_bytes: 0,
                budget_max_bytes: 0,
                caching_allowed: false,
                evictions_expired: 0,
                evictions_size: 0,
            }),
            r@.copies == Map::<PathView, CopyProgress>::empty(),
    {
        DashboardState {
            counters: Counters {
                fuse_opens: 0,
                open_handles: 0,
                cache_hits: 0,
                cache_misses: 0,
                bytes_read: 0,
                in_flight_count: 0,
                completed_copies: 0,
                failed_copies: 0,
                deferred_count: 0,
                budget_used_bytes: 0,
                budget_max_bytes: 0,
                caching_allowed: false,
                evictions_expired: 0,
                evictions_size: 0,
            },
            active_copies: PathMap::new(),
        }
    }

    /// The numbers.
    pub fn counters(&self) -> (r: Counters)
        ensures
            r == self@.counters,
    {
        self.counters
    }

    /// The running copy of a file.
    pub fn active_copy(&self, p: &RelPath) -> (r: Option<CopyProgress>)
        ensures
            r == (if self@.copies.contains_key(p@) {
                Some(self@.copies[p@])
            } else {
                None
            }),
    {
        match self.active_copies.get(p) {
            Some(c) => Some(*c),
            None => None,
        }
    }

    pub(crate) fn set_counters(&mut self, counters: Counters)
        ensures
            final(self)@ == (DashboardModel { counters, ..old(self)@ }),
    {
        self.counters = counters;
    }

    pub(crate) fn copy_started(&mut self, p: RelPath, progress: CopyProgress)
        ensures
            final(self)@ == (DashboardModel {
                copies: old(self)@.copies.insert(p@, progress),
                ..old(self)@
            }),
    {
        self.active_copies.insert(p, progress);
    }

    pub(crate) fn copy_ended(&mut self, p: &RelPath)
        ensures
            final(self)@ == (DashboardModel {
                copies: old(self)@.copies.remove(p@),
                ..old(self)@
            }),
    {
        self.active_copies.remove(p);
    }
}

} // verus!
