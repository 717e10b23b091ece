//! Caches every file on its first miss.

use crate::path::RelPath;
use crate::preset::{CacheAction, ProcessInfo};
use crate::text;
use vstd::prelude::*;

verus! {

/// Simple preset: cache every file on first miss, with an optional process blocklist.
///
/// Opens by blocked processes and their children are filtered: they do not trigger
/// caching.
pub struct CacheOnMiss {
    pub blocklist: Vec<String>,
}

impl CacheOnMiss {
    pub fn new(blocklist: Vec<String>) -> (r: Self)
        ensures
            r.blocklist == blocklist,
    {
        CacheOnMiss { blocklist }
    }

    pub fn name(&self) -> (r: &'static str)
        ensures
            r@ == "cache_on_miss"@,
    {
        "cache_on_miss"
    }

    /// Whether accesses of `process` are to be ignored.
    pub fn should_filter(&self, process: &ProcessInfo) -> (r: bool)
        ensures
            r == process.named_in(text::strings_view(self.blocklist@)),
    {
        if self.blocklist.len() == 0 {
            return false;
        }
        process.is_blocked_by(&self.blocklist)
    }

    /// A miss asks for the missed file and nothing else.
    pub fn on_miss(&self, path: &RelPath) -> (r: Vec<CacheAction>)
        ensures
            r@.len() == 1,
            r@[0] matches CacheAction::Cache(files) && files@.len() == 1 && files@[0]@ == path@,
    {
        let mut files: Vec<RelPath> = Vec::new();
        files.push(path.clone());
        let mut actions: Vec<CacheAction> = Vec::new();
        actions.push(CacheAction::Cache(files));
        actions
    }

    /// A hit asks for nothing.
    pub fn on_hit(&self, _path: &RelPath) -> (r: Vec<CacheAction>)
        ensures
            r@.len() == 0,
    {
        Vec::new()
    }
}

} // verus!
