//! Who opened a file, which openers count, and what a preset asks for.

use crate::path::RelPath;
use crate::text;
use vstd::prelude::*;

verus! {

/// A process that opened a file, as far as it could be read.
#[derive(Debug, PartialEq, Eq)]
pub struct ProcessInfo {
    pub pid: u32,
    pub name: Option<String>,
    /// Arguments, each closed by a NUL byte.
    pub cmdline: Option<Vec<u8>>,
    /// Names of the parent, its parent, and so on.
    pub ancestors: Vec<String>,
}

impl ProcessInfo {
    /// Whether the process or one of its ancestors is named in `list`.
    pub open spec fn named_in(self, list: Seq<Seq<char>>) -> bool {
        ||| (self.name is Some && list.contains(self.name->0@))
        ||| exists|i: int|
            0 <= i < self.ancestors@.len() && list.contains((#[trigger] self.ancestors@[i])@)
    }

    /// Whether the process or one of its ancestors is named in `list`.
    pub fn is_blocked_by(&self, list: &Vec<String>) -> (r: bool)
        ensures
            r == self.named_in(text::strings_view(list@)),
    {
        match &self.name {
            Some(name) => {
                if text::list_contains(list, name.as_str()) {
                    return true;
                }
            },
            None => {},
        }
        let mut i: usize = 0;
        while i < self.ancestors.len()
            invariant
                i <= self.ancestors.len(),
                forall|k: int|
                    0 <= k < i ==> !text::strings_view(list@).contains(
                        (#[trigger] self.ancestors@[k])@,
                    ),
                !(self.name is Some && text::strings_view(list@).contains(self.name->0@)),
            decreases self.ancestors.len() - i,
        {
            if text::list_contains(list, self.ancestors[i].as_str()) {
                return true;
            }
            i = i + 1;
        }
        false
    }
}

/// Which processes may trigger caching. A non-empty allowlist decides alone; otherwise the
/// blocklist does.
#[derive(Debug, PartialEq, Eq)]
pub struct ProcessFilterPolicy {
    pub allowlist: Vec<String>,
    pub blocklist: Vec<String>,
}

impl ProcessFilterPolicy {
    /// Whether accesses of `process` are to be ignored.
    pub open spec fn filters(self, process: ProcessInfo) -> bool {
        if self.allowlist@.len() > 0 {
            !process.named_in(text::strings_view(self.allowlist@))
        } else {
            process.named_in(text::strings_view(self.blocklist@))
        }
    }

    pub fn new(allowlist: Vec<String>, blocklist: Vec<String>) -> (r: Self)
        ensures
            r.allowlist == allowlist,
            r.blocklist == blocklist,
    {
        ProcessFilterPolicy { allowlist, blocklist }
    }

    /// Whether accesses of `process` are to be ignored.
    pub fn should_filter(&self, process: &ProcessInfo) -> (r: bool)
        ensures
            r == self.filters(*process),
    {
        if self.allowlist.len() > 0 {
            !process.is_blocked_by(&self.allowlist)
        } else {
            process.is_blocked_by(&self.blocklist)
        }
    }
}

/// What a preset asks the cache to do.
#[derive(Debug, PartialEq, Eq)]
pub enum CacheAction {
    /// Copy these files, in this order.
    Cache(Vec<RelPath>),
}

/// Where there is an allowlist it decides alone: accesses count exactly where the process or an
/// ancestor is on it. Otherwise they count exactly where neither is on the blocklist.
pub proof fn law_lists_decide(policy: ProcessFilterPolicy, process: ProcessInfo)
    ensures
        ({
            let allow = text::strings_view(policy.allowlist@);
            let block = text::strings_view(policy.blocklist@);
            &&& allow.len() > 0 ==> (!policy.filters(process) <==> (process.name matches Some(n)
                && allow.contains(n@)) || exists|i: int|
                0 <= i < process.ancestors@.len() && allow.contains(
                    (#[trigger] process.ancestors@[i])@,
                ))
            &&& allow.len() == 0 ==> (policy.filters(process) <==> (process.name matches Some(n)
                && block.contains(n@)) || exists|i: int|
                0 <= i < process.ancestors@.len() && block.contains(
                    (#[trigger] process.ancestors@[i])@,
                ))
        }),
{
}

/// Without any lists every process counts.
pub proof fn law_empty_lists_filter_nobody(policy: ProcessFilterPolicy, process: ProcessInfo)
    requires
        policy.allowlist@.len() == 0,
        policy.blocklist@.len() == 0,
    ensures
        !policy.filters(process),
{
}

} // verus!
