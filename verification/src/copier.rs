//! Copying one file into the cache, step by step.
//!
//! The copy goes to a `.partial` file next to the destination and is renamed when it is
//! complete; readers are served from the source meanwhile.

use vstd::prelude::*;

pub use crate::cache::copy::partial_path;

verus! {

/// What a copy does next. Every step but the last two can fail.
#[derive(Clone, Copy, Debug, PartialEq, Eq, Structural)]
pub enum CopyToCache {
    /// Create the directory of the destination.
    CreateParent,
    /// Open the source for reading.
    OpenSource,
    /// Create or truncate the partial file.
    OpenPartial,
    /// Copy all bytes.
    CopyBytes,
    /// Close the source, whether or not all bytes were copied.
    CloseSource { copied: bool },
    /// Flush the partial file to disk.
    Sync,
    /// Rename the partial file to its destination.
    Rename,
    Succeeded,
    Failed,
}

impl CopyToCache {
    /// The step after this one, which succeeded or failed.
    pub open spec fn after(self, ok: bool) -> CopyToCache {
        match self {
            CopyToCache::CreateParent => if ok {
                CopyToCache::OpenSource
            } else {
                CopyToCache::Failed
            },
            CopyToCache::OpenSource => if ok {
                CopyToCache::OpenPartial
            } else {
                CopyToCache::Failed
            },
            CopyToCache::OpenPartial => if ok {
                CopyToCache::CopyBytes
            } else {
                CopyToCache::Failed
            },
            CopyToCache::CopyBytes => CopyToCache::CloseSource { copied: ok },
            CopyToCache::CloseSource { copied } => if copied {
                CopyToCache::Sync
            } else {
                CopyToCache::Failed
            },
            CopyToCache::Sync => if ok {
                CopyToCache::Rename
            } else {
                CopyToCache::Failed
            },
            CopyToCache::Rename => if ok {
                CopyToCache::Succeeded
            } else {
                CopyToCache::Failed
            },
            CopyToCache::Succeeded => self,
            CopyToCache::Failed => self,
        }
    }

    /// The first step. A destination without a directory part needs none created.
    pub fn begin(has_parent: bool) -> (r: Self)
        ensures
            r == (if has_parent {
                CopyToCache::CreateParent
            } else {
                CopyToCache::OpenSource
            }),
    {
        if has_parent {
            CopyToCache::CreateParent
        } else {
            CopyToCache::OpenSource
        }
    }

    /// The step after this one, which succeeded or failed.
    pub fn next(self, ok: bool) -> (r: Self)
        ensures
            r == self.after(ok),
    {
        match self {
            CopyToCache::CopyBytes => CopyToCache::CloseSource { copied: ok },
            CopyToCache::CloseSource { copied } => {
                if copied {
                    CopyToCache::Sync
                } else {
                    CopyToCache::Failed
                }
            },
            CopyToCache::Succeeded => self,
            _ => {
                if !ok {
                    return CopyToCache::Failed;
                }
                match self {
                    CopyToCache::CreateParent => CopyToCache::OpenSource,
                    CopyToCache::OpenSource => CopyToCache::OpenPartial,
                    CopyToCache::OpenPartial => CopyToCache::CopyBytes,
                    CopyToCache::Sync => CopyToCache::Rename,
                    CopyToCache::Rename => CopyToCache::Succeeded,
                    other => other,
                }
            },
        }
    }
}

/// The destination appears only when all bytes were copied and flushed.
pub proof fn law_rename_follows_sync(step: CopyToCache, ok: bool)
    ensures
        step.after(ok) == CopyToCache::Rename ==> step == CopyToCache::Sync && ok,
        step.after(ok) == CopyToCache::Sync ==> step == (CopyToCache::CloseSource {
            copied: true,
        }),
        step.after(ok) == (CopyToCache::CloseSource { copied: true }) ==> step
            == CopyToCache::CopyBytes && ok,
{
}

/// A copy in which all goes well passes every step in turn; the source is closed either way, and
/// a failure in any step means that the copy failed.
pub proof fn law_copy_course(any: bool)
    ensures
        CopyToCache::CreateParent.after(true) == CopyToCache::OpenSource,
        CopyToCache::OpenSource.after(true) == CopyToCache::OpenPartial,
        CopyToCache::OpenPartial.after(true) == CopyToCache::CopyBytes,
        CopyToCache::CopyBytes.after(true).after(any) == CopyToCache::Sync,
        CopyToCache::CopyBytes.after(false) == (CopyToCache::CloseSource { copied: false }),
        CopyToCache::CopyBytes.after(false).after(any) == CopyToCache::Failed,
        CopyToCache::Sync.after(true) == CopyToCache::Rename,
        CopyToCache::Rename.after(true) == CopyToCache::Succeeded,
        CopyToCache::CreateParent.after(false) == CopyToCache::Failed,
        CopyToCache::OpenSource.after(false) == CopyToCache::Failed,
        CopyToCache::OpenPartial.after(false) == CopyToCache::Failed,
        CopyToCache::Sync.after(false) == CopyToCache::Failed,
        CopyToCache::Rename.after(false) == CopyToCache::Failed,
        CopyToCache::Succeeded.after(any) == CopyToCache::Succeeded,
        CopyToCache::Failed.after(any) == CopyToCache::Failed,
{
}

/// A copy succeeds only by a rename that succeeded.
pub proof fn law_success_is_a_rename(step: CopyToCache, ok: bool)
    ensures
        step.after(ok) == CopyToCache::Succeeded && step != CopyToCache::Succeeded ==> step
            == CopyToCache::Rename && ok,
{
}

} // verus!
