//! Serving what changes files: every change goes straight to the backing store.

use crate::fuse::attr;
use crate::fuse::attr::{FileAttr, FileStat, Timestamp};
use crate::fuse::fusefs;
use crate::fuse::fusefs::{FsCache, FsModel, ENOENT, O_CREAT};
use crate::path::{PathView, RelPath};
use vstd::prelude::*;

verus! {

/// Function not implemented.
pub const ENOSYS: i32 = 38;

/// A time that is to be set.
#[derive(Clone, Copy, Debug, PartialEq, Eq, Structural)]
pub enum TimeOrNow {
    /// A given time; none for one before the epoch.
    SpecificTime(Option<Timestamp>),
    Now,
}

/// A time as system calls take it.
#[derive(Clone, Copy, Debug, PartialEq, Eq, Structural)]
pub struct Timespec {
    pub tv_sec: i64,
    pub tv_nsec: i64,
}

/// A time as system calls take it; one before the epoch is taken for the epoch.
pub open spec fn timespec_of(t: Option<Timestamp>) -> Timespec {
    match t {
        Some(t) => Timespec { tv_sec: t.secs as i64, tv_nsec: t.nanos as i64 },
        None => Timespec { tv_sec: 0, tv_nsec: 0 },
    }
}

fn system_time_to_timespec(t: Option<Timestamp>) -> (r: Timespec)
    ensures
        r == timespec_of(t),
{
    match t {
        Some(t) => Timespec { tv_sec: t.secs as i64, tv_nsec: t.nanos as i64 },
        None => Timespec { tv_sec: 0, tv_nsec: 0 },
    }
}

/// The time to set: a given one, the current one, or the one that the file has.
pub open spec fn chosen_time(
    value: Option<TimeOrNow>,
    fallback: Timespec,
    now: Option<Timestamp>,
) -> Timespec {
    match value {
        Some(TimeOrNow::SpecificTime(t)) => timespec_of(t),
        Some(TimeOrNow::Now) => timespec_of(now),
        None => fallback,
    }
}

/// Chooses the time to set.
pub fn time_or_now_to_timespec(
    value: Option<TimeOrNow>,
    fallback_sec: i64,
    fallback_nsec: i64,
    now: Option<Timestamp>,
) -> (r: Timespec)
    ensures
        r == chosen_time(
            value,
            (Timespec { tv_sec: fallback_sec, tv_nsec: fallback_nsec }),
            now,
        ),
{
    match value {
        Some(TimeOrNow::SpecificTime(t)) => system_time_to_timespec(t),
        Some(TimeOrNow::Now) => system_time_to_timespec(now),
        None => Timespec { tv_sec: fallback_sec, tv_nsec: fallback_nsec },
    }
}

/// The attributes that are to be changed.
#[derive(Clone, Copy, Debug, PartialEq, Eq, Structural)]
pub struct SetattrRequest {
    pub mode: Option<u32>,
    pub uid: Option<u32>,
    pub gid: Option<u32>,
    pub size: Option<u64>,
    pub atime: Option<TimeOrNow>,
    pub mtime: Option<TimeOrNow>,
    pub fh: Option<u64>,
}

/// What a change of attributes does next.
#[derive(Clone, Copy, Debug, PartialEq, Eq, Structural)]
pub enum SetattrAction {
    Chmod { mode: u32 },
    Chown { uid: Option<u32>, gid: Option<u32> },
    /// Change the size through an open handle.
    TruncateHandle { fh: u64, size: u64 },
    /// Change the size by path.
    TruncatePath { size: u64 },
    /// Examine the file for the times that are not to change.
    StatForTimes,
    SetTimes { atime: Timespec, mtime: Timespec },
    /// Examine the file for the reply.
    StatForReply,
    Reply { attr: FileAttr },
    Error { errno: i32 },
}

/// What came of an action.
#[derive(Clone, Copy, Debug, PartialEq, Eq, Structural)]
pub enum SetattrEvent {
    Done,
    Failed { errno: i32 },
    /// The file was examined, at this time; nothing where that was not possible.
    Examined { stat: Option<FileStat>, now: Option<Timestamp> },
}

impl SetattrRequest {
    /// The first action that the request calls for, leaving out the first `skip` kinds in the
    /// order mode, owner, size, times.
    pub open spec fn due(self, skip: int) -> SetattrAction {
        if skip <= 0 && self.mode is Some {
            SetattrAction::Chmod { mode: self.mode->0 }
        } else if skip <= 1 && (self.uid is Some || self.gid is Some) {
            SetattrAction::Chown { uid: self.uid, gid: self.gid }
        } else if skip <= 2 && self.size is Some {
            match self.fh {
                Some(fh) => SetattrAction::TruncateHandle { fh, size: self.size->0 },
                None => SetattrAction::TruncatePath { size: self.size->0 },
            }
        } else if skip <= 3 && (self.atime is Some || self.mtime is Some) {
            SetattrAction::StatForTimes
        } else {
            SetattrAction::StatForReply
        }
    }

    fn next_due(&self, skip: u8) -> (r: SetattrAction)
        ensures
            r == self.due(skip as int),
    {
        if skip == 0 {
            match self.mode {
                Some(mode) => {
                    return SetattrAction::Chmod { mode };
                },
                None => {},
            }
        }
        if skip <= 1 && (self.uid.is_some() || self.gid.is_some()) {
            return SetattrAction::Chown { uid: self.uid, gid: self.gid };
        }
        if skip <= 2 {
            match self.size {
                Some(size) => {
                    return match self.fh {
                        Some(fh) => SetattrAction::TruncateHandle { fh, size },
                        None => SetattrAction::TruncatePath { size },
                    };
                },
                None => {},
            }
        }
        if skip <= 3 && (self.atime.is_some() || self.mtime.is_some()) {
            return SetattrAction::StatForTimes;
        }
        SetattrAction::StatForReply
    }

    /// The action that follows another one. The first failure ends the request.
    pub open spec fn after(
        self,
        ino: u64,
        action: SetattrAction,
        event: SetattrEvent,
    ) -> SetattrAction {
        match event {
            SetattrEvent::Failed { errno } => match action {
                SetattrAction::Reply { .. } => action,
                SetattrAction::Error { .. } => action,
                _ => SetattrAction::Error { errno },
            },
            SetattrEvent::Done => match action {
                SetattrAction::Chmod { .. } => self.due(1),
                SetattrAction::Chown { .. } => self.due(2),
                SetattrAction::TruncateHandle { .. } => self.due(3),
                SetattrAction::TruncatePath { .. } => self.due(3),
                SetattrAction::SetTimes { .. } => SetattrAction::StatForReply,
                other => other,
            },
            SetattrEvent::Examined { stat, now } => match (action, stat) {
                (SetattrAction::StatForTimes, Some(s)) => SetattrAction::SetTimes {
                    atime: chosen_time(
                        self.atime,
                        Timespec { tv_sec: s.atime, tv_nsec: s.atime_nsec },
                        now,
                    ),
                    mtime: chosen_time(
                        self.mtime,
                        Timespec { tv_sec: s.mtime, tv_nsec: s.mtime_nsec },
                        now,
                    ),
                },
                (SetattrAction::StatForTimes, None) => SetattrAction::Error { errno: ENOENT },
                (SetattrAction::StatForReply, Some(s)) => SetattrAction::Reply {
                    attr: attr::attr_of_stat(ino, s),
                },
                (SetattrAction::StatForReply, None) => SetattrAction::Error { errno: ENOENT },
                (other, _) => other,
            },
        }
    }

    /// The first action of a request.
    pub fn begin(&self) -> (r: SetattrAction)
        ensures
            r == self.due(0),
    {
        self.next_due(0)
    }

    /// The action that follows another one.
    pub fn next(&self, ino: u64, action: SetattrAction, event: SetattrEvent) -> (r: SetattrAction)
        requires
            event matches SetattrEvent::Examined { stat: Some(s), .. } ==> action is StatForReply
                ==> s.in_range(),
        ensures
            r == self.after(ino, action, event),
    {
        match event {
            SetattrEvent::Failed { errno } => match action {
                SetattrAction::Reply { .. } => action,
                SetattrAction::Error { .. } => action,
                _ => SetattrAction::Error { errno },
            },
            SetattrEvent::Done => match action {
                SetattrAction::Chmod { .. } => self.next_due(1),
                SetattrAction::Chown { .. } => self.next_due(2),
                SetattrAction::TruncateHandle { .. } => self.next_due(3),
                SetattrAction::TruncatePath { .. } => self.next_due(3),
                SetattrAction::SetTimes { .. } => SetattrAction::StatForReply,
                other => other,
            },
            SetattrEvent::Examined { stat, now } => match (action, stat) {
                (SetattrAction::StatForTimes, Some(s)) => SetattrAction::SetTimes {
                    atime: time_or_now_to_timespec(self.atime, s.atime, s.atime_nsec, now),
                    mtime: time_or_now_to_timespec(self.mtime, s.mtime, s.mtime_nsec, now),
                },
                (SetattrAction::StatForTimes, None) => SetattrAction::Error { errno: ENOENT },
                (SetattrAction::StatForReply, Some(s)) => SetattrAction::Reply {
                    attr: attr::stat_to_attr(ino, &s),
                },
                (SetattrAction::StatForReply, None) => SetattrAction::Error { errno: ENOENT },
                (other, _) => other,
            },
        }
    }
}

/// The place of an action in a request.
pub open spec fn setattr_rank(action: SetattrAction) -> int {
    match action {
        SetattrAction::Chmod { .. } => 0,
        SetattrAction::Chown { .. } => 1,
        SetattrAction::TruncateHandle { .. } => 2,
        SetattrAction::TruncatePath { .. } => 2,
        SetattrAction::StatForTimes => 3,
        SetattrAction::SetTimes { .. } => 4,
        SetattrAction::StatForReply => 5,
        SetattrAction::Reply { .. } => 6,
        SetattrAction::Error { .. } => 6,
    }
}

/// A request makes only changes that it asks for, each at most once, in a fixed order, and
/// nothing more once one has failed.
pub proof fn law_setattr_makes_what_is_asked(
    req: SetattrRequest,
    ino: u64,
    action: SetattrAction,
    event: SetattrEvent,
)
    ensures
        setattr_rank(req.after(ino, action, event)) >= setattr_rank(action),
        req.after(ino, action, event) != action ==> setattr_rank(req.after(ino, action, event))
            > setattr_rank(action),
        event is Failed && setattr_rank(action) < 6 ==> req.after(ino, action, event) is Error,
        req.after(ino, action, event) is Chown && !(action is Chown) ==> req.uid is Some
            || req.gid is Some,
        (req.after(ino, action, event) is TruncatePath && !(action is TruncatePath)) ==> req.size
            is Some && req.fh is None,
        (req.after(ino, action, event) is SetTimes && !(action is SetTimes)) ==> action
            is StatForTimes,
{
}

/// A request that changes a name or makes a file.
#[derive(Debug, PartialEq, Eq)]
pub enum NodeRequest {
    Mknod { parent: u64, name: Vec<u8>, mode: u32, umask: u32, rdev: u32 },
    Mkdir { parent: u64, name: Vec<u8>, mode: u32, umask: u32 },
    Symlink { parent: u64, name: Vec<u8> },
    Link { ino: u64, parent: u64, name: Vec<u8> },
    Unlink { parent: u64, name: Vec<u8> },
    Rmdir { parent: u64, name: Vec<u8> },
    Rename { parent: u64, name: Vec<u8>, new_parent: u64, new_name: Vec<u8>, flags: u32 },
}

/// The system call that a request comes down to.
#[derive(Debug, PartialEq, Eq)]
pub enum NodeCall {
    Mknod { path: RelPath, mode: u32, rdev: u32 },
    Mkdir { path: RelPath, mode: u32 },
    Symlink { path: RelPath },
    Link { old: RelPath, path: RelPath },
    Unlink { path: RelPath },
    Rmdir { path: RelPath },
    Rename { old: RelPath, path: RelPath, flags: u32 },
}

/// View of a call.
pub enum CallView {
    Mknod { path: PathView, mode: u32, rdev: u32 },
    Mkdir { path: PathView, mode: u32 },
    Symlink { path: PathView },
    Link { old: PathView, path: PathView },
    Unlink { path: PathView },
    Rmdir { path: PathView },
    Rename { old: PathView, path: PathView, flags: u32 },
}

impl View for NodeCall {
    type V = CallView;

    open spec fn view(&self) -> CallView {
        match *self {
            NodeCall::Mknod { path, mode, rdev } => CallView::Mknod { path: path@, mode, rdev },
            NodeCall::Mkdir { path, mode } => CallView::Mkdir { path: path@, mode },
            NodeCall::Symlink { path } => CallView::Symlink { path: path@ },
            NodeCall::Link { old, path } => CallView::Link { old: old@, path: path@ },
            NodeCall::Unlink { path } => CallView::Unlink { path: path@ },
            NodeCall::Rmdir { path } => CallView::Rmdir { path: path@ },
            NodeCall::Rename { old, path, flags } => CallView::Rename {
                old: old@,
                path: path@,
                flags,
            },
        }
    }
}

/// The call that a request comes down to; none where an inode that it names is not known. New
/// files get their mode cut down by the requester's mask.
pub open spec fn call_of(m: FsModel, request: NodeRequest) -> Option<CallView> {
    match request {
        NodeRequest::Mknod { parent, name, mode, umask, rdev } => match m.child_of(parent, name@) {
            Some(path) => Some(CallView::Mknod { path, mode: mode & !umask, rdev }),
            None => None,
        },
        NodeRequest::Mkdir { parent, name, mode, umask } => match m.child_of(parent, name@) {
            Some(path) => Some(CallView::Mkdir { path, mode: mode & !umask }),
            None => None,
        },
        NodeRequest::Symlink { parent, name } => match m.child_of(parent, name@) {
            Some(path) => Some(CallView::Symlink { path }),
            None => None,
        },
        NodeRequest::Link { ino, parent, name } => match (
            m.path_of(ino),
            m.child_of(parent, name@),
        ) {
            (Some(old), Some(path)) => Some(CallView::Link { old, path }),
            _ => None,
        },
        NodeRequest::Unlink { parent, name } => match m.child_of(parent, name@) {
            Some(path) => Some(CallView::Unlink { path }),
            None => None,
        },
        NodeRequest::Rmdir { parent, name } => match m.child_of(parent, name@) {
            Some(path) => Some(CallView::Rmdir { path }),
            None => None,
        },
        NodeRequest::Rename { parent, name, new_parent, new_name, flags } => match (
            m.child_of(parent, name@),
            m.child_of(new_parent, new_name@),
        ) {
            (Some(old), Some(path)) => Some(CallView::Rename { old, path, flags }),
            _ => None,
        },
    }
}

/// Resolves the inodes of a request.
pub fn resolve(fs: &FsCache, request: &NodeRequest) -> (r: Result<NodeCall, i32>)
    ensures
        match call_of(fs@, *request) {
            Some(call) => r is Ok && (r->Ok_0)@ == call,
            None => r is Err && r->Err_0 == ENOENT,
        },
{
    match request {
        NodeRequest::Mknod { parent, name, mode, umask, rdev } => {
            match fs.child_path(*parent, name) {
                Ok(path) => Ok(
                    NodeCall::Mknod { path, mode: fusefs::apply_umask(*mode, *umask), rdev: *rdev },
                ),
                Err(e) => Err(e),
            }
        },
        NodeRequest::Mkdir { parent, name, mode, umask } => {
            match fs.child_path(*parent, name) {
                Ok(path) => Ok(
                    NodeCall::Mkdir { path, mode: fusefs::apply_umask(*mode, *umask) },
                ),
                Err(e) => Err(e),
            }
        },
        NodeRequest::Symlink { parent, name } => match fs.child_path(*parent, name) {
            Ok(path) => Ok(NodeCall::Symlink { path }),
            Err(e) => Err(e),
        },
        NodeRequest::Link { ino, parent, name } => match fs.path_for_ino(*ino) {
            Ok(old) => match fs.child_path(*parent, name) {
                Ok(path) => Ok(NodeCall::Link { old, path }),
                Err(e) => Err(e),
            },
            Err(e) => Err(e),
        },
        NodeRequest::Unlink { parent, name } => match fs.child_path(*parent, name) {
            Ok(path) => Ok(NodeCall::Unlink { path }),
            Err(e) => Err(e),
        },
        NodeRequest::Rmdir { parent, name } => match fs.child_path(*parent, name) {
            Ok(path) => Ok(NodeCall::Rmdir { path }),
            Err(e) => Err(e),
        },
        NodeRequest::Rename { parent, name, new_parent, new_name, flags } => {
            match fs.child_path(*parent, name) {
                Ok(old) => match fs.child_path(*new_parent, new_name) {
                    Ok(path) => Ok(NodeCall::Rename { old, path, flags: *flags }),
                    Err(e) => Err(e),
                },
                Err(e) => Err(e),
            }
        },
    }
}

/// What is found out first about a request: whether its inodes are known or whether the
/// requester's identity can be taken on. The first failure is the one that is replied.
#[derive(Clone, Copy, Debug, PartialEq, Eq, Structural)]
pub enum FirstCheck {
    Inodes,
    Identity,
}

/// Removals resolve their inodes first; everything else takes on the identity first.
pub fn first_check(request: &NodeRequest) -> (r: FirstCheck)
    ensures
        r == (if request is Unlink || request is Rmdir {
            FirstCheck::Inodes
        } else {
            FirstCheck::Identity
        }),
{
    match request {
        NodeRequest::Unlink { .. } => FirstCheck::Inodes,
        NodeRequest::Rmdir { .. } => FirstCheck::Inodes,
        _ => FirstCheck::Identity,
    }
}

/// The call to make, or the error to reply, given whether the requester's identity could be
/// taken on.
pub fn authorize(fs: &FsCache, request: &NodeRequest, identity: Result<(), i32>) -> (r: Result<
    NodeCall,
    i32,
>)
    ensures
        match (call_of(fs@, *request), identity) {
            (Some(call), Ok(_)) => r is Ok && (r->Ok_0)@ == call,
            (Some(_), Err(e)) => r is Err && r->Err_0 == e,
            (None, Ok(_)) => r is Err && r->Err_0 == ENOENT,
            (None, Err(e)) => r is Err && r->Err_0 == (if request is Unlink || request is Rmdir {
                ENOENT
            } else {
                e
            }),
        },
{
    let resolved = resolve(fs, request);
    match first_check(request) {
        FirstCheck::Inodes => match resolved {
            Ok(call) => match identity {
                Ok(_) => Ok(call),
                Err(e) => Err(e),
            },
            Err(e) => Err(e),
        },
        FirstCheck::Identity => match identity {
            Ok(_) => resolved,
            Err(e) => Err(e),
        },
    }
}

/// What follows a call that succeeded.
#[derive(Debug, PartialEq, Eq)]
pub enum NodeFollowUp {
    /// Examine the new file, whose attributes are the reply.
    Examine { path: RelPath },
    /// Reply that all went well.
    ReplyOk,
}

/// The inodes after a call that succeeded.
pub open spec fn call_effect(before: FsModel, after: FsModel, call: CallView) -> bool {
    match call {
        CallView::Unlink { path } => after == before.with_inodes(before.inodes.without(path)),
        CallView::Rmdir { path } => after == before.with_inodes(
            if path == PathView::empty() {
                before.inodes
            } else {
                before.inodes.without_subtree(path)
            },
        ),
        CallView::Rename { old, path, .. } => after == before.with_inodes(after.inodes)
            && fusefs::is_rename(before.inodes, after.inodes, old, path),
        _ => after == before,
    }
}

/// Follows a call that succeeded.
pub fn call_done(fs: &mut FsCache, call: NodeCall) -> (r: NodeFollowUp)
    requires
        old(fs)@.wf(),
    ensures
        final(fs)@.wf(),
        call_effect(old(fs)@, final(fs)@, call@),
        match call@ {
            CallView::Mknod { path, .. } => r matches NodeFollowUp::Examine { path: p } && p@
                == path,
            CallView::Mkdir { path, .. } => r matches NodeFollowUp::Examine { path: p } && p@
                == path,
            CallView::Symlink { path } => r matches NodeFollowUp::Examine { path: p } && p@ == path,
            CallView::Link { path, .. } => r matches NodeFollowUp::Examine { path: p } && p@
                == path,
            _ => r is ReplyOk,
        },
{
    match call {
        NodeCall::Mknod { path, .. } => NodeFollowUp::Examine { path },
        NodeCall::Mkdir { path, .. } => NodeFollowUp::Examine { path },
        NodeCall::Symlink { path } => NodeFollowUp::Examine { path },
        NodeCall::Link { path, .. } => NodeFollowUp::Examine { path },
        NodeCall::Unlink { path } => {
            fs.file_removed(&path);
            NodeFollowUp::ReplyOk
        },
        NodeCall::Rmdir { path } => {
            fs.dir_removed(&path);
            NodeFollowUp::ReplyOk
        },
        NodeCall::Rename { old, path, .. } => {
            fs.renamed(&old, &path);
            NodeFollowUp::ReplyOk
        },
    }
}

/// How a file is to be created.
#[derive(Debug, PartialEq, Eq)]
pub struct CreatePlan {
    pub path: RelPath,
    pub flags: i32,
    pub mode: u32,
}

/// Plans the creation of a file: it is opened with the creation flag added and its mode cut
/// down by the requester's mask.
pub fn begin_create(fs: &FsCache, parent: u64, name: &[u8], mode: u32, umask: u32, flags: i32)
    -> (r: Result<CreatePlan, i32>)
    ensures
        match fs@.child_of(parent, name@) {
            Some(p) => r matches Ok(plan) && plan.path@ == p && plan.flags == flags | 0o100
                && plan.mode == mode & !umask,
            None => r matches Err(e) && e == 2,
        },
{
    match fs.child_path(parent, name) {
        Ok(path) => Ok(
            CreatePlan { path, flags: flags | O_CREAT, mode: fusefs::apply_umask(mode, umask) },
        ),
        Err(e) => Err(e),
    }
}

/// What is replied to a creation.
#[derive(Clone, Copy, Debug, PartialEq, Eq, Structural)]
pub enum CreateReply {
    /// The file exists, open under the handle.
    Created { attr: FileAttr, fh: u64 },
    /// The file could not be examined: close the handle, remove the file, then reply the error.
    CleanUp { errno: i32 },
}

/// Ends a creation whose file was opened under handle `fh` and examined.
pub fn finish_create(fs: &mut FsCache, plan: &CreatePlan, fh: u64, stat: Option<FileStat>) -> (r:
    CreateReply)
    requires
        old(fs)@.wf(),
        old(fs)@.inodes.next_ino < u64::MAX,
        stat matches Some(s) ==> s.in_range(),
    ensures
        final(fs)@.wf(),
        match stat {
            Some(s) => {
                &&& r == (CreateReply::Created {
                    attr: attr::attr_of_stat(
                        fusefs::ino_of_lookup(old(fs)@.inodes, plan.path@),
                        s,
                    ),
                    fh,
                })
                &&& final(fs)@ == old(fs)@.with_inodes(
                    old(fs)@.inodes.looked_up(plan.path@),
                )
            },
            None => {
                &&& r == (CreateReply::CleanUp { errno: ENOENT })
                &&& final(fs)@ == (FsModel {
                    writes: old(fs)@.writes.remove(fh),
                    appends: old(fs)@.appends.remove(fh),
                    ..old(fs)@
                })
            },
        },
{
    match fs.fresh_attr_for_path(&plan.path, stat) {
        Ok(attr) => CreateReply::Created { attr, fh },
        Err(errno) => {
            fs.write_abandoned(fh);
            CreateReply::CleanUp { errno }
        },
    }
}

/// Where a write goes.
#[derive(Clone, Copy, Debug, PartialEq, Eq, Structural)]
pub enum WriteCall {
    /// At the end of the file.
    Append,
    /// At an offset.
    At { offset: u64 },
}

/// Chooses where a write goes.
pub fn write_call(fs: &FsCache, fh: u64, offset: u64, flags: i32) -> (r: WriteCall)
    ensures
        r == (if fs@.appends.contains(fh) || flags & fusefs::O_APPEND != 0 {
            WriteCall::Append
        } else {
            WriteCall::At { offset }
        }),
{
    if fs.appends(fh, flags) {
        WriteCall::Append
    } else {
        WriteCall::At { offset }
    }
}

/// Checks a request to set an extended attribute: positions other than the start are not
/// supported, and that is found out first.
pub fn begin_setxattr(fs: &FsCache, ino: u64, position: u32) -> (r: Result<RelPath, i32>)
    ensures
        if position != 0 {
            r matches Err(e) && e == 38
        } else {
            match fs@.path_of(ino) {
                Some(p) => r matches Ok(path) && path@ == p,
                None => r matches Err(e) && e == 2,
            }
        },
{
    if position != 0 {
        return Err(ENOSYS);
    }
    fs.path_for_ino(ino)
}

/// A file opened for appending is written to at its end until it is closed.
pub proof fn law_append_lasts(m: FsModel, fh: u64, p: PathView, flags: i32)
    requires
        flags & fusefs::O_APPEND != 0,
    ensures
        m.writing(fh, p, flags).appends.contains(fh),
        !m.writing(fh, p, flags).released(fh).appends.contains(fh),
{
}

/// A creation that is cleaned up leaves the state as it was before the file was opened.
pub proof fn law_failed_create_leaves_nothing(m: FsModel, fh: u64, p: PathView, flags: i32)
    requires
        !m.writes.contains_key(fh),
        !m.appends.contains(fh),
    ensures
        ({
            let opened = m.writing(fh, p, flags);
            FsModel {
                writes: opened.writes.remove(fh),
                appends: opened.appends.remove(fh),
                ..opened
            }
        }) == m,
{
    let opened = m.writing(fh, p, flags);
    assert(opened.writes.remove(fh) =~= m.writes);
    assert(opened.appends.remove(fh) =~= m.appends);
}

/// Where a request gives a modification or an access time, that time is set; where it asks for
/// the current time, the time at which the file was examined; where it gives none, the time that
/// the file has. Each of the two goes by its own part of the request.
pub proof fn law_requested_times_are_set(
    req: SetattrRequest,
    ino: u64,
    s: FileStat,
    now: Option<Timestamp>,
    atime: Timespec,
    mtime: Timespec,
)
    ensures
        ({
            let next = req.after(
                ino,
                SetattrAction::StatForTimes,
                SetattrEvent::Examined { stat: Some(s), now },
            );
            &&& next is SetTimes
            &&& next == (SetattrAction::SetTimes { atime, mtime }) ==> {
                &&& req.mtime matches Some(TimeOrNow::SpecificTime(Some(t))) ==> mtime.tv_nsec
                    == t.nanos && (t.secs <= i64::MAX ==> mtime.tv_sec == t.secs)
                &&& req.mtime == Some(TimeOrNow::SpecificTime(None)) ==> mtime.tv_sec == 0
                    && mtime.tv_nsec == 0
                &&& req.mtime == Some(TimeOrNow::Now) ==> (now matches Some(t) ==> mtime.tv_nsec
                    == t.nanos && (t.secs <= i64::MAX ==> mtime.tv_sec == t.secs))
                &&& req.mtime == Some(TimeOrNow::Now) && now is None ==> mtime.tv_sec == 0
                    && mtime.tv_nsec == 0
                &&& req.mtime is None ==> mtime.tv_sec == s.mtime && mtime.tv_nsec == s.mtime_nsec
                &&& req.atime matches Some(TimeOrNow::SpecificTime(Some(t))) ==> atime.tv_nsec
                    == t.nanos && (t.secs <= i64::MAX ==> atime.tv_sec == t.secs)
                &&& req.atime == Some(TimeOrNow::SpecificTime(None)) ==> atime.tv_sec == 0
                    && atime.tv_nsec == 0
                &&& req.atime == Some(TimeOrNow::Now) ==> (now matches Some(t) ==> atime.tv_nsec
                    == t.nanos && (t.secs <= i64::MAX ==> atime.tv_sec == t.secs))
                &&& req.atime == Some(TimeOrNow::Now) && now is None ==> atime.tv_sec == 0
                    && atime.tv_nsec == 0
                &&& req.atime is None ==> atime.tv_sec == s.atime && atime.tv_nsec == s.atime_nsec
            }
        }),
{
}

/// A time that a file shows can be set again: it comes back as it was examined.
pub proof fn law_shown_times_can_be_set(secs: i64, nsec: u32)
    requires
        0 <= secs <= i64::MAX - 4,
        nsec < 1_000_000_000,
    ensures
        timespec_of(Some(attr::timestamp_of(secs, nsec))).tv_sec == secs,
        timespec_of(Some(attr::timestamp_of(secs, nsec))).tv_nsec == nsec,
{
}

/// A request whose actions all succeed makes every change that it asks for, with the values that
/// it gives, in the order mode, owner, size, times, and ends with an examination for the reply.
pub proof fn law_every_requested_change_is_made(req: SetattrRequest, ino: u64)
    ensures
        ({
            let first = req.due(0);
            let behind_mode = if req.mode is Some {
                req.after(ino, first, SetattrEvent::Done)
            } else {
                first
            };
            let owner = req.uid is Some || req.gid is Some;
            let behind_owner = if owner {
                req.after(ino, behind_mode, SetattrEvent::Done)
            } else {
                behind_mode
            };
            let behind_size = if req.size is Some {
                req.after(ino, behind_owner, SetattrEvent::Done)
            } else {
                behind_owner
            };
            &&& req.mode matches Some(mode) ==> first == (SetattrAction::Chmod { mode })
            &&& owner ==> behind_mode == (SetattrAction::Chown { uid: req.uid, gid: req.gid })
            &&& req.size matches Some(size) ==> (req.fh matches Some(fh) ==> behind_owner == (
            SetattrAction::TruncateHandle { fh, size }))
            &&& req.size matches Some(size) ==> (req.fh is None ==> behind_owner == (
            SetattrAction::TruncatePath { size }))
            &&& req.atime is Some || req.mtime is Some ==> behind_size
                == SetattrAction::StatForTimes
            &&& req.atime is None && req.mtime is None ==> behind_size
                == SetattrAction::StatForReply
        }),
{
}

/// Times that were set are followed by an examination, whose result is replied as the attributes
/// of the file: its owner, size and times under the inode of the request. What cannot be examined
/// does not exist, and the first error is the one that is replied.
pub proof fn law_setattr_replies_the_file(
    req: SetattrRequest,
    ino: u64,
    action: SetattrAction,
    s: FileStat,
    now: Option<Timestamp>,
    errno: i32,
)
    requires
        s.in_range(),
    ensures
        action is SetTimes ==> req.after(ino, action, SetattrEvent::Done)
            == SetattrAction::StatForReply,
        req.after(
            ino,
            SetattrAction::StatForReply,
            SetattrEvent::Examined { stat: Some(s), now },
        ) matches SetattrAction::Reply { attr } && attr.ino == ino && attr.uid == s.uid && attr.gid
            == s.gid && (s.size >= 0 ==> attr.size == s.size) && (0 <= s.mtime_nsec
            < 1_000_000_000 ==> attr.mtime.secs == s.mtime && attr.mtime.nanos == s.mtime_nsec)
            && (0 <= s.atime_nsec < 1_000_000_000 ==> attr.atime.secs == s.atime
            && attr.atime.nanos == s.atime_nsec),
        action is StatForTimes || action is StatForReply ==> req.after(
            ino,
            action,
            SetattrEvent::Examined { stat: None, now },
        ) == (SetattrAction::Error { errno: 2 }),
        !(action is Reply) && !(action is Error) ==> req.after(
            ino,
            action,
            SetattrEvent::Failed { errno },
        ) == (SetattrAction::Error { errno }),
{
    attr::law_stat_attributes_are_the_files(ino, s);
}

/// A new file or directory gets the mode that was asked for, without the bits of the requester's
/// mask and with all others.
pub proof fn law_new_nodes_are_masked(m: FsModel, request: NodeRequest)
    ensures
        request matches NodeRequest::Mknod { mode, umask, rdev, .. } ==> (call_of(m, request)
            matches Some(CallView::Mknod { mode: made, rdev: device, .. }) ==> made & umask == 0
            && made | (mode & umask) == mode && device == rdev),
        request matches NodeRequest::Mkdir { mode, umask, .. } ==> (call_of(m, request) matches Some(
            CallView::Mkdir { mode: made, .. },
        ) ==> made & umask == 0 && made | (mode & umask) == mode),
{
    match request {
        NodeRequest::Mknod { mode, umask, .. } => {
            lemma_mask_splits(mode, umask);
        },
        NodeRequest::Mkdir { mode, umask, .. } => {
            lemma_mask_splits(mode, umask);
        },
        _ => {},
    }
}

proof fn lemma_mask_splits(mode: u32, umask: u32)
    ensures
        (mode & !umask) & umask == 0,
        (mode & !umask) | (mode & umask) == mode,
{
    assert((mode & !umask) & umask == 0) by (bit_vector);
    assert((mode & !umask) | (mode & umask) == mode) by (bit_vector);
}

/// A request comes down to a call on the names that it gives, in the directories that it gives:
/// a rename goes from its first name to its second, a link from its inode to its name. There is a
/// call exactly where all inodes of the request are known.
pub proof fn law_calls_name_what_is_asked(m: FsModel, request: NodeRequest)
    ensures
        match request {
            NodeRequest::Mknod { parent, name, .. } => {
                &&& call_of(m, request) is Some <==> m.inodes.by_ino.contains_key(parent)
                &&& call_of(m, request) matches Some(call) ==> (call matches CallView::Mknod {
                    path,
                    ..
                } && path == crate::path::joined(m.inodes.by_ino[parent].0, name@))
            },
            NodeRequest::Mkdir { parent, name, .. } => {
                &&& call_of(m, request) is Some <==> m.inodes.by_ino.contains_key(parent)
                &&& call_of(m, request) matches Some(call) ==> (call matches CallView::Mkdir {
                    path,
                    ..
                } && path == crate::path::joined(m.inodes.by_ino[parent].0, name@))
            },
            NodeRequest::Symlink { parent, name } => {
                &&& call_of(m, request) is Some <==> m.inodes.by_ino.contains_key(parent)
                &&& call_of(m, request) matches Some(call) ==> call == (CallView::Symlink {
                    path: crate::path::joined(m.inodes.by_ino[parent].0, name@),
                })
            },
            NodeRequest::Link { ino, parent, name } => {
                &&& call_of(m, request) is Some <==> m.inodes.by_ino.contains_key(ino)
                    && m.inodes.by_ino.contains_key(parent)
                &&& call_of(m, request) matches Some(call) ==> call == (CallView::Link {
                    old: m.inodes.by_ino[ino].0,
                    path: crate::path::joined(m.inodes.by_ino[parent].0, name@),
                })
            },
            NodeRequest::Unlink { parent, name } => {
                &&& call_of(m, request) is Some <==> m.inodes.by_ino.contains_key(parent)
                &&& call_of(m, request) matches Some(call) ==> call == (CallView::Unlink {
                    path: crate::path::joined(m.inodes.by_ino[parent].0, name@),
                })
            },
            NodeRequest::Rmdir { parent, name } => {
                &&& call_of(m, request) is Some <==> m.inodes.by_ino.contains_key(parent)
                &&& call_of(m, request) matches Some(call) ==> call == (CallView::Rmdir {
                    path: crate::path::joined(m.inodes.by_ino[parent].0, name@),
                })
            },
            NodeRequest::Rename { parent, name, new_parent, new_name, flags } => {
                &&& call_of(m, request) is Some <==> m.inodes.by_ino.contains_key(parent)
                    && m.inodes.by_ino.contains_key(new_parent)
                &&& call_of(m, request) matches Some(call) ==> call == (CallView::Rename {
                    old: crate::path::joined(m.inodes.by_ino[parent].0, name@),
                    path: crate::path::joined(m.inodes.by_ino[new_parent].0, new_name@),
                    flags,
                })
            },
        },
{
}

/// What a call that succeeded does to the known paths: a removed file is no longer known, and of
/// a removed directory nothing is; nothing else is lost or learnt. Calls that make something
/// change nothing.
pub proof fn law_removals_forget_paths(
    before: FsModel,
    after: FsModel,
    call: CallView,
    q: PathView,
)
    requires
        before.wf(),
        call_effect(before, after, call),
    ensures
        call is Mknod || call is Mkdir || call is Symlink || call is Link ==> after == before,
        call matches CallView::Unlink { path } ==> path != PathView::empty() ==> (
        after.inodes.by_path.contains_key(q) <==> before.inodes.by_path.contains_key(q) && q
            != path),
        call matches CallView::Rmdir { path } ==> path != PathView::empty() ==> (
        after.inodes.by_path.contains_key(q) <==> before.inodes.by_path.contains_key(q) && !(
        path.len() <= q.len() && q.take(path.len() as int) == path)),
        !(call is Rename) && after.inodes.by_path.contains_key(q) ==> after.inodes.by_path[q]
            == before.inodes.by_path[q] && before.inodes.by_path.contains_key(q),
        after.bytes == before.bytes && after.reads == before.reads && after.writes
            == before.writes && after.appends == before.appends && after.recent == before.recent,
{
}

/// A rename between places of which neither lies below the other takes every known path below
/// the old place to the same place below the new one, under the inode that it had.
pub proof fn law_renamed_paths_keep_their_inodes(
    before: FsModel,
    after: FsModel,
    old_path: PathView,
    new_path: PathView,
    flags: u32,
    rest: PathView,
)
    requires
        before.wf(),
        old_path.len() > 0,
        call_effect(before, after, CallView::Rename { old: old_path, path: new_path, flags }),
        !(new_path.len() <= old_path.len() && old_path.take(new_path.len() as int) == new_path),
        !(old_path.len() <= new_path.len() && new_path.take(old_path.len() as int) == old_path),
        before.inodes.by_path.contains_key(old_path + rest),
    ensures
        after.inodes.by_path.contains_key(new_path + rest),
        after.inodes.by_path[new_path + rest] == before.inodes.by_path[old_path + rest],
        !after.inodes.by_path.contains_key(old_path + rest),
        after.bytes == before.bytes && after.reads == before.reads && after.writes
            == before.writes && after.appends == before.appends && after.recent == before.recent,
{
    let p = old_path + rest;
    assert(p.take(old_path.len() as int) =~= old_path);
    assert(p.skip(old_path.len() as int) =~= rest);
    crate::fuse::inode::law_rename_keeps_inodes(before.inodes, old_path, new_path, p);
    assert(crate::path::rebase(p, old_path, new_path) == new_path + rest);
}

/// A handle appends exactly where it was opened with the flag 0o2000.
pub proof fn law_append_goes_by_flag(m: FsModel, fh: u64, p: PathView, flags: i32)
    requires
        !m.appends.contains(fh),
    ensures
        m.writing(fh, p, flags).appends.contains(fh) <==> flags & 0o2000 != 0,
        m.writing(fh, p, flags).writes.contains_key(fh),
        m.writing(fh, p, flags).writes[fh] == p,
{
}

} // verus!
