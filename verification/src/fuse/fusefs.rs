//! The state of a mounted file system: its inodes, open handles and recent log lines.

use crate::backing_store;
use crate::fuse::attr;
use crate::fuse::attr::{FileAttr, FileStat, FileType};
use crate::fuse::inode::{InodeModel, InodeTable, ROOT_INO};
use crate::path;
use crate::path::{PathView, RelPath};
use crate::path_map::PathMap;
use crate::text;
use std::collections::{HashMap, HashSet};
use vstd::prelude::*;

verus! {

broadcast use vstd::std_specs::hash::group_hash_axioms;

/// No such file or directory.
pub const ENOENT: i32 = 2;

/// Seconds for which the kernel may keep attributes and names.
pub const TTL_SECS: u64 = 1;

/// How an open was served. It drives logging, the notification of the caching engine and the
/// recording of processes.
#[derive(Clone, Copy, Debug, PartialEq, Eq, Structural)]
pub enum OpenOutcome {
    /// Served from the SSD cache.
    Hit,
    /// Served from the backing store; eligible for caching.
    Miss,
    /// Served from the backing store for a process that the preset ignores: the access does not
    /// influence what is cached.
    Filtered,
}

/// What the caching engine is told of an open.
#[derive(Clone, Copy, Debug, PartialEq, Eq, Structural)]
pub enum EngineEvent {
    Hit,
    Miss,
}

/// Mask of the access mode in open flags.
pub const O_ACCMODE: i32 = 0o3;

pub const O_WRONLY: i32 = 0o1;

pub const O_RDWR: i32 = 0o2;

pub const O_CREAT: i32 = 0o100;

pub const O_TRUNC: i32 = 0o1000;

pub const O_APPEND: i32 = 0o2000;

/// Whether open flags ask for writing.
pub open spec fn write_intent(flags: i32) -> bool {
    ||| flags & O_ACCMODE == O_WRONLY
    ||| flags & O_ACCMODE == O_RDWR
    ||| flags & O_TRUNC != 0
    ||| flags & O_APPEND != 0
}

/// Tests whether open flags ask for writing.
pub fn is_write_intent(flags: i32) -> (r: bool)
    ensures
        r == write_intent(flags),
{
    let access_mode: i32 = flags & O_ACCMODE;
    access_mode == O_WRONLY || access_mode == O_RDWR || flags & O_TRUNC != 0 || flags & O_APPEND
        != 0
}

/// The mode of a new file.
pub fn apply_umask(mode: u32, umask: u32) -> (r: u32)
    ensures
        r == mode & !umask,
        r & umask == 0,
{
    assert((mode & !umask) & umask == 0) by (bit_vector);
    mode & !umask
}

/// The state of a mounted file system.
pub struct FsCache {
    inodes: InodeTable,
    /// Whether everything is served from the backing store.
    pub passthrough_mode: bool,
    /// For how long a repeated access to one file is not logged again. Zero logs all.
    pub repeat_log_window_ms: u64,
    recent_logs: PathMap<u64>,
    open_bytes: HashMap<u64, u64>,
    open_paths: HashMap<u64, RelPath>,
    write_paths: HashMap<u64, RelPath>,
    append_handles: HashSet<u64>,
}

/// What a mounted file system holds: its inodes, when each file was last logged, how much was
/// read through each handle, the files whose closing the caching engine is to hear of, the
/// handles that are open for writing and those that append.
#[verifier::ext_equal]
pub struct FsModel {
    pub inodes: InodeModel,
    pub passthrough: bool,
    pub window: u64,
    pub recent: Map<PathView, u64>,
    pub bytes: Map<u64, u64>,
    pub reads: Map<u64, PathView>,
    pub writes: Map<u64, PathView>,
    pub appends: Set<u64>,
}

impl View for FsCache {
    type V = FsModel;

    closed spec fn view(&self) -> FsModel {
        FsModel {
            inodes: self.inodes@,
            passthrough: self.passthrough_mode,
            window: self.repeat_log_window_ms,
            recent: self.recent_logs@,
            bytes: self.open_bytes@,
            reads: self.open_paths@.map_values(|p: RelPath| p@),
            writes: self.write_paths@.map_values(|p: RelPath| p@),
            appends: self.append_handles@,
        }
    }
}

/// How long ago `then` was; zero for a time to come.
pub open spec fn elapsed(now: u64, then: u64) -> u64 {
    if now > then {
        (now - then) as u64
    } else {
        0
    }
}

/// The number of log times above which old ones are dropped.
pub const RECENT_LOGS_MAX: usize = 1000;

impl FsModel {
    /// The inodes are consistent.
    pub open spec fn wf(self) -> bool {
        self.inodes.wf()
    }

    /// The recent log times that count at `now`: when there are many, those outside the window
    /// are dropped.
    pub open spec fn recent_at(self, now: u64) -> Map<PathView, u64> {
        if self.recent.dom().len() > RECENT_LOGS_MAX {
            self.recent.restrict(
                Set::new(|p: PathView| elapsed(now, self.recent[p]) < self.window),
            )
        } else {
            self.recent
        }
    }

    /// Whether an access to `p` at `now` repeats one that was logged within the window.
    pub open spec fn suppresses(self, p: PathView, now: u64) -> bool {
        self.window > 0 && self.recent_at(now).contains_key(p) && elapsed(
            now,
            self.recent_at(now)[p],
        ) < self.window
    }

    /// The state after deciding whether to log an access.
    pub open spec fn after_log(self, p: PathView, now: u64) -> FsModel {
        if self.window == 0 {
            self
        } else if self.suppresses(p, now) {
            FsModel { recent: self.recent_at(now), ..self }
        } else {
            FsModel { recent: self.recent_at(now).insert(p, now), ..self }
        }
    }

    /// The path of an inode.
    pub open spec fn path_of(self, ino: u64) -> Option<PathView> {
        if self.inodes.by_ino.contains_key(ino) {
            Some(self.inodes.by_ino[ino].0)
        } else {
            None
        }
    }

    /// The path of a name in the directory of an inode.
    pub open spec fn child_of(self, parent: u64, name: Seq<u8>) -> Option<PathView> {
        match self.path_of(parent) {
            Some(dir) => Some(path::joined(dir, name)),
            None => None,
        }
    }

    /// The state with other inodes.
    pub open spec fn with_inodes(self, inodes: InodeModel) -> FsModel {
        FsModel { inodes, ..self }
    }

    /// The state after a file was opened for reading under handle `fh`. The engine hears of
    /// the closing of a file exactly where it heard of its opening.
    pub open spec fn reading(self, fh: u64, p: PathView, event: Option<EngineEvent>) -> FsModel {
        FsModel {
            bytes: self.bytes.insert(fh, 0),
            reads: if event is Some {
                self.reads.insert(fh, p)
            } else {
                self.reads
            },
            ..self
        }
    }

    /// The state after a file was opened for writing under handle `fh`.
    pub open spec fn writing(self, fh: u64, p: PathView, flags: i32) -> FsModel {
        FsModel {
            writes: self.writes.insert(fh, p),
            appends: if flags & O_APPEND != 0 {
                self.appends.insert(fh)
            } else {
                self.appends
            },
            ..self
        }
    }

    /// The state after handle `fh` was closed.
    pub open spec fn released(self, fh: u64) -> FsModel {
        if self.writes.contains_key(fh) {
            FsModel { writes: self.writes.remove(fh), appends: self.appends.remove(fh), ..self }
        } else {
            FsModel { bytes: self.bytes.remove(fh), reads: self.reads.remove(fh), ..self }
        }
    }
}

/// What the caching engine is told of an open: nothing where the access is filtered, and
/// nothing of a miss where everything is passed through.
pub open spec fn engine_event(
    outcome: OpenOutcome,
    filtered: bool,
    passthrough: bool,
) -> Option<EngineEvent> {
    if filtered {
        None
    } else {
        match outcome {
            OpenOutcome::Hit => Some(EngineEvent::Hit),
            OpenOutcome::Miss => if passthrough {
                None
            } else {
                Some(EngineEvent::Miss)
            },
            OpenOutcome::Filtered => None,
        }
    }
}

/// What an open calls for.
#[derive(Debug, PartialEq, Eq)]
pub enum OpenPlan {
    /// The inode is not known.
    NotFound,
    /// Open on the backing store with the requester's identity, for writing.
    Write { path: RelPath },
    /// Open for reading. `suppress` says that the access was logged a moment ago.
    Read { path: RelPath, suppress: bool },
}

/// What closing a handle means.
#[derive(Debug, PartialEq, Eq)]
pub enum Released {
    /// A handle for writing was closed.
    Write { path: RelPath },
    /// A handle for reading was closed. The engine is told where it heard of the opening.
    Read { bytes_read: u64, notify: Option<RelPath> },
}

/// One entry of a directory as it was read, with the mode of the file where examining it was
/// called for and possible.
#[derive(Debug, PartialEq, Eq)]
pub struct RawEntry {
    pub name: Vec<u8>,
    pub d_type: u8,
    pub mode: Option<u32>,
}

/// One entry of a directory as it is handed to the kernel.
#[derive(Debug, PartialEq, Eq)]
pub struct DirEntry {
    pub name: Vec<u8>,
    pub ino: u64,
    pub kind: FileType,
}

/// View of a directory entry.
pub struct DirEntryView {
    pub name: Seq<u8>,
    pub ino: u64,
    pub kind: FileType,
}

impl View for DirEntry {
    type V = DirEntryView;

    open spec fn view(&self) -> DirEntryView {
        DirEntryView { name: self.name@, ino: self.ino, kind: self.kind }
    }
}

/// Element-wise view of directory entries.
pub open spec fn entries_view(v: Seq<DirEntry>) -> Seq<DirEntryView> {
    v.map_values(|e: DirEntry| e@)
}

/// The type of a raw entry: what the entry tells, else what examining the file told, else that
/// of a regular file.
pub open spec fn raw_kind(e: RawEntry) -> FileType {
    match attr::entry_kind(e.d_type) {
        Some(kind) => kind,
        None => match e.mode {
            Some(mode) => attr::filetype_of(mode),
            None => FileType::RegularFile,
        },
    }
}

/// The inode that a path resolves to, the root where it is unknown.
pub open spec fn ino_or_root(m: InodeModel, p: PathView) -> u64 {
    if m.by_path.contains_key(p) {
        m.by_path[p]
    } else {
        ROOT_INO
    }
}

/// The inode that looking a path up gives.
pub open spec fn ino_of_lookup(m: InodeModel, p: PathView) -> u64 {
    if m.by_path.contains_key(p) {
        m.by_path[p]
    } else {
        m.next_ino
    }
}

/// The inodes after all entries of a directory were looked up in order.
pub open spec fn inodes_after(m: InodeModel, dir: PathView, raw: Seq<RawEntry>) -> InodeModel
    decreases raw.len(),
{
    if raw.len() == 0 {
        m
    } else {
        let before = inodes_after(m, dir, raw.drop_last());
        if backing_store::is_dot_entry(raw.last().name@) {
            before
        } else {
            before.looked_up(path::joined(dir, raw.last().name@))
        }
    }
}

/// The entries that a directory lists: "." and ".." first, then every other entry with its
/// inode and type.
pub open spec fn listed_entries(m: InodeModel, dir: PathView, raw: Seq<RawEntry>) -> Seq<
    DirEntryView,
>
    decreases raw.len(),
{
    if raw.len() == 0 {
        seq![
            DirEntryView {
                name: seq![0x2eu8],
                ino: ino_or_root(m, dir),
                kind: FileType::Directory,
            },
            DirEntryView {
                name: seq![0x2eu8, 0x2eu8],
                ino: ino_or_root(m, path::parent_or_root(dir)),
                kind: FileType::Directory,
            },
        ]
    } else {
        let before = listed_entries(m, dir, raw.drop_last());
        let e = raw.last();
        if backing_store::is_dot_entry(e.name@) {
            before
        } else {
            before.push(
                DirEntryView {
                    name: e.name@,
                    ino: ino_of_lookup(
                        inodes_after(m, dir, raw.drop_last()),
                        path::joined(dir, e.name@),
                    ),
                    kind: raw_kind(e),
                },
            )
        }
    }
}

/// Looking entries up spends at most one inode number for each.
pub proof fn lemma_inodes_after_bounded(m: InodeModel, dir: PathView, raw: Seq<RawEntry>)
    requires
        m.wf(),
        m.next_ino + raw.len() <= u64::MAX,
    ensures
        inodes_after(m, dir, raw).next_ino <= m.next_ino + raw.len(),
    decreases raw.len(),
{
    if raw.len() > 0 {
        lemma_inodes_after_bounded(m, dir, raw.drop_last());
    }
}

impl FsCache {
    /// A file system that nobody has looked at yet. Repeated accesses are not logged again for
    /// a minute.
    pub fn new() -> (r: Self)
        ensures
            r@.wf(),
            r@.inodes.by_ino == map![ROOT_INO => (PathView::empty(), u64::MAX)],
            r@.inodes.by_path == map![PathView::empty() => ROOT_INO],
            r@.inodes.next_ino == 2,
            !r@.passthrough,
            r@.window == 60_000,
            r@.recent == Map::<PathView, u64>::empty(),
            r@.bytes == Map::<u64, u64>::empty(),
            r@.reads == Map::<u64, PathView>::empty(),
            r@.writes == Map::<u64, PathView>::empty(),
            r@.appends == Set::<u64>::empty(),
    {
        let r = FsCache {
            inodes: InodeTable::new(),
            passthrough_mode: false,
            repeat_log_window_ms: 60_000,
            recent_logs: PathMap::new(),
            open_bytes: HashMap::new(),
            open_paths: HashMap::new(),
            write_paths: HashMap::new(),
            append_handles: HashSet::new(),
        };
        assert(r@.reads =~= Map::<u64, PathView>::empty());
        assert(r@.writes =~= Map::<u64, PathView>::empty());
        r
    }

    /// Whether an access repeats one that was logged within the window. If it does not, its
    /// time is recorded.
    pub fn should_suppress_log(&mut self, p: &RelPath, now: u64) -> (r: bool)
        ensures
            r == old(self)@.suppresses(p@, now),
            final(self)@ == old(self)@.after_log(p@, now),
    {
        if self.repeat_log_window_ms == 0 {
            return false;
        }
        let ghost start = self@;
        if self.recent_logs.has_more_than(RECENT_LOGS_MAX) {
            self.drop_old_logs(now);
        }
        assert(self@ =~= (FsModel { recent: start.recent_at(now), ..start }));
        let repeated = match self.recent_logs.get(p) {
            Some(last) => now.saturating_sub(*last) < self.repeat_log_window_ms,
            None => false,
        };
        if !repeated {
            self.recent_logs.insert(p.clone(), now);
        }
        assert(self@ =~= start.after_log(p@, now));
        repeated
    }

    fn drop_old_logs(&mut self, now: u64)
        ensures
            final(self)@ == (FsModel {
                recent: old(self)@.recent.restrict(
                    Set::new(
                        |p: PathView| elapsed(now, old(self)@.recent[p]) < old(self)@.window,
                    ),
                ),
                ..old(self)@
            }),
    {
        let keys = self.recent_logs.keys();
        let ghost start = self@;
        let mut i: usize = 0;
        while i < keys.len()
            invariant
                i <= keys.len(),
                forall|p: PathView|
                    #[trigger] start.recent.contains_key(p) <==> exists|k: int|
                        0 <= k < keys@.len() && (#[trigger] keys@[k])@ == p,
                self@ == (FsModel { recent: self@.recent, ..start }),
                forall|p: PathView| #[trigger]
                    self@.recent.contains_key(p) ==> start.recent.contains_key(p)
                        && self@.recent[p] == start.recent[p],
                forall|p: PathView| #[trigger]
                    start.recent.contains_key(p) && elapsed(now, start.recent[p]) < start.window
                        ==> self@.recent.contains_key(p),
                forall|k: int|
                    0 <= k < i ==> (self@.recent.contains_key((#[trigger] keys@[k])@) ==> elapsed(
                        now,
                        start.recent[keys@[k]@],
                    ) < start.window),
            decreases keys.len() - i,
        {
            assert(start.recent.contains_key(keys@[i as int]@));
            let fresh = match self.recent_logs.get(&keys[i]) {
                Some(last) => now.saturating_sub(*last) < self.repeat_log_window_ms,
                None => true,
            };
            if !fresh {
                self.recent_logs.remove(&keys[i]);
            }
            i = i + 1;
        }
        proof {
            let want = start.recent.restrict(
                Set::new(|p: PathView| elapsed(now, start.recent[p]) < start.window),
            );
            assert forall|p: PathView| #[trigger] self@.recent.contains_key(p) implies want.contains_key(
                p,
            ) by {
                assert(start.recent.contains_key(p));
                let k = choose|k: int| 0 <= k < keys@.len() && (#[trigger] keys@[k])@ == p;
                assert(self@.recent.contains_key(keys@[k]@));
            }
            assert(self@.recent =~= want);
        }
    }

    /// The path of an inode.
    pub fn path_for_ino(&self, ino: u64) -> (r: Result<RelPath, i32>)
        ensures
            r matches Ok(p) ==> self@.path_of(ino) == Some(p@),
            r is Err <==> self@.path_of(ino) is None,
            r matches Err(e) ==> e == ENOENT,
    {
        match self.inodes.get_path(ino) {
            Some(p) => Ok(p.clone()),
            None => Err(ENOENT),
        }
    }

    /// The path of a name in the directory of an inode.
    pub fn child_path(&self, parent: u64, name: &[u8]) -> (r: Result<RelPath, i32>)
        ensures
            r matches Ok(p) ==> self@.child_of(parent, name@) == Some(p@),
            r is Err <==> self@.child_of(parent, name@) is None,
            r matches Err(e) ==> e == ENOENT,
    {
        match self.inodes.get_path(parent) {
            Some(dir) => Ok(dir.join(name)),
            None => Err(ENOENT),
        }
    }

    /// Whether `n` more inode numbers can be handed out.
    pub fn has_inode_room(&self, n: usize) -> (r: bool)
        ensures
            r == (self@.inodes.next_ino + n <= u64::MAX),
    {
        self.inodes.room() >= n as u64
    }

    /// The inode of a path, with its lookup count raised.
    pub fn lookup_ino(&mut self, p: &RelPath) -> (r: u64)
        requires
            old(self)@.wf(),
            old(self)@.inodes.by_path.contains_key(p@) || old(self)@.inodes.next_ino < u64::MAX,
        ensures
            final(self)@.wf(),
            final(self)@ == old(self)@.with_inodes(old(self)@.inodes.looked_up(p@)),
            r == ino_of_lookup(old(self)@.inodes, p@),
    {
        self.inodes.get_or_create(p)
    }

    /// Drops lookups of an inode.
    pub fn forget(&mut self, ino: u64, nlookup: u64)
        requires
            old(self)@.wf(),
        ensures
            final(self)@.wf(),
            final(self)@ == old(self)@.with_inodes(old(self)@.inodes.forgotten(ino, nlookup)),
    {
        self.inodes.forget(ino, nlookup);
    }

    /// Follows the removal of a file.
    pub fn file_removed(&mut self, p: &RelPath)
        requires
            old(self)@.wf(),
        ensures
            final(self)@.wf(),
            final(self)@ == old(self)@.with_inodes(old(self)@.inodes.without(p@)),
    {
        self.inodes.remove_path(p);
    }

    /// Follows the removal of a directory.
    pub fn dir_removed(&mut self, p: &RelPath)
        requires
            old(self)@.wf(),
        ensures
            final(self)@.wf(),
            final(self)@ == old(self)@.with_inodes(
                if p@ == PathView::empty() {
                    old(self)@.inodes
                } else {
                    old(self)@.inodes.without_subtree(p@)
                },
            ),
    {
        self.inodes.remove_subtree(p);
    }

    /// Follows a rename.
    pub fn renamed(&mut self, old_path: &RelPath, new_path: &RelPath)
        requires
            old(self)@.wf(),
        ensures
            final(self)@.wf(),
            final(self)@ == old(self)@.with_inodes(final(self)@.inodes),
            is_rename(old(self)@.inodes, final(self)@.inodes, old_path@, new_path@),
    {
        self.inodes.rename_path(old_path, new_path);
    }

    /// The attributes of a path that was examined on the backing store, under an inode that is
    /// looked up for it. A path that could not be examined does not exist.
    pub fn fresh_attr_for_path(&mut self, p: &RelPath, stat: Option<FileStat>) -> (r: Result<
        FileAttr,
        i32,
    >)
        requires
            old(self)@.wf(),
            old(self)@.inodes.by_path.contains_key(p@) || old(self)@.inodes.next_ino < u64::MAX,
            stat matches Some(s) ==> s.in_range(),
        ensures
            final(self)@.wf(),
            match stat {
                Some(s) => {
                    &&& r == Ok::<FileAttr, i32>(
                        attr::attr_of_stat(ino_of_lookup(old(self)@.inodes, p@), s),
                    )
                    &&& final(self)@ == old(self)@.with_inodes(
                        old(self)@.inodes.looked_up(p@),
                    )
                },
                None => r == Err::<FileAttr, i32>(ENOENT) && final(self)@ == old(self)@,
            },
    {
        match stat {
            Some(s) => {
                let ino = self.lookup_ino(p);
                Ok(attr::stat_to_attr(ino, &s))
            },
            None => Err(ENOENT),
        }
    }

    /// Lists a directory from its raw entries: "." and ".." come first, and every other entry
    /// is looked up.
    pub fn list_dir_entries(&mut self, dir: &RelPath, raw: &Vec<RawEntry>) -> (r: Vec<DirEntry>)
        requires
            old(self)@.wf(),
            old(self)@.inodes.next_ino + raw@.len() <= u64::MAX,
        ensures
            final(self)@.wf(),
            final(self)@ == old(self)@.with_inodes(
                inodes_after(old(self)@.inodes, dir@, raw@),
            ),
            entries_view(r@) == listed_entries(old(self)@.inodes, dir@, raw@),
    {
        let ghost start = self@;
        let mut out: Vec<DirEntry> = Vec::new();
        let dot_ino: u64 = match self.inodes.get_path_ino(dir) {
            Some(ino) => ino,
            None => InodeTable::root_ino(),
        };
        let up = dir.parent_or_root();
        let up_ino: u64 = match self.inodes.get_path_ino(&up) {
            Some(ino) => ino,
            None => InodeTable::root_ino(),
        };
        let mut dot: Vec<u8> = Vec::new();
        dot.push(0x2e);
        let mut dotdot: Vec<u8> = Vec::new();
        dotdot.push(0x2e);
        dotdot.push(0x2e);
        assert(dot@ =~= seq![0x2eu8]);
        assert(dotdot@ =~= seq![0x2eu8, 0x2eu8]);
        out.push(DirEntry { name: dot, ino: dot_ino, kind: FileType::Directory });
        out.push(DirEntry { name: dotdot, ino: up_ino, kind: FileType::Directory });
        let mut i: usize = 0;
        proof {
            assert(raw@.take(0) =~= Seq::<RawEntry>::empty());
            assert(entries_view(out@) =~= listed_entries(start.inodes, dir@, raw@.take(0)));
        }
        while i < raw.len()
            invariant
                i <= raw.len(),
                start.wf(),
                self@.wf(),
                start.inodes.next_ino + raw@.len() <= u64::MAX,
                self@ == start.with_inodes(
                    inodes_after(start.inodes, dir@, raw@.take(i as int)),
                ),
                entries_view(out@) == listed_entries(
                    start.inodes,
                    dir@,
                    raw@.take(i as int),
                ),
            decreases raw.len() - i,
        {
            let e: &RawEntry = &raw[i];
            let ghost before = out@;
            proof {
                assert(raw@.take(i + 1).drop_last() =~= raw@.take(i as int));
                assert(raw@.take(i + 1).last() == *e);
                lemma_inodes_after_bounded(start.inodes, dir@, raw@.take(i as int));
            }
            if !backing_store::is_dot_name(&e.name) {
                let child = dir.join(&e.name);
                let kind = match attr::dirent_filetype(e.d_type) {
                    Some(kind) => kind,
                    None => match e.mode {
                        Some(mode) => attr::mode_to_filetype(mode),
                        None => FileType::RegularFile,
                    },
                };
                let ino = self.lookup_ino(&child);
                let entry = DirEntry { name: text::bytes_clone(&e.name), ino, kind };
                let ghost ev = entry@;
                out.push(entry);
                assert(entries_view(out@) =~= entries_view(before).push(ev));
            }
            i = i + 1;
        }
        assert(raw@.take(raw@.len() as int) =~= raw@);
        out
    }

    /// Decides how to serve an open.
    pub fn begin_open(&mut self, ino: u64, flags: i32, now: u64) -> (r: OpenPlan)
        ensures
            match old(self)@.path_of(ino) {
                None => r is NotFound && final(self)@ == old(self)@,
                Some(p) => if write_intent(flags) {
                    (r matches OpenPlan::Write { path } && path@ == p) && final(self)@
                        == old(self)@
                } else {
                    (r matches OpenPlan::Read { path, suppress } && path@ == p && suppress
                        == old(self)@.suppresses(p, now)) && final(self)@
                        == old(self)@.after_log(p, now)
                },
            },
    {
        match self.path_for_ino(ino) {
            Err(_) => OpenPlan::NotFound,
            Ok(path) => {
                if is_write_intent(flags) {
                    OpenPlan::Write { path }
                } else {
                    let suppress = self.should_suppress_log(&path, now);
                    OpenPlan::Read { path, suppress }
                }
            },
        }
    }

    /// Records a file that was opened for reading, and says what to tell the caching engine.
    pub fn finish_open(
        &mut self,
        fh: u64,
        p: &RelPath,
        outcome: OpenOutcome,
        filtered: bool,
    ) -> (r: Option<EngineEvent>)
        ensures
            r == engine_event(outcome, filtered, old(self)@.passthrough),
            final(self)@ == old(self)@.reading(fh, p@, r),
    {
        let event = if filtered {
            None
        } else {
            match outcome {
                OpenOutcome::Hit => Some(EngineEvent::Hit),
                OpenOutcome::Miss => {
                    if self.passthrough_mode {
                        None
                    } else {
                        Some(EngineEvent::Miss)
                    }
                },
                OpenOutcome::Filtered => None,
            }
        };
        if event.is_some() {
            self.open_paths.insert(fh, p.clone());
        }
        self.open_bytes.insert(fh, 0);
        assert(self@ =~= old(self)@.reading(fh, p@, event));
        event
    }

    /// Records a file that was opened for writing.
    pub fn write_opened(&mut self, fh: u64, p: &RelPath, flags: i32)
        ensures
            final(self)@ == old(self)@.writing(fh, p@, flags),
    {
        self.write_paths.insert(fh, p.clone());
        if flags & O_APPEND != 0 {
            self.append_handles.insert(fh);
        }
        assert(self@ =~= old(self)@.writing(fh, p@, flags));
    }

    /// Whether a write goes to the end of the file: the handle was opened for appending, or the
    /// write itself says so.
    pub fn appends(&self, fh: u64, flags: i32) -> (r: bool)
        ensures
            r == (self@.appends.contains(fh) || flags & O_APPEND != 0),
    {
        self.append_handles.contains(&fh) || flags & O_APPEND != 0
    }

    /// Counts bytes that were read through a handle. The count stays at its end where it would
    /// pass it.
    pub fn bytes_read(&mut self, fh: u64, n: u64)
        ensures
            final(self)@ == (FsModel {
                bytes: if old(self)@.bytes.contains_key(fh) {
                    old(self)@.bytes.insert(
                        fh,
                        if old(self)@.bytes[fh] + n > u64::MAX {
                            u64::MAX
                        } else {
                            (old(self)@.bytes[fh] + n) as u64
                        },
                    )
                } else {
                    old(self)@.bytes
                },
                ..old(self)@
            }),
    {
        let before = match self.open_bytes.get(&fh) {
            Some(b) => Some(*b),
            None => None,
        };
        match before {
            Some(b) => {
                let total: u64 = b.saturating_add(n);
                self.open_bytes.insert(fh, total);
            },
            None => {},
        }
    }

    /// Closes a handle.
    pub fn release(&mut self, fh: u64) -> (r: Released)
        ensures
            final(self)@ == old(self)@.released(fh),
            if old(self)@.writes.contains_key(fh) {
                r matches Released::Write { path } && path@ == old(self)@.writes[fh]
            } else {
                r matches Released::Read { bytes_read, notify } && bytes_read == (if old(
                    self,
                )@.bytes.contains_key(fh) {
                    old(self)@.bytes[fh]
                } else {
                    0
                }) && (notify is Some <==> old(self)@.reads.contains_key(fh)) && (notify matches Some(
                    p,
                ) ==> p@ == old(self)@.reads[fh])
            },
    {
        match self.write_paths.remove(&fh) {
            Some(path) => {
                self.append_handles.remove(&fh);
                assert(self@ =~= old(self)@.released(fh));
                Released::Write { path }
            },
            None => {
                let bytes_read: u64 = match self.open_bytes.remove(&fh) {
                    Some(n) => n,
                    None => 0,
                };
                let notify = self.open_paths.remove(&fh);
                assert(self@ =~= old(self)@.released(fh));
                Released::Read { bytes_read, notify }
            },
        }
    }

    /// Drops a handle for writing whose file turned out to be unusable.
    pub fn write_abandoned(&mut self, fh: u64)
        ensures
            final(self)@ == (FsModel {
                writes: old(self)@.writes.remove(fh),
                appends: old(self)@.appends.remove(fh),
                ..old(self)@
            }),
    {
        self.write_paths.remove(&fh);
        self.append_handles.remove(&fh);
        assert(self@.writes =~= old(self)@.writes.remove(fh));
    }
}

/// Whether `after` is what renaming makes of `before`: see the inode table.
pub open spec fn is_rename(
    before: InodeModel,
    after: InodeModel,
    old_path: PathView,
    new_path: PathView,
) -> bool {
    if old_path == PathView::empty() {
        after == before
    } else {
        let halfway = before.with_entry_renamed(old_path, new_path);
        &&& exists|order: Seq<PathView>| #[trigger]
            halfway.lists_descendants(old_path, order) && after == halfway.with_all_moved(
                order,
                old_path,
                new_path,
            )
        &&& !path::under(old_path, new_path) && !path::under(new_path, old_path) ==> after
            == before.renamed_apart(old_path, new_path)
    }
}

/// An access that was logged silences others to the same file until the window is over.
pub proof fn law_repeats_are_silent(m: FsModel, p: PathView, now: u64, later: u64)
    requires
        m.window > 0,
        !m.suppresses(p, now),
        elapsed(later, now) < m.window,
    ensures
        m.after_log(p, now).suppresses(p, later),
{
    assert(m.after_log(p, now).recent[p] == now);
}

/// A silenced access does not extend the window.
pub proof fn law_silence_ends(m: FsModel, p: PathView, now: u64, later: u64)
    requires
        m.suppresses(p, now),
        elapsed(later, m.recent[p]) >= m.window,
    ensures
        !m.after_log(p, now).suppresses(p, later),
{
    assert(m.after_log(p, now).recent[p] == m.recent[p]);
}

/// The caching engine hears of the closing of a file exactly where it heard of its opening,
/// and nothing is left of the handle.
pub proof fn law_close_pairs_with_open(
    m: FsModel,
    fh: u64,
    p: PathView,
    event: Option<EngineEvent>,
)
    requires
        !m.writes.contains_key(fh),
        !m.reads.contains_key(fh),
        !m.bytes.contains_key(fh),
    ensures
        m.reading(fh, p, event).reads.contains_key(fh) <==> event is Some,
        m.reading(fh, p, event).released(fh) == m,
{
    assert(m.reading(fh, p, event).released(fh) =~= m);
}

/// Closing a handle for writing leaves nothing of it.
pub proof fn law_close_undoes_write_open(m: FsModel, fh: u64, p: PathView, flags: i32)
    requires
        !m.writes.contains_key(fh),
        !m.appends.contains(fh),
    ensures
        m.writing(fh, p, flags).released(fh) == m,
{
    assert(m.writing(fh, p, flags).released(fh) =~= m);
}

/// A filtered access never reaches the caching engine.
pub proof fn law_filtered_is_invisible(outcome: OpenOutcome, passthrough: bool)
    ensures
        engine_event(outcome, true, passthrough) is None,
        engine_event(OpenOutcome::Filtered, false, passthrough) is None,
{
}

/// A directory lists itself and its parent first and then each other entry once, in the order
/// in which they were read.
pub proof fn law_listing_length(m: InodeModel, dir: PathView, raw: Seq<RawEntry>)
    ensures
        listed_entries(m, dir, raw).len() == 2 + raw.filter(
            |e: RawEntry| !backing_store::is_dot_entry(e.name@),
        ).len(),
    decreases raw.len(),
{
    let keep = |e: RawEntry| !backing_store::is_dot_entry(e.name@);
    reveal(Seq::filter);
    if raw.len() > 0 {
        law_listing_length(m, dir, raw.drop_last());
        text::lemma_filter_push(raw.drop_last(), raw.last(), keep);
        assert(raw.drop_last().push(raw.last()) =~= raw);
    }
}

/// Flags ask for writing where their two lowest bits say write-only or read-write, or where they
/// ask to truncate or to append; a plain open for reading never does.
pub proof fn law_write_flags(flags: i32)
    ensures
        flags & 0o3 == 0o1 ==> write_intent(flags),
        flags & 0o3 == 0o2 ==> write_intent(flags),
        flags & 0o1000 != 0 ==> write_intent(flags),
        flags & 0o2000 != 0 ==> write_intent(flags),
        write_intent(flags) ==> flags & 0o3 == 0o1 || flags & 0o3 == 0o2 || flags & 0o1000 != 0
            || flags & 0o2000 != 0,
{
}

/// The engine hears of a hit and of a miss as such, unless the access is filtered; where
/// everything is passed through it hears of no miss.
pub proof fn law_engine_hears_of_opens(outcome: OpenOutcome, filtered: bool, passthrough: bool)
    ensures
        engine_event(outcome, filtered, passthrough) == Some(EngineEvent::Hit) <==> outcome
            == OpenOutcome::Hit && !filtered,
        engine_event(outcome, filtered, passthrough) == Some(EngineEvent::Miss) <==> outcome
            == OpenOutcome::Miss && !filtered && !passthrough,
{
}

/// An access is silenced exactly while fewer milliseconds than the window have passed since the
/// last logged access to the same file. Without a window nothing is silenced.
pub proof fn law_silence_is_a_window(m: FsModel, p: PathView, now: u64)
    ensures
        m.suppresses(p, now) <==> m.window > 0 && m.recent.contains_key(p) && now < m.recent[p]
            + m.window,
{
}

/// Deciding whether to log an access touches nothing but the log times. A logged access is
/// recorded with its own time, a silenced one leaves the recorded time as it is, and the times of
/// other files stay as long as they still silence anything; once there are more than a thousand
/// times, only such are left.
pub proof fn law_log_times(m: FsModel, p: PathView, now: u64, q: PathView)
    requires
        m.window > 0,
    ensures
        m.after_log(p, now).recent.contains_key(p),
        m.after_log(p, now).recent[p] == (if m.recent.contains_key(p) && now < m.recent[p]
            + m.window {
            m.recent[p]
        } else {
            now
        }),
        q != p && m.recent.contains_key(q) && now < m.recent[q] + m.window ==> m.after_log(
            p,
            now,
        ).recent.contains_key(q),
        q != p && m.recent.dom().len() <= 1000 ==> (m.after_log(p, now).recent.contains_key(q)
            <==> m.recent.contains_key(q)),
        q != p && m.recent.dom().len() > 1000 && m.after_log(p, now).recent.contains_key(q) ==> now
            < m.recent[q] + m.window,
        q != p && m.after_log(p, now).recent.contains_key(q) ==> m.recent.contains_key(q)
            && m.after_log(p, now).recent[q] == m.recent[q],
        m.after_log(p, now) == (FsModel { recent: m.after_log(p, now).recent, ..m }),
{
}

/// Without a window the log times are not touched.
pub proof fn law_no_window_records_nothing(m: FsModel, p: PathView, now: u64)
    requires
        m.window == 0,
    ensures
        m.after_log(p, now) == m,
        !m.suppresses(p, now),
{
}

/// The path of a plain name in a known directory is the path of the directory with the name
/// behind it; in an unknown one there is none.
pub proof fn law_child_is_below_its_parent(m: FsModel, parent: u64, name: Seq<u8>)
    requires
        name.len() > 0,
        !name.contains(0x2fu8),
        name != seq![0x2eu8],
    ensures
        m.inodes.by_ino.contains_key(parent) ==> m.child_of(parent, name) == Some(
            m.inodes.by_ino[parent].0.push(name),
        ),
        !m.inodes.by_ino.contains_key(parent) ==> m.child_of(parent, name) is None,
        m.path_of(parent) is Some <==> m.inodes.by_ino.contains_key(parent),
        m.path_of(parent) matches Some(p) ==> p == m.inodes.by_ino[parent].0,
{
    if m.inodes.by_ino.contains_key(parent) {
        path::lemma_single_component(m.inodes.by_ino[parent].0, name);
    }
}

/// Opening and closing a handle concerns that handle alone: a read starts at no bytes, a
/// handle for writing remembers its file, and all other handles stay as they are.
pub proof fn law_handles_are_separate(
    m: FsModel,
    fh: u64,
    p: PathView,
    event: Option<EngineEvent>,
    flags: i32,
    other: u64,
)
    requires
        other != fh,
    ensures
        m.reading(fh, p, event).bytes.contains_key(fh) && m.reading(fh, p, event).bytes[fh] == 0,
        event is Some ==> m.reading(fh, p, event).reads.contains_key(fh) && m.reading(
            fh,
            p,
            event,
        ).reads[fh] == p,
        m.reading(fh, p, event).writes == m.writes,
        m.reading(fh, p, event).appends == m.appends,
        m.writing(fh, p, flags).writes.contains_key(fh) && m.writing(fh, p, flags).writes[fh] == p,
        m.writing(fh, p, flags).bytes == m.bytes,
        m.writing(fh, p, flags).reads == m.reads,
        !m.released(fh).writes.contains_key(fh),
        m.writes.contains_key(fh) ==> !m.released(fh).appends.contains(fh),
        !m.writes.contains_key(fh) ==> !m.released(fh).reads.contains_key(fh) && !m.released(
            fh,
        ).bytes.contains_key(fh),
        forall|n: FsModel|
            n == m.reading(fh, p, event) || n == m.writing(fh, p, flags) || n == m.released(fh)
                ==> {
                &&& #[trigger] n.bytes.contains_key(other) <==> m.bytes.contains_key(other)
                &&& m.bytes.contains_key(other) ==> n.bytes[other] == m.bytes[other]
                &&& n.reads.contains_key(other) <==> m.reads.contains_key(other)
                &&& m.reads.contains_key(other) ==> n.reads[other] == m.reads[other]
                &&& n.writes.contains_key(other) <==> m.writes.contains_key(other)
                &&& m.writes.contains_key(other) ==> n.writes[other] == m.writes[other]
                &&& n.appends.contains(other) <==> m.appends.contains(other)
                &&& n.inodes == m.inodes && n.recent == m.recent && n.window == m.window
                    && n.passthrough == m.passthrough
            },
{
}

/// Looking a path up makes it resolve to the inode that the lookup gave, which carries that
/// path; a known path keeps its inode, and every other path keeps its own.
pub proof fn law_lookup_resolves(m: InodeModel, p: PathView, q: PathView)
    requires
        m.wf(),
        m.by_path.contains_key(p) || m.next_ino < u64::MAX,
    ensures
        m.looked_up(p).by_path.contains_key(p),
        m.looked_up(p).by_path[p] == ino_of_lookup(m, p),
        m.looked_up(p).by_ino.contains_key(ino_of_lookup(m, p)),
        m.looked_up(p).by_ino[ino_of_lookup(m, p)].0 == p,
        m.by_path.contains_key(p) ==> ino_of_lookup(m, p) == m.by_path[p],
        !m.by_path.contains_key(p) ==> !m.by_ino.contains_key(ino_of_lookup(m, p)),
        q != p ==> (m.looked_up(p).by_path.contains_key(q) <==> m.by_path.contains_key(q)),
        q != p && m.by_path.contains_key(q) ==> m.looked_up(p).by_path[q] == m.by_path[q],
        m.looked_up(p).next_ino >= m.next_ino,
{
}

proof fn lemma_listed_stay(m: InodeModel, dir: PathView, raw: Seq<RawEntry>, q: PathView)
    requires
        m.wf(),
        m.next_ino + raw.len() <= u64::MAX,
    ensures
        inodes_after(m, dir, raw).wf(),
        m.by_path.contains_key(q) ==> inodes_after(m, dir, raw).by_path.contains_key(q)
            && inodes_after(m, dir, raw).by_path[q] == m.by_path[q],
    decreases raw.len(),
{
    if raw.len() > 0 {
        lemma_listed_stay(m, dir, raw.drop_last(), q);
        lemma_inodes_after_bounded(m, dir, raw.drop_last());
        let before = inodes_after(m, dir, raw.drop_last());
        if !backing_store::is_dot_entry(raw.last().name@) {
            law_lookup_resolves(before, path::joined(dir, raw.last().name@), q);
            let after = inodes_after(m, dir, raw);
            assert forall|r: PathView| #[trigger]
                after.by_path.contains_key(r) implies after.by_ino.contains_key(after.by_path[r])
                && after.by_ino[after.by_path[r]].0 == r by {
                law_lookup_resolves(before, path::joined(dir, raw.last().name@), r);
                if before.by_path.contains_key(r) {
                    assert(before.by_ino.contains_key(before.by_path[r]));
                }
            }
        }
    }
}

/// A directory lists itself as "." and its parent as "..", both as directories under their own
/// inodes, and behind them the entries that were read, in their order, without "." and "..". Each
/// has its name, the inode that its path resolves to afterwards, and the type that the entry or
/// else the file's mode tells.
pub proof fn law_listing_shows_the_entries(m: InodeModel, dir: PathView, raw: Seq<RawEntry>, i: int)
    requires
        m.wf(),
        m.next_ino + raw.len() <= u64::MAX,
        0 <= i < raw.filter(
            |e: RawEntry| e.name@ != seq![0x2eu8] && e.name@ != seq![0x2eu8, 0x2eu8],
        ).len(),
    ensures
        ({
            let kept = raw.filter(
                |e: RawEntry| e.name@ != seq![0x2eu8] && e.name@ != seq![0x2eu8, 0x2eu8],
            );
            let shown = listed_entries(m, dir, raw);
            let known = inodes_after(m, dir, raw);
            let e = kept[i];
            &&& shown.len() == 2 + kept.len()
            &&& shown[2 + i].name == e.name@
            &&& known.by_path.contains_key(path::joined(dir, e.name@))
            &&& shown[2 + i].ino == known.by_path[path::joined(dir, e.name@)]
            &&& e.d_type == 4 ==> shown[2 + i].kind == FileType::Directory
            &&& e.d_type == 10 ==> shown[2 + i].kind == FileType::Symlink
            &&& e.d_type == 8 || e.d_type == 0 ==> shown[2 + i].kind == (match e.mode {
                Some(mode) => attr::filetype_of(mode),
                None => FileType::RegularFile,
            })
        }),
    decreases raw.len(),
{
    let keep = |e: RawEntry| e.name@ != seq![0x2eu8] && e.name@ != seq![0x2eu8, 0x2eu8];
    let dots = |e: RawEntry| !backing_store::is_dot_entry(e.name@);
    assert(keep =~= dots);
    reveal(Seq::filter);
    if raw.len() > 0 {
        let init = raw.drop_last();
        law_listing_length(m, dir, raw);
        law_listing_length(m, dir, init);
        text::lemma_filter_push(init, raw.last(), keep);
        assert(init.push(raw.last()) =~= raw);
        lemma_inodes_after_bounded(m, dir, init);
        let before = inodes_after(m, dir, init);
        lemma_listed_stay(m, dir, init, dir);
        let q = path::joined(dir, raw.filter(keep)[i].name@);
        if i < init.filter(keep).len() {
            law_listing_shows_the_entries(m, dir, init, i);
            if keep(raw.last()) {
                law_lookup_resolves(before, path::joined(dir, raw.last().name@), q);
            }
        } else {
            law_lookup_resolves(before, path::joined(dir, raw.last().name@), q);
        }
    }
}

/// The first two entries of a listing are "." and "..".
pub proof fn law_listing_begins_with_dots(m: InodeModel, dir: PathView, raw: Seq<RawEntry>)
    ensures
        listed_entries(m, dir, raw).len() >= 2,
        listed_entries(m, dir, raw)[0].name == seq![0x2eu8],
        listed_entries(m, dir, raw)[0].kind == FileType::Directory,
        m.by_path.contains_key(dir) ==> listed_entries(m, dir, raw)[0].ino == m.by_path[dir],
        listed_entries(m, dir, raw)[1].name == seq![0x2eu8, 0x2eu8],
        listed_entries(m, dir, raw)[1].kind == FileType::Directory,
        dir.len() > 0 && m.by_path.contains_key(dir.drop_last()) ==> listed_entries(
            m,
            dir,
            raw,
        )[1].ino == m.by_path[dir.drop_last()],
        dir.len() == 0 && m.by_path.contains_key(dir) ==> listed_entries(m, dir, raw)[1].ino
            == m.by_path[dir],
        !m.by_path.contains_key(dir) ==> listed_entries(m, dir, raw)[0].ino == 1,
    decreases raw.len(),
{
    if raw.len() > 0 {
        law_listing_begins_with_dots(m, dir, raw.drop_last());
    }
}

} // verus!
