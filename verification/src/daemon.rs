//! Bringing mounts up and taking them down.

use crate::ipc::protocol::MountInfoWire;
use crate::path;
use crate::path::RelPath;
use crate::text;
use crate::utils;
use vstd::prelude::*;

verus! {

/// The name under which mounts of an instance appear in the system's mount table.
pub open spec fn mount_source(instance: Seq<char>) -> Seq<char> {
    "fscache-"@ + instance
}

/// Names the mounts of an instance.
pub fn fs_name(instance: &str) -> (r: String)
    ensures
        r@ == mount_source(instance@),
{
    text::concat2("fscache-", instance)
}

/// The database of an instance.
pub fn db_path(instance: &str) -> (r: String)
    ensures
        r@ == "/var/lib/fscache/db/"@ + instance@ + ".db"@,
{
    let mut out = text::concat2("/var/lib/fscache/db/", instance);
    text::push_text(&mut out, ".db");
    out
}

/// The socket of an instance.
pub fn socket_path(instance: &str) -> (r: String)
    ensures
        r@ == socket_of(instance@),
{
    let mut out = text::concat2("/run/fscache/", instance);
    text::push_text(&mut out, ".sock");
    out
}

/// The socket of an instance.
pub open spec fn socket_of(instance: Seq<char>) -> Seq<char> {
    "/run/fscache/"@ + instance + ".sock"@
}

/// An unsigned number as the signed number of the same bits.
pub open spec fn as_signed(x: nat) -> int {
    if x <= i64::MAX {
        x as int
    } else {
        x - 0x1_0000_0000_0000_0000
    }
}

/// Reinterprets an unsigned number as a signed one.
pub(crate) fn to_signed(x: u64) -> (r: i64)
    ensures
        r == as_signed(x as nat),
{
    if x <= i64::MAX as u64 {
        x as i64
    } else {
        let distance: u64 = u64::MAX - x;
        -1 - (distance as i64)
    }
}

/// Whether the time that lies `span` seconds before `now` can be written.
pub open spec fn can_look_back(now: u64, span: nat) -> bool {
    &&& span <= u64::MAX
    &&& i64::MIN <= as_signed(now as nat) - as_signed(span) <= i64::MAX
}

/// The time that lies `span` seconds before `now`.
pub fn look_back(now: u64, span: u64) -> (r: i64)
    requires
        can_look_back(now, span as nat),
    ensures
        r == as_signed(now as nat) - as_signed(span as nat),
{
    to_signed(now) - to_signed(span)
}

/// Whether the time that lies `span` seconds before `now` can be written.
pub fn look_back_fits(now: u64, span: u64) -> (r: bool)
    ensures
        r == can_look_back(now, span as nat),
{
    let begin: i128 = to_signed(now) as i128 - to_signed(span) as i128;
    i64::MIN as i128 <= begin && begin <= i64::MAX as i128
}

/// The time before which recorded accesses are too old to keep.
pub fn prune_cutoff(now: u64, window_days: u64) -> (r: i64)
    requires
        can_look_back(now, (window_days * 86400) as nat),
    ensures
        r == as_signed(now as nat) - as_signed((window_days * 86400) as nat),
{
    look_back(now, window_days * 86400)
}

/// Whether the time before which recorded accesses are too old can be written.
pub fn prune_cutoff_fits(now: u64, window_days: u64) -> (r: bool)
    ensures
        r == can_look_back(now, (window_days * 86400) as nat),
{
    match window_days.checked_mul(86400) {
        Some(span) => look_back_fits(now, span),
        None => false,
    }
}

/// Whether the maintenance task runs: it needs an interval and has to be asked for.
pub fn maintenance_enabled(poll_interval_secs: u64, check_on_maintenance: bool) -> (r: bool)
    ensures
        r == (poll_interval_secs > 0 && check_on_maintenance),
{
    poll_interval_secs > 0 && check_on_maintenance
}

/// A name below a directory, as paths are joined: an absolute name stands for itself.
pub open spec fn joined_path(dir: Seq<char>, name: Seq<char>) -> Seq<char> {
    if dir.len() == 0 || (name.len() > 0 && name[0] == '/') {
        name
    } else if dir.last() == '/' {
        dir + name
    } else {
        dir + "/"@ + name
    }
}

fn join_path(dir: &str, name: &str) -> (r: String)
    ensures
        r@ == joined_path(dir@, name@),
{
    let d = text::str_chars(dir);
    let n = text::str_chars(name);
    if d.len() == 0 || (n.len() > 0 && n[0] == '/') {
        name.to_owned()
    } else if d[d.len() - 1] == '/' {
        text::concat2(dir, name)
    } else {
        let mut out = text::concat2(dir, "/");
        text::push_text(&mut out, name);
        out
    }
}

/// Tells clients about a mount: its target, and the directory of its copies, which has the
/// mount's name below the cache directory.
pub fn mount_info_named(target: &str, cache_directory: &str, name: &str) -> (r: MountInfoWire)
    ensures
        r.target@ == target@,
        r.cache_dir@ == joined_path(cache_directory@, name@),
        r.active,
{
    let cache_dir = join_path(cache_directory, name);
    MountInfoWire { target: target.to_owned(), cache_dir, active: true }
}

/// Tells clients about a mount under the name that its target has as a cache subdirectory. The
/// name ends in a hash of what the standard library writes to a hasher for the target's path.
pub fn mount_info(target: &str, cache_directory: &str) -> (r: MountInfoWire)
    ensures
        r.target@ == target@,
        r.active,
        exists|written: Seq<Seq<u8>>|
            utils::writes_for_path(target@, written) && r.cache_dir@ == joined_path(
                cache_directory@,
                #[trigger] utils::hashed_name(target@, written),
            ),
{
    let name = utils::mount_cache_name(target);
    mount_info_named(target, cache_directory, name.as_str())
}

/// The directories of two mounts below one cache directory are different where their names
/// are, and neither lies inside the other.
pub proof fn law_mount_directories_are_apart(
    base: Seq<char>,
    a: Seq<char>,
    x: u32,
    b: Seq<char>,
    y: u32,
)
    requires
        utils::slug(a) != utils::slug(b) || x != y,
    ensures
        ({
            let first = joined_path(base, utils::cache_name(a, x));
            let second = joined_path(base, utils::cache_name(b, y));
            first != second && !(first + seq!['/']).is_prefix_of(second)
        }),
{
    let n = utils::cache_name(a, x);
    let m = utils::cache_name(b, y);
    let first = joined_path(base, n);
    let second = joined_path(base, m);
    utils::law_cache_names_differ(a, x, b, y);
    utils::law_cache_name_is_one_component(a, x);
    utils::law_cache_name_is_one_component(b, y);
    assert(utils::is_name_char(n[0]) && utils::is_name_char(m[0]));
    reveal_strlit("/");
    let skip = first.len() - n.len();
    assert(first.skip(skip) =~= n);
    assert(second.skip(skip) =~= m);
    if (first + seq!['/']).is_prefix_of(second) {
        let at = first.len() as int;
        assert((first + seq!['/'])[at] == '/');
        assert(second[at] == '/');
        assert(m[at - skip] == '/');
        assert(utils::is_name_char(m[at - skip]));
    }
}

/// The course of starting the daemon.
#[derive(Clone, Copy, Debug, PartialEq, Eq, Structural)]
pub enum StartStep {
    /// Read the configuration.
    LoadConfig,
    /// Lock the instance against a second daemon.
    LockInstance,
    /// Check the directories that are to be mounted over.
    ValidateTargets,
    /// Create the cache directory.
    CreateCacheDir,
    /// Create the directory of the databases.
    CreateDbDir,
    /// Open the database of the instance.
    OpenDatabase,
    /// Open a database in memory in its place.
    OpenMemoryDatabase,
    /// Start recording processes.
    ArmDiscovery,
    /// Serve clients, before anything is mounted.
    BindSocket,
    /// Prune old recordings from time to time.
    StartPruning,
    /// Bring up the mount at this position.
    MountTarget { index: usize },
    /// Everything is up: wait for a signal.
    Running,
    /// The start failed.
    Failed,
}

impl StartStep {
    /// The step behind the databases: recording starts by itself only where that is set.
    pub open spec fn behind_database(arm: bool) -> StartStep {
        if arm {
            StartStep::ArmDiscovery
        } else {
            StartStep::BindSocket
        }
    }

    /// The step that follows, for `mounts` targets; `arm` says that recording starts by itself.
    /// `ok` is whether the step succeeded. Recording and the socket are not needed to go on.
    pub open spec fn after(self, mounts: usize, arm: bool, ok: bool) -> StartStep {
        match self {
            StartStep::OpenDatabase => if ok {
                StartStep::behind_database(arm)
            } else {
                StartStep::OpenMemoryDatabase
            },
            StartStep::ArmDiscovery => StartStep::BindSocket,
            StartStep::BindSocket => StartStep::StartPruning,
            StartStep::StartPruning => if mounts > 0 {
                StartStep::MountTarget { index: 0 }
            } else {
                StartStep::Running
            },
            StartStep::Running => self,
            StartStep::Failed => self,
            _ => if !ok {
                StartStep::Failed
            } else {
                match self {
                    StartStep::LoadConfig => StartStep::LockInstance,
                    StartStep::LockInstance => StartStep::ValidateTargets,
                    StartStep::ValidateTargets => StartStep::CreateCacheDir,
                    StartStep::CreateCacheDir => StartStep::CreateDbDir,
                    StartStep::CreateDbDir => StartStep::OpenDatabase,
                    StartStep::OpenMemoryDatabase => StartStep::behind_database(arm),
                    StartStep::MountTarget { index } => if index + 1 < mounts {
                        StartStep::MountTarget { index: (index + 1) as usize }
                    } else {
                        StartStep::Running
                    },
                    other => other,
                }
            },
        }
    }

    /// The step that follows.
    pub fn next(self, mounts: usize, arm: bool, ok: bool) -> (r: Self)
        ensures
            r == self.after(mounts, arm, ok),
    {
        let behind = if arm {
            StartStep::ArmDiscovery
        } else {
            StartStep::BindSocket
        };
        match self {
            StartStep::OpenDatabase => {
                if ok {
                    behind
                } else {
                    StartStep::OpenMemoryDatabase
                }
            },
            StartStep::ArmDiscovery => StartStep::BindSocket,
            StartStep::BindSocket => StartStep::StartPruning,
            StartStep::StartPruning => {
                if mounts > 0 {
                    StartStep::MountTarget { index: 0 }
                } else {
                    StartStep::Running
                }
            },
            StartStep::Running => self,
            StartStep::Failed => self,
            _ => {
                if !ok {
                    return StartStep::Failed;
                }
                match self {
                    StartStep::LoadConfig => StartStep::LockInstance,
                    StartStep::LockInstance => StartStep::ValidateTargets,
                    StartStep::ValidateTargets => StartStep::CreateCacheDir,
                    StartStep::CreateCacheDir => StartStep::CreateDbDir,
                    StartStep::CreateDbDir => StartStep::OpenDatabase,
                    StartStep::OpenMemoryDatabase => behind,
                    StartStep::MountTarget { index } => {
                        if mounts > 0 && index < mounts - 1 {
                            StartStep::MountTarget { index: index + 1 }
                        } else {
                            StartStep::Running
                        }
                    },
                    other => other,
                }
            },
        }
    }

    /// How many steps can still follow, at most.
    pub open spec fn left(self, mounts: usize) -> int {
        match self {
            StartStep::LoadConfig => 12 + mounts,
            StartStep::LockInstance => 11 + mounts,
            StartStep::ValidateTargets => 10 + mounts,
            StartStep::CreateCacheDir => 9 + mounts,
            StartStep::CreateDbDir => 8 + mounts,
            StartStep::OpenDatabase => 7 + mounts,
            StartStep::OpenMemoryDatabase => 6 + mounts,
            StartStep::ArmDiscovery => 5 + mounts,
            StartStep::BindSocket => 4 + mounts,
            StartStep::StartPruning => 3 + mounts,
            StartStep::MountTarget { index } => 2 + (if index < mounts {
                mounts - index
            } else {
                0
            }),
            StartStep::Running => 0,
            StartStep::Failed => 0,
        }
    }

    /// Whether the targets were validated under the lock of the instance.
    pub open spec fn is_checked(self) -> bool {
        !(self is LoadConfig || self is LockInstance || self is ValidateTargets || self is Failed)
    }
}

/// A start comes to its end. Nothing is mounted before the instance is locked, its targets are
/// validated and clients can connect; and a daemon runs only when every target was mounted.
pub proof fn law_start_is_guarded(step: StartStep, mounts: usize, arm: bool, ok: bool)
    ensures
        step.left(mounts) > 0 ==> 0 <= step.after(mounts, arm, ok).left(mounts) < step.left(mounts),
        step.after(mounts, arm, ok).is_checked() && !step.is_checked() ==> step
            == StartStep::ValidateTargets && ok,
        step.after(mounts, arm, ok) == StartStep::ValidateTargets ==> step
            == StartStep::LockInstance && ok,
        step.after(mounts, arm, ok) is MountTarget ==> step == StartStep::StartPruning || (step is
            MountTarget && ok),
        step.after(mounts, arm, ok) == StartStep::StartPruning ==> step == StartStep::BindSocket,
        step != StartStep::Running && step.after(mounts, arm, ok) == StartStep::Running ==> (step
            == StartStep::StartPruning && mounts == 0) || (step matches StartStep::MountTarget {
            index,
        } && ok && index + 1 >= mounts),
        step matches StartStep::MountTarget { index } ==> !ok ==> step.after(mounts, arm, ok)
            == StartStep::Failed,
{
}

/// The course of bringing up one mount.
#[derive(Clone, Copy, Debug, PartialEq, Eq, Structural)]
pub enum MountStep {
    /// Find out which instance, if any, holds a mount on the target.
    FindHolder,
    /// Detach the mount that this instance left behind when it crashed.
    DetachStale,
    /// Lock the target against other instances.
    LockTarget,
    /// Create the cache directory of the mount.
    CreateCacheDir,
    /// Open the target directory while it is not covered yet.
    OpenBacking,
    /// Start the copy pipeline and the workers.
    StartWorkers,
    /// Mount over the target.
    Mount,
    Mounted,
    /// This step failed, and with it the start of the daemon.
    Failed,
}

impl MountStep {
    /// The step that follows. `ok` is whether the step succeeded; of `FindHolder`, whether the
    /// holder is this very instance. A mount that cannot be detached is left to the lock.
    pub open spec fn after(self, ok: bool) -> MountStep {
        match self {
            MountStep::FindHolder => if ok {
                MountStep::DetachStale
            } else {
                MountStep::LockTarget
            },
            MountStep::DetachStale => MountStep::LockTarget,
            MountStep::LockTarget => if ok {
                MountStep::CreateCacheDir
            } else {
                MountStep::Failed
            },
            MountStep::CreateCacheDir => if ok {
                MountStep::OpenBacking
            } else {
                MountStep::Failed
            },
            MountStep::OpenBacking => if ok {
                MountStep::StartWorkers
            } else {
                MountStep::Failed
            },
            MountStep::StartWorkers => if ok {
                MountStep::Mount
            } else {
                MountStep::Failed
            },
            MountStep::Mount => if ok {
                MountStep::Mounted
            } else {
                MountStep::Failed
            },
            MountStep::Mounted => self,
            MountStep::Failed => self,
        }
    }

    /// The step that follows.
    pub fn next(self, ok: bool) -> (r: Self)
        ensures
            r == self.after(ok),
    {
        match self {
            MountStep::FindHolder => {
                if ok {
                    MountStep::DetachStale
                } else {
                    MountStep::LockTarget
                }
            },
            MountStep::DetachStale => MountStep::LockTarget,
            MountStep::Mounted => self,
            MountStep::Failed => self,
            _ => {
                if !ok {
                    return MountStep::Failed;
                }
                match self {
                    MountStep::LockTarget => MountStep::CreateCacheDir,
                    MountStep::CreateCacheDir => MountStep::OpenBacking,
                    MountStep::OpenBacking => MountStep::StartWorkers,
                    MountStep::StartWorkers => MountStep::Mount,
                    _ => MountStep::Mounted,
                }
            },
        }
    }
}

/// Whether the mount on a target was left behind by this instance: only then it is cleaned up.
pub fn is_stale_mount(holder: &Option<String>, instance: &str) -> (r: bool)
    ensures
        r == (text::opt_view(*holder) == Some(instance@)),
{
    match holder {
        Some(name) => text::str_eq(name.as_str(), instance),
        None => false,
    }
}

/// A target is covered only after it was locked and its directory was opened.
pub proof fn law_backing_opens_before_mount(step: MountStep, ok: bool)
    ensures
        step.after(ok) == MountStep::Mount ==> step == MountStep::StartWorkers && ok,
        step.after(ok) == MountStep::StartWorkers ==> step == MountStep::OpenBacking && ok,
        step.after(ok) == MountStep::OpenBacking ==> step == MountStep::CreateCacheDir && ok,
        step.after(ok) == MountStep::CreateCacheDir ==> step == MountStep::LockTarget && ok,
{
}

/// What detaching a mount came to.
#[derive(Clone, Copy, Debug, PartialEq, Eq, Structural)]
pub enum UnmountStep {
    /// The mount is detached.
    Detached,
    /// The tool ran and reported a failure: warn.
    WarnExit,
    /// The tool could not be run: warn, and try the other one.
    TryUmount,
}

/// Decides what follows the attempt to detach a mount: whether the tool ran, and whether it
/// succeeded.
pub fn unmount_step(ran: bool, succeeded: bool) -> (r: UnmountStep)
    ensures
        r == (if !ran {
            UnmountStep::TryUmount
        } else if succeeded {
            UnmountStep::Detached
        } else {
            UnmountStep::WarnExit
        }),
{
    if !ran {
        UnmountStep::TryUmount
    } else if succeeded {
        UnmountStep::Detached
    } else {
        UnmountStep::WarnExit
    }
}

/// The course of shutting down.
#[derive(Clone, Copy, Debug, PartialEq, Eq, Structural)]
pub enum ShutdownStep {
    /// Tell all workers to stop.
    Cancel,
    /// Detach the mount at this position.
    Unmount { index: usize },
    /// Wait for the workers, but not longer than fifteen seconds.
    Drain,
    /// Abort the workers that are still running.
    AbortWorkers,
    /// Drop the mounts.
    DropMounts,
    Complete,
}

impl ShutdownStep {
    /// The step that follows, for `mounts` mounts. `ok` matters for `Drain` only: whether the
    /// workers stopped in time.
    pub open spec fn after(self, mounts: usize, ok: bool) -> ShutdownStep {
        match self {
            ShutdownStep::Cancel => if mounts > 0 {
                ShutdownStep::Unmount { index: 0 }
            } else {
                ShutdownStep::Drain
            },
            ShutdownStep::Unmount { index } => if index + 1 < mounts {
                ShutdownStep::Unmount { index: (index + 1) as usize }
            } else {
                ShutdownStep::Drain
            },
            ShutdownStep::Drain => if ok {
                ShutdownStep::DropMounts
            } else {
                ShutdownStep::AbortWorkers
            },
            ShutdownStep::AbortWorkers => ShutdownStep::DropMounts,
            ShutdownStep::DropMounts => ShutdownStep::Complete,
            ShutdownStep::Complete => self,
        }
    }

    /// The step that follows.
    pub fn next(self, mounts: usize, ok: bool) -> (r: Self)
        ensures
            r == self.after(mounts, ok),
    {
        match self {
            ShutdownStep::Cancel => {
                if mounts > 0 {
                    ShutdownStep::Unmount { index: 0 }
                } else {
                    ShutdownStep::Drain
                }
            },
            ShutdownStep::Unmount { index } => {
                if mounts > 0 && index < mounts - 1 {
                    ShutdownStep::Unmount { index: index + 1 }
                } else {
                    ShutdownStep::Drain
                }
            },
            ShutdownStep::Drain => {
                if ok {
                    ShutdownStep::DropMounts
                } else {
                    ShutdownStep::AbortWorkers
                }
            },
            ShutdownStep::AbortWorkers => ShutdownStep::DropMounts,
            ShutdownStep::DropMounts => ShutdownStep::Complete,
            ShutdownStep::Complete => self,
        }
    }

    /// How many steps can still follow, at most.
    pub open spec fn left(self, mounts: usize) -> int {
        match self {
            ShutdownStep::Cancel => 5 + mounts,
            ShutdownStep::Unmount { index } => 4 + (if index < mounts {
                mounts - index
            } else {
                0
            }),
            ShutdownStep::Drain => 3,
            ShutdownStep::AbortWorkers => 2,
            ShutdownStep::DropMounts => 1,
            ShutdownStep::Complete => 0,
        }
    }
}

/// A shutdown comes to its end, every mount is detached in turn, and mounts are dropped only
/// after the workers were given their time.
pub proof fn law_shutdown_ends(step: ShutdownStep, mounts: usize, ok: bool)
    ensures
        step != ShutdownStep::Complete ==> 0 <= step.after(mounts, ok).left(mounts) < step.left(
            mounts,
        ),
        step.after(mounts, ok) == ShutdownStep::DropMounts ==> step == ShutdownStep::Drain || step
            == ShutdownStep::AbortWorkers,
        step matches ShutdownStep::Unmount { index } ==> index + 1 < mounts ==> step.after(
            mounts,
            ok,
        ) == (ShutdownStep::Unmount { index: (index + 1) as usize }),
{
}

/// What a mount is called in messages: the name of its target directory.
pub fn mount_label(target: &RelPath) -> (r: String)
    ensures
        r@ == label_of(target@),
{
    match target.file_name() {
        Some(name) => match text::utf8_checked(name) {
            Some(s) => s,
            None => "mount".to_owned(),
        },
        None => "mount".to_owned(),
    }
}

/// What a mount is called in messages.
pub open spec fn label_of(target: Seq<Seq<u8>>) -> Seq<char> {
    if !path::has_name(target) {
        "mount"@
    } else {
        match text::utf8_text(target.last()) {
            Some(s) => s,
            None => "mount"@,
        }
    }
}

/// The course of a start in which all goes well: every step in turn, recording only where it is
/// set to start by itself, then one mount after another, and then the daemon runs.
pub proof fn law_start_course(mounts: usize, arm: bool, any: bool, index: usize)
    ensures
        StartStep::LoadConfig.after(mounts, arm, true) == StartStep::LockInstance,
        StartStep::LockInstance.after(mounts, arm, true) == StartStep::ValidateTargets,
        StartStep::ValidateTargets.after(mounts, arm, true) == StartStep::CreateCacheDir,
        StartStep::CreateCacheDir.after(mounts, arm, true) == StartStep::CreateDbDir,
        StartStep::CreateDbDir.after(mounts, arm, true) == StartStep::OpenDatabase,
        StartStep::OpenDatabase.after(mounts, true, true) == StartStep::ArmDiscovery,
        StartStep::OpenDatabase.after(mounts, false, true) == StartStep::BindSocket,
        StartStep::OpenDatabase.after(mounts, arm, false) == StartStep::OpenMemoryDatabase,
        StartStep::OpenMemoryDatabase.after(mounts, true, true) == StartStep::ArmDiscovery,
        StartStep::OpenMemoryDatabase.after(mounts, false, true) == StartStep::BindSocket,
        StartStep::ArmDiscovery.after(mounts, arm, any) == StartStep::BindSocket,
        StartStep::BindSocket.after(mounts, arm, any) == StartStep::StartPruning,
        mounts > 0 ==> StartStep::StartPruning.after(mounts, arm, any) == (StartStep::MountTarget {
            index: 0,
        }),
        mounts == 0 ==> StartStep::StartPruning.after(mounts, arm, any) == StartStep::Running,
        index + 1 < mounts ==> (StartStep::MountTarget { index }).after(mounts, arm, true) == (
        StartStep::MountTarget { index: (index + 1) as usize }),
        index + 1 >= mounts ==> (StartStep::MountTarget { index }).after(mounts, arm, true)
            == StartStep::Running,
{
}

/// A start fails exactly where a step fails that the daemon needs: it can do without its
/// database, without recording and without the socket, but not without anything else.
pub proof fn law_what_a_start_needs(step: StartStep, mounts: usize, arm: bool, ok: bool)
    requires
        step != StartStep::Failed,
    ensures
        step.after(mounts, arm, ok) == StartStep::Failed <==> !ok && (step == StartStep::LoadConfig
            || step == StartStep::LockInstance || step == StartStep::ValidateTargets || step
            == StartStep::CreateCacheDir || step == StartStep::CreateDbDir || step
            == StartStep::OpenMemoryDatabase || step is MountTarget),
        StartStep::Failed.after(mounts, arm, ok) == StartStep::Failed,
        StartStep::Running.after(mounts, arm, ok) == StartStep::Running,
{
}

/// The course of one mount: a mount that this instance left behind is detached, whether or not
/// that succeeds; after that every step must succeed.
pub proof fn law_mount_course(step: MountStep, any: bool)
    ensures
        MountStep::FindHolder.after(true) == MountStep::DetachStale,
        MountStep::FindHolder.after(false) == MountStep::LockTarget,
        MountStep::DetachStale.after(any) == MountStep::LockTarget,
        MountStep::LockTarget.after(true) == MountStep::CreateCacheDir,
        MountStep::CreateCacheDir.after(true) == MountStep::OpenBacking,
        MountStep::OpenBacking.after(true) == MountStep::StartWorkers,
        MountStep::StartWorkers.after(true) == MountStep::Mount,
        MountStep::Mount.after(true) == MountStep::Mounted,
        step.after(false) == MountStep::Failed <==> step != MountStep::FindHolder && step
            != MountStep::DetachStale && step != MountStep::Mounted,
        MountStep::Mounted.after(any) == MountStep::Mounted,
        MountStep::Failed.after(any) == MountStep::Failed,
{
}

/// The course of a shutdown: the workers are told to stop, every mount is detached in turn, the
/// workers get their time and are aborted only where they did not stop in it, and the mounts are
/// dropped at the end.
pub proof fn law_shutdown_course(mounts: usize, index: usize, any: bool)
    ensures
        mounts > 0 ==> ShutdownStep::Cancel.after(mounts, any) == (ShutdownStep::Unmount {
            index: 0,
        }),
        mounts == 0 ==> ShutdownStep::Cancel.after(mounts, any) == ShutdownStep::Drain,
        index + 1 < mounts ==> (ShutdownStep::Unmount { index }).after(mounts, any) == (
        ShutdownStep::Unmount { index: (index + 1) as usize }),
        index + 1 >= mounts ==> (ShutdownStep::Unmount { index }).after(mounts, any)
            == ShutdownStep::Drain,
        ShutdownStep::Drain.after(mounts, true) == ShutdownStep::DropMounts,
        ShutdownStep::Drain.after(mounts, false) == ShutdownStep::AbortWorkers,
        ShutdownStep::AbortWorkers.after(mounts, any) == ShutdownStep::DropMounts,
        ShutdownStep::DropMounts.after(mounts, any) == ShutdownStep::Complete,
        ShutdownStep::Complete.after(mounts, any) == ShutdownStep::Complete,
{
}

/// A relative name below a directory is the directory, one slash and the name, whether or not the
/// directory is written with a slash at its end; an absolute name stands for itself.
pub proof fn law_joined_paths(dir: Seq<char>, name: Seq<char>)
    ensures
        name.len() > 0 && name[0] == '/' ==> joined_path(dir, name) == name,
        dir.len() == 0 ==> joined_path(dir, name) == name,
        dir.len() > 0 && dir.last() != '/' && !(name.len() > 0 && name[0] == '/') ==> joined_path(
            dir,
            name,
        ) == dir.push('/') + name,
        dir.len() > 0 && dir.last() != '/' && !(name.len() > 0 && name[0] == '/') ==> joined_path(
            dir.push('/'),
            name,
        ) == joined_path(dir, name),
{
    reveal_strlit("/");
    assert(dir + "/"@ =~= dir.push('/'));
}

/// A number of seconds that a signed number can hold is taken as it is, and a larger one as the
/// negative number that differs from it by a full turn.
pub proof fn law_signed_numbers(x: nat)
    requires
        x <= u64::MAX,
    ensures
        i64::MIN <= as_signed(x) <= i64::MAX,
        x <= i64::MAX ==> as_signed(x) == x,
        x > i64::MAX ==> as_signed(x) < 0 && as_signed(x) + 0x1_0000_0000_0000_0000 == x,
{
}

/// The time before which recordings are too old lies the given number of days back; for times and
/// spans of any practical size it can be written.
pub proof fn law_days_back(now: u64, days: u64)
    requires
        now <= i64::MAX,
        days * 86400 <= i64::MAX,
    ensures
        can_look_back(now, (days * 86400) as nat),
        as_signed(now as nat) - as_signed((days * 86400) as nat) == now - days * 86400,
{
}

/// Different instances have different mount sources and sockets.
pub proof fn law_instances_are_told_apart(a: Seq<char>, b: Seq<char>)
    ensures
        mount_source(a) == mount_source(b) <==> a == b,
        socket_of(a) == socket_of(b) <==> a == b,
{
    let m = "fscache-"@;
    let r = "/run/fscache/"@;
    let e = ".sock"@;
    if mount_source(a) == mount_source(b) {
        assert(a =~= mount_source(a).skip(m.len() as int));
        assert(b =~= mount_source(b).skip(m.len() as int));
    }
    if socket_of(a) == socket_of(b) {
        let s = socket_of(a);
        assert(socket_of(a).len() == r.len() + a.len() + e.len());
        assert(socket_of(b).len() == r.len() + b.len() + e.len());
        assert(a =~= socket_of(a).subrange(r.len() as int, s.len() - e.len()));
        assert(b =~= socket_of(b).subrange(r.len() as int, s.len() - e.len()));
    }
}

/// A mount goes by the name of its target where that can be read, and is otherwise just called a
/// mount.
pub proof fn law_mount_labels(dir: Seq<Seq<u8>>, name: Seq<u8>)
    requires
        path::is_component(name),
        name != seq![0x2eu8, 0x2eu8],
    ensures
        vstd::utf8::valid_utf8(name) ==> label_of(dir.push(name)) == vstd::utf8::decode_utf8(name),
        !vstd::utf8::valid_utf8(name) ==> label_of(dir.push(name)) == "mount"@,
        label_of(Seq::<Seq<u8>>::empty()) == "mount"@,
{
    assert(dir.push(name).last() == name);
    if name == path::root_part() {
        assert(name[0] == 0x2fu8);
        assert(name.contains(0x2fu8));
    }
}

} // verus!
