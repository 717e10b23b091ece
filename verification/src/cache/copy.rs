//! The course of one copy from the backing store into the cache directory.
//!
//! A copy is written to a `.partial` file next to its destination and renamed only when it
//! is complete and its source has not changed meanwhile.

use vstd::prelude::*;

verus! {

/// What tells one state of a source file from another.
#[derive(Clone, Copy, Debug, PartialEq, Eq, Structural)]
pub struct SourceStamp {
    pub size: i64,
    pub mtime: i64,
    pub mtime_nsec: i64,
}

/// Metadata that a copy takes over from its source.
#[derive(Clone, Copy, Debug, PartialEq, Eq, Structural)]
pub struct SourceAttributes {
    pub stamp: SourceStamp,
    pub mode: u32,
    pub uid: u32,
    pub gid: u32,
    pub atime: i64,
    pub atime_nsec: i64,
}

/// Where a copy in progress is written.
pub fn partial_path(dest: &[u8]) -> (r: Vec<u8>)
    ensures
        r@ == dest@ + vstd::utf8::encode_utf8(".partial"@),
{
    let suffix = ".partial".as_bytes();
    let mut out = crate::text::bytes_clone(dest);
    let mut i: usize = 0;
    assert(out@ =~= dest@ + suffix@.take(0));
    while i < suffix.len()
        invariant
            i <= suffix.len(),
            out@ =~= dest@ + suffix@.take(i as int),
        decreases suffix.len() - i,
    {
        out.push(suffix[i]);
        i = i + 1;
    }
    assert(suffix@.take(i as int) =~= suffix@);
    out
}

/// Different destinations never share a `.partial` file.
pub proof fn law_partial_paths_differ(a: Seq<u8>, b: Seq<u8>)
    requires
        a + vstd::utf8::encode_utf8(".partial"@) == b + vstd::utf8::encode_utf8(".partial"@),
    ensures
        a == b,
{
    let s = vstd::utf8::encode_utf8(".partial"@);
    assert((a + s).len() == (b + s).len());
    assert(a =~= (a + s).take(a.len() as int));
    assert(b =~= (b + s).take(b.len() as int));
}

/// The permission bits that a copy takes over.
pub fn copied_mode(mode: u32) -> (r: u32)
    ensures
        r == mode & 0o7777,
        r <= 0o7777,
{
    assert(mode & 0o7777 <= 0o7777) by (bit_vector);
    mode & 0o7777
}

/// Whether a finished copy may be committed: nobody asked to abort, and the source still has
/// the stamp that it had when the copy began. A source that can no longer be examined does
/// not count as changed.
pub open spec fn committable(aborted: bool, began: SourceStamp, now: Option<SourceStamp>) -> bool {
    !aborted && (now is Some ==> now->0 == began)
}

/// What the performer of a copy does next.
#[derive(Clone, Copy, Debug, PartialEq, Eq, Structural)]
pub enum CopyAction {
    /// Create the directory of the destination.
    CreateParent,
    /// Open the source file.
    OpenSource,
    /// Read the metadata of the open source.
    StatSource,
    /// Create or truncate the partial file.
    OpenPartial,
    /// Copy all bytes.
    CopyBytes,
    /// Flush the partial file to disk.
    Sync,
    /// Set the permission bits of the partial file.
    SetMode { mode: u32 },
    /// Set the owner of the partial file; failing is tolerated.
    SetOwner { uid: u32, gid: u32 },
    /// Set the access and modification times of the partial file.
    SetTimes { atime: i64, atime_nsec: i64, mtime: i64, mtime_nsec: i64 },
    /// Examine the source once more and look at the abort flag.
    CheckSource,
    /// Rename the partial file to its destination.
    Rename,
    /// Remove the partial file.
    RemovePartial,
    /// The copy is complete.
    Succeeded,
    /// The copy has failed.
    Failed { cause: CopyFailure },
}

/// Why a copy failed.
#[derive(Clone, Copy, Debug, PartialEq, Eq, Structural)]
pub enum CopyFailure {
    /// An operation reported an error.
    Io,
    /// The source changed while it was copied.
    SourceChanged,
}

/// What came of an action.
#[derive(Clone, Copy, Debug, PartialEq, Eq, Structural)]
pub enum CopyEvent {
    Done,
    Error,
    /// The metadata of the source, in answer to `StatSource`.
    Source(SourceAttributes),
    /// The answer to `CheckSource`.
    Checked { aborted: bool, now: Option<SourceStamp> },
}

/// A copy in progress.
#[derive(Clone, Copy, Debug, PartialEq, Eq, Structural)]
pub struct CopyRun {
    action: CopyAction,
    source: Option<SourceAttributes>,
    failure: CopyFailure,
}

/// View of a copy in progress.
pub struct CopyModel {
    pub action: CopyAction,
    pub source: Option<SourceAttributes>,
    pub failure: CopyFailure,
}

impl View for CopyRun {
    type V = CopyModel;

    closed spec fn view(&self) -> CopyModel {
        CopyModel { action: self.action, source: self.source, failure: self.failure }
    }
}

impl CopyModel {
    /// The metadata of the source is there from the moment it is needed.
    pub open spec fn wf(self) -> bool {
        self.source is Some || self.action is CreateParent || self.action is OpenSource
            || self.action is StatSource || self.action is RemovePartial || self.action is Failed
    }

    /// A copy that begins.
    pub open spec fn begun(has_parent: bool) -> CopyModel {
        CopyModel {
            action: if has_parent {
                CopyAction::CreateParent
            } else {
                CopyAction::OpenSource
            },
            source: None,
            failure: CopyFailure::Io,
        }
    }

    /// The copy on its way out after a failure: the partial file is removed first.
    pub open spec fn failing(self, cause: CopyFailure) -> CopyModel {
        CopyModel { action: CopyAction::RemovePartial, failure: cause, ..self }
    }

    /// The copy with another action due.
    pub open spec fn going(self, action: CopyAction) -> CopyModel {
        CopyModel { action, ..self }
    }

    /// The copy after an action came to its end.
    pub open spec fn after(self, event: CopyEvent) -> CopyModel {
        match self.action {
            CopyAction::CreateParent => if event is Done {
                self.going(CopyAction::OpenSource)
            } else {
                self.going(CopyAction::Failed { cause: CopyFailure::Io })
            },
            CopyAction::OpenSource => if event is Done {
                self.going(CopyAction::StatSource)
            } else {
                self.failing(CopyFailure::Io)
            },
            CopyAction::StatSource => match event {
                CopyEvent::Source(attributes) => CopyModel {
                    source: Some(attributes),
                    action: CopyAction::OpenPartial,
                    failure: self.failure,
                },
                _ => self.failing(CopyFailure::Io),
            },
            CopyAction::OpenPartial => if event is Done {
                self.going(CopyAction::CopyBytes)
            } else {
                self.failing(CopyFailure::Io)
            },
            CopyAction::CopyBytes => if event is Done {
                self.going(CopyAction::Sync)
            } else {
                self.failing(CopyFailure::Io)
            },
            CopyAction::Sync => if event is Done {
                self.going(CopyAction::SetMode { mode: self.source->0.mode & 0o7777 })
            } else {
                self.failing(CopyFailure::Io)
            },
            CopyAction::SetMode { .. } => if event is Done {
                self.going(
                    CopyAction::SetOwner { uid: self.source->0.uid, gid: self.source->0.gid },
                )
            } else {
                self.failing(CopyFailure::Io)
            },
            CopyAction::SetOwner { .. } => self.going(
                CopyAction::SetTimes {
                    atime: self.source->0.atime,
                    atime_nsec: self.source->0.atime_nsec,
                    mtime: self.source->0.stamp.mtime,
                    mtime_nsec: self.source->0.stamp.mtime_nsec,
                },
            ),
            CopyAction::SetTimes { .. } => if event is Done {
                self.going(CopyAction::CheckSource)
            } else {
                self.failing(CopyFailure::Io)
            },
            CopyAction::CheckSource => match event {
                CopyEvent::Checked { aborted, now } => if committable(
                    aborted,
                    self.source->0.stamp,
                    now,
                ) {
                    self.going(CopyAction::Rename)
                } else {
                    self.failing(CopyFailure::SourceChanged)
                },
                _ => self.failing(CopyFailure::Io),
            },
            CopyAction::Rename => if event is Done {
                self.going(CopyAction::Succeeded)
            } else {
                self.failing(CopyFailure::Io)
            },
            CopyAction::RemovePartial => self.going(CopyAction::Failed { cause: self.failure }),
            CopyAction::Succeeded => self,
            CopyAction::Failed { .. } => self,
        }
    }

    /// How many actions can still follow, at most.
    pub open spec fn left(self) -> nat {
        match self.action {
            CopyAction::CreateParent => 13,
            CopyAction::OpenSource => 12,
            CopyAction::StatSource => 11,
            CopyAction::OpenPartial => 10,
            CopyAction::CopyBytes => 9,
            CopyAction::Sync => 8,
            CopyAction::SetMode { .. } => 7,
            CopyAction::SetOwner { .. } => 6,
            CopyAction::SetTimes { .. } => 5,
            CopyAction::CheckSource => 4,
            CopyAction::Rename => 3,
            CopyAction::RemovePartial => 2,
            CopyAction::Succeeded => 0,
            CopyAction::Failed { .. } => 0,
        }
    }
}

impl CopyRun {
    /// Begins a copy. A destination without a directory part needs none created.
    pub fn begin(has_parent: bool) -> (r: Self)
        ensures
            r@ == CopyModel::begun(has_parent),
            r@.wf(),
    {
        CopyRun {
            action: if has_parent {
                CopyAction::CreateParent
            } else {
                CopyAction::OpenSource
            },
            source: None,
            failure: CopyFailure::Io,
        }
    }

    /// What to do next.
    pub fn action(&self) -> (r: CopyAction)
        ensures
            r == self@.action,
    {
        self.action
    }

    /// The metadata of the source, once it is known.
    pub fn source(&self) -> (r: Option<SourceAttributes>)
        ensures
            r == self@.source,
    {
        self.source
    }

    /// Takes in what came of the action that was due.
    pub fn advance(self, event: CopyEvent) -> (r: Self)
        requires
            self@.wf(),
        ensures
            r@ == self@.after(event),
            r@.wf(),
    {
        let done = matches!(event, CopyEvent::Done);
        let failing = CopyRun {
            action: CopyAction::RemovePartial,
            source: self.source,
            failure: CopyFailure::Io,
        };
        let source = match self.source {
            Some(attributes) => attributes,
            None => SourceAttributes {
                stamp: SourceStamp { size: 0, mtime: 0, mtime_nsec: 0 },
                mode: 0,
                uid: 0,
                gid: 0,
                atime: 0,
                atime_nsec: 0,
            },
        };
        let action = match self.action {
            CopyAction::CreateParent => {
                if done {
                    CopyAction::OpenSource
                } else {
                    CopyAction::Failed { cause: CopyFailure::Io }
                }
            },
            CopyAction::StatSource => {
                return match event {
                    CopyEvent::Source(attributes) => CopyRun {
                        action: CopyAction::OpenPartial,
                        source: Some(attributes),
                        failure: self.failure,
                    },
                    _ => failing,
                };
            },
            CopyAction::SetOwner { .. } => CopyAction::SetTimes {
                atime: source.atime,
                atime_nsec: source.atime_nsec,
                mtime: source.stamp.mtime,
                mtime_nsec: source.stamp.mtime_nsec,
            },
            CopyAction::CheckSource => {
                match event {
                    CopyEvent::Checked { aborted, now } => {
                        let changed = match now {
                            Some(stamp) => stamp.size != source.stamp.size || stamp.mtime
                                != source.stamp.mtime || stamp.mtime_nsec
                                != source.stamp.mtime_nsec,
                            None => false,
                        };
                        if aborted || changed {
                            return CopyRun {
                                action: CopyAction::RemovePartial,
                                source: self.source,
                                failure: CopyFailure::SourceChanged,
                            };
                        }
                        CopyAction::Rename
                    },
                    _ => {
                        return failing;
                    },
                }
            },
            CopyAction::RemovePartial => CopyAction::Failed { cause: self.failure },
            CopyAction::Succeeded => {
                return self;
            },
            CopyAction::Failed { .. } => {
                return self;
            },
            _ => {
                if !done {
                    return failing;
                }
                match self.action {
                    CopyAction::OpenSource => CopyAction::StatSource,
                    CopyAction::OpenPartial => CopyAction::CopyBytes,
                    CopyAction::CopyBytes => CopyAction::Sync,
                    CopyAction::Sync => CopyAction::SetMode { mode: copied_mode(source.mode) },
                    CopyAction::SetMode { .. } => CopyAction::SetOwner {
                        uid: source.uid,
                        gid: source.gid,
                    },
                    CopyAction::SetTimes { .. } => CopyAction::CheckSource,
                    _ => CopyAction::Succeeded,
                }
            },
        };
        CopyRun { action, source: self.source, failure: self.failure }
    }
}

/// What follows reading a piece of the source.
#[derive(Clone, Copy, Debug, PartialEq, Eq, Structural)]
pub enum ChunkStep {
    /// Write the bytes that were read, then read on.
    Write { count: usize },
    /// The source has no more bytes.
    Complete,
    /// Reading failed.
    Failed,
}

/// How many bytes were copied when `n` more are written. The counter wraps around at its end.
pub open spec fn bytes_after(copied: u64, n: nat) -> nat {
    (copied + n) as nat % 0x1_0000_0000_0000_0000
}

/// Takes in how many bytes were read, or that reading failed. `copied` counts the bytes that are
/// to be reported as copied once the piece is written.
pub fn chunk_step(copied: &mut u64, read: Option<usize>) -> (r: ChunkStep)
    ensures
        match read {
            None => r == ChunkStep::Failed && *final(copied) == *old(copied),
            Some(n) => if n == 0 {
                r == ChunkStep::Complete && *final(copied) == *old(copied)
            } else {
                r == (ChunkStep::Write { count: n }) && *final(copied) == bytes_after(
                    *old(copied),
                    n as nat,
                )
            },
        },
{
    match read {
        None => ChunkStep::Failed,
        Some(n) => {
            if n == 0 {
                ChunkStep::Complete
            } else {
                *copied = copied.wrapping_add(n as u64);
                ChunkStep::Write { count: n }
            }
        },
    }
}

/// What is written when a source is read in pieces of the given sizes, one behind the other,
/// until nothing more is read.
pub open spec fn written(source: Seq<u8>, sizes: Seq<nat>) -> Seq<u8>
    decreases sizes.len(),
{
    if sizes.len() == 0 || sizes[0] == 0 || sizes[0] > source.len() {
        Seq::empty()
    } else {
        source.take(sizes[0] as int) + written(source.skip(sizes[0] as int), sizes.skip(1))
    }
}

/// Whether reading a source can give pieces of these sizes: none is longer than what is left,
/// and an empty one comes at the end of the source and nowhere else.
pub open spec fn readable(source: Seq<u8>, sizes: Seq<nat>) -> bool
    decreases sizes.len(),
{
    if sizes.len() == 0 {
        false
    } else if sizes[0] == 0 {
        source.len() == 0
    } else {
        sizes[0] <= source.len() && readable(source.skip(sizes[0] as int), sizes.skip(1))
    }
}

/// A copy that comes to its end holds exactly the bytes of its source, however they were
/// divided.
pub proof fn law_copy_is_exact(source: Seq<u8>, sizes: Seq<nat>)
    requires
        readable(source, sizes),
    ensures
        written(source, sizes) == source,
    decreases sizes.len(),
{
    if sizes[0] == 0 {
        assert(written(source, sizes) =~= source);
    } else {
        let n = sizes[0] as int;
        law_copy_is_exact(source.skip(n), sizes.skip(1));
        assert(source.take(n) + source.skip(n) =~= source);
    }
}

/// Every copy comes to its end, and nothing is done twice.
pub proof fn law_copy_ends(m: CopyModel, event: CopyEvent)
    ensures
        m.left() > 0 ==> m.after(event).left() < m.left(),
        m.left() == 0 ==> m.after(event) == m,
{
}

/// The destination appears only by renaming a complete, flushed partial file whose source
/// was found unchanged and whose copy was not told to abort.
pub proof fn law_rename_is_guarded(m: CopyModel, event: CopyEvent)
    requires
        m.wf(),
    ensures
        m.after(event).action is Rename ==> m.action is CheckSource && (event matches
            CopyEvent::Checked { aborted, now } && committable(
            aborted,
            m.source->0.stamp,
            now,
        )),
        m.after(event).action is Succeeded && !(m.action is Succeeded) ==> m.action is Rename
            && event is Done,
        m.after(event).action is CopyBytes ==> m.action is OpenPartial && event is Done,
{
}

/// Once the source has been opened, a copy can fail only by way of removing its partial
/// file.
pub proof fn law_failure_removes_partial(m: CopyModel, event: CopyEvent)
    requires
        m.wf(),
        !(m.action is Failed),
        m.after(event).action is Failed,
    ensures
        m.action is RemovePartial || m.action is CreateParent,
{
}

/// A finished copy is renamed exactly where nobody asked to abort and the source, if it can still
/// be examined, has the size, the modification time and its nanoseconds that were recorded when
/// the copy began. Otherwise the partial file is removed and the copy fails for that reason.
pub proof fn law_changed_source_is_not_committed(
    m: CopyModel,
    aborted: bool,
    now: Option<SourceStamp>,
    next: CopyEvent,
)
    requires
        m.action is CheckSource,
        m.source is Some,
    ensures
        ({
            let began = m.source->0.stamp;
            let after = m.after(CopyEvent::Checked { aborted, now });
            let unchanged = now matches Some(stamp) ==> stamp.size == began.size && stamp.mtime
                == began.mtime && stamp.mtime_nsec == began.mtime_nsec;
            &&& after.action is Rename <==> !aborted && unchanged
            &&& !(after.action is Rename) ==> after.action is RemovePartial
            &&& after.action is RemovePartial ==> after.after(next).action == (CopyAction::Failed {
                cause: CopyFailure::SourceChanged,
            })
        }),
{
}

/// What the source was found to be when it was examined is what the copy is held against and
/// takes over: it is recorded as examined and never changes again.
pub proof fn law_source_is_recorded_once(m: CopyModel, event: CopyEvent, a: SourceAttributes)
    ensures
        m.action is StatSource ==> m.after(CopyEvent::Source(a)).source == Some(a),
        m.action is StatSource ==> m.after(CopyEvent::Source(a)).action is OpenPartial,
        !(m.action is StatSource) ==> m.after(event).source == m.source,
{
}

/// A copy takes over the permission bits, the owner, the group and both times of its source, each
/// from the field of the same name. That the owner cannot be set does not matter.
pub proof fn law_copy_takes_metadata_over(m: CopyModel, event: CopyEvent, a: SourceAttributes)
    requires
        m.source == Some(a),
    ensures
        m.action is Sync ==> (m.after(CopyEvent::Done).action matches CopyAction::SetMode { mode }
            && mode == a.mode & 0o7777),
        m.action is SetMode ==> (m.after(CopyEvent::Done).action matches CopyAction::SetOwner {
            uid,
            gid,
        } && uid == a.uid && gid == a.gid),
        m.action is SetOwner ==> (m.after(event).action matches CopyAction::SetTimes {
            atime,
            atime_nsec,
            mtime,
            mtime_nsec,
        } && atime == a.atime && atime_nsec == a.atime_nsec && mtime == a.stamp.mtime
            && mtime_nsec == a.stamp.mtime_nsec),
{
}

/// The course of a copy in which all goes well, whatever came of setting the owner: it ends in
/// success by way of every action in turn.
pub proof fn law_successful_copy(a: SourceAttributes, owner: CopyEvent, still: bool)
    ensures
        ({
            let m1 = CopyModel::begun(true).after(CopyEvent::Done);
            let m2 = m1.after(CopyEvent::Done);
            let m3 = m2.after(CopyEvent::Source(a));
            let m4 = m3.after(CopyEvent::Done);
            let m5 = m4.after(CopyEvent::Done);
            let m6 = m5.after(CopyEvent::Done);
            let m7 = m6.after(CopyEvent::Done);
            let m8 = m7.after(owner);
            let m9 = m8.after(CopyEvent::Done);
            let m10 = m9.after(
                CopyEvent::Checked {
                    aborted: false,
                    now: if still {
                        Some(a.stamp)
                    } else {
                        None
                    },
                },
            );
            let m11 = m10.after(CopyEvent::Done);
            &&& CopyModel::begun(true).action is CreateParent
            &&& CopyModel::begun(false).action is OpenSource
            &&& m1.action is OpenSource
            &&& m2.action is StatSource
            &&& m3.action is OpenPartial
            &&& m4.action is CopyBytes
            &&& m5.action is Sync
            &&& m6.action == (CopyAction::SetMode { mode: a.mode & 0o7777 })
            &&& m7.action == (CopyAction::SetOwner { uid: a.uid, gid: a.gid })
            &&& m8.action == (CopyAction::SetTimes {
                atime: a.atime,
                atime_nsec: a.atime_nsec,
                mtime: a.stamp.mtime,
                mtime_nsec: a.stamp.mtime_nsec,
            })
            &&& m9.action is CheckSource
            &&& m10.action is Rename
            &&& m11.action is Succeeded
            &&& m11.source == Some(a)
        }),
{
}

/// An error in any action but setting the owner or removing the partial file ends the copy as
/// failed: at once where the directory could not be created, and otherwise after removing the
/// partial file.
pub proof fn law_errors_end_the_copy(m: CopyModel, next: CopyEvent)
    requires
        !(m.action is SetOwner),
        !(m.action is RemovePartial),
        !(m.action is Succeeded),
        !(m.action is Failed),
    ensures
        m.action is CreateParent ==> m.after(CopyEvent::Error).action == (CopyAction::Failed {
            cause: CopyFailure::Io,
        }),
        !(m.action is CreateParent) ==> m.after(CopyEvent::Error).action is RemovePartial
            && m.after(CopyEvent::Error).after(next).action == (CopyAction::Failed {
            cause: CopyFailure::Io,
        }),
{
}

/// The count of copied bytes is their sum as long as that can be written.
pub proof fn law_bytes_add_up(copied: u64, n: nat)
    ensures
        copied + n <= u64::MAX ==> bytes_after(copied, n) == copied + n,
        bytes_after(copied, 0) == copied,
{
}

} // verus!
