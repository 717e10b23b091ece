//! Serving what only looks at files: opening, looking up, listing.

use crate::fuse::attr;
use crate::fuse::attr::{FileAttr, FileStat, SourceMetadata, S_IFDIR, S_IFMT};
use crate::fuse::fusefs;
use crate::fuse::fusefs::{FsCache, OpenOutcome, ENOENT};
use crate::fuse::util;
use crate::path;
use crate::path::RelPath;
use crate::text;
use vstd::prelude::*;

verus! {

/// The course of opening a file for reading.
#[derive(Clone, Copy, Debug, PartialEq, Eq, Structural)]
pub enum TryOpen {
    /// Open the cached copy.
    Cache,
    /// Open the file on the backing store.
    Backing,
    /// The file is open under this handle.
    Opened { fh: u64, outcome: OpenOutcome },
    /// The open failed with this error number.
    Failed { errno: i32 },
}

impl TryOpen {
    /// What follows the attempt, given its handle or error number. A cached copy that cannot be
    /// opened was evicted a moment ago: the backing store serves instead.
    pub open spec fn after(self, result: Result<u64, i32>, filtered: bool) -> TryOpen {
        match self {
            TryOpen::Cache => match result {
                Ok(fh) => TryOpen::Opened { fh, outcome: OpenOutcome::Hit },
                Err(_) => TryOpen::Backing,
            },
            TryOpen::Backing => match result {
                Ok(fh) => TryOpen::Opened {
                    fh,
                    outcome: if filtered {
                        OpenOutcome::Filtered
                    } else {
                        OpenOutcome::Miss
                    },
                },
                Err(errno) => TryOpen::Failed { errno },
            },
            other => other,
        }
    }

    /// Where to look first: a cached copy serves unless everything is passed through.
    pub fn begin(passthrough: bool, is_cached: bool) -> (r: TryOpen)
        ensures
            r == (if !passthrough && is_cached {
                TryOpen::Cache
            } else {
                TryOpen::Backing
            }),
    {
        if !passthrough && is_cached {
            TryOpen::Cache
        } else {
            TryOpen::Backing
        }
    }

    /// What follows the attempt.
    pub fn next(self, result: Result<u64, i32>, filtered: bool) -> (r: TryOpen)
        ensures
            r == self.after(result, filtered),
    {
        match self {
            TryOpen::Cache => match result {
                Ok(fh) => TryOpen::Opened { fh, outcome: OpenOutcome::Hit },
                Err(_) => TryOpen::Backing,
            },
            TryOpen::Backing => match result {
                Ok(fh) => TryOpen::Opened {
                    fh,
                    outcome: if filtered {
                        OpenOutcome::Filtered
                    } else {
                        OpenOutcome::Miss
                    },
                },
                Err(errno) => TryOpen::Failed { errno },
            },
            other => other,
        }
    }
}

/// A hit is only ever served from the cache, a filtered access only ever from the backing
/// store, and an open fails only where the backing store refuses it.
pub proof fn law_open_outcomes(step: TryOpen, result: Result<u64, i32>, filtered: bool)
    requires
        step == TryOpen::Cache || step == TryOpen::Backing,
    ensures
        step.after(result, filtered) matches TryOpen::Opened { outcome, .. } ==> (outcome
            == OpenOutcome::Hit <==> step == TryOpen::Cache),
        step.after(result, filtered) is Failed ==> step == TryOpen::Backing && result is Err,
        step == TryOpen::Backing && filtered ==> !(step.after(result, filtered) matches
            TryOpen::Opened { outcome: OpenOutcome::Miss, .. }),
{
}

/// How loud a log line is.
#[derive(Clone, Copy, Debug, PartialEq, Eq, Structural)]
pub enum LogLevel {
    Debug,
    Info,
}

/// A log line for an open, with the name of its telemetry event where it has one.
#[derive(Debug, PartialEq, Eq)]
pub struct OpenLog {
    pub level: LogLevel,
    pub event: Option<&'static str>,
    pub message: String,
}

/// The message for an open; `shown` is the path as it is to be shown.
pub open spec fn open_message(
    outcome: OpenOutcome,
    shown: Seq<char>,
    opener: Option<Seq<char>>,
    pid: u32,
) -> Seq<char> {
    let who = match opener {
        Some(name) => name,
        None => "?"@,
    };
    let tail = " [opener: "@ + who + " pid="@ + text::decimal(pid as nat) + "]"@;
    match outcome {
        OpenOutcome::Hit => "cache HIT: "@ + shown + " (serving from SSD)"@,
        OpenOutcome::Miss => "cache MISS: "@ + shown + " (serving from backing store)"@ + tail,
        OpenOutcome::Filtered => "ignored process access: "@ + shown
            + " (filtered by preset, not caching)"@ + tail,
    }
}

/// Words the log line for an open. Only misses that were logged a moment ago are lowered to
/// debugging output.
pub fn log_open_outcome(
    shown: &str,
    opener: Option<&str>,
    pid: u32,
    outcome: OpenOutcome,
    suppress: bool,
) -> (r: OpenLog)
    ensures
        r.level == (if outcome == OpenOutcome::Miss && suppress {
            LogLevel::Debug
        } else {
            LogLevel::Info
        }),
        match outcome {
            OpenOutcome::Hit => r.event matches Some(e) && e@ == "cache_hit"@,
            OpenOutcome::Miss => r.event matches Some(e) && e@ == "cache_miss"@,
            OpenOutcome::Filtered => r.event is None,
        },
        r.message@ == open_message(
            outcome,
            shown@,
            match opener {
                Some(name) => Some(name@),
                None => None,
            },
            pid,
        ),
{
    let level = match outcome {
        OpenOutcome::Miss => {
            if suppress {
                LogLevel::Debug
            } else {
                LogLevel::Info
            }
        },
        _ => LogLevel::Info,
    };
    let event = match outcome {
        OpenOutcome::Hit => Some(crate::telemetry::EVENT_CACHE_HIT),
        OpenOutcome::Miss => Some(crate::telemetry::EVENT_CACHE_MISS),
        OpenOutcome::Filtered => None,
    };
    let who = match opener {
        Some(name) => name,
        None => "?",
    };
    let mut tail = text::concat2(" [opener: ", who);
    text::push_text(&mut tail, " pid=");
    let digits = text::format_decimal(pid as u128);
    text::push_text(&mut tail, digits.as_str());
    text::push_text(&mut tail, "]");
    let message = match outcome {
        OpenOutcome::Hit => {
            let mut m = text::concat2("cache HIT: ", shown);
            text::push_text(&mut m, " (serving from SSD)");
            m
        },
        OpenOutcome::Miss => {
            let mut m = text::concat2("cache MISS: ", shown);
            text::push_text(&mut m, " (serving from backing store)");
            text::push_text(&mut m, tail.as_str());
            m
        },
        OpenOutcome::Filtered => {
            let mut m = text::concat2("ignored process access: ", shown);
            text::push_text(&mut m, " (filtered by preset, not caching)");
            text::push_text(&mut m, tail.as_str());
            m
        },
    };
    OpenLog { level, event, message }
}

/// What is replied to a request for attributes.
#[derive(Clone, Copy, Debug, PartialEq, Eq, Structural)]
pub enum AttrReply {
    /// The attributes. `watch` says that a directory was seen that should be watched.
    Attr { attr: FileAttr, watch: bool },
    Error { errno: i32 },
}

/// The reply for a file: recorded metadata serves a cached file, examining the backing store
/// any other. What cannot be examined does not exist.
pub open spec fn attr_reply(
    ino: u64,
    cached: Option<SourceMetadata>,
    stat: Option<FileStat>,
) -> AttrReply {
    match cached {
        Some(m) => AttrReply::Attr { attr: attr::attr_of_source(ino, m), watch: false },
        None => match stat {
            Some(s) => AttrReply::Attr {
                attr: attr::attr_of_stat(ino, s),
                watch: s.mode & S_IFMT == S_IFDIR,
            },
            None => AttrReply::Error { errno: ENOENT },
        },
    }
}

/// Replies to a request for attributes. `stat` is asked for only where nothing was recorded.
pub fn reply_attr(ino: u64, cached: Option<SourceMetadata>, stat: Option<FileStat>) -> (r:
    AttrReply)
    requires
        cached matches Some(m) ==> m.in_range(),
        cached is None && stat is Some ==> (stat->0).in_range(),
    ensures
        r == attr_reply(ino, cached, stat),
{
    match cached {
        Some(m) => AttrReply::Attr {
            attr: attr::source_metadata_to_attr(ino, &m),
            watch: false,
        },
        None => match stat {
            Some(s) => AttrReply::Attr {
                attr: attr::stat_to_attr(ino, &s),
                watch: s.mode & S_IFMT == S_IFDIR,
            },
            None => AttrReply::Error { errno: ENOENT },
        },
    }
}

/// Begins a lookup: the name gets an inode whether or not the file turns out to exist.
pub fn begin_lookup(fs: &mut FsCache, parent: u64, name: &[u8]) -> (r: Result<(RelPath, u64), i32>)
    requires
        old(fs)@.wf(),
        old(fs)@.inodes.next_ino < u64::MAX,
    ensures
        final(fs)@.wf(),
        match old(fs)@.child_of(parent, name@) {
            None => r matches Err(e) && e == ENOENT && final(fs)@ == old(fs)@,
            Some(p) => {
                &&& r matches Ok((child, ino)) && child@ == p && ino == fusefs::ino_of_lookup(
                    old(fs)@.inodes,
                    p,
                )
                &&& final(fs)@ == old(fs)@.with_inodes(old(fs)@.inodes.looked_up(p))
            },
        },
{
    match fs.child_path(parent, name) {
        Err(e) => Err(e),
        Ok(child) => {
            let ino = fs.lookup_ino(&child);
            Ok((child, ino))
        },
    }
}

/// The position of the first of `count` entries that lies behind an offset, which counts
/// entries from one.
pub open spec fn resume_at(count: nat, offset: nat) -> nat {
    if offset < count {
        offset
    } else {
        count
    }
}

/// The position of the first directory entry to hand out for an offset.
pub fn readdir_start(count: usize, offset: u64) -> (r: usize)
    ensures
        r == resume_at(count as nat, offset as nat),
{
    if offset < count as u64 {
        offset as usize
    } else {
        count
    }
}

/// The offset of the entry at position `i`.
pub fn entry_offset(i: usize) -> (r: u64)
    requires
        i < usize::MAX,
    ensures
        r == i + 1,
{
    (i + 1) as u64
}

/// Reading on from the offset of an entry continues with the entry behind it.
pub proof fn law_readdir_resumes(count: usize, i: usize)
    requires
        i < count,
    ensures
        resume_at(count as nat, (i + 1) as nat) == i + 1,
{
}

/// The reply to a request for extended attributes: asked with size zero, their length only.
#[derive(Debug, PartialEq, Eq)]
pub enum XattrReply {
    Size(u32),
    Data(Vec<u8>),
    Error(i32),
}

/// Words the reply to a request for extended attributes.
pub fn xattr_reply(size: u32, result: Result<Vec<u8>, i32>) -> (r: XattrReply)
    ensures
        match result {
            Err(e) => r == XattrReply::Error(e),
            Ok(data) => if size == 0 {
                r == XattrReply::Size(data@.len() as u32)
            } else {
                r == XattrReply::Data(data)
            },
        },
{
    match result {
        Err(e) => XattrReply::Error(e),
        Ok(data) => {
            if size == 0 {
                XattrReply::Size(data.len() as u32)
            } else {
                XattrReply::Data(data)
            }
        },
    }
}

/// The name under which a directory is opened: the root has none of its own, and one leading
/// slash is dropped.
pub fn opendir_name(p: &RelPath) -> (r: Vec<u8>)
    ensures
        r@ == (if p@.len() == 0 || !util::free_of_nul(
            util::without_leading_slash(path::spelled(p@)),
        ) {
            seq![0x2eu8]
        } else {
            util::without_leading_slash(path::spelled(p@))
        }),
{
    assert(p@.len() == 0 ==> p@ =~= path::PathView::empty());
    if p.is_root() {
        let mut dot: Vec<u8> = Vec::new();
        dot.push(0x2e);
        assert(dot@ =~= seq![0x2eu8]);
        dot
    } else {
        util::rel_to_cstring(&p.to_bytes())
    }
}

/// An open that succeeds hands on the very handle that it got, one that the backing store refuses
/// fails with its error number, and a cached copy that cannot be opened leads to the backing
/// store. An open from the backing store counts as a miss unless the access is filtered.
pub proof fn law_open_hands_on_the_result(fh: u64, errno: i32, filtered: bool, step: TryOpen)
    ensures
        TryOpen::Cache.after(Ok(fh), filtered) == (TryOpen::Opened {
            fh,
            outcome: OpenOutcome::Hit,
        }),
        TryOpen::Cache.after(Err(errno), filtered) == TryOpen::Backing,
        TryOpen::Backing.after(Ok(fh), true) == (TryOpen::Opened {
            fh,
            outcome: OpenOutcome::Filtered,
        }),
        TryOpen::Backing.after(Ok(fh), false) == (TryOpen::Opened {
            fh,
            outcome: OpenOutcome::Miss,
        }),
        TryOpen::Backing.after(Err(errno), filtered) == (TryOpen::Failed { errno }),
        step is Opened || step is Failed ==> step.after(Ok(fh), filtered) == step && step.after(
            Err(errno),
            filtered,
        ) == step,
{
}

/// A cached file is shown as it was recorded, any other file as it was examined, and a file of
/// which neither is known does not exist. Directories that were examined, and no other files, are
/// to be watched.
pub proof fn law_attr_reply_shows_the_file(
    ino: u64,
    cached: Option<SourceMetadata>,
    stat: Option<FileStat>,
)
    requires
        cached matches Some(m) ==> m.in_range(),
        stat matches Some(s) ==> s.in_range(),
    ensures
        cached matches Some(m) ==> (attr_reply(ino, cached, stat) matches AttrReply::Attr {
            attr,
            watch,
        } && !watch && attr.ino == ino && attr.size == m.size && attr.uid == m.uid && attr.gid
            == m.gid && attr.kind == crate::fuse::attr::FileType::RegularFile),
        cached is None ==> (stat matches Some(s) ==> attr_reply(ino, cached, stat) matches
            AttrReply::Attr { attr, watch } && attr.ino == ino && attr.uid == s.uid && attr.gid
            == s.gid && (s.size >= 0 ==> attr.size == s.size) && (watch <==> s.mode & 0o170000
            == 0o040000) && (watch <==> attr.kind == crate::fuse::attr::FileType::Directory)),
        cached is None && stat is None ==> attr_reply(ino, cached, stat) == (AttrReply::Error {
            errno: 2,
        }),
{
    if let Some(m) = cached {
        attr::law_recorded_attributes_are_the_sources(ino, m);
    }
    if let Some(s) = stat {
        attr::law_stat_attributes_are_the_files(ino, s);
    }
}

/// Reading on from an offset hands out exactly the entries whose own offsets, which count from
/// one, lie behind it.
pub proof fn law_readdir_hands_out_the_rest(count: nat, offset: nat, i: nat)
    requires
        i < count,
    ensures
        resume_at(count, offset) <= i <==> offset < i + 1,
        resume_at(count, offset) <= count,
{
}

/// The message for an open tells the path, and for a miss or an ignored access also who opened the
/// file.
pub proof fn law_open_message_tells_path_and_opener(
    outcome: OpenOutcome,
    shown: Seq<char>,
    name: Seq<char>,
    pid: u32,
)
    ensures
        exists|front: Seq<char>, back: Seq<char>|
            open_message(outcome, shown, Some(name), pid) == #[trigger] (front + shown + back),
        outcome != OpenOutcome::Hit ==> exists|front: Seq<char>|
            open_message(outcome, shown, Some(name), pid) == #[trigger] (front + (
            " [opener: "@ + name + " pid="@ + text::decimal(pid as nat) + "]"@)),
        outcome != OpenOutcome::Hit ==> open_message(outcome, shown, None, pid) == open_message(
            outcome,
            shown,
            Some("?"@),
            pid,
        ),
        open_message(OpenOutcome::Hit, shown, Some(name), pid) == open_message(
            OpenOutcome::Hit,
            shown,
            None,
            0,
        ),
{
    let tail = " [opener: "@ + name + " pid="@ + text::decimal(pid as nat) + "]"@;
    match outcome {
        OpenOutcome::Hit => {
            assert(open_message(outcome, shown, Some(name), pid) == "cache HIT: "@ + shown
                + " (serving from SSD)"@);
        },
        OpenOutcome::Miss => {
            let end = " (serving from backing store)"@;
            assert("cache MISS: "@ + shown + end + tail =~= "cache MISS: "@ + shown + (end + tail));
            assert(open_message(outcome, shown, Some(name), pid) == ("cache MISS: "@ + shown + end)
                + tail);
        },
        OpenOutcome::Filtered => {
            let begin = "ignored process access: "@;
            let end = " (filtered by preset, not caching)"@;
            assert(begin + shown + end + tail =~= begin + shown + (end + tail));
            assert(open_message(outcome, shown, Some(name), pid) == (begin + shown + end) + tail);
        },
    }
}

} // verus!
