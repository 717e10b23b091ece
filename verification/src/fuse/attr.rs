//! File attributes as the kernel gives and takes them.

use vstd::prelude::*;

verus! {

/// Bits of a mode that tell the type of a file.
pub const S_IFMT: u32 = 0o170000;

pub const S_IFSOCK: u32 = 0o140000;

pub const S_IFLNK: u32 = 0o120000;

pub const S_IFBLK: u32 = 0o060000;

pub const S_IFDIR: u32 = 0o040000;

pub const S_IFCHR: u32 = 0o020000;

pub const S_IFIFO: u32 = 0o010000;

/// Bits of a mode that tell the permissions.
pub const PERM_BITS: u32 = 0o7777;

#[derive(Clone, Copy, Debug, PartialEq, Eq, Structural)]
pub enum FileType {
    NamedPipe,
    CharDevice,
    BlockDevice,
    Directory,
    RegularFile,
    Symlink,
    Socket,
}

/// The type that a mode tells; a mode that tells none is that of a regular file.
pub open spec fn filetype_of(mode: u32) -> FileType {
    let bits = mode & S_IFMT;
    if bits == S_IFDIR {
        FileType::Directory
    } else if bits == S_IFLNK {
        FileType::Symlink
    } else if bits == S_IFBLK {
        FileType::BlockDevice
    } else if bits == S_IFCHR {
        FileType::CharDevice
    } else if bits == S_IFIFO {
        FileType::NamedPipe
    } else if bits == S_IFSOCK {
        FileType::Socket
    } else {
        FileType::RegularFile
    }
}

/// Reads the type of a file off its mode.
pub fn mode_to_filetype(mode: u32) -> (r: FileType)
    ensures
        r == filetype_of(mode),
{
    let bits: u32 = mode & S_IFMT;
    if bits == S_IFDIR {
        FileType::Directory
    } else if bits == S_IFLNK {
        FileType::Symlink
    } else if bits == S_IFBLK {
        FileType::BlockDevice
    } else if bits == S_IFCHR {
        FileType::CharDevice
    } else if bits == S_IFIFO {
        FileType::NamedPipe
    } else if bits == S_IFSOCK {
        FileType::Socket
    } else {
        FileType::RegularFile
    }
}

/// A point in time: seconds since the Unix epoch and nanoseconds below one second.
#[derive(Clone, Copy, Debug, PartialEq, Eq, Structural)]
pub struct Timestamp {
    pub secs: u64,
    pub nanos: u32,
}

/// Seconds that can be represented with room for a carry out of the nanoseconds.
pub open spec fn representable(secs: i64) -> bool {
    0 <= secs <= i64::MAX - 4
}

/// Nanoseconds beyond a second carry over.
pub open spec fn timestamp_of(secs: i64, nsec: u32) -> Timestamp {
    Timestamp {
        secs: (secs + nsec as int / 1_000_000_000) as u64,
        nanos: (nsec % 1_000_000_000) as u32,
    }
}

fn timestamp(secs: i64, nsec: u32) -> (r: Timestamp)
    requires
        representable(secs),
    ensures
        r == timestamp_of(secs, nsec),
        r.nanos < 1_000_000_000,
{
    Timestamp {
        secs: secs as u64 + (nsec / 1_000_000_000) as u64,
        nanos: nsec % 1_000_000_000,
    }
}

/// What examining a file on the backing store gives.
#[derive(Clone, Copy, Debug, PartialEq, Eq, Structural)]
pub struct FileStat {
    pub mode: u32,
    pub size: i64,
    pub blocks: i64,
    pub atime: i64,
    pub atime_nsec: i64,
    pub mtime: i64,
    pub mtime_nsec: i64,
    pub ctime: i64,
    pub ctime_nsec: i64,
    pub nlink: u64,
    pub uid: u32,
    pub gid: u32,
    pub rdev: u64,
    pub blksize: i64,
}

/// Metadata that was recorded when a file was copied into the cache.
#[derive(Clone, Copy, Debug, PartialEq, Eq, Structural)]
pub struct SourceMetadata {
    pub mode: u32,
    pub size: u64,
    pub blocks: u64,
    pub atime_sec: i64,
    pub atime_nsec: i64,
    pub mtime_sec: i64,
    pub mtime_nsec: i64,
    pub ctime_sec: i64,
    pub ctime_nsec: i64,
    pub nlink: u64,
    pub uid: u32,
    pub gid: u32,
    pub rdev: u64,
    pub blksize: u32,
}

/// Attributes as they are handed to the kernel.
#[derive(Clone, Copy, Debug, PartialEq, Eq, Structural)]
pub struct FileAttr {
    pub ino: u64,
    pub size: u64,
    pub blocks: u64,
    pub atime: Timestamp,
    pub mtime: Timestamp,
    pub ctime: Timestamp,
    pub kind: FileType,
    pub perm: u16,
    pub nlink: u32,
    pub uid: u32,
    pub gid: u32,
    pub rdev: u32,
    pub blksize: u32,
}

impl FileStat {
    /// Whether all times lie at or behind the epoch and can be represented.
    pub open spec fn in_range(self) -> bool {
        representable(self.atime) && representable(self.mtime) && representable(self.ctime)
    }

    /// Tests whether all times can be represented.
    pub fn is_in_range(&self) -> (r: bool)
        ensures
            r == self.in_range(),
    {
        let last: i64 = i64::MAX - 4;
        0 <= self.atime && self.atime <= last && 0 <= self.mtime && self.mtime <= last && 0
            <= self.ctime && self.ctime <= last
    }
}

impl SourceMetadata {
    /// Whether all times can be represented; those before the epoch are taken for the epoch.
    pub open spec fn in_range(self) -> bool {
        self.atime_sec <= i64::MAX - 4 && self.mtime_sec <= i64::MAX - 4 && self.ctime_sec
            <= i64::MAX - 4
    }

    /// Tests whether all times can be represented.
    pub fn is_in_range(&self) -> (r: bool)
        ensures
            r == self.in_range(),
    {
        let last: i64 = i64::MAX - 4;
        self.atime_sec <= last && self.mtime_sec <= last && self.ctime_sec <= last
    }
}

/// The attributes of a file on the backing store. Fields that are narrower for the kernel
/// keep their low bits.
pub open spec fn attr_of_stat(ino: u64, s: FileStat) -> FileAttr {
    FileAttr {
        ino,
        size: s.size as u64,
        blocks: s.blocks as u64,
        atime: timestamp_of(s.atime, s.atime_nsec as u32),
        mtime: timestamp_of(s.mtime, s.mtime_nsec as u32),
        ctime: timestamp_of(s.ctime, s.ctime_nsec as u32),
        kind: filetype_of(s.mode),
        perm: (s.mode & PERM_BITS) as u16,
        nlink: s.nlink as u32,
        uid: s.uid,
        gid: s.gid,
        rdev: s.rdev as u32,
        blksize: s.blksize as u32,
    }
}

/// Turns what the backing store tells of a file into attributes.
pub fn stat_to_attr(ino: u64, s: &FileStat) -> (r: FileAttr)
    requires
        s.in_range(),
    ensures
        r == attr_of_stat(ino, *s),
{
    FileAttr {
        ino,
        size: s.size as u64,
        blocks: s.blocks as u64,
        atime: timestamp(s.atime, s.atime_nsec as u32),
        mtime: timestamp(s.mtime, s.mtime_nsec as u32),
        ctime: timestamp(s.ctime, s.ctime_nsec as u32),
        kind: mode_to_filetype(s.mode),
        perm: (s.mode & PERM_BITS) as u16,
        nlink: s.nlink as u32,
        uid: s.uid,
        gid: s.gid,
        rdev: s.rdev as u32,
        blksize: s.blksize as u32,
    }
}

/// Zero in place of a negative number.
pub open spec fn at_least_zero(n: i64) -> i64 {
    if n < 0 {
        0
    } else {
        n
    }
}

fn clamp_zero(n: i64) -> (r: i64)
    ensures
        r == at_least_zero(n),
{
    if n < 0 {
        0
    } else {
        n
    }
}

/// The attributes of a cached file, which is always a regular one.
pub open spec fn attr_of_source(ino: u64, m: SourceMetadata) -> FileAttr {
    FileAttr {
        ino,
        size: m.size,
        blocks: m.blocks,
        atime: timestamp_of(at_least_zero(m.atime_sec), at_least_zero(m.atime_nsec) as u32),
        mtime: timestamp_of(at_least_zero(m.mtime_sec), at_least_zero(m.mtime_nsec) as u32),
        ctime: timestamp_of(at_least_zero(m.ctime_sec), at_least_zero(m.ctime_nsec) as u32),
        kind: FileType::RegularFile,
        perm: (m.mode & PERM_BITS) as u16,
        nlink: m.nlink as u32,
        uid: m.uid,
        gid: m.gid,
        rdev: m.rdev as u32,
        blksize: m.blksize,
    }
}

/// Turns recorded metadata into attributes.
pub fn source_metadata_to_attr(ino: u64, m: &SourceMetadata) -> (r: FileAttr)
    requires
        m.in_range(),
    ensures
        r == attr_of_source(ino, *m),
{
    FileAttr {
        ino,
        size: m.size,
        blocks: m.blocks,
        atime: timestamp(clamp_zero(m.atime_sec), clamp_zero(m.atime_nsec) as u32),
        mtime: timestamp(clamp_zero(m.mtime_sec), clamp_zero(m.mtime_nsec) as u32),
        ctime: timestamp(clamp_zero(m.ctime_sec), clamp_zero(m.ctime_nsec) as u32),
        kind: FileType::RegularFile,
        perm: (m.mode & PERM_BITS) as u16,
        nlink: m.nlink as u32,
        uid: m.uid,
        gid: m.gid,
        rdev: m.rdev as u32,
        blksize: m.blksize,
    }
}

/// Type bits of a directory entry.
pub const DT_FIFO: u8 = 1;

pub const DT_CHR: u8 = 2;

pub const DT_DIR: u8 = 4;

pub const DT_BLK: u8 = 6;

pub const DT_LNK: u8 = 10;

pub const DT_SOCK: u8 = 12;

/// The type that a directory entry tells by itself. Regular files and unknown types call for
/// examining the file.
pub open spec fn entry_kind(d_type: u8) -> Option<FileType> {
    if d_type == DT_DIR {
        Some(FileType::Directory)
    } else if d_type == DT_LNK {
        Some(FileType::Symlink)
    } else if d_type == DT_BLK {
        Some(FileType::BlockDevice)
    } else if d_type == DT_CHR {
        Some(FileType::CharDevice)
    } else if d_type == DT_FIFO {
        Some(FileType::NamedPipe)
    } else if d_type == DT_SOCK {
        Some(FileType::Socket)
    } else {
        None
    }
}

/// Reads the type of a file off its directory entry, where that tells it.
pub fn dirent_filetype(d_type: u8) -> (r: Option<FileType>)
    ensures
        r == entry_kind(d_type),
{
    if d_type == DT_DIR {
        Some(FileType::Directory)
    } else if d_type == DT_LNK {
        Some(FileType::Symlink)
    } else if d_type == DT_BLK {
        Some(FileType::BlockDevice)
    } else if d_type == DT_CHR {
        Some(FileType::CharDevice)
    } else if d_type == DT_FIFO {
        Some(FileType::NamedPipe)
    } else if d_type == DT_SOCK {
        Some(FileType::Socket)
    } else {
        None
    }
}

/// The type bits of a mode are its bits under 0o170000, and each of their known values tells one
/// type; every other value tells a regular file.
pub proof fn law_type_bits(mode: u32)
    ensures
        filetype_of(mode) == FileType::Directory <==> mode & 0o170000 == 0o040000,
        filetype_of(mode) == FileType::Symlink <==> mode & 0o170000 == 0o120000,
        filetype_of(mode) == FileType::BlockDevice <==> mode & 0o170000 == 0o060000,
        filetype_of(mode) == FileType::CharDevice <==> mode & 0o170000 == 0o020000,
        filetype_of(mode) == FileType::NamedPipe <==> mode & 0o170000 == 0o010000,
        filetype_of(mode) == FileType::Socket <==> mode & 0o170000 == 0o140000,
        mode & 0o170000 == 0o100000 ==> filetype_of(mode) == FileType::RegularFile,
{
}

/// The type of a file does not depend on its permissions.
pub proof fn law_type_ignores_permissions(mode: u32, perm: u32)
    requires
        perm <= 0o7777,
    ensures
        filetype_of(mode | perm) == filetype_of(mode),
{
    assert((mode | perm) & 0o170000 == mode & 0o170000) by (bit_vector)
        requires
            perm <= 0o7777,
    ;
}

/// A directory entry tells the type whose mode bits are twelve places above its own, except for
/// regular files and for types that are not known.
pub proof fn law_entry_type_agrees_with_mode(d_type: u8)
    requires
        d_type <= 0o17,
    ensures
        entry_kind(d_type) matches Some(kind) ==> kind == filetype_of(
            (d_type * 0o10000) as u32,
        ) && kind != FileType::RegularFile,
        entry_kind(d_type) is None ==> filetype_of((d_type * 0o10000) as u32)
            == FileType::RegularFile,
{
    let mode = (d_type * 0o10000) as u32;
    assert(mode & 0o170000 == mode) by (bit_vector)
        requires
            mode == d_type * 0o10000,
            d_type <= 0o17,
    ;
}

/// Which number a directory entry has for which type.
pub proof fn law_entry_types(d_type: u8)
    ensures
        entry_kind(d_type) == Some(FileType::NamedPipe) <==> d_type == 1,
        entry_kind(d_type) == Some(FileType::CharDevice) <==> d_type == 2,
        entry_kind(d_type) == Some(FileType::Directory) <==> d_type == 4,
        entry_kind(d_type) == Some(FileType::BlockDevice) <==> d_type == 6,
        entry_kind(d_type) == Some(FileType::Symlink) <==> d_type == 10,
        entry_kind(d_type) == Some(FileType::Socket) <==> d_type == 12,
        entry_kind(d_type) != Some(FileType::RegularFile),
{
}

/// Making a timestamp changes no point in time, and its nanoseconds stay below one second.
pub proof fn law_timestamp_keeps_time(secs: i64, nsec: u32)
    requires
        0 <= secs <= i64::MAX - 4,
    ensures
        timestamp_of(secs, nsec).secs * 1_000_000_000 + timestamp_of(secs, nsec).nanos == secs
            * 1_000_000_000 + nsec,
        0 <= timestamp_of(secs, nsec).nanos < 1_000_000_000,
        nsec < 1_000_000_000 ==> timestamp_of(secs, nsec).secs == secs && timestamp_of(
            secs,
            nsec,
        ).nanos == nsec,
{
}

/// The attributes of an examined file are its own: each equals the field of the same name, as
/// far as the kernel's field is wide enough; wider numbers keep their low bits.
pub proof fn law_stat_attributes_are_the_files(ino: u64, s: FileStat)
    requires
        s.in_range(),
    ensures
        attr_of_stat(ino, s).ino == ino,
        attr_of_stat(ino, s).uid == s.uid,
        attr_of_stat(ino, s).gid == s.gid,
        s.size >= 0 ==> attr_of_stat(ino, s).size == s.size,
        s.blocks >= 0 ==> attr_of_stat(ino, s).blocks == s.blocks,
        attr_of_stat(ino, s).nlink == s.nlink % 0x1_0000_0000,
        attr_of_stat(ino, s).rdev == s.rdev % 0x1_0000_0000,
        0 <= s.blksize <= u32::MAX ==> attr_of_stat(ino, s).blksize == s.blksize,
        attr_of_stat(ino, s).perm == s.mode & 0o7777,
        attr_of_stat(ino, s).kind == FileType::Directory <==> s.mode & 0o170000 == 0o040000,
        attr_of_stat(ino, s).kind == FileType::Symlink <==> s.mode & 0o170000 == 0o120000,
        s.mode & 0o170000 == 0o100000 ==> attr_of_stat(ino, s).kind == FileType::RegularFile,
        0 <= s.atime_nsec < 1_000_000_000 ==> attr_of_stat(ino, s).atime.secs == s.atime
            && attr_of_stat(ino, s).atime.nanos == s.atime_nsec,
        0 <= s.mtime_nsec < 1_000_000_000 ==> attr_of_stat(ino, s).mtime.secs == s.mtime
            && attr_of_stat(ino, s).mtime.nanos == s.mtime_nsec,
        0 <= s.ctime_nsec < 1_000_000_000 ==> attr_of_stat(ino, s).ctime.secs == s.ctime
            && attr_of_stat(ino, s).ctime.nanos == s.ctime_nsec,
        0 <= s.atime_nsec <= u32::MAX ==> attr_of_stat(ino, s).atime.secs * 1_000_000_000
            + attr_of_stat(ino, s).atime.nanos == s.atime * 1_000_000_000 + s.atime_nsec,
        0 <= s.mtime_nsec <= u32::MAX ==> attr_of_stat(ino, s).mtime.secs * 1_000_000_000
            + attr_of_stat(ino, s).mtime.nanos == s.mtime * 1_000_000_000 + s.mtime_nsec,
        0 <= s.ctime_nsec <= u32::MAX ==> attr_of_stat(ino, s).ctime.secs * 1_000_000_000
            + attr_of_stat(ino, s).ctime.nanos == s.ctime * 1_000_000_000 + s.ctime_nsec,
{
    let mode = s.mode;
    let nlink = s.nlink;
    let rdev = s.rdev;
    assert(mode & 0o7777 <= 0o7777) by (bit_vector);
    assert(nlink as u32 == nlink % 0x1_0000_0000) by (bit_vector);
    assert(rdev as u32 == rdev % 0x1_0000_0000) by (bit_vector);
}

/// The attributes of a cached file are those that were recorded for its source: each equals the
/// field of the same name. Times before the epoch are taken for the epoch.
pub proof fn law_recorded_attributes_are_the_sources(ino: u64, m: SourceMetadata)
    requires
        m.in_range(),
    ensures
        attr_of_source(ino, m).ino == ino,
        attr_of_source(ino, m).uid == m.uid,
        attr_of_source(ino, m).gid == m.gid,
        attr_of_source(ino, m).size == m.size,
        attr_of_source(ino, m).blocks == m.blocks,
        attr_of_source(ino, m).blksize == m.blksize,
        attr_of_source(ino, m).nlink == m.nlink % 0x1_0000_0000,
        attr_of_source(ino, m).rdev == m.rdev % 0x1_0000_0000,
        attr_of_source(ino, m).perm == m.mode & 0o7777,
        attr_of_source(ino, m).kind == FileType::RegularFile,
        m.atime_sec >= 0 && 0 <= m.atime_nsec <= u32::MAX ==> attr_of_source(ino, m).atime.secs
            * 1_000_000_000 + attr_of_source(ino, m).atime.nanos == m.atime_sec * 1_000_000_000
            + m.atime_nsec,
        m.mtime_sec >= 0 && 0 <= m.mtime_nsec <= u32::MAX ==> attr_of_source(ino, m).mtime.secs
            * 1_000_000_000 + attr_of_source(ino, m).mtime.nanos == m.mtime_sec * 1_000_000_000
            + m.mtime_nsec,
        m.ctime_sec >= 0 && 0 <= m.ctime_nsec <= u32::MAX ==> attr_of_source(ino, m).ctime.secs
            * 1_000_000_000 + attr_of_source(ino, m).ctime.nanos == m.ctime_sec * 1_000_000_000
            + m.ctime_nsec,
        0 <= m.atime_nsec < 1_000_000_000 ==> attr_of_source(ino, m).atime.nanos == m.atime_nsec
            && attr_of_source(ino, m).atime.secs == (if m.atime_sec < 0 {
            0
        } else {
            m.atime_sec as int
        }),
        0 <= m.mtime_nsec < 1_000_000_000 ==> attr_of_source(ino, m).mtime.nanos == m.mtime_nsec
            && attr_of_source(ino, m).mtime.secs == (if m.mtime_sec < 0 {
            0
        } else {
            m.mtime_sec as int
        }),
        0 <= m.ctime_nsec < 1_000_000_000 ==> attr_of_source(ino, m).ctime.nanos == m.ctime_nsec
            && attr_of_source(ino, m).ctime.secs == (if m.ctime_sec < 0 {
            0
        } else {
            m.ctime_sec as int
        }),
        m.atime_nsec < 0 ==> attr_of_source(ino, m).atime.nanos == 0,
        m.mtime_nsec < 0 ==> attr_of_source(ino, m).mtime.nanos == 0,
        m.ctime_nsec < 0 ==> attr_of_source(ino, m).ctime.nanos == 0,
{
    let mode = m.mode;
    let nlink = m.nlink;
    let rdev = m.rdev;
    assert(mode & 0o7777 <= 0o7777) by (bit_vector);
    assert(nlink as u32 == nlink % 0x1_0000_0000) by (bit_vector);
    assert(rdev as u32 == rdev % 0x1_0000_0000) by (bit_vector);
}

/// A cached file shows the same attributes as its source did when it was recorded: what was
/// recorded field by field from an examination of a regular file gives the attributes that the
/// examination itself gives.
pub proof fn law_cached_file_looks_like_its_source(ino: u64, s: FileStat, m: SourceMetadata)
    requires
        s.in_range(),
        s.mode & 0o170000 == 0o100000,
        0 <= s.size,
        0 <= s.blocks,
        0 <= s.blksize <= u32::MAX,
        0 <= s.atime_nsec,
        0 <= s.mtime_nsec,
        0 <= s.ctime_nsec,
        m.mode == s.mode,
        m.size == s.size,
        m.blocks == s.blocks,
        m.atime_sec == s.atime,
        m.atime_nsec == s.atime_nsec,
        m.mtime_sec == s.mtime,
        m.mtime_nsec == s.mtime_nsec,
        m.ctime_sec == s.ctime,
        m.ctime_nsec == s.ctime_nsec,
        m.nlink == s.nlink,
        m.uid == s.uid,
        m.gid == s.gid,
        m.rdev == s.rdev,
        m.blksize == s.blksize,
    ensures
        attr_of_source(ino, m) == attr_of_stat(ino, s),
{
}

/// The times that can be represented lie between the epoch and four seconds before the end of
/// the clock.
pub proof fn law_representable_times(s: FileStat, m: SourceMetadata)
    ensures
        s.in_range() <==> 0 <= s.atime <= 0x7fff_ffff_ffff_fffb && 0 <= s.mtime
            <= 0x7fff_ffff_ffff_fffb && 0 <= s.ctime <= 0x7fff_ffff_ffff_fffb,
        m.in_range() <==> m.atime_sec <= 0x7fff_ffff_ffff_fffb && m.mtime_sec
            <= 0x7fff_ffff_ffff_fffb && m.ctime_sec <= 0x7fff_ffff_ffff_fffb,
{
}

} // verus!
