//! Arguments and results of system calls on the backing directory.

use crate::fuse::attr::{S_IFDIR, S_IFMT};
use crate::path;
use crate::text;
use vstd::prelude::*;

verus! {

/// How to examine a path: the backing directory itself is reached through its descriptor
/// alone; other paths by name, without following a final symbolic link.
#[derive(Debug, PartialEq, Eq)]
pub enum StatTarget {
    Descriptor,
    Name(Vec<u8>),
}

/// Chooses how to examine a path below the backing directory.
pub fn stat_target(rel: &[u8]) -> (r: StatTarget)
    ensures
        rel@.len() == 0 <==> r is Descriptor,
        r matches StatTarget::Name(name) ==> name@ == (if crate::fuse::util::free_of_nul(
            crate::fuse::util::without_leading_slash(rel@),
        ) {
            crate::fuse::util::without_leading_slash(rel@)
        } else {
            seq![0x2eu8]
        }),
{
    if rel.len() == 0 {
        StatTarget::Descriptor
    } else {
        StatTarget::Name(crate::fuse::util::rel_to_cstring(rel))
    }
}

/// The name under which a directory is opened for listing: the backing directory itself is
/// ".".
pub fn list_dir_name(rel_dir: &[u8]) -> (r: Vec<u8>)
    ensures
        r@ == (if rel_dir@.len() == 0 || !crate::fuse::util::free_of_nul(
            crate::fuse::util::without_leading_slash(rel_dir@),
        ) {
            seq![0x2eu8]
        } else {
            crate::fuse::util::without_leading_slash(rel_dir@)
        }),
{
    if rel_dir.len() == 0 {
        let mut dot: Vec<u8> = Vec::new();
        dot.push(0x2e);
        assert(dot@ =~= seq![0x2eu8]);
        dot
    } else {
        crate::fuse::util::rel_to_cstring(rel_dir)
    }
}

/// Whether a directory entry is one of the two that every directory holds.
pub open spec fn is_dot_entry(name: Seq<u8>) -> bool {
    name == seq![0x2eu8] || name == seq![0x2eu8, 0x2eu8]
}

/// Tests for "." and "..".
pub fn is_dot_name(name: &[u8]) -> (r: bool)
    ensures
        r == is_dot_entry(name@),
{
    let r = (name.len() == 1 && name[0] == 0x2e) || (name.len() == 2 && name[0] == 0x2e && name[1]
        == 0x2e);
    proof {
        if r {
            if name.len() == 1 {
                assert(name@ =~= seq![0x2eu8]);
            } else {
                assert(name@ =~= seq![0x2eu8, 0x2eu8]);
            }
        }
    }
    r
}

/// The entries of a directory without "." and "..", in the order in which they were read.
pub fn list_dir(raw: &Vec<Vec<u8>>) -> (r: Vec<Vec<u8>>)
    ensures
        text::byte_strings(r@) == text::byte_strings(raw@).filter(
            |name: Seq<u8>| !is_dot_entry(name),
        ),
{
    let ghost keep = |name: Seq<u8>| !is_dot_entry(name);
    let ghost all = text::byte_strings(raw@);
    let mut out: Vec<Vec<u8>> = Vec::new();
    let mut i: usize = 0;
    proof {
        reveal(Seq::filter);
        assert(all.take(0).filter(keep) =~= Seq::<Seq<u8>>::empty());
        assert(text::byte_strings(out@) =~= all.take(0).filter(keep));
    }
    while i < raw.len()
        invariant
            i <= raw.len(),
            all == text::byte_strings(raw@),
            keep == (|name: Seq<u8>| !is_dot_entry(name)),
            text::byte_strings(out@) == all.take(i as int).filter(keep),
        decreases raw.len() - i,
    {
        let name: &Vec<u8> = &raw[i];
        let ghost before = out@;
        proof {
            assert(all.take(i + 1) =~= all.take(i as int).push(name@));
            text::lemma_filter_push(all.take(i as int), name@, keep);
        }
        if !is_dot_name(name) {
            out.push(text::bytes_clone(name));
            assert(text::byte_strings(out@) =~= text::byte_strings(before).push(name@));
        }
        i = i + 1;
    }
    assert(all.take(all.len() as int) =~= all);
    out
}

/// Whether a path is a directory, going by the mode that examining it gave.
pub fn is_dir(mode: Option<u32>) -> (r: bool)
    ensures
        r == (mode is Some && mode->0 & S_IFMT == S_IFDIR),
{
    match mode {
        Some(m) => m & S_IFMT == S_IFDIR,
        None => false,
    }
}

/// The id that tells the system to leave an owner or group as it is.
pub const KEEP_ID: u32 = 0xffff_ffff;

/// The id to hand to the system where one may be left as it is.
pub fn chown_id(id: Option<u32>) -> (r: u32)
    ensures
        r == (match id {
            Some(v) => v,
            None => KEEP_ID,
        }),
{
    match id {
        Some(v) => v,
        None => KEEP_ID,
    }
}

/// The content of an extended attribute buffer after a call that reported `reported` bytes
/// for a buffer of `size` bytes. A size of zero asks for the length only: the answer then
/// holds that many zero bytes.
pub fn xattr_reply(size: u32, buf: Vec<u8>, reported: usize) -> (r: Vec<u8>)
    requires
        size > 0 ==> buf@.len() == size,
    ensures
        size == 0 ==> r@ == Seq::new(reported as nat, |i: int| 0u8),
        size > 0 && reported <= size ==> r@ == buf@.take(reported as int),
        size > 0 && reported > size ==> r@ == buf@,
{
    if size == 0 {
        let mut zeros: Vec<u8> = Vec::new();
        let mut i: usize = 0;
        while i < reported
            invariant
                i <= reported,
                zeros@ =~= Seq::new(i as nat, |k: int| 0u8),
            decreases reported - i,
        {
            zeros.push(0);
            i = i + 1;
        }
        zeros
    } else {
        let mut buf = buf;
        if reported < buf.len() {
            buf.truncate(reported);
        }
        assert(reported >= size ==> buf@ =~= buf@.take(size as int));
        buf
    }
}

/// The path of a file below a directory that is held open as descriptor `fd`. An absolute path
/// stands for itself.
pub fn backing_proc_path(fd: u32, rel: &[u8]) -> (r: Vec<u8>)
    ensures
        r@ == (if path::is_absolute(rel@) {
            rel@
        } else {
            vstd::utf8::encode_utf8("/proc/self/fd/"@) + vstd::utf8::encode_utf8(
                text::decimal(fd as nat),
            ) + seq![0x2fu8] + rel@
        }),
{
    if rel.len() > 0 && rel[0] == 0x2f {
        return text::bytes_clone(rel);
    }
    let mut out = text::bytes_clone("/proc/self/fd/".as_bytes());
    let digits = text::format_decimal(fd as u128);
    append(&mut out, digits.as_str().as_bytes());
    out.push(0x2f);
    append(&mut out, rel);
    assert(out@ =~= vstd::utf8::encode_utf8("/proc/self/fd/"@) + vstd::utf8::encode_utf8(
        text::decimal(fd as nat),
    ) + seq![0x2fu8] + rel@);
    out
}

fn append(out: &mut Vec<u8>, tail: &[u8])
    ensures
        final(out)@ == old(out)@ + tail@,
{
    let ghost start = out@;
    let mut i: usize = 0;
    assert(out@ =~= start + tail@.take(0));
    while i < tail.len()
        invariant
            i <= tail.len(),
            out@ =~= start + tail@.take(i as int),
        decreases tail.len() - i,
    {
        out.push(tail[i]);
        i = i + 1;
    }
    assert(tail@.take(i as int) =~= tail@);
}

/// Which call renames a file: flags need the extended one.
#[derive(Clone, Copy, Debug, PartialEq, Eq, Structural)]
pub enum RenameCall {
    Plain,
    WithFlags(u32),
}

/// Chooses the call that renames a file.
pub fn rename_call(flags: u32) -> (r: RenameCall)
    ensures
        r == (if flags == 0 {
            RenameCall::Plain
        } else {
            RenameCall::WithFlags(flags)
        }),
{
    if flags == 0 {
        RenameCall::Plain
    } else {
        RenameCall::WithFlags(flags)
    }
}

/// Whether a system call that answers with zero on success succeeded.
pub fn syscall_unit(rc: i32, errno: i32) -> (r: Result<(), i32>)
    ensures
        r == (if rc == 0 {
            Ok::<(), i32>(())
        } else {
            Err(errno)
        }),
{
    if rc == 0 {
        Ok(())
    } else {
        Err(errno)
    }
}

} // verus!
