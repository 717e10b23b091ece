//! Paths and error numbers at the system call boundary.

use crate::text;
use vstd::prelude::*;

verus! {

/// Input/output error.
pub const EIO: i32 = 5;

/// `bytes` without one leading slash.
pub open spec fn without_leading_slash(bytes: Seq<u8>) -> Seq<u8> {
    if bytes.len() > 0 && bytes[0] == 0x2f {
        bytes.skip(1)
    } else {
        bytes
    }
}

/// Whether `bytes` can be handed to a system call as a path.
pub open spec fn free_of_nul(bytes: Seq<u8>) -> bool {
    !bytes.contains(0u8)
}

fn has_nul(bytes: &[u8]) -> (r: bool)
    ensures
        r == !free_of_nul(bytes@),
{
    let mut i: usize = 0;
    while i < bytes.len()
        invariant
            i <= bytes.len(),
            forall|k: int| 0 <= k < i ==> bytes@[k] != 0u8,
        decreases bytes.len() - i,
    {
        if bytes[i] == 0 {
            assert(bytes@.contains(0u8));
            return true;
        }
        i = i + 1;
    }
    false
}

/// The path to hand to a system call for a path below the backing directory. One that holds a
/// NUL byte cannot be expressed and stands for the directory itself.
pub fn rel_to_cstring(rel: &[u8]) -> (r: Vec<u8>)
    ensures
        r@ == (if free_of_nul(without_leading_slash(rel@)) {
            without_leading_slash(rel@)
        } else {
            seq![0x2eu8]
        }),
        free_of_nul(r@),
{
    let mut out: Vec<u8> = Vec::new();
    let start: usize = if rel.len() > 0 && rel[0] == 0x2f {
        1
    } else {
        0
    };
    let mut i: usize = start;
    assert(out@ =~= rel@.subrange(start as int, i as int));
    while i < rel.len()
        invariant
            start <= i <= rel.len(),
            out@ =~= rel@.subrange(start as int, i as int),
        decreases rel.len() - i,
    {
        out.push(rel[i]);
        i = i + 1;
    }
    assert(out@ =~= without_leading_slash(rel@));
    if has_nul(&out) {
        let mut dot: Vec<u8> = Vec::new();
        dot.push(0x2e);
        assert(dot@ =~= seq![0x2eu8]);
        dot
    } else {
        out
    }
}

/// The path to hand to a system call for a path in the cache. One that holds a NUL byte
/// cannot be expressed and stands for a place that never holds a cached file.
pub fn abs_to_cstring(path: &[u8]) -> (r: Vec<u8>)
    ensures
        r@ == (if free_of_nul(path@) {
            path@
        } else {
            vstd::utf8::encode_utf8("/dev/null"@)
        }),
{
    if has_nul(path) {
        text::bytes_clone("/dev/null".as_bytes())
    } else {
        text::bytes_clone(path)
    }
}

/// A path that must not hold a NUL byte.
pub fn path_to_cstring(path: &[u8]) -> (r: Option<Vec<u8>>)
    ensures
        r matches Some(p) ==> free_of_nul(path@) && p@ == path@,
        r is None <==> !free_of_nul(path@),
{
    if has_nul(path) {
        None
    } else {
        Some(text::bytes_clone(path))
    }
}

/// The error number to reply with: that of the operating system where there is one.
pub fn io_to_errno(raw_os_error: Option<i32>) -> (r: i32)
    ensures
        r == (match raw_os_error {
            Some(e) => e,
            None => EIO,
        }),
{
    match raw_os_error {
        Some(e) => e,
        None => EIO,
    }
}

/// One slash in front is dropped, and nothing else.
pub proof fn law_one_slash_is_dropped(bytes: Seq<u8>)
    ensures
        without_leading_slash(seq![0x2fu8] + bytes) == bytes,
        bytes.len() > 0 && bytes[0] != 0x2f ==> without_leading_slash(bytes) == bytes,
        bytes.len() == 0 ==> without_leading_slash(bytes) == bytes,
{
    let slashed = seq![0x2fu8] + bytes;
    assert(slashed[0] == 0x2f);
    assert(slashed.skip(1) =~= bytes);
}

/// A path can be handed to a system call exactly where none of its bytes is zero.
pub proof fn law_nul_free(bytes: Seq<u8>)
    ensures
        free_of_nul(bytes) <==> forall|i: int| 0 <= i < bytes.len() ==> #[trigger] bytes[i] != 0u8,
{
    if free_of_nul(bytes) {
        assert forall|i: int| 0 <= i < bytes.len() implies #[trigger] bytes[i] != 0u8 by {
            assert(bytes.contains(bytes[i]));
        }
    }
}

} // verus!
