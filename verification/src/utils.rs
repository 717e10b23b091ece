//! Names and checks for cache directories and mount targets.

use crate::path;
use crate::path::{PathView, RelPath};
use crate::text;
use std::collections::hash_map::DefaultHasher;
use std::hash::Hasher;
use vstd::prelude::*;

verus! {

/// Whether `s` ends in `suffix`.
pub open spec fn has_suffix(s: Seq<char>, suffix: Seq<char>) -> bool {
    suffix.len() <= s.len() && s.skip(s.len() - suffix.len()) == suffix
}

/// Whether a file name belongs to the cache's own bookkeeping: databases, their journals and
/// copies in progress.
pub open spec fn bookkeeping_name(name: Seq<char>) -> bool {
    ||| has_suffix(name, ".partial"@)
    ||| has_suffix(name, ".db"@)
    ||| has_suffix(name, ".db-wal"@)
    ||| has_suffix(name, ".db-shm"@)
}

/// Whether a path belongs to the cache's own bookkeeping. A name that is not valid UTF-8 never
/// does.
pub open spec fn is_bookkeeping(file: PathView) -> bool {
    path::has_name(file) && (text::utf8_text(file.last()) matches Some(name) && bookkeeping_name(
        name,
    ))
}

/// A copy in progress never counts as cached media, whatever its destination is called.
pub proof fn law_partial_copies_do_not_count(name: Seq<char>)
    ensures
        bookkeeping_name(name + ".partial"@),
{
    let whole = name + ".partial"@;
    assert(whole.skip(whole.len() - ".partial"@.len()) =~= ".partial"@);
}

fn ends_with(s: &Vec<char>, suffix: &str) -> (r: bool)
    ensures
        r == has_suffix(s@, suffix@),
{
    let tail = text::str_chars(suffix);
    if tail.len() > s.len() {
        return false;
    }
    let start: usize = s.len() - tail.len();
    let mut i: usize = 0;
    while i < tail.len()
        invariant
            i <= tail.len(),
            tail@ == suffix@,
            start + tail.len() == s.len(),
            forall|k: int| 0 <= k < i ==> s@[start + k] == tail@[k],
        decreases tail.len() - i,
    {
        if s[start + i] != tail[i] {
            assert(s@.skip(start as int)[i as int] != suffix@[i as int]);
            return false;
        }
        i = i + 1;
    }
    assert(s@.skip(start as int) =~= suffix@);
    true
}

/// Returns true for files that do not count as cached media: database files, write-ahead and
/// shared-memory journals, and `.partial` copies in progress. A name that is not valid UTF-8
/// always counts as media.
pub fn is_non_media_file(file: &RelPath) -> (r: bool)
    ensures
        r == is_bookkeeping(file@),
{
    match file.file_name() {
        None => false,
        Some(bytes) => match text::utf8_checked(bytes) {
            None => false,
            Some(name) => {
                let chars = text::str_chars(name.as_str());
                ends_with(&chars, ".partial") || ends_with(&chars, ".db") || ends_with(
                    &chars,
                    ".db-wal",
                ) || ends_with(&chars, ".db-shm")
            },
        },
    }
}

/// Whether `c` is an ASCII letter or digit.
pub open spec fn is_alphanumeric(c: char) -> bool {
    ('0' <= c && c <= '9') || ('a' <= c && c <= 'z') || ('A' <= c && c <= 'Z')
}

/// Letters and digits as they are, everything else as a dash.
pub open spec fn slug_char(c: char) -> char {
    if is_alphanumeric(c) {
        c
    } else {
        '-'
    }
}

/// The runs of letters and digits in `target`, joined by single dashes.
pub open spec fn slug(target: Seq<char>) -> Seq<char> {
    text::join_with(
        text::split_at_sep(target.map_values(|c: char| slug_char(c)), '-').filter(
            |piece: Seq<char>| piece.len() > 0,
        ),
        seq!['-'],
    )
}

/// Name of the cache subdirectory: the slug of the target and eight hexadecimal digits.
pub open spec fn cache_name(target: Seq<char>, hash: u32) -> Seq<char> {
    slug(target) + seq!['-'] + text::hex_digits(hash as nat, 8)
}

fn make_slug(target: &str) -> (r: String)
    ensures
        r@ == slug(target@),
{
    let chars = text::str_chars(target);
    let ghost mapped = target@.map_values(|c: char| slug_char(c));
    let ghost keep = |piece: Seq<char>| piece.len() > 0;
    let ghost mut done: Seq<Seq<char>> = Seq::empty();
    let mut out = String::new();
    let mut cur: Vec<char> = Vec::new();
    let mut i: usize = 0;
    proof {
        reveal(Seq::filter);
        assert(mapped.take(0) =~= Seq::<char>::empty());
        assert(text::split_at_sep(mapped.take(0), '-') =~= done.push(cur@));
        assert(done.filter(keep) =~= Seq::<Seq<char>>::empty());
    }
    while i < chars.len()
        invariant
            i <= chars.len(),
            chars@ == target@,
            mapped == target@.map_values(|c: char| slug_char(c)),
            keep == (|piece: Seq<char>| piece.len() > 0),
            text::split_at_sep(mapped.take(i as int), '-') == done.push(cur@),
            out@ == text::join_with(done.filter(keep), seq!['-']),
            done.filter(keep).len() == 0 <==> out@.len() == 0,
        decreases chars.len() - i,
    {
        let c: char = chars[i];
        let alnum = ('0' <= c && c <= '9') || ('a' <= c && c <= 'z') || ('A' <= c && c <= 'Z');
        proof {
            assert(mapped.take(i + 1).drop_last() =~= mapped.take(i as int));
            assert(mapped.take(i + 1).last() == slug_char(c));
        }
        let ghost all = done.push(cur@);
        if alnum {
            let ghost before = cur@;
            cur.push(c);
            assert(all.update(all.len() - 1, all.last().push(c)) =~= done.push(cur@));
        } else {
            flush_piece(&mut out, &cur, Ghost(done));
            proof {
                assert(all.push(Seq::<char>::empty()) =~= done.push(cur@).push(
                    Seq::<char>::empty(),
                ));
                done = done.push(cur@);
            }
            cur = Vec::new();
        }
        i = i + 1;
    }
    flush_piece(&mut out, &cur, Ghost(done));
    assert(mapped.take(mapped.len() as int) =~= mapped);
    out
}

fn flush_piece(out: &mut String, piece: &Vec<char>, Ghost(done): Ghost<Seq<Seq<char>>>)
    requires
        old(out)@ == text::join_with(
            done.filter(|piece: Seq<char>| piece.len() > 0),
            seq!['-'],
        ),
        done.filter(|piece: Seq<char>| piece.len() > 0).len() == 0 <==> old(out)@.len() == 0,
    ensures
        final(out)@ == text::join_with(
            done.push(piece@).filter(|piece: Seq<char>| piece.len() > 0),
            seq!['-'],
        ),
        done.push(piece@).filter(|piece: Seq<char>| piece.len() > 0).len() == 0
            <==> final(out)@.len() == 0,
{
    let ghost keep = |piece: Seq<char>| piece.len() > 0;
    proof {
        text::lemma_filter_push(done, piece@, keep);
    }
    if piece.len() > 0 {
        let ghost kept = done.filter(keep);
        let first = out.as_str().is_empty();
        if !first {
            out.push('-');
        }
        let tail = text::string_of(piece);
        text::push_text(out, tail.as_str());
        proof {
            let all = kept.push(piece@);
            assert(all.drop_last() =~= kept);
            if kept.len() == 0 {
                assert(out@ =~= piece@);
            } else {
                assert(out@ =~= text::join_with(kept, seq!['-']) + seq!['-'] + piece@);
            }
        }
    }
}

/// The cache subdirectory of a target, given the hash that tells its path from others with
/// one slug.
pub fn cache_name_with_hash(target: &str, hash: u32) -> (r: String)
    ensures
        r@ == cache_name(target@, hash),
{
    let mut out = make_slug(target);
    out.push('-');
    let digits = text::format_hex(hash as u64, 8);
    text::push_text(&mut out, digits.as_str());
    assert(out@ =~= cache_name(target@, hash));
    out
}

/// Whether `pieces` are what the `Hash` impl of `std::path::Path` writes to a hasher for a path,
/// on one machine or another.
pub uninterp spec fn writes_for_path(target: Seq<char>, pieces: Seq<Seq<u8>>) -> bool;

/// The `Hash` impl of `std::path::Path` feeds a path to a hasher: what was written before stays,
/// and what it adds is something that it writes for this path. What that is, and that it is one
/// thing for one path, is left unsaid: it differs between platforms and versions of the standard
/// library.
#[verifier::external_body]
fn hash_path(target: &str, hasher: &mut DefaultHasher)
    ensures
        old(hasher)@.is_prefix_of(final(hasher)@),
        writes_for_path(target@, final(hasher)@.skip(old(hasher)@.len() as int)),
{
    std::hash::Hash::hash(std::path::Path::new(target), hasher)
}

/// The cache subdirectory of a target, given what was written to the hasher that tells its
/// path from others with one slug.
pub open spec fn hashed_name(target: Seq<char>, written: Seq<Seq<u8>>) -> Seq<char> {
    cache_name(
        target,
        <DefaultHasher as vstd::std_specs::hash::DefaultHasherAdditionalSpecFns>::spec_finish(
            written,
        ) as u32,
    )
}

/// Derives a readable cache subdirectory name for a target path: a dash-separated slug of the
/// full path and an eight-digit hash, so that targets that share a basename do not share a
/// name. The digits are the low half of what a fresh hasher makes of what the standard library
/// writes to it for the path.
///
/// Example: `/mnt/a/media` gives `mnt-a-media-` and eight digits.
pub fn mount_cache_name(target: &str) -> (r: String)
    ensures
        exists|written: Seq<Seq<u8>>|
            writes_for_path(target@, written) && r@ == #[trigger] hashed_name(target@, written),
{
    let mut hasher = DefaultHasher::new();
    hash_path(target, &mut hasher);
    let hash: u32 = hasher.finish() as u32;
    let name = cache_name_with_hash(target, hash);
    proof {
        assert(hasher@.skip(0) =~= hasher@);
        assert(name@ == hashed_name(target@, hasher@));
    }
    name
}

/// Cache names are equal where both the slugs and the hashes are, and only there: a target has
/// one name for one hash of its path, and targets with one slug share a name only where the
/// hashes collide as well.
pub proof fn law_cache_names_differ(a: Seq<char>, x: u32, b: Seq<char>, y: u32)
    ensures
        cache_name(a, x) == cache_name(b, y) <==> slug(a) == slug(b) && x == y,
{
    if cache_name(a, x) == cache_name(b, y) {
        lemma_cache_name_parts(a, x, b, y);
    }
}

/// A cache name is a single path component: at least nine letters, digits and dashes. The
/// directories of different names below one place therefore lie side by side.
pub proof fn law_cache_name_is_one_component(target: Seq<char>, hash: u32)
    ensures
        cache_name(target, hash).len() >= 9,
        forall|k: int|
            0 <= k < cache_name(target, hash).len() ==> is_name_char(
                #[trigger] cache_name(target, hash)[k],
            ),
{
    let ok = |c: char| is_name_char(c);
    let mapped = target.map_values(|c: char| slug_char(c));
    let keep = |piece: Seq<char>| piece.len() > 0;
    let pieces = text::split_at_sep(mapped, '-');
    lemma_split_chars(mapped, '-', ok);
    lemma_filter_chars(pieces, keep, ok);
    lemma_join_chars(pieces.filter(keep), ok);
    text::lemma_hex_len(hash as nat, 8);
    lemma_hex_chars(hash as nat, 8);
    let name = cache_name(target, hash);
    assert forall|k: int| 0 <= k < name.len() implies is_name_char(#[trigger] name[k]) by {
        let n = slug(target).len();
        if k < n {
            assert(ok(slug(target)[k]));
        } else if k > n {
            assert(name[k] == text::hex_digits(hash as nat, 8)[k - n - 1]);
        }
    }
}

/// Whether `c` may occur in a cache name.
pub open spec fn is_name_char(c: char) -> bool {
    is_alphanumeric(c) || c == '-'
}

/// Whether all characters of `s` are in order.
spec fn all_chars(s: Seq<char>, ok: spec_fn(char) -> bool) -> bool {
    forall|k: int| 0 <= k < s.len() ==> #[trigger] ok(s[k])
}

proof fn lemma_split_chars(s: Seq<char>, sep: char, ok: spec_fn(char) -> bool)
    requires
        all_chars(s, ok),
    ensures
        forall|i: int|
            0 <= i < text::split_at_sep(s, sep).len() ==> all_chars(
                #[trigger] text::split_at_sep(s, sep)[i],
                ok,
            ),
    decreases s.len(),
{
    if s.len() > 0 {
        text::lemma_split_nonempty(s.drop_last(), sep);
        assert(all_chars(s.drop_last(), ok)) by {
            assert forall|k: int| 0 <= k < s.drop_last().len() implies #[trigger] ok(
                s.drop_last()[k],
            ) by {
                assert(ok(s[k]));
            }
        }
        lemma_split_chars(s.drop_last(), sep, ok);
        assert(ok(s[s.len() - 1]));
        let init = text::split_at_sep(s.drop_last(), sep);
        assert(all_chars(init[init.len() - 1], ok));
    }
}

proof fn lemma_filter_chars(
    pieces: Seq<Seq<char>>,
    keep: spec_fn(Seq<char>) -> bool,
    ok: spec_fn(char) -> bool,
)
    requires
        forall|i: int| 0 <= i < pieces.len() ==> all_chars(#[trigger] pieces[i], ok),
    ensures
        forall|i: int|
            0 <= i < pieces.filter(keep).len() ==> all_chars(#[trigger] pieces.filter(keep)[i], ok),
    decreases pieces.len(),
{
    reveal(Seq::filter);
    if pieces.len() > 0 {
        assert(all_chars(pieces[pieces.len() - 1], ok));
        assert forall|i: int| 0 <= i < pieces.drop_last().len() implies all_chars(
            #[trigger] pieces.drop_last()[i],
            ok,
        ) by {
            assert(pieces.drop_last()[i] == pieces[i]);
        }
        lemma_filter_chars(pieces.drop_last(), keep, ok);
        let init = pieces.drop_last().filter(keep);
        assert(pieces.filter(keep) == if keep(pieces.last()) {
            init.push(pieces.last())
        } else {
            init
        });
        assert forall|i: int| 0 <= i < pieces.filter(keep).len() implies all_chars(
            #[trigger] pieces.filter(keep)[i],
            ok,
        ) by {
            if i < init.len() {
                assert(all_chars(init[i], ok));
            }
        }
    }
}

proof fn lemma_join_chars(pieces: Seq<Seq<char>>, ok: spec_fn(char) -> bool)
    requires
        forall|i: int| 0 <= i < pieces.len() ==> all_chars(#[trigger] pieces[i], ok),
        ok('-'),
    ensures
        all_chars(text::join_with(pieces, seq!['-']), ok),
    decreases pieces.len(),
{
    if pieces.len() > 0 {
        assert(all_chars(pieces[pieces.len() - 1], ok));
    }
    if pieces.len() > 1 {
        assert forall|i: int| 0 <= i < pieces.drop_last().len() implies all_chars(
            #[trigger] pieces.drop_last()[i],
            ok,
        ) by {
            assert(pieces.drop_last()[i] == pieces[i]);
        }
        lemma_join_chars(pieces.drop_last(), ok);
        let head = text::join_with(pieces.drop_last(), seq!['-']);
        let whole = text::join_with(pieces, seq!['-']);
        assert forall|k: int| 0 <= k < whole.len() implies #[trigger] ok(whole[k]) by {
            if k < head.len() {
                assert(ok(head[k]));
            } else if k > head.len() {
                assert(ok(pieces.last()[k - head.len() - 1]));
            }
        }
    }
}

proof fn lemma_hex_chars(n: nat, width: nat)
    ensures
        forall|k: int|
            0 <= k < text::hex_digits(n, width).len() ==> is_alphanumeric(
                #[trigger] text::hex_digits(n, width)[k],
            ),
    decreases width,
{
    if width > 0 {
        lemma_hex_chars(n / 16, (width - 1) as nat);
        let init = text::hex_digits(n / 16, (width - 1) as nat);
        assert(is_alphanumeric(text::hex_char(n % 16)));
        assert forall|k: int| 0 <= k < text::hex_digits(n, width).len() implies is_alphanumeric(
            #[trigger] text::hex_digits(n, width)[k],
        ) by {
            if k < init.len() {
                assert(is_alphanumeric(init[k]));
            }
        }
    }
}

proof fn lemma_cache_name_parts(a: Seq<char>, x: u32, b: Seq<char>, y: u32)
    requires
        cache_name(a, x) == cache_name(b, y),
    ensures
        slug(a) == slug(b),
        x == y,
{
    let p = cache_name(a, x);
    let hx = text::hex_digits(x as nat, 8);
    let hy = text::hex_digits(y as nat, 8);
    text::lemma_hex_len(x as nat, 8);
    text::lemma_hex_len(y as nat, 8);
    assert(p.skip(p.len() - 8) =~= hx);
    assert(p.skip(p.len() - 8) =~= hy);
    assert(p.take(p.len() - 9) =~= slug(a));
    assert(cache_name(b, y).take(p.len() - 9) =~= slug(b));
    assert(vstd::arithmetic::power::pow(16, 8) == 0x1_0000_0000) by {
        reveal_with_fuel(vstd::arithmetic::power::pow, 9);
    }
    text::lemma_hex_injective(x as nat, y as nat, 8);
}

/// What was found out about one configured target directory.
pub struct TargetCheck {
    /// The path as configured.
    pub display: String,
    pub exists: bool,
    /// The resolved path, or the configured one where it could not be resolved.
    pub canonical: RelPath,
}

impl TargetCheck {
    /// Whether two targets are one directory.
    pub open spec fn same_place(self, other: TargetCheck) -> bool {
        self.canonical@ == other.canonical@
    }
}

/// What is wrong with the configured targets. The number is the position of the target.
#[derive(Clone, Copy, Debug, PartialEq, Eq, Structural)]
pub enum TargetError {
    Empty,
    Missing { index: usize },
    Duplicate { index: usize },
}

/// Whether target `i` repeats an earlier one.
pub open spec fn repeats(targets: Seq<TargetCheck>, i: int) -> bool {
    exists|j: int| 0 <= j < i && (#[trigger] targets[j]).same_place(targets[i])
}

/// Whether target `i` is in order.
pub open spec fn target_ok(targets: Seq<TargetCheck>, i: int) -> bool {
    targets[i].exists && !repeats(targets, i)
}

/// Checks the configured targets: there must be one, all must exist, and none may occur
/// twice. The first offence in order is reported.
pub fn validate_targets(targets: &Vec<TargetCheck>) -> (r: Result<(), TargetError>)
    ensures
        r is Ok <==> targets@.len() > 0 && forall|i: int|
            0 <= i < targets@.len() ==> #[trigger] target_ok(targets@, i),
        match r {
            Ok(_) => true,
            Err(TargetError::Empty) => targets@.len() == 0,
            Err(TargetError::Missing { index }) => index < targets@.len()
                && !targets@[index as int].exists && forall|i: int|
                0 <= i < index ==> #[trigger] target_ok(targets@, i),
            Err(TargetError::Duplicate { index }) => index < targets@.len()
                && targets@[index as int].exists && repeats(targets@, index as int) && forall|
                i: int,
            | 0 <= i < index ==> #[trigger] target_ok(targets@, i),
        },
{
    if targets.len() == 0 {
        return Err(TargetError::Empty);
    }
    let mut i: usize = 0;
    while i < targets.len()
        invariant
            i <= targets.len(),
            forall|k: int| 0 <= k < i ==> #[trigger] target_ok(targets@, k),
        decreases targets.len() - i,
    {
        if !targets[i].exists {
            assert(!target_ok(targets@, i as int));
            return Err(TargetError::Missing { index: i });
        }
        let mut j: usize = 0;
        while j < i
            invariant
                j <= i < targets.len(),
                targets@[i as int].exists,
                forall|k: int| 0 <= k < i ==> #[trigger] target_ok(targets@, k),
                forall|k: int| 0 <= k < j ==> !(#[trigger] targets@[k]).same_place(
                    targets@[i as int],
                ),
            decreases i - j,
        {
            if targets[j].canonical.same_as(&targets[i].canonical) {
                assert(targets@[j as int].same_place(targets@[i as int]));
                assert(!target_ok(targets@, i as int));
                return Err(TargetError::Duplicate { index: i });
            }
            j = j + 1;
        }
        i = i + 1;
    }
    Ok(())
}

/// The message for a target error.
pub fn target_error_message(targets: &Vec<TargetCheck>, error: TargetError) -> (r: String)
    requires
        error matches TargetError::Missing { index } ==> index < targets@.len(),
        error matches TargetError::Duplicate { index } ==> index < targets@.len(),
    ensures
        r@ == (match error {
            TargetError::Empty => "target_directories is empty — add at least one path"@,
            TargetError::Missing { index } => "target_directory does not exist: "@
                + targets@[index as int].display@,
            TargetError::Duplicate { index } => "duplicate target_directory: "@
                + targets@[index as int].display@,
        }),
{
    match error {
        TargetError::Empty => "target_directories is empty — add at least one path".to_owned(),
        TargetError::Missing { index } => text::concat2(
            "target_directory does not exist: ",
            targets[index].display.as_str(),
        ),
        TargetError::Duplicate { index } => text::concat2(
            "duplicate target_directory: ",
            targets[index].display.as_str(),
        ),
    }
}

/// Where a file that ships with the program was found.
#[derive(Clone, Copy, Debug, PartialEq, Eq, Structural)]
pub enum NearBinary {
    BesideBinary,
    CurrentDirectory,
    NotFound,
}

/// Chooses between a file next to the binary and one in the current directory; the first
/// wins.
pub fn find_file_near_binary(beside_binary: bool, in_current_dir: bool) -> (r: NearBinary)
    ensures
        r == (if beside_binary {
            NearBinary::BesideBinary
        } else if in_current_dir {
            NearBinary::CurrentDirectory
        } else {
            NearBinary::NotFound
        }),
{
    if beside_binary {
        NearBinary::BesideBinary
    } else if in_current_dir {
        NearBinary::CurrentDirectory
    } else {
        NearBinary::NotFound
    }
}

/// A name belongs to the bookkeeping exactly where it is some name with one of four endings.
pub proof fn law_bookkeeping_goes_by_ending(name: Seq<char>, base: Seq<char>)
    ensures
        bookkeeping_name(base + ".partial"@),
        bookkeeping_name(base + ".db"@),
        bookkeeping_name(base + ".db-wal"@),
        bookkeeping_name(base + ".db-shm"@),
        bookkeeping_name(name) ==> exists|front: Seq<char>|
            name == #[trigger] (front + ".partial"@) || name == front + ".db"@ || name == front
                + ".db-wal"@ || name == front + ".db-shm"@,
{
    lemma_suffix(base, ".partial"@);
    lemma_suffix(base, ".db"@);
    lemma_suffix(base, ".db-wal"@);
    lemma_suffix(base, ".db-shm"@);
    if bookkeeping_name(name) {
        let suffix = if has_suffix(name, ".partial"@) {
            ".partial"@
        } else if has_suffix(name, ".db"@) {
            ".db"@
        } else if has_suffix(name, ".db-wal"@) {
            ".db-wal"@
        } else {
            ".db-shm"@
        };
        let front = name.take(name.len() - suffix.len());
        assert(name =~= front + suffix);
        assert(name == front + ".partial"@ || name == front + ".db"@ || name == front + ".db-wal"@
            || name == front + ".db-shm"@);
    }
}

proof fn lemma_suffix(base: Seq<char>, suffix: Seq<char>)
    ensures
        has_suffix(base + suffix, suffix),
{
    let whole = base + suffix;
    assert(whole.skip(whole.len() - suffix.len()) =~= suffix);
}

/// A target is in order exactly where it exists and lies at another place than every target
/// before it.
pub proof fn law_targets_exist_once(targets: Seq<TargetCheck>, i: int)
    requires
        0 <= i < targets.len(),
    ensures
        target_ok(targets, i) <==> targets[i].exists && forall|j: int|
            0 <= j < i ==> (#[trigger] targets[j]).canonical@ != targets[i].canonical@,
{
    if target_ok(targets, i) {
        assert forall|j: int| 0 <= j < i implies (#[trigger] targets[j]).canonical@
            != targets[i].canonical@ by {
            if targets[j].canonical@ == targets[i].canonical@ {
                assert(targets[j].same_place(targets[i]));
            }
        }
    } else if targets[i].exists {
        let j = choose|j: int| 0 <= j < i && (#[trigger] targets[j]).same_place(targets[i]);
        assert(targets[j].canonical@ == targets[i].canonical@);
    }
}

/// All pieces behind one another.
spec fn flat(pieces: Seq<Seq<char>>) -> Seq<char>
    decreases pieces.len(),
{
    if pieces.len() == 0 {
        Seq::empty()
    } else {
        flat(pieces.drop_last()) + pieces.last()
    }
}

proof fn lemma_flat_split(s: Seq<char>, keep: spec_fn(char) -> bool)
    requires
        keep == (|c: char| c != '-'),
    ensures
        flat(text::split_at_sep(s, '-')) == s.filter(keep),
    decreases s.len(),
{
    let pieces = text::split_at_sep(s, '-');
    reveal(Seq::filter);
    if s.len() == 0 {
        assert(pieces.drop_last() =~= Seq::<Seq<char>>::empty());
        assert(flat(pieces.drop_last()) =~= Seq::<char>::empty());
        assert(flat(pieces) =~= s.filter(keep));
    } else {
        let init = text::split_at_sep(s.drop_last(), '-');
        lemma_flat_split(s.drop_last(), keep);
        text::lemma_split_nonempty(s.drop_last(), '-');
        text::lemma_filter_push(s.drop_last(), s.last(), keep);
        assert(s.drop_last().push(s.last()) =~= s);
        if s.last() == '-' {
            assert(pieces.drop_last() =~= init);
            assert(flat(pieces) =~= flat(init));
        } else {
            assert(pieces.drop_last() =~= init.drop_last());
            assert(flat(pieces) =~= flat(init).push(s.last()));
        }
    }
}

proof fn lemma_flat_filter(pieces: Seq<Seq<char>>, full: spec_fn(Seq<char>) -> bool)
    requires
        full == (|piece: Seq<char>| piece.len() > 0),
    ensures
        flat(pieces.filter(full)) == flat(pieces),
    decreases pieces.len(),
{
    reveal(Seq::filter);
    if pieces.len() > 0 {
        let init = pieces.drop_last();
        lemma_flat_filter(init, full);
        text::lemma_filter_push(init, pieces.last(), full);
        assert(init.push(pieces.last()) =~= pieces);
        if full(pieces.last()) {
            let f = init.filter(full);
            assert(f.push(pieces.last()).drop_last() =~= f);
        } else {
            assert(flat(pieces) =~= flat(init));
        }
    }
}

proof fn lemma_filter_concat(a: Seq<char>, b: Seq<char>, keep: spec_fn(char) -> bool)
    ensures
        (a + b).filter(keep) == a.filter(keep) + b.filter(keep),
    decreases b.len(),
{
    reveal(Seq::filter);
    if b.len() == 0 {
        assert(a + b =~= a);
        assert(a.filter(keep) + b.filter(keep) =~= a.filter(keep));
    } else {
        lemma_filter_concat(a, b.drop_last(), keep);
        text::lemma_filter_push(a + b.drop_last(), b.last(), keep);
        text::lemma_filter_push(b.drop_last(), b.last(), keep);
        assert((a + b.drop_last()).push(b.last()) =~= a + b);
        assert(b.drop_last().push(b.last()) =~= b);
        assert((a + b).filter(keep) =~= a.filter(keep) + b.filter(keep));
    }
}

proof fn lemma_join_flat(pieces: Seq<Seq<char>>, keep: spec_fn(char) -> bool)
    requires
        keep == (|c: char| c != '-'),
        forall|i: int| 0 <= i < pieces.len() ==> !(#[trigger] pieces[i]).contains('-'),
    ensures
        text::join_with(pieces, seq!['-']).filter(keep) == flat(pieces),
    decreases pieces.len(),
{
    reveal(Seq::filter);
    if pieces.len() == 0 {
        assert(text::join_with(pieces, seq!['-']).filter(keep) =~= flat(pieces));
    } else {
        let last = pieces.last();
        assert(!pieces[pieces.len() - 1].contains('-'));
        assert forall|i: int| 0 <= i < last.len() implies keep(#[trigger] last[i]) by {
            assert(last.contains(last[i]));
        }
        path::lemma_filter_keeps_all(last, keep);
        let init = pieces.drop_last();
        assert forall|i: int| 0 <= i < init.len() implies !(#[trigger] init[i]).contains('-') by {
            assert(init[i] == pieces[i]);
        }
        if pieces.len() == 1 {
            assert(flat(init) =~= Seq::<char>::empty());
            assert(flat(pieces) =~= last);
        } else {
            lemma_join_flat(init, keep);
            let front = text::join_with(init, seq!['-']);
            let dash = seq!['-'];
            lemma_filter_concat(front + dash, last, keep);
            text::lemma_filter_push(front, '-', keep);
            assert(front.push('-') =~= front + dash);
            assert(text::join_with(pieces, dash) == front + dash + last);
        }
    }
}

/// The letters and digits of a slug are those of its target, all of them and in their order.
pub proof fn law_slug_keeps_letters_and_digits(target: Seq<char>)
    ensures
        slug(target).filter(|c: char| c != '-') == target.filter(
            |c: char|
                ('0' <= c && c <= '9') || ('a' <= c && c <= 'z') || ('A' <= c && c <= 'Z'),
        ),
{
    let keep = |c: char| c != '-';
    let full = |piece: Seq<char>| piece.len() > 0;
    let mapped = target.map_values(|c: char| slug_char(c));
    let pieces = text::split_at_sep(mapped, '-');
    text::lemma_split_pieces_free_of_sep(mapped, '-');
    lemma_flat_split(mapped, keep);
    lemma_flat_filter(pieces, full);
    lemma_kept_pieces_free(pieces, full);
    lemma_join_flat(pieces.filter(full), keep);
    lemma_mapped_filter(target);
}

proof fn lemma_kept_pieces_free(pieces: Seq<Seq<char>>, full: spec_fn(Seq<char>) -> bool)
    requires
        full == (|piece: Seq<char>| piece.len() > 0),
        forall|i: int| 0 <= i < pieces.len() ==> !(#[trigger] pieces[i]).contains('-'),
    ensures
        forall|i: int|
            0 <= i < pieces.filter(full).len() ==> !(#[trigger] pieces.filter(full)[i]).contains(
                '-',
            ) && pieces.filter(full)[i].len() > 0,
    decreases pieces.len(),
{
    reveal(Seq::filter);
    if pieces.len() > 0 {
        let init = pieces.drop_last();
        assert forall|i: int| 0 <= i < init.len() implies !(#[trigger] init[i]).contains('-') by {
            assert(init[i] == pieces[i]);
        }
        lemma_kept_pieces_free(init, full);
        text::lemma_filter_push(init, pieces.last(), full);
        assert(init.push(pieces.last()) =~= pieces);
        assert(!pieces[pieces.len() - 1].contains('-'));
    }
}

proof fn lemma_mapped_filter(target: Seq<char>)
    ensures
        target.map_values(|c: char| slug_char(c)).filter(|c: char| c != '-') == target.filter(
            |c: char|
                ('0' <= c && c <= '9') || ('a' <= c && c <= 'z') || ('A' <= c && c <= 'Z'),
        ),
    decreases target.len(),
{
    let keep = |c: char| c != '-';
    let plain = |c: char|
        ('0' <= c && c <= '9') || ('a' <= c && c <= 'z') || ('A' <= c && c <= 'Z');
    let f = |c: char| slug_char(c);
    reveal(Seq::filter);
    if target.len() == 0 {
        assert(target.map_values(f).filter(keep) =~= target.filter(plain));
    } else {
        let init = target.drop_last();
        lemma_mapped_filter(init);
        assert(target.map_values(f) =~= init.map_values(f).push(f(target.last())));
        assert(init.push(target.last()) =~= target);
        text::lemma_filter_push(init.map_values(f), f(target.last()), keep);
        text::lemma_filter_push(init, target.last(), plain);
    }
}

/// A slug has no dash at its ends and no two dashes next to each other.
pub proof fn law_slug_has_single_dashes(target: Seq<char>, k: int)
    ensures
        slug(target).len() > 0 ==> slug(target)[0] != '-' && slug(target).last() != '-',
        0 <= k < slug(target).len() - 1 ==> slug(target)[k] != '-' || slug(target)[k + 1] != '-',
{
    let full = |piece: Seq<char>| piece.len() > 0;
    let mapped = target.map_values(|c: char| slug_char(c));
    let pieces = text::split_at_sep(mapped, '-');
    text::lemma_split_pieces_free_of_sep(mapped, '-');
    lemma_kept_pieces_free(pieces, full);
    lemma_join_single_dashes(pieces.filter(full), k);
}

proof fn lemma_join_single_dashes(pieces: Seq<Seq<char>>, k: int)
    requires
        forall|i: int|
            0 <= i < pieces.len() ==> !(#[trigger] pieces[i]).contains('-') && pieces[i].len() > 0,
    ensures
        ({
            let s = text::join_with(pieces, seq!['-']);
            &&& pieces.len() > 0 ==> s.len() > 0
            &&& s.len() > 0 ==> s[0] != '-' && s.last() != '-'
            &&& 0 <= k < s.len() - 1 ==> s[k] != '-' || s[k + 1] != '-'
        }),
    decreases pieces.len(),
{
    if pieces.len() > 0 {
        let last = pieces.last();
        assert(!pieces[pieces.len() - 1].contains('-') && pieces[pieces.len() - 1].len() > 0);
        assert forall|i: int| 0 <= i < last.len() implies #[trigger] last[i] != '-' by {
            assert(last.contains(last[i]));
        }
        if pieces.len() > 1 {
            let init = pieces.drop_last();
            assert forall|i: int| 0 <= i < init.len() implies !(#[trigger] init[i]).contains('-')
                && init[i].len() > 0 by {
                assert(init[i] == pieces[i]);
            }
            lemma_join_single_dashes(init, k);
            let front = text::join_with(init, seq!['-']);
            let s = text::join_with(pieces, seq!['-']);
            assert(s == front + seq!['-'] + last);
            assert(s.last() == last[last.len() - 1]);
            if 0 <= k < s.len() - 1 {
                if k + 1 < front.len() {
                    assert(s[k] == front[k] && s[k + 1] == front[k + 1]);
                } else if k + 1 == front.len() {
                    assert(s[k] == front.last());
                } else {
                    assert(s[k + 1] == last[k - front.len()]);
                }
            }
        }
    }
}

/// A cache name is the slug of its target, a dash, and eight hexadecimal digits.
pub proof fn law_cache_name_shape(target: Seq<char>, hash: u32)
    ensures
        cache_name(target, hash).len() == slug(target).len() + 9,
        cache_name(target, hash).take(slug(target).len() as int) == slug(target),
        cache_name(target, hash)[slug(target).len() as int] == '-',
        cache_name(target, hash).skip(slug(target).len() + 1int) == text::hex_digits(hash as nat, 8),
{
    text::lemma_hex_len(hash as nat, 8);
    let name = cache_name(target, hash);
    assert(name.take(slug(target).len() as int) =~= slug(target));
    assert(name.skip(slug(target).len() + 1int) =~= text::hex_digits(hash as nat, 8));
}

/// The digits of a name are the low half of the hash of what was written for its target.
pub proof fn law_name_ends_in_low_half(target: Seq<char>, written: Seq<Seq<u8>>)
    ensures
        ({
            let hash = <DefaultHasher as vstd::std_specs::hash::DefaultHasherAdditionalSpecFns>::spec_finish(
                written,
            );
            hashed_name(target, written) == slug(target) + seq!['-'] + text::hex_digits(
                (hash % 0x1_0000_0000) as nat,
                8,
            )
        }),
{
    let hash = <DefaultHasher as vstd::std_specs::hash::DefaultHasherAdditionalSpecFns>::spec_finish(
        written,
    );
    assert(hash as u32 == hash % 0x1_0000_0000) by (bit_vector);
}

} // verus!
