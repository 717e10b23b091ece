//! Finding out which processes access the mount, and how.

use crate::dash;
use crate::fuse::fusefs::OpenOutcome;
use crate::lru_map;
use crate::lru_map::RecencyMap;
use crate::preset::ProcessInfo;
use crate::sort;
use crate::text;
use dashmap::DashMap;
use std::collections::HashMap;
use vstd::prelude::*;

verus! {

broadcast use vstd::std_specs::hash::group_hash_axioms;

#[derive(Debug, Clone, Copy, PartialEq, Eq, Hash, Structural)]
pub enum OpKind {
    Hit,
    Miss,
    Meta,
}

impl OpKind {
    pub open spec fn label(self) -> Seq<char> {
        match self {
            OpKind::Hit => "hit"@,
            OpKind::Miss => "miss"@,
            OpKind::Meta => "meta"@,
        }
    }

    pub fn as_str(self) -> (r: &'static str)
        ensures
            r@ == self.label(),
    {
        match self {
            OpKind::Hit => "hit",
            OpKind::Miss => "miss",
            OpKind::Meta => "meta",
        }
    }

    /// A filtered open counts as a miss.
    pub open spec fn of_outcome(outcome: OpenOutcome) -> OpKind {
        match outcome {
            OpenOutcome::Hit => OpKind::Hit,
            OpenOutcome::Miss => OpKind::Miss,
            OpenOutcome::Filtered => OpKind::Miss,
        }
    }
}

/// Whether processes are being recorded, and since when.
#[derive(Clone, Copy, Debug, PartialEq, Eq, Structural)]
pub struct DiscoveryStatus {
    pub enabled: bool,
    pub started_at: Option<i64>,
}

/// The current time in seconds since the Unix epoch, from `SystemTime::now`; zero for a clock
/// that is set before it.
#[verifier::external_body]
pub fn now_unix_sec() -> (r: u64)
{
    std::time::SystemTime::now().duration_since(std::time::UNIX_EPOCH).unwrap_or_default().as_secs()
}

/// Two decimal digits.
pub open spec fn two_digits(n: nat) -> Seq<char> {
    seq![text::digit_char(n / 10), text::digit_char(n % 10)]
}

/// Time of day in UTC, as hours, minutes and seconds.
pub open spec fn hms(secs: u64) -> Seq<char> {
    two_digits(((secs / 3600) % 24) as nat) + ":"@ + two_digits(((secs / 60) % 60) as nat) + ":"@
        + two_digits((secs % 60) as nat)
}

fn push_two_digits(out: &mut String, n: u64)
    requires
        n < 100,
    ensures
        final(out)@ == old(out)@ + two_digits(n as nat),
{
    let ghost start = out@;
    out.push(text::digit_of((n / 10) as u128));
    out.push(text::digit_of((n % 10) as u128));
    assert(out@ =~= start + two_digits(n as nat));
}

/// Writes the time of day in UTC.
pub fn utc_time_hms(secs: u64) -> (r: String)
    ensures
        r@ == hms(secs),
{
    let mut out = String::new();
    push_two_digits(&mut out, (secs / 3600) % 24);
    text::push_text(&mut out, ":");
    push_two_digits(&mut out, (secs / 60) % 60);
    text::push_text(&mut out, ":");
    push_two_digits(&mut out, secs % 60);
    assert(out@ =~= hms(secs));
    out
}

/// The arguments of a command line, without empty ones.
pub open spec fn command_words(cmdline: Seq<u8>) -> Seq<Seq<char>> {
    text::split_at_sep(cmdline, 0u8).filter(|word: Seq<u8>| word.len() > 0).map_values(
        |word: Seq<u8>| text::lossy_utf8(word),
    )
}

/// A command line with blanks between its arguments; empty where there is none.
pub open spec fn command_text(cmdline: Option<Vec<u8>>) -> Seq<char> {
    match cmdline {
        Some(bytes) => text::join_with(command_words(bytes@), " "@),
        None => Seq::empty(),
    }
}

/// A text of at most 100 bytes as it is, a longer one cut there with an ellipsis. One whose
/// hundredth byte ends inside a character cannot be cut.
pub open spec fn shortened(s: Seq<char>) -> Option<Seq<char>> {
    let bytes = vstd::utf8::encode_utf8(s);
    if bytes.len() <= 100 {
        Some(s)
    } else if vstd::utf8::is_char_boundary(bytes, 100) {
        Some(vstd::utf8::decode_utf8(bytes.subrange(0, 100)) + "…"@)
    } else {
        None
    }
}

/// Shortens a text to about 100 bytes; gives nothing where the cut would fall inside a
/// character.
pub fn shorten(s: &str) -> (r: Option<String>)
    ensures
        text::opt_view(r) == shortened(s@),
{
    if s.as_bytes().len() <= 100 {
        return Some(s.to_owned());
    }
    if !s.is_char_boundary(100) {
        return None;
    }
    let (head, _) = s.split_at(100);
    proof {
        vstd::utf8::encode_utf8_decode_utf8(head@);
    }
    Some(text::concat2(head, "…"))
}

fn command_line(cmdline: &Option<Vec<u8>>) -> (r: String)
    ensures
        r@ == command_text(*cmdline),
{
    let bytes = match cmdline {
        Some(bytes) => bytes,
        None => {
            let r = String::new();
            assert(r@ =~= Seq::<char>::empty());
            return r;
        },
    };
    let pieces = text::split_bytes(bytes, 0);
    let ghost all = text::split_at_sep(bytes@, 0u8);
    let ghost keep = |word: Seq<u8>| word.len() > 0;
    let ghost lossy = |word: Seq<u8>| text::lossy_utf8(word);
    let mut words: Vec<String> = Vec::new();
    let mut i: usize = 0;
    proof {
        reveal(Seq::filter);
        assert(all.take(0).filter(keep) =~= Seq::<Seq<u8>>::empty());
        assert(text::strings_view(words@) =~= all.take(0).filter(keep).map_values(lossy));
    }
    while i < pieces.len()
        invariant
            i <= pieces.len(),
            all == text::byte_strings(pieces@),
            keep == (|word: Seq<u8>| word.len() > 0),
            lossy == (|word: Seq<u8>| text::lossy_utf8(word)),
            text::strings_view(words@) == all.take(i as int).filter(keep).map_values(lossy),
        decreases pieces.len() - i,
    {
        let piece: &Vec<u8> = &pieces[i];
        let ghost before = words@;
        proof {
            assert(all.take(i + 1) =~= all.take(i as int).push(piece@));
            text::lemma_filter_push(all.take(i as int), piece@, keep);
        }
        if piece.len() > 0 {
            words.push(text::utf8_lossy(piece));
            proof {
                let f = all.take(i as int).filter(keep);
                assert(f.push(piece@).map_values(lossy) =~= f.map_values(lossy).push(
                    text::lossy_utf8(piece@),
                ));
                assert(text::strings_view(words@) =~= text::strings_view(before).push(
                    text::lossy_utf8(piece@),
                ));
            }
        }
        i = i + 1;
    }
    assert(all.take(all.len() as int) =~= all);
    text::join_strings(&words, " ")
}

/// The shortened command line of a process and its chain of ancestors.
pub open spec fn described(info: ProcessInfo) -> Option<(Seq<char>, Seq<char>)> {
    match shortened(command_text(info.cmdline)) {
        Some(cmdline) => Some(
            (cmdline, text::join_with(text::strings_view(info.ancestors@), ">"@)),
        ),
        None => None,
    }
}

/// Describes a process: its shortened command line and its chain of ancestors. Nothing comes
/// of a command line that cannot be cut.
pub fn format_process_info(info: &ProcessInfo) -> (r: Option<(String, String)>)
    ensures
        r matches Some((c, a)) ==> described(*info) == Some((c@, a@)),
        r is None <==> described(*info) is None,
{
    let full = command_line(&info.cmdline);
    match shorten(full.as_str()) {
        Some(cmdline) => Some((cmdline, text::join_strings(&info.ancestors, ">"))),
        None => None,
    }
}

/// The log line for a process that is seen for the first time.
pub open spec fn new_line(
    secs: u64,
    name: Seq<char>,
    ancestors: Seq<char>,
    cmdline: Seq<char>,
    blocked: bool,
) -> Seq<char> {
    hms(secs) + "  NEW     "@ + text::padded_right(name, 32) + "  "@ + (if blocked {
        "*"@
    } else {
        "-"@
    }) + "     -      -      -       -  pid=?"@ + (if ancestors.len() == 0 {
        Seq::empty()
    } else {
        " anc="@ + ancestors
    }) + (if cmdline.len() == 0 {
        Seq::empty()
    } else {
        " cmd="@ + text::debug_quoted(cmdline)
    })
}

/// Writes the log line for a process that is seen for the first time.
pub fn emit_new(secs: u64, name: &str, ancestors: &str, cmdline: &str, blocked: bool) -> (r:
    String)
    ensures
        r@ == new_line(secs, name@, ancestors@, cmdline@, blocked),
{
    let mut out = utc_time_hms(secs);
    text::push_text(&mut out, "  NEW     ");
    let padded = text::pad_right(name, 32);
    text::push_text(&mut out, padded.as_str());
    text::push_text(&mut out, "  ");
    text::push_text(
        &mut out,
        if blocked {
            "*"
        } else {
            "-"
        },
    );
    text::push_text(&mut out, "     -      -      -       -  pid=?");
    let ghost base = out@;
    if !ancestors.is_empty() {
        text::push_text(&mut out, " anc=");
        text::push_text(&mut out, ancestors);
    }
    let ghost mid = out@;
    if !cmdline.is_empty() {
        text::push_text(&mut out, " cmd=");
        let quoted = text::debug_text(cmdline);
        text::push_text(&mut out, quoted.as_str());
    }
    proof {
        assert(mid =~= base + (if ancestors@.len() == 0 {
            Seq::empty()
        } else {
            " anc="@ + ancestors@
        }));
        assert(out@ =~= mid + (if cmdline@.len() == 0 {
            Seq::empty()
        } else {
            " cmd="@ + text::debug_quoted(cmdline@)
        }));
    }
    out
}

/// The name under which a process is counted.
pub open spec fn process_name(info: ProcessInfo) -> Seq<char> {
    match info.name {
        Some(name) => name@,
        None => "(unknown)"@,
    }
}

fn name_of(info: &ProcessInfo) -> (r: String)
    ensures
        r@ == process_name(*info),
{
    match &info.name {
        Some(name) => name.clone(),
        None => "(unknown)".to_owned(),
    }
}

/// How a process id is written as a key.
pub open spec fn pid_bytes(pid: u32) -> Seq<u8> {
    seq![
        (pid / 0x100_0000) as u8,
        ((pid / 0x1_0000) % 0x100) as u8,
        ((pid / 0x100) % 0x100) as u8,
        (pid % 0x100) as u8,
    ]
}

fn pid_key(pid: u32) -> (r: Vec<u8>)
    ensures
        r@ == pid_bytes(pid),
{
    let mut key: Vec<u8> = Vec::new();
    key.push((pid / 0x100_0000) as u8);
    key.push(((pid / 0x1_0000) % 0x100) as u8);
    key.push(((pid / 0x100) % 0x100) as u8);
    key.push((pid % 0x100) as u8);
    assert(key@ =~= pid_bytes(pid));
    key
}

/// The count of `key` after one more operation; counters wrap around at their end.
pub open spec fn one_more<K>(counts: Map<K, u64>, key: K) -> u64 {
    if !counts.contains_key(key) {
        1
    } else if counts[key] == u64::MAX {
        0
    } else {
        (counts[key] + 1) as u64
    }
}

/// One recording session.
pub struct Session {
    hit: DashMap<String, u64>,
    miss: DashMap<String, u64>,
    meta: DashMap<String, u64>,
    samples: DashMap<String, u64>,
    sample_list: Vec<(String, String)>,
    pids: RecencyMap,
    names: HashMap<i64, String>,
    started_at: i64,
}

/// What a session holds: how often each process did what since the last flush, a sample of
/// each process that was reported, and the names of the processes seen last.
#[verifier::ext_equal]
pub struct SessionModel {
    pub counts: Map<(Seq<char>, OpKind), u64>,
    pub samples: Map<Seq<char>, (Seq<char>, Seq<char>)>,
    pub pids: Seq<(Seq<u8>, i64)>,
    pub pid_capacity: nat,
    pub names: Map<i64, Seq<char>>,
    pub started_at: i64,
}

impl SessionModel {
    /// Every process in the list of those seen last has a name, under its own id.
    pub open spec fn wf(self) -> bool {
        &&& self.pid_capacity >= 1
        &&& self.pids.len() <= self.pid_capacity
        &&& lru_map::distinct_keys(self.pids)
        &&& forall|i: int|
            0 <= i < self.pids.len() ==> 0 <= (#[trigger] self.pids[i]).1 <= u32::MAX
                && self.pids[i].0 == pid_bytes(self.pids[i].1 as u32)
                && self.names.contains_key(self.pids[i].1)
    }

    /// A session that begins.
    pub open spec fn begun(capacity: usize, now: i64) -> SessionModel {
        SessionModel {
            counts: Map::empty(),
            samples: Map::empty(),
            pids: Seq::empty(),
            pid_capacity: if capacity == 0 {
                1
            } else {
                capacity as nat
            },
            names: Map::empty(),
            started_at: now,
        }
    }

    /// One more operation of a process.
    pub open spec fn bumped(self, name: Seq<char>, op: OpKind) -> SessionModel {
        SessionModel {
            counts: self.counts.insert((name, op), one_more(self.counts, (name, op))),
            ..self
        }
    }

    /// A process introduced by a sample of it.
    pub open spec fn introduced(
        self,
        name: Seq<char>,
        sample: (Seq<char>, Seq<char>),
    ) -> SessionModel {
        SessionModel { samples: self.samples.insert(name, sample), ..self }
    }

    /// The name of a process that was seen lately.
    pub open spec fn name_of_pid(self, pid: u32) -> Seq<char> {
        self.names[self.pids[choose|i: int| lru_map::holds_at(self.pids, pid_bytes(pid), i)].1]
    }

    /// The session after a process that was seen lately was looked up.
    pub open spec fn refreshed(self, pid: u32) -> SessionModel {
        SessionModel { pids: lru_map::refreshed(self.pids, pid_bytes(pid)), ..self }
    }

    /// The session after a new process was put into the list of those seen last, from which
    /// the one seen longest ago gives way where the list is full.
    pub open spec fn remembering(self, pid: u32, name: Seq<char>) -> SessionModel {
        let full = self.pids.len() >= self.pid_capacity;
        SessionModel {
            pids: (if full {
                self.pids.drop_first()
            } else {
                self.pids
            }).push((pid_bytes(pid), pid as i64)),
            names: (if full {
                self.names.remove(self.pids[0].1)
            } else {
                self.names
            }).insert(pid as i64, name),
            ..self
        }
    }

    /// The session with all counts back at zero.
    pub open spec fn flushed(self) -> SessionModel {
        SessionModel {
            counts: Map::new(
                |k: (Seq<char>, OpKind)| self.counts.contains_key(k),
                |k: (Seq<char>, OpKind)| 0u64,
            ),
            ..self
        }
    }
}

impl View for Session {
    type V = SessionModel;

    closed spec fn view(&self) -> SessionModel {
        SessionModel {
            counts: Map::new(
                |k: (Seq<char>, OpKind)| self.counts_of(k.1).contains_key(k.0),
                |k: (Seq<char>, OpKind)| self.counts_of(k.1)[k.0],
            ),
            samples: Map::new(
                |n: Seq<char>| dash::dash_contents(self.samples).contains_key(n),
                |n: Seq<char>|
                    {
                        let entry = self.sample_list@[dash::dash_contents(self.samples)[n] as int];
                        (entry.0@, entry.1@)
                    },
            ),
            pids: self.pids@.entries,
            pid_capacity: self.pids@.capacity,
            names: self.names@.map_values(|n: String| n@),
            started_at: self.started_at,
        }
    }
}

impl Session {
    spec fn counts_of(&self, op: OpKind) -> Map<Seq<char>, u64> {
        match op {
            OpKind::Hit => dash::dash_contents(self.hit),
            OpKind::Miss => dash::dash_contents(self.miss),
            OpKind::Meta => dash::dash_contents(self.meta),
        }
    }

    /// The session is consistent.
    pub closed spec fn wf(&self) -> bool {
        &&& self@.wf()
        &&& self.pids.wf()
        &&& forall|n: Seq<char>| #[trigger]
            dash::dash_contents(self.samples).contains_key(n) ==> dash::dash_contents(
                self.samples,
            )[n] < self.sample_list@.len()
    }

    fn new(capacity: usize, now: i64) -> (r: Self)
        requires
            capacity <= lru_map::MAX_CAPACITY,
        ensures
            r.wf(),
            r@ == SessionModel::begun(capacity, now),
    {
        let r = Session {
            hit: dash::dash_new(),
            miss: dash::dash_new(),
            meta: dash::dash_new(),
            samples: dash::dash_new(),
            sample_list: Vec::new(),
            pids: RecencyMap::new(
                if capacity == 0 {
                    1
                } else {
                    capacity
                },
            ),
            names: HashMap::new(),
            started_at: now,
        };
        assert(r@ =~= SessionModel::begun(capacity, now));
        r
    }

    /// Counts one operation. The counter wraps around at its end.
    fn bump(&mut self, name: &str, op: OpKind)
        requires
            old(self).wf(),
        ensures
            final(self).wf(),
            final(self)@ == old(self)@.bumped(name@, op),
    {
        match op {
            OpKind::Hit => bump_in(&mut self.hit, name),
            OpKind::Miss => bump_in(&mut self.miss, name),
            OpKind::Meta => bump_in(&mut self.meta, name),
        }
        assert(self@ =~= old(self)@.bumped(name@, op));
    }

    /// Introduces a process that has not been reported in this session, and gives the log line
    /// for it.
    fn introduce(&mut self, info: &ProcessInfo, name: &str, blocklist: &Vec<String>, secs: u64)
        -> (r: Result<Option<String>, Unprintable>)
        requires
            old(self).wf(),
            name@ == process_name(*info),
        ensures
            final(self).wf(),
            match introduction(old(self)@, *info, text::strings_view(blocklist@), secs) {
                Introduction::Known => r matches Ok(None) && final(self)@ == old(self)@,
                Introduction::Unprintable => r is Err && final(self)@ == old(self)@,
                Introduction::New { sample, line } => final(self)@ == old(self)@.introduced(
                    name@,
                    sample,
                ) && (r matches Ok(Some(l)) && l@ == line),
            },
    {
        if dash::dash_get(&self.samples, name).is_some() {
            return Ok(None);
        }
        match format_process_info(info) {
            None => Err(Unprintable {  }),
            Some((cmdline, ancestors)) => {
                let blocked = info.is_blocked_by(blocklist);
                let line = emit_new(secs, name, ancestors.as_str(), cmdline.as_str(), blocked);
                let index: usize = self.sample_list.len();
                let ghost c = cmdline@;
                let ghost a = ancestors@;
                let ghost list = self.sample_list@;
                self.sample_list.push((cmdline, ancestors));
                dash::dash_insert(&mut self.samples, name, index as u64);
                proof {
                    assert(self@.samples =~= old(self)@.samples.insert(name@, (c, a))) by {
                        assert forall|n: Seq<char>|
                            n != name@ && old(self)@.samples.contains_key(n) implies #[trigger] self@.samples[n]
                            == old(self)@.samples[n] by {
                            let k = dash::dash_contents(old(self).samples)[n] as int;
                            assert(self.sample_list@[k] == list[k]);
                        }
                    }
                    assert(self@ =~= old(self)@.introduced(name@, (c, a)));
                }
                Ok(Some(line))
            },
        }
    }

    /// The name of a process that was seen lately.
    fn lookup_pid(&mut self, pid: u32) -> (r: Option<String>)
        requires
            old(self).wf(),
        ensures
            final(self).wf(),
            r is Some <==> lru_map::holds(old(self)@.pids, pid_bytes(pid)),
            r is Some ==> final(self)@ == old(self)@.refreshed(pid) && (r->0)@ == old(
                self,
            )@.name_of_pid(pid),
            r is None ==> final(self)@ == old(self)@,
    {
        let ghost start = self@;
        let key = pid_key(pid);
        let found = self.pids.get(&key);
        proof {
            self.pids.lemma_wf();
        }
        match found {
            None => {
                assert(self@ =~= start);
                None
            },
            Some(value) => {
                proof {
                    let i = choose|i: int| lru_map::holds_at(start.pids, key@, i);
                    assert(lru_map::holds_at(start.pids, key@, i));
                    assert(start.pids[i].1 == value);
                    assert(start.names.contains_key(value));
                    let after = self@.pids;
                    assert forall|k: int| 0 <= k < after.len() implies 0 <= (
                    #[trigger] after[k]).1 <= u32::MAX && after[k].0 == pid_bytes(
                        after[k].1 as u32,
                    ) && start.names.contains_key(after[k].1) by {
                        if k < after.len() - 1 {
                            let k0 = if k < i { k } else { k + 1 };
                            assert(after[k] == start.pids[k0]);
                        } else {
                            assert(after[k] == start.pids[i]);
                        }
                    }
                    assert(self@ =~= start.refreshed(pid));
                }
                match self.names.get(&value) {
                    Some(name) => Some(name.clone()),
                    None => {
                        assert(false);
                        None
                    },
                }
            },
        }
    }

    /// Puts a process that was not seen lately into the list of those seen last.
    fn remember(&mut self, pid: u32, name: &str)
        requires
            old(self).wf(),
            !lru_map::holds(old(self)@.pids, pid_bytes(pid)),
        ensures
            final(self).wf(),
            final(self)@ == old(self)@.remembering(pid, name@),
    {
        let ghost start = self@;
        if self.pids.len() >= self.pids.capacity() {
            match self.pids.pop() {
                Some((_, value)) => {
                    self.names.remove(&value);
                },
                None => {},
            }
        }
        proof {
            self.pids.lemma_wf();
            if lru_map::holds(self.pids@.entries, pid_bytes(pid)) {
                let i = choose|i: int|
                    lru_map::holds_at(self.pids@.entries, pid_bytes(pid), i);
                assert(lru_map::holds_at(start.pids, pid_bytes(pid), i) || lru_map::holds_at(
                    start.pids,
                    pid_bytes(pid),
                    i + 1,
                ));
            }
        }
        self.pids.put(pid_key(pid), pid as i64);
        self.names.insert(pid as i64, name.to_owned());
        proof {
            self.pids.lemma_wf();
            let m = start.remembering(pid, name@);
            assert(self@.names =~= m.names);
            assert(self@ =~= m);
            assert forall|i: int| 0 <= i < m.pids.len() implies 0 <= (#[trigger] m.pids[i]).1
                <= u32::MAX && m.pids[i].0 == pid_bytes(m.pids[i].1 as u32)
                && m.names.contains_key(m.pids[i].1) by {
                if i < m.pids.len() - 1 {
                    let full = start.pids.len() >= start.pid_capacity;
                    let i0 = if full { i + 1 } else { i };
                    assert(m.pids[i] == start.pids[i0]);
                    if full {
                        assert(start.pids[0].0 != start.pids[i0].0);
                        assert(start.pids[0].1 != start.pids[i0].1);
                    }
                }
            }
        }
    }
}

/// A command line that cannot be cut to length for the log.
#[derive(Clone, Copy, Debug, PartialEq, Eq, Structural)]
pub struct Unprintable {}

/// What meeting a process means for a session.
pub enum Introduction {
    /// It was reported before.
    Known,
    /// Its command line cannot be written to the log.
    Unprintable,
    /// It is reported now.
    New { sample: (Seq<char>, Seq<char>), line: Seq<char> },
}

/// What meeting a process means for a session: the first time its name comes up, a line is
/// logged and a sample of it is kept.
pub open spec fn introduction(
    m: SessionModel,
    info: ProcessInfo,
    blocklist: Seq<Seq<char>>,
    secs: u64,
) -> Introduction {
    let name = process_name(info);
    if m.samples.contains_key(name) {
        Introduction::Known
    } else {
        match described(info) {
            None => Introduction::Unprintable,
            Some((cmdline, ancestors)) => Introduction::New {
                sample: (cmdline, ancestors),
                line: new_line(secs, name, ancestors, cmdline, info.named_in(blocklist)),
            },
        }
    }
}

fn bump_in(map: &mut DashMap<String, u64>, name: &str)
    ensures
        dash::dash_contents(*final(map)) == dash::dash_contents(*old(map)).insert(
            name@,
            one_more(dash::dash_contents(*old(map)), name@),
        ),
{
    let before: u64 = match dash::dash_get(map, name) {
        Some(n) => n,
        None => 0,
    };
    let after: u64 = if before == u64::MAX {
        0
    } else {
        before + 1
    };
    dash::dash_insert(map, name, after);
}

/// How often one process did one thing, as it goes into the database.
#[derive(Debug, PartialEq, Eq)]
pub struct ProcessAccessRow {
    pub bucket_epoch: i64,
    pub process_name: String,
    pub op_kind: OpKind,
    pub count: u64,
    pub sample_cmdline: Option<String>,
    pub sample_ancestors: Option<String>,
}

/// View of a row.
pub struct RowView {
    pub epoch: i64,
    pub name: Seq<char>,
    pub op: OpKind,
    pub count: u64,
    pub cmdline: Option<Seq<char>>,
    pub ancestors: Option<Seq<char>>,
}

impl View for ProcessAccessRow {
    type V = RowView;

    open spec fn view(&self) -> RowView {
        RowView {
            epoch: self.bucket_epoch,
            name: self.process_name@,
            op: self.op_kind,
            count: self.count,
            cmdline: text::opt_view(self.sample_cmdline),
            ancestors: text::opt_view(self.sample_ancestors),
        }
    }
}

/// Element-wise view of rows.
pub open spec fn rows_view(rows: Seq<ProcessAccessRow>) -> Seq<RowView> {
    rows.map_values(|r: ProcessAccessRow| r@)
}

/// The row that belongs to a count.
pub open spec fn row_for(m: SessionModel, key: (Seq<char>, OpKind), epoch: i64) -> RowView {
    RowView {
        epoch,
        name: key.0,
        op: key.1,
        count: m.counts[key],
        cmdline: if m.samples.contains_key(key.0) {
            Some(m.samples[key.0].0)
        } else {
            None
        },
        ancestors: if m.samples.contains_key(key.0) {
            Some(m.samples[key.0].1)
        } else {
            None
        },
    }
}

/// Whether `rows` holds one row for each count above zero for which `covers` holds, and no
/// other row.
pub open spec fn rows_cover(
    rows: Seq<RowView>,
    m: SessionModel,
    epoch: i64,
    covers: spec_fn((Seq<char>, OpKind)) -> bool,
) -> bool {
    &&& forall|i: int|
        0 <= i < rows.len() ==> {
            let key = ((#[trigger] rows[i]).name, rows[i].op);
            covers(key) && m.counts.contains_key(key) && m.counts[key] > 0 && rows[i] == row_for(
                m,
                key,
                epoch,
            )
        }
    &&& forall|key: (Seq<char>, OpKind)|
        covers(key) && #[trigger] m.counts.contains_key(key) && m.counts[key] > 0 ==> exists|i: int|
            0 <= i < rows.len() && #[trigger] rows[i] == row_for(m, key, epoch)
    &&& forall|i: int, j: int|
        0 <= i < j < rows.len() ==> ((#[trigger] rows[i]).name, rows[i].op) != ((
        #[trigger] rows[j]).name, rows[j].op)
}

/// Whether `rows` is what a flush of `m` yields: one row for each count above zero.
pub open spec fn is_flush(rows: Seq<RowView>, m: SessionModel, epoch: i64) -> bool {
    rows_cover(rows, m, epoch, |key: (Seq<char>, OpKind)| true)
}

fn reset_counts(map: &mut DashMap<String, u64>, entries: &Vec<(String, u64)>)
    requires
        dash::lists_contents(entries@, dash::dash_contents(*old(map))),
    ensures
        dash::dash_contents(*final(map)).dom() == dash::dash_contents(*old(map)).dom(),
        forall|n: Seq<char>| #[trigger]
            dash::dash_contents(*final(map)).contains_key(n) ==> dash::dash_contents(
                *final(map),
            )[n] == 0,
{
    let ghost start = dash::dash_contents(*map);
    let mut i: usize = 0;
    while i < entries.len()
        invariant
            i <= entries.len(),
            dash::lists_contents(entries@, start),
            dash::dash_contents(*map).dom() =~= start.dom(),
            forall|k: int|
                0 <= k < i ==> dash::dash_contents(*map)[(#[trigger] entries@[k]).0@] == 0,
        decreases entries.len() - i,
    {
        assert(start.contains_key(entries@[i as int].0@));
        dash::dash_insert(map, entries[i].0.as_str(), 0);
        i = i + 1;
    }
    assert forall|n: Seq<char>| #[trigger]
        dash::dash_contents(*map).contains_key(n) implies dash::dash_contents(*map)[n] == 0 by {
        assert(start.contains_key(n));
        let k = choose|k: int| 0 <= k < entries@.len() && (#[trigger] entries@[k]).0@ == n;
        assert(dash::dash_contents(*map)[entries@[k].0@] == 0);
    }
}

impl Session {
    fn sample_of(&self, name: &str) -> (r: (Option<String>, Option<String>))
        requires
            self.wf(),
        ensures
            text::opt_view(r.0) == (if self@.samples.contains_key(name@) {
                Some(self@.samples[name@].0)
            } else {
                None
            }),
            text::opt_view(r.1) == (if self@.samples.contains_key(name@) {
                Some(self@.samples[name@].1)
            } else {
                None
            }),
    {
        match dash::dash_get(&self.samples, name) {
            Some(index) => {
                assert(dash::dash_contents(self.samples).contains_key(name@));
                let total: usize = self.sample_list.len();
                assert(index < total);
                let entry: &(String, String) = &self.sample_list[index as usize];
                (Some(entry.0.clone()), Some(entry.1.clone()))
            },
            None => (None, None),
        }
    }

    fn rows_of(
        &self,
        entries: &Vec<(String, u64)>,
        op: OpKind,
        epoch: i64,
        rows: &mut Vec<ProcessAccessRow>,
        Ghost(done): Ghost<spec_fn((Seq<char>, OpKind)) -> bool>,
    )
        requires
            self.wf(),
            dash::lists_contents(entries@, self.counts_of(op)),
            rows_cover(rows_view(old(rows)@), self@, epoch, done),
            forall|n: Seq<char>| !#[trigger] done((n, op)),
        ensures
            rows_cover(
                rows_view(final(rows)@),
                self@,
                epoch,
                |key: (Seq<char>, OpKind)| done(key) || key.1 == op,
            ),
    {
        let ghost m = self@;
        let mut i: usize = 0;
        while i < entries.len()
            invariant
                i <= entries.len(),
                self.wf(),
                m == self@,
                dash::lists_contents(entries@, self.counts_of(op)),
                forall|n: Seq<char>| !#[trigger] done((n, op)),
                rows_cover(
                    rows_view(rows@),
                    m,
                    epoch,
                    |key: (Seq<char>, OpKind)|
                        done(key) || (key.1 == op && named_before(entries@, i as int, key.0)),
                ),
            decreases entries.len() - i,
        {
            let ghost before = rows_view(rows@);
            let ghost covered = |key: (Seq<char>, OpKind)|
                done(key) || (key.1 == op && named_before(entries@, i as int, key.0));
            let ghost covered2 = |key: (Seq<char>, OpKind)|
                done(key) || (key.1 == op && named_before(entries@, i + 1, key.0));
            let entry: &(String, u64) = &entries[i];
            let ghost key = (entry.0@, op);
            proof {
                assert(self.counts_of(op).contains_key(entries@[i as int].0@));
                assert(m.counts.contains_key(key));
                assert(m.counts[key] == entry.1);
                lemma_named_before(entries@, i as int);
                assert(!covered(key)) by {
                    if named_before(entries@, i as int, entry.0@) {
                        let k = choose|k: int| 0 <= k < i && (#[trigger] entries@[k]).0@ == entry.0@;
                        assert(entries@[k].0@ != entries@[i as int].0@);
                    }
                }
                assert(covered2(key));
                assert forall|k: (Seq<char>, OpKind)| k != key implies covered(k) == #[trigger] covered2(
                    k,
                ) by {
                }
            }
            if entry.1 > 0 {
                let (sample_cmdline, sample_ancestors) = self.sample_of(entry.0.as_str());
                let row = ProcessAccessRow {
                    bucket_epoch: epoch,
                    process_name: entry.0.clone(),
                    op_kind: op,
                    count: entry.1,
                    sample_cmdline,
                    sample_ancestors,
                };
                let ghost rv = row@;
                rows.push(row);
                proof {
                    assert(rv == row_for(m, key, epoch));
                    assert(rows_view(rows@) =~= before.push(rv));
                    lemma_rows_push(before, m, epoch, covered, covered2, key);
                }
            } else {
                proof {
                    lemma_rows_skip(before, m, epoch, covered, covered2, key);
                }
            }
            i = i + 1;
        }
        proof {
            let covered = |key: (Seq<char>, OpKind)|
                done(key) || (key.1 == op && named_before(entries@, i as int, key.0));
            let all = |key: (Seq<char>, OpKind)| done(key) || key.1 == op;
            assert forall|key: (Seq<char>, OpKind)| m.counts.contains_key(key) implies covered(key)
                == #[trigger] all(key) by {
                if key.1 == op {
                    assert(self.counts_of(op).contains_key(key.0));
                    let k = choose|k: int|
                        0 <= k < entries@.len() && (#[trigger] entries@[k]).0@ == key.0;
                    assert(named_before(entries@, i as int, key.0));
                }
            }
            lemma_rows_same(rows_view(rows@), m, epoch, covered, all);
        }
    }

    /// Takes the counts since the last flush: one row for each that is above zero. All counts
    /// start again from zero.
    pub fn flush_bucket(&mut self, bucket_epoch: i64) -> (r: Vec<ProcessAccessRow>)
        requires
            old(self).wf(),
        ensures
            final(self).wf(),
            final(self)@ == old(self)@.flushed(),
            is_flush(rows_view(r@), old(self)@, bucket_epoch),
    {
        let hits = dash::dash_entries(&self.hit);
        let misses = dash::dash_entries(&self.miss);
        let metas = dash::dash_entries(&self.meta);
        let ghost m = self@;
        let mut rows: Vec<ProcessAccessRow> = Vec::new();
        let ghost d0 = |key: (Seq<char>, OpKind)| false;
        let ghost d1 = |key: (Seq<char>, OpKind)| d0(key) || key.1 == OpKind::Hit;
        let ghost d2 = |key: (Seq<char>, OpKind)| d1(key) || key.1 == OpKind::Miss;
        let ghost d3 = |key: (Seq<char>, OpKind)| d2(key) || key.1 == OpKind::Meta;
        assert(rows_cover(rows_view(rows@), m, bucket_epoch, d0));
        self.rows_of(&hits, OpKind::Hit, bucket_epoch, &mut rows, Ghost(d0));
        self.rows_of(&misses, OpKind::Miss, bucket_epoch, &mut rows, Ghost(d1));
        self.rows_of(&metas, OpKind::Meta, bucket_epoch, &mut rows, Ghost(d2));
        proof {
            lemma_rows_same(
                rows_view(rows@),
                m,
                bucket_epoch,
                d3,
                |key: (Seq<char>, OpKind)| true,
            );
        }
        reset_counts(&mut self.hit, &hits);
        reset_counts(&mut self.miss, &misses);
        reset_counts(&mut self.meta, &metas);
        assert(self@.counts =~= m.flushed().counts);
        rows
    }
}

spec fn named_before(entries: Seq<(String, u64)>, n: int, name: Seq<char>) -> bool {
    exists|k: int| 0 <= k < n && (#[trigger] entries[k]).0@ == name
}

proof fn lemma_named_before(entries: Seq<(String, u64)>, i: int)
    requires
        0 <= i < entries.len(),
    ensures
        forall|name: Seq<char>| #[trigger]
            named_before(entries, i + 1, name) <==> named_before(entries, i, name) || name
                == entries[i].0@,
{
    assert forall|name: Seq<char>| #[trigger]
        named_before(entries, i + 1, name) <==> named_before(entries, i, name) || name
        == entries[i].0@ by {
        if named_before(entries, i + 1, name) && name != entries[i].0@ {
            let k = choose|k: int| 0 <= k < i + 1 && (#[trigger] entries[k]).0@ == name;
            assert(k < i);
        }
        if named_before(entries, i, name) {
            let k = choose|k: int| 0 <= k < i && (#[trigger] entries[k]).0@ == name;
            assert(entries[k].0@ == name);
        }
    }
}

proof fn lemma_rows_push(
    rows: Seq<RowView>,
    m: SessionModel,
    epoch: i64,
    covered: spec_fn((Seq<char>, OpKind)) -> bool,
    covered2: spec_fn((Seq<char>, OpKind)) -> bool,
    key: (Seq<char>, OpKind),
)
    requires
        rows_cover(rows, m, epoch, covered),
        m.counts.contains_key(key),
        m.counts[key] > 0,
        !covered(key),
        covered2(key),
        forall|k: (Seq<char>, OpKind)| k != key ==> covered(k) == #[trigger] covered2(k),
    ensures
        rows_cover(rows.push(row_for(m, key, epoch)), m, epoch, covered2),
{
    let after = rows.push(row_for(m, key, epoch));
    assert forall|i: int| 0 <= i < after.len() implies {
        let k = ((#[trigger] after[i]).name, after[i].op);
        covered2(k) && m.counts.contains_key(k) && m.counts[k] > 0 && after[i] == row_for(
            m,
            k,
            epoch,
        )
    } by {
        if i < rows.len() {
            assert(after[i] == rows[i]);
            assert(covered((rows[i].name, rows[i].op)));
        }
    }
    assert forall|k: (Seq<char>, OpKind)|
        covered2(k) && #[trigger] m.counts.contains_key(k) && m.counts[k] > 0 implies exists|i: int|
        0 <= i < after.len() && #[trigger] after[i] == row_for(m, k, epoch) by {
        if k == key {
            assert(after[rows.len() as int] == row_for(m, k, epoch));
        } else {
            let i = choose|i: int|
                0 <= i < rows.len() && #[trigger] rows[i] == row_for(m, k, epoch);
            assert(after[i] == row_for(m, k, epoch));
        }
    }
    assert forall|i: int, j: int| 0 <= i < j < after.len() implies ((#[trigger] after[i]).name,
        after[i].op) != ((#[trigger] after[j]).name, after[j].op) by {
        assert(after[i] == rows[i]);
        if j < rows.len() {
            assert(after[j] == rows[j]);
        } else {
            assert(covered((rows[i].name, rows[i].op)));
        }
    }
}

proof fn lemma_rows_skip(
    rows: Seq<RowView>,
    m: SessionModel,
    epoch: i64,
    covered: spec_fn((Seq<char>, OpKind)) -> bool,
    covered2: spec_fn((Seq<char>, OpKind)) -> bool,
    key: (Seq<char>, OpKind),
)
    requires
        rows_cover(rows, m, epoch, covered),
        m.counts[key] == 0,
        !covered(key),
        forall|k: (Seq<char>, OpKind)| k != key ==> covered(k) == #[trigger] covered2(k),
    ensures
        rows_cover(rows, m, epoch, covered2),
{
    assert forall|i: int| 0 <= i < rows.len() implies covered2(
        ((#[trigger] rows[i]).name, rows[i].op),
    ) by {
        assert(covered((rows[i].name, rows[i].op)));
    }
}

proof fn lemma_rows_same(
    rows: Seq<RowView>,
    m: SessionModel,
    epoch: i64,
    covered: spec_fn((Seq<char>, OpKind)) -> bool,
    covered2: spec_fn((Seq<char>, OpKind)) -> bool,
)
    requires
        rows_cover(rows, m, epoch, covered),
        forall|k: (Seq<char>, OpKind)|
            m.counts.contains_key(k) ==> covered(k) == #[trigger] covered2(k),
    ensures
        rows_cover(rows, m, epoch, covered2),
{
    assert forall|i: int| 0 <= i < rows.len() implies covered2(
        ((#[trigger] rows[i]).name, rows[i].op),
    ) by {
        assert(covered((rows[i].name, rows[i].op)));
    }
}

/// Sum of the counts of one process for one kind of operation.
pub open spec fn op_total(rows: Seq<RowView>, name: Seq<char>, op: OpKind) -> nat
    decreases rows.len(),
{
    if rows.len() == 0 {
        0
    } else {
        let before = op_total(rows.drop_last(), name, op);
        if rows.last().name == name && rows.last().op == op {
            before + rows.last().count as nat
        } else {
            before
        }
    }
}

/// Sum of all counts of one process.
pub open spec fn process_total(rows: Seq<RowView>, name: Seq<char>) -> nat {
    op_total(rows, name, OpKind::Hit) + op_total(rows, name, OpKind::Miss) + op_total(
        rows,
        name,
        OpKind::Meta,
    )
}

/// The names in `rows`, each once, in the order in which they first occur.
pub open spec fn names_in(rows: Seq<RowView>) -> Seq<Seq<char>>
    decreases rows.len(),
{
    if rows.len() == 0 {
        Seq::empty()
    } else {
        let before = names_in(rows.drop_last());
        if before.contains(rows.last().name) {
            before
        } else {
            before.push(rows.last().name)
        }
    }
}

/// Sort key that puts larger totals first.
pub open spec fn busy_key(total: nat) -> u128 {
    (u128::MAX - total) as u128
}

/// The processes in `rows` from the busiest to the least busy.
pub open spec fn busiest_first(rows: Seq<RowView>) -> Seq<Seq<char>> {
    sort::items(
        sort::stable_sorted(
            names_in(rows).map_values(
                |n: Seq<char>| (busy_key(process_total(rows, n)), n),
            ),
        ),
    )
}

/// The log line that sums up one process.
pub open spec fn snap_line(secs: u64, rows: Seq<RowView>, name: Seq<char>) -> Seq<char> {
    hms(secs) + "  SNAP    "@ + text::padded_right(name, 32) + "  -  "@ + text::padded_left(
        text::decimal(op_total(rows, name, OpKind::Hit)),
        6,
    ) + "  "@ + text::padded_left(text::decimal(op_total(rows, name, OpKind::Miss)), 6) + "  "@
        + text::padded_left(text::decimal(op_total(rows, name, OpKind::Meta)), 6) + "  "@
        + text::padded_left(text::decimal(process_total(rows, name)), 8)
}

/// The largest value of a counter.
pub const COUNT_MAX: u128 = 0xffff_ffff_ffff_ffff;

proof fn lemma_totals_bounded(rows: Seq<RowView>, name: Seq<char>)
    ensures
        process_total(rows, name) <= rows.len() * COUNT_MAX,
    decreases rows.len(),
{
    if rows.len() > 0 {
        lemma_totals_bounded(rows.drop_last(), name);
        assert(rows.len() * COUNT_MAX == rows.drop_last().len() * COUNT_MAX + COUNT_MAX)
            by (nonlinear_arith)
            requires
                rows.len() == rows.drop_last().len() + 1,
        ;
    } else {
        assert(rows.len() * COUNT_MAX == 0) by (nonlinear_arith)
            requires
                rows.len() == 0,
        ;
    }
}

fn totals_of(rows: &Vec<ProcessAccessRow>, name: &str) -> (r: (u128, u128, u128))
    ensures
        r.0 == op_total(rows_view(rows@), name@, OpKind::Hit),
        r.1 == op_total(rows_view(rows@), name@, OpKind::Miss),
        r.2 == op_total(rows_view(rows@), name@, OpKind::Meta),
        r.0 + r.1 + r.2 == process_total(rows_view(rows@), name@),
        r.0 + r.1 + r.2 <= u128::MAX,
{
    let ghost all = rows_view(rows@);
    let mut hit: u128 = 0;
    let mut miss: u128 = 0;
    let mut meta: u128 = 0;
    let mut i: usize = 0;
    assert(all.take(0) =~= Seq::<RowView>::empty());
    while i < rows.len()
        invariant
            i <= rows.len(),
            all == rows_view(rows@),
            hit == op_total(all.take(i as int), name@, OpKind::Hit),
            miss == op_total(all.take(i as int), name@, OpKind::Miss),
            meta == op_total(all.take(i as int), name@, OpKind::Meta),
        decreases rows.len() - i,
    {
        let row: &ProcessAccessRow = &rows[i];
        proof {
            assert(all.take(i + 1).drop_last() =~= all.take(i as int));
            assert(all.take(i + 1).last() == row@);
            lemma_totals_bounded(all.take(i + 1), name@);
            lemma_product_fits((i + 1) as nat);
        }
        if text::str_eq(row.process_name.as_str(), name) {
            match row.op_kind {
                OpKind::Hit => {
                    hit = hit + row.count as u128;
                },
                OpKind::Miss => {
                    miss = miss + row.count as u128;
                },
                OpKind::Meta => {
                    meta = meta + row.count as u128;
                },
            }
        }
        i = i + 1;
    }
    proof {
        assert(all.take(all.len() as int) =~= all);
        lemma_totals_bounded(all, name@);
        lemma_product_fits(all.len());
    }
    (hit, miss, meta)
}

proof fn lemma_product_fits(n: nat)
    requires
        n <= usize::MAX,
    ensures
        n * COUNT_MAX <= u128::MAX,
{
    assert(n * COUNT_MAX <= 0xffff_ffff_ffff_ffffint * COUNT_MAX) by (nonlinear_arith)
        requires
            n <= 0xffff_ffff_ffff_ffff,
    ;
}

fn distinct_names(rows: &Vec<ProcessAccessRow>) -> (r: Vec<String>)
    ensures
        text::strings_view(r@) == names_in(rows_view(rows@)),
{
    let ghost all = rows_view(rows@);
    let mut out: Vec<String> = Vec::new();
    let mut i: usize = 0;
    assert(all.take(0) =~= Seq::<RowView>::empty());
    assert(text::strings_view(out@) =~= Seq::<Seq<char>>::empty());
    while i < rows.len()
        invariant
            i <= rows.len(),
            all == rows_view(rows@),
            text::strings_view(out@) == names_in(all.take(i as int)),
        decreases rows.len() - i,
    {
        let ghost before = out@;
        proof {
            assert(all.take(i + 1).drop_last() =~= all.take(i as int));
            assert(all.take(i + 1).last() == rows@[i as int]@);
        }
        if !text::list_contains(&out, rows[i].process_name.as_str()) {
            out.push(rows[i].process_name.clone());
            assert(text::strings_view(out@) =~= text::strings_view(before).push(
                rows@[i as int].process_name@,
            ));
        }
        i = i + 1;
    }
    assert(all.take(all.len() as int) =~= all);
    out
}

fn make_snap_line(secs: u64, rows: &Vec<ProcessAccessRow>, name: &str) -> (r: String)
    ensures
        r@ == snap_line(secs, rows_view(rows@), name@),
{
    let (hit, miss, meta) = totals_of(rows, name);
    let total: u128 = hit + miss + meta;
    let mut out = utc_time_hms(secs);
    text::push_text(&mut out, "  SNAP    ");
    let padded = text::pad_right(name, 32);
    text::push_text(&mut out, padded.as_str());
    text::push_text(&mut out, "  -  ");
    let h = text::format_decimal(hit);
    let h = text::pad_left(h.as_str(), 6);
    text::push_text(&mut out, h.as_str());
    text::push_text(&mut out, "  ");
    let m = text::format_decimal(miss);
    let m = text::pad_left(m.as_str(), 6);
    text::push_text(&mut out, m.as_str());
    text::push_text(&mut out, "  ");
    let t = text::format_decimal(meta);
    let t = text::pad_left(t.as_str(), 6);
    text::push_text(&mut out, t.as_str());
    text::push_text(&mut out, "  ");
    let a = text::format_decimal(total);
    let a = text::pad_left(a.as_str(), 8);
    text::push_text(&mut out, a.as_str());
    out
}

/// Writes the log lines that sum up a flush, the busiest process first.
pub fn emit_snap(secs: u64, rows: &Vec<ProcessAccessRow>) -> (r: Vec<String>)
    ensures
        text::strings_view(r@) == busiest_first(rows_view(rows@)).map_values(
            |name: Seq<char>| snap_line(secs, rows_view(rows@), name),
        ),
{
    let ghost view = rows_view(rows@);
    let names = distinct_names(rows);
    let ghost keyed_view = names_in(view).map_values(
        |n: Seq<char>| (busy_key(process_total(view, n)), n),
    );
    let ghost str_fn = |s: String| s@;
    let mut keyed: Vec<(u128, String)> = Vec::new();
    let mut i: usize = 0;
    while i < names.len()
        invariant
            i <= names.len(),
            view == rows_view(rows@),
            text::strings_view(names@) == names_in(view),
            str_fn == (|s: String| s@),
            keyed_view == names_in(view).map_values(
                |n: Seq<char>| (busy_key(process_total(view, n)), n),
            ),
            sort::map_items(keyed@, str_fn) =~= keyed_view.take(i as int),
        decreases names.len() - i,
    {
        let ghost before = keyed@;
        let (hit, miss, meta) = totals_of(rows, names[i].as_str());
        let total: u128 = hit + miss + meta;
        let key: u128 = u128::MAX - total;
        keyed.push((key, names[i].clone()));
        proof {
            assert(names_in(view)[i as int] == names@[i as int]@);
            assert(sort::map_items(keyed@, str_fn) =~= sort::map_items(before, str_fn).push(
                (key, names@[i as int]@),
            ));
        }
        i = i + 1;
    }
    assert(sort::map_items(keyed@, str_fn) =~= keyed_view);
    let sorted = sort::stable_sort(keyed);
    proof {
        sort::lemma_map_items_sorted(keyed@, str_fn);
    }
    let ghost order = busiest_first(view);
    assert(order == sort::items(sort::map_items(sorted@, str_fn)));
    let mut lines: Vec<String> = Vec::new();
    let mut j: usize = 0;
    while j < sorted.len()
        invariant
            j <= sorted.len(),
            view == rows_view(rows@),
            str_fn == (|s: String| s@),
            order == sort::items(sort::map_items(sorted@, str_fn)),
            text::strings_view(lines@) =~= order.take(j as int).map_values(
                |name: Seq<char>| snap_line(secs, view, name),
            ),
        decreases sorted.len() - j,
    {
        let ghost before = lines@;
        lines.push(make_snap_line(secs, rows, sorted[j].1.as_str()));
        proof {
            assert(order[j as int] == sorted@[j as int].1@);
            assert(text::strings_view(lines@) =~= text::strings_view(before).push(
                snap_line(secs, view, order[j as int]),
            ));
        }
        j = j + 1;
    }
    assert(order.take(order.len() as int) =~= order);
    lines
}

/// How often to flush: at least a second apart.
pub fn bucket_interval(configured_secs: u64) -> (r: u64)
    ensures
        r == (if configured_secs == 0 {
            1
        } else {
            configured_secs
        }),
{
    if configured_secs == 0 {
        1
    } else {
        configured_secs
    }
}

/// The process that a thread served last, which saves looking it up again.
pub struct LastSeen {
    entry: Option<(u32, String)>,
}

impl View for LastSeen {
    type V = Option<(u32, Seq<char>)>;

    closed spec fn view(&self) -> Option<(u32, Seq<char>)> {
        match self.entry {
            Some((pid, name)) => Some((pid, name@)),
            None => None,
        }
    }
}

impl LastSeen {
    pub fn new() -> (r: Self)
        ensures
            r@ is None,
    {
        LastSeen { entry: None }
    }

    fn name_for(&self, pid: u32) -> (r: Option<String>)
        ensures
            text::opt_view(r) == (if self@ is Some && (self@->0).0 == pid {
                Some((self@->0).1)
            } else {
                None
            }),
    {
        match &self.entry {
            Some((p, name)) => {
                if *p == pid {
                    Some(name.clone())
                } else {
                    None
                }
            },
            None => None,
        }
    }
}

/// What came of recording a metadata operation.
#[derive(Clone, Copy, Debug, PartialEq, Eq, Structural)]
pub enum TouchOutcome {
    /// Nothing is being recorded.
    Disabled,
    /// The operation was counted.
    Counted,
    /// The process is not known; describe it.
    NeedsProcess,
}

/// Switches recording on and off and takes in what happens.
pub struct DiscoveryController {
    session: Option<Session>,
    blocklist: Vec<String>,
    pid_capacity: usize,
}

/// What a controller holds.
#[verifier::ext_equal]
pub struct ControllerModel {
    pub session: Option<SessionModel>,
    pub blocklist: Seq<Seq<char>>,
    pub pid_capacity: usize,
}

impl View for DiscoveryController {
    type V = ControllerModel;

    closed spec fn view(&self) -> ControllerModel {
        ControllerModel {
            session: match self.session {
                Some(s) => Some(s@),
                None => None,
            },
            blocklist: text::strings_view(self.blocklist@),
            pid_capacity: self.pid_capacity,
        }
    }
}

impl DiscoveryController {
    /// The controller is consistent.
    pub closed spec fn wf(&self) -> bool {
        &&& self.pid_capacity <= lru_map::MAX_CAPACITY
        &&& self.session is Some ==> self.session->0.wf()
    }

    /// A controller that records nothing yet. It will remember the names of as many processes
    /// as `pid_lru_capacity` says, but of one at least.
    pub fn new(pid_lru_capacity: usize, blocklist: Vec<String>) -> (r: Self)
        requires
            pid_lru_capacity <= lru_map::MAX_CAPACITY,
        ensures
            r.wf(),
            r@ == (ControllerModel {
                session: None,
                blocklist: text::strings_view(blocklist@),
                pid_capacity: pid_lru_capacity,
            }),
    {
        DiscoveryController { session: None, blocklist, pid_capacity: pid_lru_capacity }
    }

    /// Whether processes are being recorded, and since when.
    pub fn status(&self) -> (r: DiscoveryStatus)
        ensures
            r.enabled == (self@.session is Some),
            r.started_at == (match self@.session {
                Some(s) => Some(s.started_at),
                None => None,
            }),
    {
        match &self.session {
            Some(s) => DiscoveryStatus { enabled: true, started_at: Some(s.started_at) },
            None => DiscoveryStatus { enabled: false, started_at: None },
        }
    }

    /// Starts recording at time `now`. Returns false where recording is on already.
    pub fn start(&mut self, now: i64) -> (r: bool)
        requires
            old(self).wf(),
        ensures
            final(self).wf(),
            r == (old(self)@.session is None),
            final(self)@ == (if r {
                ControllerModel {
                    session: Some(SessionModel::begun(old(self)@.pid_capacity, now)),
                    ..old(self)@
                }
            } else {
                old(self)@
            }),
    {
        if self.session.is_some() {
            return false;
        }
        self.session = Some(Session::new(self.pid_capacity, now));
        true
    }

    /// Stops recording. Returns the session, which is still to be flushed; nothing where
    /// recording is off.
    pub fn stop(&mut self) -> (r: Option<Session>)
        requires
            old(self).wf(),
        ensures
            final(self).wf(),
            final(self)@ == (ControllerModel { session: None, ..old(self)@ }),
            r is Some <==> old(self)@.session is Some,
            r matches Some(s) ==> s.wf() && Some(s@) == old(self)@.session,
    {
        let mut session: Option<Session> = None;
        std::mem::swap(&mut session, &mut self.session);
        session
    }

    /// Takes the counts of the current session for the database.
    pub fn flush(&mut self, bucket_epoch: i64) -> (r: Vec<ProcessAccessRow>)
        requires
            old(self).wf(),
        ensures
            final(self).wf(),
            match old(self)@.session {
                None => r@.len() == 0 && final(self)@ == old(self)@,
                Some(m) => is_flush(rows_view(r@), m, bucket_epoch) && final(self)@ == (
                ControllerModel { session: Some(m.flushed()), ..old(self)@ }),
            },
    {
        let mut session: Option<Session> = None;
        std::mem::swap(&mut session, &mut self.session);
        match session {
            None => Vec::new(),
            Some(mut s) => {
                let rows = s.flush_bucket(bucket_epoch);
                self.session = Some(s);
                rows
            },
        }
    }

    /// Records an open by a process. Gives a log line where the process is new to the session,
    /// and leaves everything as it is where that line cannot be written.
    pub fn log_open(&mut self, info: &ProcessInfo, outcome: OpenOutcome, secs: u64) -> (r: Result<
        Option<String>,
        Unprintable,
    >)
        requires
            old(self).wf(),
        ensures
            final(self).wf(),
            match old(self)@.session {
                None => r matches Ok(None) && final(self)@ == old(self)@,
                Some(m) => match introduction(m, *info, old(self)@.blocklist, secs) {
                    Introduction::Known => (r matches Ok(None)) && final(self)@ == (
                    ControllerModel {
                        session: Some(m.bumped(process_name(*info), OpKind::of_outcome(outcome))),
                        ..old(self)@
                    }),
                    Introduction::Unprintable => r is Err && final(self)@ == old(self)@,
                    Introduction::New { sample, line } => (r matches Ok(Some(l)) && l@ == line)
                        && final(self)@ == (ControllerModel {
                        session: Some(
                            m.introduced(process_name(*info), sample).bumped(
                                process_name(*info),
                                OpKind::of_outcome(outcome),
                            ),
                        ),
                        ..old(self)@
                    }),
                },
            },
    {
        let mut session: Option<Session> = None;
        std::mem::swap(&mut session, &mut self.session);
        match session {
            None => Ok(None),
            Some(mut s) => {
                let op = match outcome {
                    OpenOutcome::Hit => OpKind::Hit,
                    OpenOutcome::Miss => OpKind::Miss,
                    OpenOutcome::Filtered => OpKind::Miss,
                };
                let name = name_of(info);
                let line = s.introduce(info, name.as_str(), &self.blocklist, secs);
                if line.is_ok() {
                    s.bump(name.as_str(), op);
                }
                self.session = Some(s);
                line
            },
        }
    }

    /// Records a metadata operation of a process that may be known by its id: as the one that
    /// the thread served last, or as one seen lately.
    pub fn log_touch(&mut self, last: &mut LastSeen, pid: u32, op: OpKind) -> (r: TouchOutcome)
        requires
            old(self).wf(),
        ensures
            final(self).wf(),
            match old(self)@.session {
                None => r == TouchOutcome::Disabled && final(self)@ == old(self)@ && final(last)@
                    == old(last)@,
                Some(m) => if old(last)@ is Some && (old(last)@->0).0 == pid {
                    &&& r == TouchOutcome::Counted
                    &&& final(last)@ == old(last)@
                    &&& final(self)@ == (ControllerModel {
                        session: Some(m.bumped((old(last)@->0).1, op)),
                        ..old(self)@
                    })
                } else if lru_map::holds(m.pids, pid_bytes(pid)) {
                    &&& r == TouchOutcome::Counted
                    &&& final(last)@ == Some((pid, m.name_of_pid(pid)))
                    &&& final(self)@ == (ControllerModel {
                        session: Some(m.refreshed(pid).bumped(m.name_of_pid(pid), op)),
                        ..old(self)@
                    })
                } else {
                    r == TouchOutcome::NeedsProcess && final(self)@ == old(self)@ && final(last)@
                        == old(last)@
                },
            },
    {
        let mut session: Option<Session> = None;
        std::mem::swap(&mut session, &mut self.session);
        match session {
            None => TouchOutcome::Disabled,
            Some(mut s) => {
                let outcome = match last.name_for(pid) {
                    Some(name) => {
                        s.bump(name.as_str(), op);
                        TouchOutcome::Counted
                    },
                    None => match s.lookup_pid(pid) {
                        Some(name) => {
                            s.bump(name.as_str(), op);
                            last.entry = Some((pid, name));
                            TouchOutcome::Counted
                        },
                        None => TouchOutcome::NeedsProcess,
                    },
                };
                self.session = Some(s);
                outcome
            },
        }
    }

    /// Records a metadata operation of a process that was not known by its id and has now been
    /// described.
    pub fn log_touch_described(
        &mut self,
        last: &mut LastSeen,
        pid: u32,
        info: &ProcessInfo,
        op: OpKind,
        secs: u64,
    ) -> (r: Result<Option<String>, Unprintable>)
        requires
            old(self).wf(),
            old(self)@.session matches Some(m) ==> !lru_map::holds(m.pids, pid_bytes(pid)),
        ensures
            final(self).wf(),
            match old(self)@.session {
                None => (r matches Ok(None)) && final(self)@ == old(self)@ && final(last)@ == old(
                    last,
                )@,
                Some(m) => {
                    let name = process_name(*info);
                    let known = m.remembering(pid, name);
                    match introduction(m, *info, old(self)@.blocklist, secs) {
                        Introduction::Known => {
                            &&& r matches Ok(None)
                            &&& final(last)@ == Some((pid, name))
                            &&& final(self)@ == (ControllerModel {
                                session: Some(known.bumped(name, op)),
                                ..old(self)@
                            })
                        },
                        Introduction::Unprintable => r is Err && final(self)@ == old(self)@
                            && final(last)@ == old(last)@,
                        Introduction::New { sample, line } => {
                            &&& r matches Ok(Some(l)) && l@ == line
                            &&& final(last)@ == Some((pid, name))
                            &&& final(self)@ == (ControllerModel {
                                session: Some(known.introduced(name, sample).bumped(name, op)),
                                ..old(self)@
                            })
                        },
                    }
                },
            },
    {
        let mut session: Option<Session> = None;
        std::mem::swap(&mut session, &mut self.session);
        match session {
            None => Ok(None),
            Some(mut s) => {
                let name = name_of(info);
                let line = s.introduce(info, name.as_str(), &self.blocklist, secs);
                if line.is_ok() {
                    s.remember(pid, name.as_str());
                    s.bump(name.as_str(), op);
                    last.entry = Some((pid, name));
                }
                self.session = Some(s);
                line
            },
        }
    }
}

/// Collects the message of a log event.
pub struct MsgCapture {
    pub message: String,
}

/// The text of a message that was written for debugging: without its quotes and escapes.
pub open spec fn unquoted(raw: Seq<char>) -> Seq<char> {
    if raw.len() >= 2 && raw[0] == '"' && raw.last() == '"' {
        text::pair_replaced(
            text::pair_replaced(
                text::pair_replaced(
                    text::pair_replaced(raw.subrange(1, raw.len() - 1), '\\', '"', '"'),
                    '\\',
                    '\\',
                    '\\',
                ),
                '\\',
                'n',
                '\n',
            ),
            '\\',
            't',
            '\t',
        )
    } else {
        raw
    }
}

/// Takes quotes and escapes off a message that was written for debugging.
pub fn unquote(raw: &str) -> (r: String)
    ensures
        r@ == unquoted(raw@),
{
    let chars = text::str_chars(raw);
    let n: usize = chars.len();
    if n >= 2 && chars[0] == '"' && chars[n - 1] == '"' {
        let mut inner: Vec<char> = Vec::new();
        let mut i: usize = 1;
        assert(inner@ =~= chars@.subrange(1, 1));
        while i < n - 1
            invariant
                1 <= i <= n - 1,
                n == chars@.len(),
                inner@ =~= chars@.subrange(1, i as int),
            decreases n - i,
        {
            inner.push(chars[i]);
            i = i + 1;
        }
        let a = text::replace_pair(&inner, '\\', '"', '"');
        let b = text::replace_pair(&a, '\\', '\\', '\\');
        let c = text::replace_pair(&b, '\\', 'n', '\n');
        let d = text::replace_pair(&c, '\\', 't', '\t');
        text::string_of(&d)
    } else {
        raw.to_owned()
    }
}

impl MsgCapture {
    pub fn new() -> (r: Self)
        ensures
            r.message@ == Seq::<char>::empty(),
    {
        let r = MsgCapture { message: String::new() };
        assert(r.message@ =~= Seq::<char>::empty());
        r
    }

    /// Whether a field is the one to keep: the first message that is not empty.
    pub open spec fn keeps(self, field: Seq<char>) -> bool {
        field == "message"@ && self.message@.len() == 0
    }

    pub fn record_str(&mut self, field: &str, value: &str)
        ensures
            final(self).message@ == (if old(self).keeps(field@) {
                value@
            } else {
                old(self).message@
            }),
    {
        if text::str_eq(field, "message") && self.message.as_str().is_empty() {
            self.message = value.to_owned();
        }
    }

    pub fn record_debug(&mut self, field: &str, raw: &str)
        ensures
            final(self).message@ == (if old(self).keeps(field@) {
                unquoted(raw@)
            } else {
                old(self).message@
            }),
    {
        if text::str_eq(field, "message") && self.message.as_str().is_empty() {
            self.message = unquote(raw);
        }
    }
}

/// Writes log events as their bare message.
pub struct DiscoveryFormatter;

impl DiscoveryFormatter {
    /// The line for an event.
    pub fn format_event(&self, captured: &MsgCapture) -> (r: String)
        ensures
            r@ == captured.message@ + "\n"@,
    {
        text::concat2(captured.message.as_str(), "\n")
    }
}

/// A process is reported once in a session: after it was introduced, meeting its name again
/// gives no line, whatever is counted or remembered in between.
pub proof fn law_reported_once(
    m: SessionModel,
    name: Seq<char>,
    sample: (Seq<char>, Seq<char>),
    info: ProcessInfo,
    blocklist: Seq<Seq<char>>,
    secs: u64,
    op: OpKind,
    pid: u32,
)
    requires
        process_name(info) == name,
    ensures
        introduction(m.introduced(name, sample), info, blocklist, secs) == Introduction::Known,
        introduction(
            m.introduced(name, sample).bumped(name, op).remembering(pid, name).flushed(),
            info,
            blocklist,
            secs,
        ) == Introduction::Known,
{
}

/// A flush leaves nothing for another one right behind it.
pub proof fn law_flush_takes_all(m: SessionModel, rows: Seq<RowView>, epoch: i64)
    requires
        is_flush(rows, m.flushed(), epoch),
    ensures
        rows.len() == 0,
{
    if rows.len() > 0 {
        let key = (rows[0].name, rows[0].op);
        assert(m.flushed().counts.contains_key(key));
    }
}

/// What was counted since the last flush is what the next one reports.
pub proof fn law_flush_reports_counts(
    m: SessionModel,
    name: Seq<char>,
    op: OpKind,
    rows: Seq<RowView>,
    epoch: i64,
)
    requires
        m.counts.contains_key((name, op)) ==> m.counts[(name, op)] < u64::MAX,
        is_flush(rows, m.bumped(name, op), epoch),
    ensures
        exists|i: int|
            0 <= i < rows.len() && (#[trigger] rows[i]).name == name && rows[i].op == op
                && rows[i].count == one_more(m.counts, (name, op)),
{
    let b = m.bumped(name, op);
    assert(b.counts.contains_key((name, op)));
    let i = choose|i: int|
        0 <= i < rows.len() && #[trigger] rows[i] == row_for(b, (name, op), epoch);
    assert(rows[i].name == name);
}

/// Summary lines come with the busiest process first.
pub proof fn law_busiest_first(rows: Seq<RowView>, i: int, j: int)
    requires
        rows.len() <= usize::MAX,
        0 <= i <= j < busiest_first(rows).len(),
    ensures
        process_total(rows, busiest_first(rows)[i]) >= process_total(
            rows,
            busiest_first(rows)[j],
        ),
{
    let keyed = names_in(rows).map_values(|n: Seq<char>| (busy_key(process_total(rows, n)), n));
    let sorted = sort::stable_sorted(keyed);
    sort::law_sorting_sorts(keyed);
    sort::lemma_sorted_elements(keyed);
    assert(sorted[i].0 <= sorted[j].0);
    assert(keyed.contains(sorted[i]));
    assert(keyed.contains(sorted[j]));
    lemma_totals_bounded(rows, sorted[i].1);
    lemma_totals_bounded(rows, sorted[j].1);
    lemma_product_fits(rows.len());
}

/// A time of day is written as its hours, minutes and seconds, whatever the day: two digits each,
/// with colons between them.
pub proof fn law_time_of_day(days: nat, h: nat, m: nat, s: nat)
    requires
        h < 24,
        m < 60,
        s < 60,
        days * 86400 + h * 3600 + m * 60 + s <= u64::MAX,
    ensures
        hms((days * 86400 + h * 3600 + m * 60 + s) as u64) == seq![
            text::digit_char(h / 10),
            text::digit_char(h % 10),
            ':',
            text::digit_char(m / 10),
            text::digit_char(m % 10),
            ':',
            text::digit_char(s / 10),
            text::digit_char(s % 10),
        ],
{
    reveal_strlit(":");
    let t = (days * 86400 + h * 3600 + m * 60 + s) as u64;
    assert(t / 3600 == days * 24 + h);
    assert((days * 24 + h) % 24 == h);
    assert(t / 60 == days * 1440 + h * 60 + m);
    assert((days * 1440 + h * 60 + m) % 60 == m);
    assert(t % 60 == s);
    assert(hms(t) =~= seq![
        text::digit_char(h / 10),
        text::digit_char(h % 10),
        ':',
        text::digit_char(m / 10),
        text::digit_char(m % 10),
        ':',
        text::digit_char(s / 10),
        text::digit_char(s % 10),
    ]);
}

/// An open is counted as a hit exactly where it was served from the cache, and otherwise as a
/// miss; it never counts as a metadata operation. The three kinds have different labels.
pub proof fn law_opens_count_as_hit_or_miss(outcome: OpenOutcome, a: OpKind, b: OpKind)
    ensures
        OpKind::of_outcome(outcome) == OpKind::Hit <==> outcome == OpenOutcome::Hit,
        OpKind::of_outcome(outcome) == OpKind::Miss <==> outcome != OpenOutcome::Hit,
        a.label() == b.label() <==> a == b,
        OpKind::Hit.label() == "hit"@,
        OpKind::Miss.label() == "miss"@,
        OpKind::Meta.label() == "meta"@,
{
    reveal_strlit("hit");
    reveal_strlit("miss");
    reveal_strlit("meta");
    assert("hit"@.len() == 3 && "miss"@.len() == 4 && "meta"@.len() == 4);
    assert("miss"@[1] != "meta"@[1]);
}

/// Counting an operation adds one to the count of that process and kind, which starts at one, and
/// changes nothing else.
pub proof fn law_counting_adds_one(
    m: SessionModel,
    name: Seq<char>,
    op: OpKind,
    other: (Seq<char>, OpKind),
)
    requires
        other != (name, op),
    ensures
        m.bumped(name, op).counts.contains_key((name, op)),
        !m.counts.contains_key((name, op)) ==> m.bumped(name, op).counts[(name, op)] == 1,
        m.counts.contains_key((name, op)) && m.counts[(name, op)] < u64::MAX ==> m.bumped(
            name,
            op,
        ).counts[(name, op)] == m.counts[(name, op)] + 1,
        m.bumped(name, op).counts.contains_key(other) <==> m.counts.contains_key(other),
        m.counts.contains_key(other) ==> m.bumped(name, op).counts[other] == m.counts[other],
        m.bumped(name, op).samples == m.samples,
        m.bumped(name, op).pids == m.pids,
        m.bumped(name, op).names == m.names,
        m.bumped(name, op).started_at == m.started_at,
{
}

/// A session begins with nothing counted, at the time that it is given, and remembers at least one
/// process.
pub proof fn law_session_begins_empty(capacity: usize, now: i64)
    ensures
        SessionModel::begun(capacity, now).counts.dom() == Set::<(Seq<char>, OpKind)>::empty(),
        SessionModel::begun(capacity, now).samples.dom() == Set::<Seq<char>>::empty(),
        SessionModel::begun(capacity, now).pids.len() == 0,
        SessionModel::begun(capacity, now).started_at == now,
        capacity > 0 ==> SessionModel::begun(capacity, now).pid_capacity == capacity,
        capacity == 0 ==> SessionModel::begun(capacity, now).pid_capacity == 1,
{
}

/// Each row of a flush tells one count above zero: the process, the kind and the number that was
/// counted, with the sample of the process where there is one, for the given time. Every such
/// count has its row.
pub proof fn law_flush_rows_tell_the_counts(
    rows: Seq<RowView>,
    m: SessionModel,
    epoch: i64,
    i: int,
    key: (Seq<char>, OpKind),
)
    requires
        is_flush(rows, m, epoch),
    ensures
        0 <= i < rows.len() ==> {
            let r = rows[i];
            &&& r.epoch == epoch
            &&& m.counts.contains_key((r.name, r.op))
            &&& r.count == m.counts[(r.name, r.op)]
            &&& r.count > 0
            &&& m.samples.contains_key(r.name) ==> r.cmdline == Some(m.samples[r.name].0)
                && r.ancestors == Some(m.samples[r.name].1)
            &&& !m.samples.contains_key(r.name) ==> r.cmdline is None && r.ancestors is None
        },
        m.counts.contains_key(key) && m.counts[key] > 0 ==> exists|k: int|
            0 <= k < rows.len() && (#[trigger] rows[k]).name == key.0 && rows[k].op == key.1
                && rows[k].count == m.counts[key],
        m.flushed().counts.contains_key(key) <==> m.counts.contains_key(key),
        m.counts.contains_key(key) ==> m.flushed().counts[key] == 0,
        m.flushed().samples == m.samples,
        m.flushed().pids == m.pids,
        m.flushed().names == m.names,
{
    if 0 <= i < rows.len() {
        assert(m.counts.contains_key((rows[i].name, rows[i].op)));
    }
    if m.counts.contains_key(key) && m.counts[key] > 0 {
        let k = choose|k: int| 0 <= k < rows.len() && #[trigger] rows[k] == row_for(m, key, epoch);
        assert(rows[k].name == key.0);
    }
}

/// Different processes have different keys.
pub proof fn law_process_keys_differ(a: u32, b: u32)
    ensures
        pid_bytes(a) == pid_bytes(b) <==> a == b,
        pid_bytes(a).len() == 4,
{
    if pid_bytes(a) == pid_bytes(b) {
        assert(pid_bytes(a)[0] == pid_bytes(b)[0] && pid_bytes(a)[1] == pid_bytes(b)[1]
            && pid_bytes(a)[2] == pid_bytes(b)[2] && pid_bytes(a)[3] == pid_bytes(b)[3]);
    }
}

/// A process that was remembered is known by its name, as the one seen last; where the list was
/// full the one seen longest ago has given way, and no other.
pub proof fn law_remembered_process_is_known(m: SessionModel, pid: u32, name: Seq<char>, i: int)
    requires
        m.wf(),
        !lru_map::holds(m.pids, pid_bytes(pid)),
    ensures
        ({
            let after = m.remembering(pid, name);
            &&& lru_map::holds(after.pids, pid_bytes(pid))
            &&& after.name_of_pid(pid) == name
            &&& after.pids.last().1 == pid
            &&& after.pids.len() <= m.pid_capacity
            &&& m.pids.len() < m.pid_capacity && 0 <= i < m.pids.len() ==> after.pids[i]
                == m.pids[i]
            &&& m.pids.len() == m.pid_capacity && 1 <= i < m.pids.len() ==> after.pids[i - 1]
                == m.pids[i]
            &&& after.counts == m.counts && after.samples == m.samples
        }),
{
    let after = m.remembering(pid, name);
    let n = after.pids.len() - 1;
    assert(lru_map::holds_at(after.pids, pid_bytes(pid), n));
    let k = choose|k: int| lru_map::holds_at(after.pids, pid_bytes(pid), k);
    if k != n {
        let k0 = if m.pids.len() >= m.pid_capacity {
            k + 1
        } else {
            k
        };
        assert(after.pids[k] == m.pids[k0]);
        assert(lru_map::holds_at(m.pids, pid_bytes(pid), k0));
    }
}

/// Looking a remembered process up makes it the one seen last and forgets none.
pub proof fn law_lookup_refreshes(m: SessionModel, i: int)
    requires
        m.wf(),
        0 <= i < m.pids.len(),
    ensures
        m.refreshed(m.pids[i].1 as u32).pids == m.pids.remove(i).push(m.pids[i]),
        m.name_of_pid(m.pids[i].1 as u32) == m.names[m.pids[i].1],
        m.refreshed(m.pids[i].1 as u32).names == m.names,
        m.refreshed(m.pids[i].1 as u32).counts == m.counts,
{
    let pid = m.pids[i].1 as u32;
    assert(m.pids[i].0 == pid_bytes(pid));
    lru_map::law_used_entry_moves_to_the_end(m.pids, i);
    assert(lru_map::holds_at(m.pids, pid_bytes(pid), i));
    let k = choose|k: int| lru_map::holds_at(m.pids, pid_bytes(pid), k);
    if k != i {
        assert(m.pids[k].0 == m.pids[i].0);
    }
}

/// The first time that a name comes up it is reported and sampled: with what describes the process
/// and with whether it is blocked. After that it is known, and a process that cannot be described
/// is not reported.
pub proof fn law_new_processes_are_reported(
    m: SessionModel,
    info: ProcessInfo,
    blocklist: Seq<Seq<char>>,
    secs: u64,
)
    ensures
        introduction(m, info, blocklist, secs) == Introduction::Known <==> m.samples.contains_key(
            process_name(info),
        ),
        !m.samples.contains_key(process_name(info)) ==> (introduction(m, info, blocklist, secs)
            is Unprintable <==> described(info) is None),
        introduction(m, info, blocklist, secs) matches Introduction::New { sample, line }
            ==> described(info) == Some(sample) && m.introduced(process_name(info), sample).samples[
        process_name(info)] == sample && line == new_line(
            secs,
            process_name(info),
            sample.1,
            sample.0,
            info.named_in(blocklist),
        ),
        info.name matches Some(n) ==> process_name(info) == n@,
        info.name is None ==> process_name(info) == "(unknown)"@,
{
}

/// The line for a new process begins with the time, marks it as new, names it, and marks it with a
/// star exactly where it is blocked. Ancestors and command line follow where there are any.
pub proof fn law_new_line_columns(
    secs: u64,
    name: Seq<char>,
    ancestors: Seq<char>,
    cmdline: Seq<char>,
    blocked: bool,
)
    requires
        name.len() <= 32,
    ensures
        ({
            let line = new_line(secs, name, ancestors, cmdline, blocked);
            &&& line.take(8) == hms(secs)
            &&& line.subrange(10, 13) == "NEW"@
            &&& line.subrange(18, 18int + name.len()) == name
            &&& line[52] == (if blocked {
                '*'
            } else {
                '-'
            })
            &&& ancestors.len() > 0 && cmdline.len() == 0 ==> line.skip(line.len()
                - ancestors.len()) == ancestors
            &&& cmdline.len() > 0 ==> line.skip(line.len() - text::debug_quoted(cmdline).len())
                == text::debug_quoted(cmdline)
        }),
{
    reveal_strlit(":");
    reveal_strlit("  NEW     ");
    reveal_strlit("NEW");
    reveal_strlit("  ");
    reveal_strlit("*");
    reveal_strlit("-");
    let line = new_line(secs, name, ancestors, cmdline, blocked);
    assert(hms(secs).len() == 8);
    assert(line.take(8) =~= hms(secs));
    assert(line.subrange(10, 13) =~= "NEW"@);
    assert(line.subrange(18, 18int + name.len()) =~= name);
    if ancestors.len() > 0 && cmdline.len() == 0 {
        assert(line.skip(line.len() - ancestors.len()) =~= ancestors);
    }
    if cmdline.len() > 0 {
        assert(line.skip(line.len() - text::debug_quoted(cmdline).len()) =~= text::debug_quoted(
            cmdline,
        ));
    }
}

/// The counts of a process add up over rows, each kind by itself, and the total is the sum of the
/// three kinds.
pub proof fn law_totals_add_up(a: Seq<RowView>, row: RowView, name: Seq<char>, op: OpKind)
    ensures
        op_total(Seq::empty(), name, op) == 0,
        row.name == name && row.op == op ==> op_total(a.push(row), name, op) == op_total(
            a,
            name,
            op,
        ) + row.count,
        row.name != name || row.op != op ==> op_total(a.push(row), name, op) == op_total(
            a,
            name,
            op,
        ),
        row.name == name ==> process_total(a.push(row), name) == process_total(a, name) + row.count,
        row.name != name ==> process_total(a.push(row), name) == process_total(a, name),
{
    assert(a.push(row).drop_last() =~= a);
}

/// Every process that has a row is summed up once.
pub proof fn law_every_process_is_summed_up(rows: Seq<RowView>, i: int)
    requires
        0 <= i < rows.len(),
    ensures
        names_in(rows).contains(rows[i].name),
        names_in(rows).no_duplicates(),
        busiest_first(rows).contains(rows[i].name),
        busiest_first(rows).no_duplicates(),
        busiest_first(rows).len() == names_in(rows).len(),
{
    lemma_names_once(rows, i);
    let keyed = names_in(rows).map_values(|n: Seq<char>| (busy_key(process_total(rows, n)), n));
    assert(sort::items(keyed) =~= names_in(rows));
    sort::law_sorting_sorts(keyed);
    sort::lemma_sorted_distinct(keyed);
    let k = choose|k: int| 0 <= k < names_in(rows).len() && names_in(rows)[k] == rows[i].name;
    assert(keyed[k].1 == rows[i].name);
    assert(keyed.contains(keyed[k]));
    lemma_sorted_name(keyed, keyed[k]);
}

proof fn lemma_sorted_name(keyed: Seq<(u128, Seq<char>)>, x: (u128, Seq<char>))
    requires
        keyed.contains(x),
    ensures
        sort::items(sort::stable_sorted(keyed)).contains(x.1),
{
    broadcast use vstd::seq_lib::group_to_multiset_ensures;

    sort::law_sorting_permutes(keyed);
    let sorted = sort::stable_sorted(keyed);
    assert(keyed.to_multiset().count(x) > 0);
    assert(sorted.contains(x));
    let k = choose|k: int| 0 <= k < sorted.len() && sorted[k] == x;
    assert(sort::items(sorted)[k] == x.1);
}

proof fn lemma_names_once(rows: Seq<RowView>, i: int)
    ensures
        names_in(rows).no_duplicates(),
        0 <= i < rows.len() ==> names_in(rows).contains(rows[i].name),
    decreases rows.len(),
{
    if rows.len() > 0 {
        let init = rows.drop_last();
        lemma_names_once(init, i);
        let before = names_in(init);
        let after = names_in(rows);
        if 0 <= i < init.len() {
            assert(init[i] == rows[i]);
            let k = choose|k: int| 0 <= k < before.len() && before[k] == rows[i].name;
            assert(after[k] == rows[i].name);
        } else if i == init.len() && !before.contains(rows[i].name) {
            assert(after[before.len() as int] == rows[i].name);
        }
        if !before.contains(rows.last().name) {
            assert forall|a: int, b: int|
                0 <= a < after.len() && 0 <= b < after.len() && a != b implies after[a]
                != after[b] by {
                if a < before.len() && b < before.len() {
                    assert(before[a] != before[b]);
                } else if a < before.len() {
                    assert(before.contains(before[a]));
                } else {
                    assert(before.contains(before[b]));
                }
            }
        }
    }
}

/// The line that sums up a process tells its hits, misses, metadata operations and their total in
/// this order, each at the right end of its column, as long as they fit.
pub proof fn law_snap_line_columns(secs: u64, rows: Seq<RowView>, name: Seq<char>)
    requires
        name.len() <= 32,
        text::decimal(op_total(rows, name, OpKind::Hit)).len() <= 6,
        text::decimal(op_total(rows, name, OpKind::Miss)).len() <= 6,
        text::decimal(op_total(rows, name, OpKind::Meta)).len() <= 6,
        text::decimal(process_total(rows, name)).len() <= 8,
    ensures
        ({
            let line = snap_line(secs, rows, name);
            let hit = text::decimal(op_total(rows, name, OpKind::Hit));
            let miss = text::decimal(op_total(rows, name, OpKind::Miss));
            let meta = text::decimal(op_total(rows, name, OpKind::Meta));
            let all = text::decimal(process_total(rows, name));
            &&& line.len() == 87
            &&& line.take(8) == hms(secs)
            &&& line.subrange(18, 18int + name.len()) == name
            &&& line.subrange(61 - hit.len(), 61) == hit
            &&& line.subrange(69 - miss.len(), 69) == miss
            &&& line.subrange(77 - meta.len(), 77) == meta
            &&& line.subrange(87 - all.len(), 87) == all
        }),
{
    reveal_strlit(":");
    reveal_strlit("  SNAP    ");
    reveal_strlit("  -  ");
    reveal_strlit("  ");
    let line = snap_line(secs, rows, name);
    let hit = text::decimal(op_total(rows, name, OpKind::Hit));
    let miss = text::decimal(op_total(rows, name, OpKind::Miss));
    let meta = text::decimal(op_total(rows, name, OpKind::Meta));
    let all = text::decimal(process_total(rows, name));
    assert(hms(secs).len() == 8);
    assert(line.take(8) =~= hms(secs));
    assert(line.subrange(18, 18int + name.len()) =~= name);
    assert(line.subrange(61 - hit.len(), 61) =~= hit);
    assert(line.subrange(69 - miss.len(), 69) =~= miss);
    assert(line.subrange(77 - meta.len(), 77) =~= meta);
    assert(line.subrange(87 - all.len(), 87) =~= all);
}

/// A text of at most a hundred bytes is not shortened. A longer one that can be cut there becomes
/// its first hundred bytes with an ellipsis behind them.
pub proof fn law_shortening(s: Seq<char>)
    ensures
        vstd::utf8::encode_utf8(s).len() <= 100 ==> shortened(s) == Some(s),
        vstd::utf8::encode_utf8(s).len() > 100 ==> (shortened(s) is Some
            <==> vstd::utf8::is_char_boundary(vstd::utf8::encode_utf8(s), 100)),
        vstd::utf8::encode_utf8(s).len() > 100 ==> (shortened(s) matches Some(t) ==> t.len() > 0
            && t.last() == '…' && t.drop_last() == vstd::utf8::decode_utf8(
            vstd::utf8::encode_utf8(s).take(100),
        )),
{
    reveal_strlit("…");
    let bytes = vstd::utf8::encode_utf8(s);
    if bytes.len() > 100 {
        assert(bytes.subrange(0, 100) =~= bytes.take(100));
        let head = vstd::utf8::decode_utf8(bytes.take(100));
        assert((head + "…"@).drop_last() =~= head);
    }
}

/// A quoted message without escapes is what stands between its quotes, and one that is not quoted
/// stays as it is.
pub proof fn law_unquoting(s: Seq<char>)
    ensures
        !s.contains('\\') ==> unquoted(seq!['"'] + s + seq!['"']) == s,
        s.len() < 2 || s[0] != '"' || s.last() != '"' ==> unquoted(s) == s,
{
    if !s.contains('\\') {
        let raw = seq!['"'] + s + seq!['"'];
        assert(raw[0] == '"' && raw.last() == '"');
        assert(raw.subrange(1, raw.len() - 1) =~= s);
        assert forall|i: int| 0 <= i < s.len() implies #[trigger] s[i] != '\\' by {
            assert(s.contains(s[i]));
        }
        text::law_replacing_pairs(s, '\\', '"', '"');
        text::law_replacing_pairs(s, '\\', '\\', '\\');
        text::law_replacing_pairs(s, '\\', 'n', '\n');
        text::law_replacing_pairs(s, '\\', 't', '\t');
    }
}

/// A command line shows its arguments in order with blanks between them, without empty ones.
pub proof fn law_command_words(args: Seq<Seq<u8>>)
    requires
        args.len() > 0,
        forall|i: int|
            0 <= i < args.len() ==> !(#[trigger] args[i]).contains(0u8) && args[i].len() > 0,
    ensures
        command_words(text::join_with(args, seq![0u8])) == args.map_values(
            |word: Seq<u8>| text::lossy_utf8(word),
        ),
        command_words(text::join_with(args.push(Seq::empty()), seq![0u8])) == args.map_values(
            |word: Seq<u8>| text::lossy_utf8(word),
        ),
{
    let keep = |word: Seq<u8>| word.len() > 0;
    text::lemma_split_join(args, 0u8);
    crate::path::lemma_filter_keeps_all(args, keep);
    let closed = args.push(Seq::<u8>::empty());
    assert forall|i: int| 0 <= i < closed.len() implies !(#[trigger] closed[i]).contains(0u8) by {
        if i < args.len() {
            assert(closed[i] == args[i]);
        }
    }
    text::lemma_split_join(closed, 0u8);
    text::lemma_filter_push(args, Seq::<u8>::empty(), keep);
}

/// A process is described by its command line, shortened where it is long, and by the chain of its
/// ancestors, the nearest first. It cannot be described where its command line cannot be shortened.
pub proof fn law_processes_are_described(info: ProcessInfo)
    ensures
        described(info) matches Some((cmdline, ancestors)) ==> shortened(command_text(info.cmdline))
            == Some(cmdline) && ancestors == text::join_with(
            text::strings_view(info.ancestors@),
            seq!['>'],
        ),
        described(info) is None <==> shortened(command_text(info.cmdline)) is None,
        info.cmdline is None ==> command_text(info.cmdline).len() == 0,
        info.cmdline matches Some(bytes) ==> command_text(info.cmdline) == text::join_with(
            command_words(bytes@),
            seq![' '],
        ),
{
    reveal_strlit(">");
    reveal_strlit(" ");
    assert(">"@ =~= seq!['>']);
    assert(" "@ =~= seq![' ']);
}

/// Remembering a process keeps the names of all that stay remembered, and drops the name of the
/// one that gives way unless it is the same process.
pub proof fn law_remembering_keeps_names(m: SessionModel, pid: u32, name: Seq<char>, i: int)
    requires
        m.wf(),
        !lru_map::holds(m.pids, pid_bytes(pid)),
        0 <= i < m.pids.len(),
    ensures
        m.pids.len() < m.pid_capacity ==> m.remembering(pid, name).names[m.pids[i].1]
            == m.names[m.pids[i].1],
        m.pids.len() == m.pid_capacity && i > 0 ==> m.remembering(pid, name).names[m.pids[i].1]
            == m.names[m.pids[i].1],
        m.pids.len() == m.pid_capacity ==> !m.remembering(pid, name).names.contains_key(
            m.pids[0].1,
        ),
        m.remembering(pid, name).names.contains_key(pid as i64),
{
    assert(!lru_map::holds_at(m.pids, pid_bytes(pid), i));
    assert(!lru_map::holds_at(m.pids, pid_bytes(pid), 0));
    assert(m.pids[i].1 != pid);
    assert(m.pids[0].1 != pid);
    if i > 0 {
        assert(m.pids[0].0 != m.pids[i].0);
        assert(m.pids[0].1 != m.pids[i].1);
    }
}

/// Of a log event the first message that is not empty is kept, and no other field.
pub proof fn law_first_message_is_kept(captured: MsgCapture, field: Seq<char>)
    ensures
        captured.keeps(field) ==> field == "message"@,
        captured.message@.len() > 0 ==> !captured.keeps(field),
        captured.message@.len() == 0 ==> captured.keeps("message"@),
{
}

} // verus!
