//! What the command line tool decides and prints.

use crate::daemon;
use crate::discovery;
use crate::text;
use vstd::prelude::*;

verus! {

/// A running instance, as far as it introduced itself.
pub struct Instance {
    pub name: String,
    /// The directories that it has mounted over.
    pub targets: Vec<String>,
}

/// View of an instance.
pub struct InstanceView {
    pub name: Seq<char>,
    pub targets: Seq<Seq<char>>,
}

impl View for Instance {
    type V = InstanceView;

    open spec fn view(&self) -> InstanceView {
        InstanceView { name: self.name@, targets: text::strings_view(self.targets@) }
    }
}

/// How a client finds the socket to connect to.
#[derive(Debug, PartialEq, Eq)]
pub enum SocketChoice {
    /// Connect to this socket.
    Connect(String),
    /// Connect to the only running instance, and say so.
    OnlyInstance { index: usize, socket: String },
    /// Nothing is running.
    NoInstance,
    /// Ask which of the running instances is meant.
    Ask,
}

/// Finds the socket to connect to: one that was given, that of an instance that was named, or
/// that of the only instance that is running.
pub fn resolve_socket(
    instance: &Option<String>,
    socket: &Option<String>,
    found: &Vec<Instance>,
) -> (r: SocketChoice)
    ensures
        match *socket {
            Some(path) => r matches SocketChoice::Connect(p) && p@ == path@,
            None => match *instance {
                Some(name) => r matches SocketChoice::Connect(p) && p@ == daemon::socket_of(name@),
                None => if found@.len() == 0 {
                    r is NoInstance
                } else if found@.len() == 1 {
                    r matches SocketChoice::OnlyInstance { index, socket } && index == 0 && socket@
                        == daemon::socket_of(found@[0].name@)
                } else {
                    r is Ask
                },
            },
        },
{
    match socket {
        Some(path) => {
            return SocketChoice::Connect(path.clone());
        },
        None => {},
    }
    match instance {
        Some(name) => {
            return SocketChoice::Connect(daemon::socket_path(name.as_str()));
        },
        None => {},
    }
    if found.len() == 0 {
        SocketChoice::NoInstance
    } else if found.len() == 1 {
        SocketChoice::OnlyInstance {
            index: 0,
            socket: daemon::socket_path(found[0].name.as_str()),
        }
    } else {
        SocketChoice::Ask
    }
}

/// Why a selection was not accepted.
#[derive(Clone, Copy, Debug, PartialEq, Eq, Structural)]
pub enum SelectionError {
    /// It is not a number.
    Invalid,
    /// There is no instance of that number.
    OutOfRange,
}

/// The position that a selection stands for. Selections count from one.
pub open spec fn selected(choice: Seq<char>, count: nat) -> Result<nat, SelectionError> {
    match text::decimal_value(choice, usize::MAX as nat) {
        None => Err(SelectionError::Invalid),
        Some(n) => if 1 <= n <= count {
            Ok((n - 1) as nat)
        } else {
            Err(SelectionError::OutOfRange)
        },
    }
}

/// A character that counts as white space.
pub open spec fn is_white(c: char) -> bool {
    let n = c as nat;
    0x9 <= n <= 0xd || n == 0x20 || n == 0x85 || n == 0xa0 || n == 0x1680 || 0x2000 <= n <= 0x200a
        || n == 0x2028 || n == 0x2029 || n == 0x202f || n == 0x205f || n == 0x3000
}

/// A text without white space at its ends.
pub open spec fn trimmed(s: Seq<char>) -> Seq<char>
    decreases s.len(),
{
    if s.len() == 0 {
        s
    } else if is_white(s[0]) {
        trimmed(s.skip(1))
    } else if is_white(s.last()) {
        trimmed(s.drop_last())
    } else {
        s
    }
}

fn white(c: char) -> (r: bool)
    ensures
        r == is_white(c),
{
    let n: u32 = c as u32;
    (0x9 <= n && n <= 0xd) || n == 0x20 || n == 0x85 || n == 0xa0 || n == 0x1680 || (0x2000 <= n
        && n <= 0x200a) || n == 0x2028 || n == 0x2029 || n == 0x202f || n == 0x205f || n == 0x3000
}

/// Takes white space off both ends of a text.
pub fn trim(s: &str) -> (r: String)
    ensures
        r@ == trimmed(s@),
{
    let chars = text::str_chars(s);
    let mut start: usize = 0;
    let mut end: usize = chars.len();
    assert(chars@.subrange(0, end as int) =~= chars@);
    while start < end && white(chars[start])
        invariant
            start <= end,
            end == chars@.len(),
            trimmed(chars@) == trimmed(chars@.subrange(start as int, end as int)),
        decreases end - start,
    {
        proof {
            let rest = chars@.subrange(start as int, end as int);
            assert(rest.skip(1) =~= chars@.subrange(start + 1, end as int));
        }
        start = start + 1;
    }
    while start < end && white(chars[end - 1])
        invariant
            start <= end <= chars@.len(),
            start < end ==> !is_white(chars@[start as int]),
            trimmed(chars@) == trimmed(chars@.subrange(start as int, end as int)),
        decreases end - start,
    {
        proof {
            let rest = chars@.subrange(start as int, end as int);
            assert(rest.drop_last() =~= chars@.subrange(start as int, end - 1));
        }
        end = end - 1;
    }
    let ghost rest = chars@.subrange(start as int, end as int);
    let mut out = String::new();
    let mut i: usize = start;
    while i < end
        invariant
            start <= i <= end <= chars@.len(),
            out@ =~= chars@.subrange(start as int, i as int),
        decreases end - i,
    {
        out.push(chars[i]);
        i = i + 1;
    }
    assert(trimmed(rest) == rest);
    out
}

/// Reads a selection that has no white space around it.
pub fn parse_selection(choice: &str, count: usize) -> (r: Result<usize, SelectionError>)
    ensures
        r matches Ok(i) ==> selected(choice@, count as nat) == Ok::<nat, SelectionError>(i as nat),
        r matches Err(e) ==> selected(choice@, count as nat) == Err::<nat, SelectionError>(e),
{
    match text::parse_decimal(choice, usize::MAX as u64) {
        None => Err(SelectionError::Invalid),
        Some(n) => {
            if n >= 1 && n <= count as u64 {
                Ok((n - 1) as usize)
            } else {
                Err(SelectionError::OutOfRange)
            }
        },
    }
}

/// Reads a selection from a line of input.
pub fn read_selection(line: &str, count: usize) -> (r: Result<usize, SelectionError>)
    ensures
        r matches Ok(i) ==> selected(trimmed(line@), count as nat) == Ok::<nat, SelectionError>(
            i as nat,
        ),
        r matches Err(e) ==> selected(trimmed(line@), count as nat) == Err::<nat, SelectionError>(
            e,
        ),
{
    let choice = trim(line);
    parse_selection(choice.as_str(), count)
}

/// One line of the list of running instances.
pub fn instance_line(position: usize, instance: &Instance) -> (r: String)
    requires
        position < usize::MAX,
    ensures
        r@ == "  "@ + text::decimal((position + 1) as nat) + ". "@ + text::padded_right(
            instance@.name,
            20,
        ) + "  "@ + text::decimal(instance@.targets.len()) + " mount(s)  "@ + text::join_with(
            instance@.targets,
            ", "@,
        ),
{
    let number = text::format_decimal(position as u128 + 1);
    let mut out = text::concat2("  ", number.as_str());
    text::push_text(&mut out, ". ");
    let padded = text::pad_right(instance.name.as_str(), 20);
    text::push_text(&mut out, padded.as_str());
    text::push_text(&mut out, "  ");
    let mounts = text::format_decimal(instance.targets.len() as u128);
    text::push_text(&mut out, mounts.as_str());
    text::push_text(&mut out, " mount(s)  ");
    let targets = text::join_strings(&instance.targets, ", ");
    text::push_text(&mut out, targets.as_str());
    out
}

/// What is known about instances when one has to be named.
pub open spec fn instance_named(
    instance: Option<Seq<char>>,
    running: Seq<Seq<char>>,
    databases: Seq<Seq<char>>,
) -> Result<Seq<char>, Seq<char>> {
    match instance {
        Some(name) => Ok(name),
        None => if running.len() == 1 {
            Ok(running[0])
        } else if running.len() > 1 {
            Err(
                "Multiple instances running: "@ + text::join_with(running, ", "@)
                    + ". Use -i INSTANCE to specify one."@,
            )
        } else if databases.len() == 0 {
            Err(
                "No running fscache instances and no DB files found. Use -i INSTANCE to specify one by name."@,
            )
        } else if databases.len() == 1 {
            Ok(databases[0])
        } else {
            Err(
                "Multiple DB files found: "@ + text::join_with(databases, ", "@)
                    + ". Use -i INSTANCE to specify one."@,
            )
        },
    }
}

/// View of a result with a text on both sides.
pub open spec fn result_view(r: Result<String, String>) -> Result<Seq<char>, Seq<char>> {
    match r {
        Ok(s) => Ok(s@),
        Err(s) => Err(s@),
    }
}

/// Names the instance that is meant: the given one, the only one that is running, or the only
/// one that has left a database behind.
pub fn resolve_instance_name(
    instance: &Option<String>,
    running: &Vec<String>,
    databases: &Vec<String>,
) -> (r: Result<String, String>)
    ensures
        result_view(r) == instance_named(
            text::opt_view(*instance),
            text::strings_view(running@),
            text::strings_view(databases@),
        ),
{
    match instance {
        Some(name) => {
            return Ok(name.clone());
        },
        None => {},
    }
    if running.len() == 1 {
        return Ok(running[0].clone());
    }
    if running.len() > 1 {
        let names = text::join_strings(running, ", ");
        let mut message = text::concat2("Multiple instances running: ", names.as_str());
        text::push_text(&mut message, ". Use -i INSTANCE to specify one.");
        return Err(message);
    }
    if databases.len() == 0 {
        return Err(
            "No running fscache instances and no DB files found. Use -i INSTANCE to specify one by name.".to_owned(),
        );
    }
    if databases.len() == 1 {
        return Ok(databases[0].clone());
    }
    let names = text::join_strings(databases, ", ");
    let mut message = text::concat2("Multiple DB files found: ", names.as_str());
    text::push_text(&mut message, ". Use -i INSTANCE to specify one.");
    Err(message)
}

/// The instance whose database has this file name: the name in front of `.db`.
pub open spec fn database_owner(file_name: Seq<char>) -> Option<Seq<char>> {
    let n = file_name.len();
    if n > 3 && file_name.skip(n - 3) == seq!['.', 'd', 'b'] {
        Some(file_name.take(n - 3))
    } else {
        None
    }
}

/// Reads the name of an instance off the name of its database.
pub fn db_instance_name(file_name: &str) -> (r: Option<String>)
    ensures
        text::opt_view(r) == database_owner(file_name@),
{
    let chars = text::str_chars(file_name);
    let n: usize = chars.len();
    let is_db = n > 3 && chars[n - 3] == '.' && chars[n - 2] == 'd' && chars[n - 1] == 'b';
    proof {
        if n > 3 {
            let tail = file_name@.skip(n - 3);
            if is_db {
                assert(tail =~= seq!['.', 'd', 'b']);
            } else {
                assert(tail[0] == chars@[n - 3] && tail[1] == chars@[n - 2] && tail[2]
                    == chars@[n - 1]);
            }
        }
    }
    if !is_db {
        return None;
    }
    let mut out = String::new();
    let mut i: usize = 0;
    assert(out@ =~= chars@.take(0));
    while i < n - 3
        invariant
            i <= n - 3,
            n == chars@.len(),
            n > 3,
            out@ =~= chars@.take(i as int),
        decreases n - i,
    {
        out.push(chars[i]);
        i = i + 1;
    }
    Some(out)
}

/// How the `humantime` crate words a duration in whole seconds.
pub uninterp spec fn duration_text(secs: u64) -> Seq<char>;

/// `humantime::format_duration` words a duration; the text is a function of the duration
/// alone.
#[verifier::external_body]
fn format_duration(secs: u64) -> (r: String)
    ensures
        r@ == duration_text(secs),
{
    humantime::format_duration(std::time::Duration::from_secs(secs)).to_string()
}

/// What the `humantime` crate makes of a duration in words: its whole seconds, or what is
/// wrong with it.
pub uninterp spec fn parsed_duration(words: Seq<char>) -> Result<u64, Seq<char>>;

/// View of a parsed duration.
pub open spec fn parsed_view(r: Result<u64, String>) -> Result<u64, Seq<char>> {
    match r {
        Ok(n) => Ok(n),
        Err(s) => Err(s@),
    }
}

/// Whether `c` is a decimal digit.
pub open spec fn is_digit(c: char) -> bool {
    '0' <= c && c <= '9'
}

/// Whether `c` may occur in the unit of a duration.
pub open spec fn is_unit_letter(c: char) -> bool {
    ('a' <= c && c <= 'z') || ('A' <= c && c <= 'Z') || c == 'µ'
}

/// Whether a unit begins at position `i`.
pub open spec fn unit_begins(words: Seq<char>, i: int) -> bool {
    &&& 0 <= i < words.len()
    &&& is_unit_letter(words[i])
    &&& i == 0 || !is_unit_letter(words[i - 1])
}

/// Whether the unit that begins at position `i` may be one below a second: `nanos`, `nsec`,
/// `ns`, `usec`, `us`, `µs`, `millis`, `msec` or `ms`.
pub open spec fn small_unit_begins(words: Seq<char>, i: int) -> bool {
    &&& unit_begins(words, i)
    &&& {
        ||| words[i] == 'n'
        ||| words[i] == 'u'
        ||| words[i] == 'µ'
        ||| words[i] == 'm' && i + 1 < words.len() && words[i + 1] == 's'
        ||| words[i] == 'm' && i + 2 < words.len() && words[i + 1] == 'i' && words[i + 2] == 'l'
    }
}

/// How many seconds the unit that begins at position `i` has at most.
pub open spec fn unit_secs(words: Seq<char>, i: int) -> nat {
    let c = words[i];
    if small_unit_begins(words, i) {
        1
    } else if c == 'y' {
        31_557_600
    } else if c == 'M' || (c == 'm' && i + 1 < words.len() && words[i + 1] == 'o') {
        2_630_016
    } else if c == 'w' {
        604_800
    } else if c == 'd' {
        86_400
    } else if c == 'h' {
        3_600
    } else if c == 'm' {
        60
    } else {
        1
    }
}

/// What the first `n` characters come to: the whole number that is being read, whether its
/// fraction has begun, and a bound on the seconds of the parts before it, each rounded up to a
/// whole number of its unit.
pub open spec fn tally(words: Seq<char>, n: nat) -> (nat, bool, nat)
    decreases n,
{
    if n == 0 {
        (0, false, 0)
    } else {
        let (number, fraction, secs) = tally(words, (n - 1) as nat);
        let c = words[n - 1];
        if is_digit(c) && !fraction {
            (number * 10 + (c as nat - '0' as nat) as nat, fraction, secs)
        } else if c == '.' {
            (number, true, secs)
        } else if unit_begins(words, n - 1) {
            (0, false, secs + (number + 1) * unit_secs(words, n - 1))
        } else {
            (number, fraction, secs)
        }
    }
}

/// Whether a duration in words is small enough, or simple enough, to be added up: it comes to no
/// more than `u64::MAX` seconds, or has no more than one unit, or no part below a second.
pub open spec fn duration_in_range(words: Seq<char>) -> bool {
    ||| tally(words, words.len()).2 <= u64::MAX
    ||| forall|i: int, j: int| #[trigger]
        unit_begins(words, i) && #[trigger] unit_begins(words, j) ==> i == j
    ||| !words.contains('.') && forall|i: int| !#[trigger] small_unit_begins(words, i)
}

/// The first number that is too large to be a count of seconds.
const TOO_MANY_SECS: u128 = 0x1_0000_0000_0000_0000;

/// `x`, but no more than the first number that is too large.
spec fn capped(x: nat) -> nat {
    if x < TOO_MANY_SECS {
        x
    } else {
        TOO_MANY_SECS as nat
    }
}

fn cap(x: u128) -> (r: u128)
    ensures
        r == capped(x as nat),
{
    if x < TOO_MANY_SECS {
        x
    } else {
        TOO_MANY_SECS
    }
}

proof fn lemma_capped_part(number: nat, secs: nat, unit: nat)
    requires
        1 <= unit,
    ensures
        capped(secs + (number + 1) * unit) == capped(capped(secs) + (capped(number) + 1) * unit),
{
    assert((number + 1) * unit >= number + 1) by (nonlinear_arith)
        requires
            1 <= unit,
    ;
    assert((capped(number) + 1) * unit >= capped(number) + 1) by (nonlinear_arith)
        requires
            1 <= unit,
    ;
}

fn begins_unit(chars: &Vec<char>, i: usize) -> (r: bool)
    requires
        i < chars@.len(),
    ensures
        r == unit_begins(chars@, i as int),
{
    is_letter(chars[i]) && (i == 0 || !is_letter(chars[i - 1]))
}

fn begins_small_unit(chars: &Vec<char>, i: usize) -> (r: bool)
    requires
        i < chars@.len(),
    ensures
        r == small_unit_begins(chars@, i as int),
{
    let c: char = chars[i];
    let left: usize = chars.len() - i;
    begins_unit(chars, i) && (c == 'n' || c == 'u' || c == 'µ' || (c == 'm' && left > 1 && chars[i
        + 1] == 's') || (c == 'm' && left > 2 && chars[i + 1] == 'i' && chars[i + 2] == 'l'))
}

fn secs_of_unit(chars: &Vec<char>, i: usize) -> (r: u128)
    requires
        i < chars@.len(),
    ensures
        r == unit_secs(chars@, i as int),
        1 <= r <= 31_557_600,
{
    let c: char = chars[i];
    if begins_small_unit(chars, i) {
        1
    } else if c == 'y' {
        31_557_600
    } else if c == 'M' || (c == 'm' && chars.len() - i > 1 && chars[i + 1] == 'o') {
        2_630_016
    } else if c == 'w' {
        604_800
    } else if c == 'd' {
        86_400
    } else if c == 'h' {
        3_600
    } else if c == 'm' {
        60
    } else {
        1
    }
}

/// Tells whether the parts of a duration in words come to no more than `u64::MAX` seconds.
fn secs_fit(chars: &Vec<char>) -> (r: bool)
    ensures
        r == (tally(chars@, chars@.len()).2 <= u64::MAX),
{
    let mut number: u128 = 0;
    let mut fraction = false;
    let mut secs: u128 = 0;
    let mut i: usize = 0;
    while i < chars.len()
        invariant
            i <= chars.len(),
            number == capped(tally(chars@, i as nat).0),
            fraction == tally(chars@, i as nat).1,
            secs == capped(tally(chars@, i as nat).2),
        decreases chars.len() - i,
    {
        let c: char = chars[i];
        if '0' <= c && c <= '9' && !fraction {
            let digit: u128 = c as u128 - '0' as u128;
            number = cap(number * 10 + digit);
        } else if c == '.' {
            fraction = true;
        } else if begins_unit(chars, i) {
            let unit = secs_of_unit(chars, i);
            proof {
                let (n, _, s) = tally(chars@, i as nat);
                lemma_capped_part(n, s, unit as nat);
                assert((number + 1) * unit <= (TOO_MANY_SECS + 1) * 31_557_600) by (nonlinear_arith)
                    requires
                        0 <= number <= TOO_MANY_SECS,
                        1 <= unit <= 31_557_600,
                ;
            }
            secs = cap(secs + (number + 1) * unit);
            number = 0;
            fraction = false;
        }
        i = i + 1;
    }
    secs < TOO_MANY_SECS
}

/// Tells whether a duration in words can be added up.
fn is_duration_in_range(words: &str) -> (r: bool)
    ensures
        r == duration_in_range(words@),
{
    let chars = text::str_chars(words);
    let mut unit: Option<usize> = None;
    let mut several = false;
    let mut dotted = false;
    let mut small = false;
    let mut i: usize = 0;
    while i < chars.len()
        invariant
            i <= chars.len(),
            chars@ == words@,
            unit matches Some(u) ==> u < i && unit_begins(words@, u as int),
            several <==> exists|a: int, b: int|
                #![trigger unit_begins(words@, a), unit_begins(words@, b)]
                a < i && b < i && a != b && unit_begins(words@, a) && unit_begins(words@, b),
            !several ==> forall|a: int| #[trigger]
                unit_begins(words@, a) && a < i ==> unit == Some(a as usize),
            dotted <==> words@.take(i as int).contains('.'),
            small <==> exists|a: int| a < i && #[trigger] small_unit_begins(words@, a),
        decreases chars.len() - i,
    {
        let c: char = chars[i];
        if begins_unit(&chars, i) {
            match unit {
                Some(u) => {
                    assert(unit_begins(words@, u as int));
                    several = true;
                },
                None => {
                    unit = Some(i);
                },
            }
        }
        if c == '.' {
            dotted = true;
        }
        if begins_small_unit(&chars, i) {
            small = true;
        }
        proof {
            assert(words@.take(i + 1) =~= words@.take(i as int).push(c));
            if words@.take(i as int).contains('.') {
                let a = choose|a: int| 0 <= a < i && words@.take(i as int)[a] == '.';
                assert(words@.take(i + 1)[a] == '.');
            }
            if c == '.' {
                assert(words@.take(i + 1)[i as int] == '.');
            }
        }
        i = i + 1;
    }
    assert(words@.take(words@.len() as int) =~= words@);
    !several || !(dotted || small) || secs_fit(&chars)
}

fn is_letter(c: char) -> (r: bool)
    ensures
        r == is_unit_letter(c),
{
    ('a' <= c && c <= 'z') || ('A' <= c && c <= 'Z') || c == 'µ'
}

/// `humantime::parse_duration` reads a duration, and its error says what is wrong; both are
/// functions of the words alone. It panics where the seconds have come to `u64::MAX` and the
/// parts below a second come to exactly one second more. That takes two units, a part below a
/// second, and parts that come to more than `u64::MAX` seconds. Words that have all three are
/// left out here; those of them that do not panic are longer than a duration can be, or come
/// within one unit of that.
#[verifier::external_body]
fn parse_duration(words: &str) -> (r: Result<u64, String>)
    requires
        duration_in_range(words@),
    ensures
        parsed_view(r) == parsed_duration(words@),
{
    match humantime::parse_duration(words) {
        Ok(duration) => Ok(duration.as_secs()),
        Err(error) => Err(error.to_string()),
    }
}

/// The line that tells whether processes are being recorded; `ago` is for how long, where that
/// is known.
pub open spec fn recording_text(enabled: bool, ago: Option<Seq<char>>) -> Seq<char> {
    if !enabled {
        "Recording: off"@
    } else {
        match ago {
            None => "Recording: on"@,
            Some(t) => "Recording: on (started "@ + t + " ago)"@,
        }
    }
}

/// Words whether processes are being recorded.
pub fn recording_line(enabled: bool, ago: &Option<String>) -> (r: String)
    ensures
        r@ == recording_text(enabled, text::opt_view(*ago)),
{
    if !enabled {
        return "Recording: off".to_owned();
    }
    match ago {
        None => "Recording: on".to_owned(),
        Some(t) => {
            let mut out = text::concat2("Recording: on (started ", t.as_str());
            text::push_text(&mut out, " ago)");
            out
        },
    }
}

/// How long ago a recording was started; zero for a start to come.
pub open spec fn recording_age(now: i64, at: i64) -> u64 {
    if now > at {
        (now - at) as u64
    } else {
        0
    }
}

/// The line that tells whether processes are being recorded, at time `now`.
pub open spec fn recording_at(enabled: bool, started_at: Option<i64>, now: i64) -> Seq<char> {
    recording_text(
        enabled,
        match started_at {
            Some(at) => Some(duration_text(recording_age(now, at))),
            None => None,
        },
    )
}

/// Words whether processes are being recorded, and since when, at time `now`.
pub fn format_recording_at(enabled: bool, started_at: Option<i64>, now: i64) -> (r: String)
    ensures
        r@ == recording_at(enabled, started_at, now),
{
    let ago = match started_at {
        Some(at) => {
            let secs: u64 = if now > at {
                (now as i128 - at as i128) as u64
            } else {
                0
            };
            Some(format_duration(secs))
        },
        None => None,
    };
    recording_line(enabled, &ago)
}

/// Words whether processes are being recorded, and since when. The age of a recording goes by
/// the clock.
pub fn format_recording(enabled: bool, started_at: Option<i64>) -> (r: String)
    ensures
        exists|now: i64| r@ == #[trigger] recording_at(enabled, started_at, now),
        !enabled ==> r@ == "Recording: off"@,
        enabled && started_at is None ==> r@ == "Recording: on"@,
{
    let now: i64 = daemon::to_signed(discovery::now_unix_sec());
    let r = format_recording_at(enabled, started_at, now);
    assert(r@ == recording_at(enabled, started_at, now));
    r
}

/// What came of asking a daemon whether it records.
pub enum RecordingAnswer {
    /// No daemon could be reached.
    Unreachable,
    /// The daemon did not tell.
    Unanswered,
    Told { enabled: bool, started_at: Option<i64> },
}

/// Words what came of asking a daemon whether it records, at time `now`.
pub fn recording_line_at(answer: &RecordingAnswer, now: i64) -> (r: String)
    ensures
        r@ == (match *answer {
            RecordingAnswer::Unreachable => "Recording: unknown (daemon not running)"@,
            RecordingAnswer::Unanswered => "Recording: unknown"@,
            RecordingAnswer::Told { enabled, started_at } => recording_at(
                enabled,
                started_at,
                now,
            ),
        }),
{
    match answer {
        RecordingAnswer::Unreachable => "Recording: unknown (daemon not running)".to_owned(),
        RecordingAnswer::Unanswered => "Recording: unknown".to_owned(),
        RecordingAnswer::Told { enabled, started_at } => format_recording_at(
            *enabled,
            *started_at,
            now,
        ),
    }
}

/// How far a report looks back: an hour unless a window is given.
pub open spec fn window_of(window: Option<Seq<char>>, parsed: Result<u64, Seq<char>>) -> Result<
    u64,
    Seq<char>,
> {
    match window {
        None => Ok(3600),
        Some(w) => match parsed {
            Ok(secs) => Ok(secs),
            Err(e) => Err("invalid window "@ + text::debug_quoted(w) + ": "@ + e),
        },
    }
}

/// Takes a window over from its parsed form, or words what is wrong with it.
pub fn window_from(window: &str, parsed: Result<u64, String>) -> (r: Result<u64, String>)
    ensures
        parsed_view(r) == window_of(Some(window@), parsed_view(parsed)),
{
    match parsed {
        Ok(secs) => Ok(secs),
        Err(e) => {
            let quoted = text::debug_text(window);
            let mut message = text::concat2("invalid window ", quoted.as_str());
            text::push_text(&mut message, ": ");
            text::push_text(&mut message, e.as_str());
            Err(message)
        },
    }
}

/// Whether a window can be told in seconds: one that is not in range may be too long to add
/// up.
pub open spec fn window_in_range(window: Option<String>) -> bool {
    window matches Some(w) ==> duration_in_range(w@)
}

/// Tells whether a window can be told in seconds.
pub fn window_fits(window: &Option<String>) -> (r: bool)
    ensures
        r == window_in_range(*window),
{
    match window {
        None => true,
        Some(w) => is_duration_in_range(w.as_str()),
    }
}

/// How far a report looks back, in seconds.
pub fn window_secs(window: &Option<String>) -> (r: Result<u64, String>)
    requires
        window_in_range(*window),
    ensures
        parsed_view(r) == (match *window {
            None => Ok::<u64, Seq<char>>(3600),
            Some(w) => window_of(Some(w@), parsed_duration(w@)),
        }),
{
    match window {
        None => Ok(3600),
        Some(w) => window_from(w.as_str(), parse_duration(w.as_str())),
    }
}

/// How far a report looks back, in seconds; nothing where the window is not in range.
pub fn checked_window_secs(window: &Option<String>) -> (r: Option<Result<u64, String>>)
    ensures
        r is Some <==> window_in_range(*window),
        r matches Some(answer) ==> parsed_view(answer) == (match *window {
            None => Ok::<u64, Seq<char>>(3600),
            Some(w) => window_of(Some(w@), parsed_duration(w@)),
        }),
{
    if window_fits(window) {
        Some(window_secs(window))
    } else {
        None
    }
}

/// One process in a report.
pub struct ReportRow {
    pub process_name: String,
    pub hit: u64,
    pub miss: u64,
    pub meta: u64,
    pub total: u64,
}

/// One line of a report's table.
pub open spec fn table_line(
    name: Seq<char>,
    hit: Seq<char>,
    miss: Seq<char>,
    meta: Seq<char>,
    total: Seq<char>,
) -> Seq<char> {
    text::padded_right(name, 32) + "  "@ + text::padded_left(hit, 8) + "  "@ + text::padded_left(
        miss,
        8,
    ) + "  "@ + text::padded_left(meta, 8) + "  "@ + text::padded_left(total, 8)
}

fn make_table_line(name: &str, hit: &str, miss: &str, meta: &str, total: &str) -> (r: String)
    ensures
        r@ == table_line(name@, hit@, miss@, meta@, total@),
{
    let mut out = text::pad_right(name, 32);
    text::push_text(&mut out, "  ");
    let h = text::pad_left(hit, 8);
    text::push_text(&mut out, h.as_str());
    text::push_text(&mut out, "  ");
    let m = text::pad_left(miss, 8);
    text::push_text(&mut out, m.as_str());
    text::push_text(&mut out, "  ");
    let t = text::pad_left(meta, 8);
    text::push_text(&mut out, t.as_str());
    text::push_text(&mut out, "  ");
    let a = text::pad_left(total, 8);
    text::push_text(&mut out, a.as_str());
    out
}

/// The heading of a report's table.
pub fn table_header() -> (r: String)
    ensures
        r@ == table_line("PROCESS"@, "HIT"@, "MISS"@, "META"@, "TOTAL"@),
{
    make_table_line("PROCESS", "HIT", "MISS", "META", "TOTAL")
}

/// The line of a report's table for one process.
pub fn table_row(row: &ReportRow) -> (r: String)
    ensures
        r@ == table_line(
            row.process_name@,
            text::decimal(row.hit as nat),
            text::decimal(row.miss as nat),
            text::decimal(row.meta as nat),
            text::decimal(row.total as nat),
        ),
{
    let h = text::format_decimal(row.hit as u128);
    let m = text::format_decimal(row.miss as u128);
    let t = text::format_decimal(row.meta as u128);
    let a = text::format_decimal(row.total as u128);
    make_table_line(row.process_name.as_str(), h.as_str(), m.as_str(), t.as_str(), a.as_str())
}

/// The text that stands for the window of a report.
pub open spec fn window_text(window: Option<Seq<char>>) -> Seq<char> {
    match window {
        Some(w) => w,
        None => "1h"@,
    }
}

/// The table of a report: a line for each process.
pub open spec fn table_of(rows: Seq<ReportRow>) -> Seq<Seq<char>> {
    Seq::new(
        rows.len(),
        |i: int|
            table_line(
                rows[i].process_name@,
                text::decimal(rows[i].hit as nat),
                text::decimal(rows[i].miss as nat),
                text::decimal(rows[i].meta as nat),
                text::decimal(rows[i].total as nat),
            ),
    )
}

/// The lines of a report.
pub open spec fn report_of(
    recording: Seq<char>,
    window: Option<Seq<char>>,
    rows: Seq<ReportRow>,
) -> Seq<Seq<char>> {
    let head = seq![
        recording,
        "Window: last "@ + window_text(window),
        ""@,
        table_line("PROCESS"@, "HIT"@, "MISS"@, "META"@, "TOTAL"@),
        Seq::new(72, |i: int| '-'),
    ];
    if rows.len() == 0 {
        head.push("(no data in the last "@ + window_text(window) + ")"@)
    } else {
        head + table_of(rows)
    }
}

/// Words a report, line by line.
pub fn report(recording: &str, window: &Option<String>, rows: &Vec<ReportRow>) -> (r: Vec<String>)
    ensures
        text::strings_view(r@) == report_of(recording@, text::opt_view(*window), rows@),
{
    let mut out: Vec<String> = Vec::new();
    let shown: String = match window {
        Some(w) => w.clone(),
        None => "1h".to_owned(),
    };
    out.push(recording.to_owned());
    out.push(text::concat2("Window: last ", shown.as_str()));
    out.push("".to_owned());
    out.push(table_header());
    let mut rule = String::new();
    let mut k: usize = 0;
    while k < 72
        invariant
            k <= 72,
            rule@ =~= Seq::new(k as nat, |i: int| '-'),
        decreases 72 - k,
    {
        rule.push('-');
        k = k + 1;
    }
    out.push(rule);
    let ghost head = text::strings_view(out@);
    if rows.len() == 0 {
        let mut line = text::concat2("(no data in the last ", shown.as_str());
        text::push_text(&mut line, ")");
        out.push(line);
        assert(text::strings_view(out@) =~= report_of(
            recording@,
            text::opt_view(*window),
            rows@,
        ));
        return out;
    }
    let mut i: usize = 0;
    while i < rows.len()
        invariant
            i <= rows@.len(),
            text::strings_view(out@) =~= head + table_of(rows@).take(i as int),
        decreases rows.len() - i,
    {
        let ghost before = out@;
        let line = table_row(&rows[i]);
        out.push(line);
        proof {
            assert(text::strings_view(out@) =~= text::strings_view(before).push(
                table_of(rows@)[i as int],
            ));
        }
        i = i + 1;
    }
    proof {
        assert(table_of(rows@).take(i as int) =~= table_of(rows@));
        assert(text::strings_view(out@) =~= report_of(
            recording@,
            text::opt_view(*window),
            rows@,
        ));
    }
    out
}

/// What is printed when the only running instance is connected to.
pub fn connecting_line(instance: &Instance) -> (r: String)
    ensures
        r@ == "Connecting to instance '"@ + instance@.name + "' ("@ + text::decimal(
            instance@.targets.len(),
        ) + " mount(s))"@,
{
    let mut out = text::concat2("Connecting to instance '", instance.name.as_str());
    text::push_text(&mut out, "' (");
    let mounts = text::format_decimal(instance.targets.len() as u128);
    text::push_text(&mut out, mounts.as_str());
    text::push_text(&mut out, " mount(s))");
    out
}

/// A selection that is accepted names one of the instances.
pub proof fn law_selection_is_in_range(choice: Seq<char>, count: nat)
    ensures
        selected(choice, count) matches Ok(i) ==> i < count,
{
}

/// A number from one to the count of instances selects the instance at the position before it;
/// zero and larger numbers are out of range.
pub proof fn law_selections_count_from_one(n: nat, count: nat)
    requires
        n <= usize::MAX,
    ensures
        1 <= n <= count ==> selected(text::decimal(n), count) == Ok::<nat, SelectionError>(
            (n - 1) as nat,
        ),
        n == 0 || n > count ==> selected(text::decimal(n), count) == Err::<nat, SelectionError>(
            SelectionError::OutOfRange,
        ),
{
    text::law_decimal_reads_back(n, usize::MAX as nat);
}

/// What is not a number is no selection.
pub proof fn law_selections_are_numbers(choice: Seq<char>, count: nat, i: int)
    requires
        choice.len() == 0 || (0 < i < choice.len() && !('0' <= choice[i] <= '9')),
    ensures
        selected(choice, count) == Err::<nat, SelectionError>(SelectionError::Invalid),
{
    if choice.len() > 0 {
        let digits = if choice[0] == '+' {
            choice.skip(1)
        } else {
            choice
        };
        let k = if choice[0] == '+' {
            i - 1
        } else {
            i
        };
        assert(digits[k] == choice[i]);
        assert(!text::is_digit(digits[k]));
    }
}

/// Trimming takes white space off both ends and nothing else.
pub proof fn law_trimming_takes_white_space_off(s: Seq<char>)
    ensures
        trimmed(s).len() > 0 ==> !is_white(trimmed(s)[0]) && !is_white(trimmed(s).last()),
        exists|i: int, j: int|
            0 <= i <= j <= s.len() && trimmed(s) == #[trigger] s.subrange(i, j) && (forall|k: int|
                0 <= k < i || j <= k < s.len() ==> is_white(#[trigger] s[k])),
{
    let (i, j) = lemma_trimmed_part(s);
    assert(trimmed(s) == s.subrange(i, j));
}

proof fn lemma_trimmed_part(s: Seq<char>) -> (r: (int, int))
    ensures
        0 <= r.0 <= r.1 <= s.len(),
        trimmed(s) == s.subrange(r.0, r.1),
        forall|k: int| 0 <= k < r.0 ==> is_white(#[trigger] s[k]),
        forall|k: int| r.1 <= k < s.len() ==> is_white(#[trigger] s[k]),
        trimmed(s).len() > 0 ==> !is_white(trimmed(s)[0]) && !is_white(trimmed(s).last()),
    decreases s.len(),
{
    if s.len() == 0 {
        assert(s.subrange(0, 0) =~= s);
        (0, 0)
    } else if is_white(s[0]) {
        let rest = s.skip(1);
        let (i, j) = lemma_trimmed_part(rest);
        assert(s.subrange(i + 1, j + 1) =~= rest.subrange(i, j));
        assert forall|k: int| 0 <= k < i + 1 implies is_white(#[trigger] s[k]) by {
            if k > 0 {
                assert(rest[k - 1] == s[k]);
            }
        }
        assert forall|k: int| j + 1 <= k < s.len() implies is_white(#[trigger] s[k]) by {
            assert(rest[k - 1] == s[k]);
        }
        (i + 1, j + 1)
    } else if is_white(s.last()) {
        let rest = s.drop_last();
        let (i, j) = lemma_trimmed_part(rest);
        assert(s.subrange(i, j) =~= rest.subrange(i, j));
        assert forall|k: int| 0 <= k < i implies is_white(#[trigger] s[k]) by {
            assert(rest[k] == s[k]);
        }
        assert forall|k: int| j <= k < s.len() implies is_white(#[trigger] s[k]) by {
            if k < rest.len() {
                assert(rest[k] == s[k]);
            }
        }
        (i, j)
    } else {
        assert(s.subrange(0, s.len() as int) =~= s);
        (0, s.len() as int)
    }
}

/// Blanks, tabs and line ends are white space; letters, digits and signs are not.
pub proof fn law_white_space(c: char)
    ensures
        c == ' ' || c == '\t' || c == '\n' || c == '\r' ==> is_white(c),
        '!' <= c <= '~' ==> !is_white(c),
{
}

/// Which instance is meant: the given one whatever else is there; else the only running one; else,
/// with none running, the only one that has left a database behind. In all other cases there is an
/// error.
pub proof fn law_instance_is_chosen_when_unique(
    given: Seq<char>,
    running: Seq<Seq<char>>,
    databases: Seq<Seq<char>>,
)
    ensures
        instance_named(Some(given), running, databases) == Ok::<Seq<char>, Seq<char>>(given),
        running.len() == 1 ==> instance_named(None, running, databases) == Ok::<
            Seq<char>,
            Seq<char>,
        >(running[0]),
        running.len() == 0 && databases.len() == 1 ==> instance_named(None, running, databases)
            == Ok::<Seq<char>, Seq<char>>(databases[0]),
        running.len() > 1 ==> instance_named(None, running, databases) is Err,
        running.len() == 0 && databases.len() != 1 ==> instance_named(None, running, databases)
            is Err,
{
}

/// The owner of a database is what its file name has in front of the ending `.db`.
pub proof fn law_database_names_their_owner(name: Seq<char>, file_name: Seq<char>)
    ensures
        name.len() > 0 ==> database_owner(name + seq!['.', 'd', 'b']) == Some(name),
        database_owner(file_name) matches Some(owner) ==> owner.len() > 0 && file_name == owner
            + seq!['.', 'd', 'b'],
        name.len() == 0 ==> database_owner(name + seq!['.', 'd', 'b']) is None,
{
    let whole = name + seq!['.', 'd', 'b'];
    assert(whole.skip(whole.len() - 3) =~= seq!['.', 'd', 'b']);
    assert(whole.take(whole.len() - 3) =~= name);
    if let Some(owner) = database_owner(file_name) {
        let n = file_name.len();
        assert(file_name =~= file_name.take(n - 3) + file_name.skip(n - 3));
    }
}

/// A recording is as old as the time since its start, and one that starts later is not old at all.
pub proof fn law_recording_age(now: i64, at: i64)
    ensures
        now >= at ==> recording_age(now, at) == now - at,
        now < at ==> recording_age(now, at) == 0,
{
}

/// That recording is off is told without a time, and how long it has been on is told where it is
/// known.
pub proof fn law_recording_is_told(started_at: Option<i64>, at: i64, now: i64)
    requires
        at <= now,
    ensures
        recording_at(false, started_at, now) == "Recording: off"@,
        recording_at(true, None, now) == "Recording: on"@,
        recording_at(true, Some(at), now) == "Recording: on (started "@ + duration_text(
            (now - at) as u64,
        ) + " ago)"@,
{
}

/// A report looks back an hour unless a window is given, then as far as the window says; a window
/// that cannot be read is told with what is wrong with it.
pub proof fn law_report_window(w: Seq<char>, secs: u64, e: Seq<char>, parsed: Result<u64, Seq<char>>)
    ensures
        window_of(None, parsed) == Ok::<u64, Seq<char>>(3600),
        window_of(Some(w), Ok(secs)) == Ok::<u64, Seq<char>>(secs),
        window_of(Some(w), Err(e)) matches Err(message) && exists|front: Seq<char>|
            message == #[trigger] (front + e),
        window_text(Some(w)) == w,
        window_text(None) == "1h"@,
{
    let front = "invalid window "@ + text::debug_quoted(w) + ": "@;
    assert(window_of(Some(w), Err(e)) == Err::<u64, Seq<char>>(front + e));
}

/// The columns of a report's table stand below one another: the name at the left, then hits,
/// misses, metadata operations and the total, each at the right end of its column, as long as they
/// fit.
pub proof fn law_table_columns(
    name: Seq<char>,
    hit: Seq<char>,
    miss: Seq<char>,
    meta: Seq<char>,
    total: Seq<char>,
)
    requires
        name.len() <= 32,
        hit.len() <= 8,
        miss.len() <= 8,
        meta.len() <= 8,
        total.len() <= 8,
    ensures
        table_line(name, hit, miss, meta, total).len() == 72,
        table_line(name, hit, miss, meta, total).take(name.len() as int) == name,
        table_line(name, hit, miss, meta, total).subrange(42 - hit.len(), 42) == hit,
        table_line(name, hit, miss, meta, total).subrange(52 - miss.len(), 52) == miss,
        table_line(name, hit, miss, meta, total).subrange(62 - meta.len(), 62) == meta,
        table_line(name, hit, miss, meta, total).subrange(72 - total.len(), 72) == total,
{
    reveal_strlit("  ");
    let line = table_line(name, hit, miss, meta, total);
    assert(line.take(name.len() as int) =~= name);
    assert(line.subrange(42 - hit.len(), 42) =~= hit);
    assert(line.subrange(52 - miss.len(), 52) =~= miss);
    assert(line.subrange(62 - meta.len(), 62) =~= meta);
    assert(line.subrange(72 - total.len(), 72) =~= total);
}

/// A report tells first whether processes are recorded, then the window, and below a heading and a
/// rule one line for each process, in order; without processes it says so.
pub proof fn law_report_lists_every_process(
    recording: Seq<char>,
    window: Option<Seq<char>>,
    rows: Seq<ReportRow>,
    i: int,
)
    ensures
        ({
            let lines = report_of(recording, window, rows);
            &&& lines[0] == recording
            &&& lines[4].len() == 72
            &&& rows.len() > 0 ==> lines.len() == 5 + rows.len()
            &&& rows.len() == 0 ==> lines.len() == 6
            &&& 0 <= i < rows.len() ==> lines[5 + i] == table_line(
                rows[i].process_name@,
                text::decimal(rows[i].hit as nat),
                text::decimal(rows[i].miss as nat),
                text::decimal(rows[i].meta as nat),
                text::decimal(rows[i].total as nat),
            )
        }),
{
}

/// How many seconds the units of a duration have, by the letters that they begin with.
pub proof fn law_unit_lengths(words: Seq<char>, i: int)
    requires
        0 <= i < words.len(),
        i == 0 || !is_unit_letter(words[i - 1]),
    ensures
        words[i] == 'y' ==> unit_secs(words, i) == 31_557_600,
        words[i] == 'M' ==> unit_secs(words, i) == 2_630_016,
        words[i] == 'w' ==> unit_secs(words, i) == 7 * 24 * 60 * 60,
        words[i] == 'd' ==> unit_secs(words, i) == 24 * 60 * 60,
        words[i] == 'h' ==> unit_secs(words, i) == 60 * 60,
        words[i] == 'm' && i + 1 == words.len() ==> unit_secs(words, i) == 60,
        words[i] == 's' || words[i] == 'n' || words[i] == 'u' ==> unit_secs(words, i) == 1,
        unit_secs(words, i) >= 1,
{
}

/// Units are written in letters, upper or lower case, or with a micro sign; digits, blanks and
/// points are no part of them.
pub proof fn law_unit_letters(c: char)
    ensures
        'a' <= c <= 'z' || 'A' <= c <= 'Z' || c == 'µ' ==> is_unit_letter(c),
        c <= '@' || '[' <= c <= '`' || '{' <= c <= '~' ==> !is_unit_letter(c),
        is_digit(c) <==> '0' <= c <= '9',
{
}

proof fn lemma_tally_of_digits(words: Seq<char>, n: nat)
    requires
        n <= words.len(),
        forall|i: int| 0 <= i < n ==> '0' <= #[trigger] words[i] <= '9',
    ensures
        tally(words, n) == (text::digits_value(words.take(n as int)), false, 0nat),
    decreases n,
{
    if n > 0 {
        lemma_tally_of_digits(words, (n - 1) as nat);
        assert(words.take(n as int).drop_last() =~= words.take(n - 1));
        assert(words.take(n as int).last() == words[n - 1]);
        assert('0' <= words[n - 1] <= '9');
    }
}

/// A part of a duration counts as one unit more than its whole number, so that it is never
/// counted too short, whatever its fraction is; with no unit nothing is counted.
pub proof fn law_parts_are_rounded_up(n: nat, unit: char)
    requires
        is_unit_letter(unit),
    ensures
        ({
            let words = text::decimal(n).push(unit);
            tally(words, words.len()).2 == (n + 1) * unit_secs(words, words.len() - 1)
        }),
        tally(text::decimal(n), text::decimal(n).len()).2 == 0,
{
    let digits = text::decimal(n);
    let words = digits.push(unit);
    text::law_decimal_reads_back(n, n);
    assert forall|i: int| 0 <= i < digits.len() implies '0' <= #[trigger] words[i] <= '9' by {
        assert(words[i] == digits[i]);
    }
    lemma_tally_of_digits(words, digits.len());
    lemma_tally_of_digits(digits, digits.len());
    assert(words.take(digits.len() as int) =~= digits);
    assert(digits.take(digits.len() as int) =~= digits);
    assert(digits[0] != '+');
    assert(text::digits_value(digits) == n);
    assert('0' <= words[digits.len() - 1] <= '9');
    assert(unit_begins(words, digits.len() as int));
}

/// A window is in range where it is not given, or where it has at most one part.
pub proof fn law_single_parts_are_in_range(n: nat, unit: char)
    requires
        is_unit_letter(unit),
    ensures
        window_in_range(None),
        duration_in_range(text::decimal(n).push(unit)),
        duration_in_range(text::decimal(n)),
{
    let digits = text::decimal(n);
    let words = digits.push(unit);
    text::law_decimal_reads_back(n, n);
    assert forall|i: int, j: int| #[trigger]
        unit_begins(words, i) && #[trigger] unit_begins(words, j) implies i == j by {
        if i < digits.len() {
            assert('0' <= digits[i] <= '9');
        }
        if j < digits.len() {
            assert('0' <= digits[j] <= '9');
        }
    }
    law_parts_are_rounded_up(n, unit);
}

} // verus!
