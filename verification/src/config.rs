//! Settings and their defaults.

use crate::text;
use vstd::prelude::*;

verus! {

/// Where files come from and where copies go.
#[derive(Debug)]
pub struct PathsConfig {
    pub target_directories: Vec<String>,
    pub cache_directory: String,
}

/// Limits of the cache. Sizes are in bytes.
#[derive(Debug)]
pub struct CacheConfig {
    pub max_size_bytes: u64,
    pub expiry_hours: u64,
    pub min_free_space_bytes: u64,
    /// Serve everything from the backing store.
    pub passthrough_mode: bool,
    /// Budget for predicted copies of one mount; 0 is unlimited.
    pub max_cache_pull_per_mount_bytes: u64,
    /// Deferred events older than this many minutes are discarded on startup.
    pub deferred_ttl_minutes: u64,
    /// Seconds that a file must stay open before it counts; 0 is at once.
    pub min_access_secs: u64,
    /// Files below this many megabytes are skipped; 0 skips none.
    pub min_file_size_mb: u64,
    /// Processes that must never trigger caching, nor may their children.
    pub process_blocklist: Vec<String>,
}

impl Default for CacheConfig {
    fn default() -> (r: Self)
        ensures
            r.max_size_bytes == 200 * 1_073_741_824,
            r.expiry_hours == 72,
            r.min_free_space_bytes == 10 * 1_073_741_824,
            !r.passthrough_mode,
            r.max_cache_pull_per_mount_bytes == 0,
            r.deferred_ttl_minutes == 1440,
            r.min_access_secs == 0,
            r.min_file_size_mb == 0,
            r.process_blocklist@.len() == 0,
    {
        CacheConfig {
            max_size_bytes: 214_748_364_800,
            expiry_hours: 72,
            min_free_space_bytes: 10_737_418_240,
            passthrough_mode: false,
            max_cache_pull_per_mount_bytes: 0,
            deferred_ttl_minutes: 1440,
            min_access_secs: 0,
            min_file_size_mb: 0,
            process_blocklist: Vec::new(),
        }
    }
}

impl CacheConfig {
    /// Whether a copy that was last read at `last_access` has expired at time `now`, both in
    /// seconds.
    pub fn is_expired(&self, last_access: i64, now: i64) -> (r: bool)
        ensures
            r == (now - last_access > self.expiry_hours * 3600),
    {
        now as i128 - last_access as i128 > self.expiry_hours as i128 * 3600
    }
}

/// Which preset decides what is cached.
#[derive(Debug)]
pub struct PresetConfig {
    pub name: String,
    /// Episodes to cache ahead of the current one; where it is not set, the setting of episode
    /// prediction holds.
    pub lookahead: Option<usize>,
}

impl Default for PresetConfig {
    fn default() -> (r: Self)
        ensures
            r.name@ == "plex-episode-prediction"@,
            r.lookahead is None,
    {
        PresetConfig { name: "plex-episode-prediction".to_owned(), lookahead: None }
    }
}

/// Settings of episode prediction.
#[derive(Debug)]
pub struct PlexConfig {
    /// Episodes to cache ahead of the current one.
    pub lookahead: usize,
    /// "miss-only" predicts on cache misses only, "rolling-buffer" on hits too, which keeps
    /// the next episodes loaded all the time.
    pub mode: String,
    /// Processes that must never trigger prediction, nor may their children.
    pub process_blocklist: Vec<String>,
}

impl Default for PlexConfig {
    fn default() -> (r: Self)
        ensures
            r.lookahead == 4,
            r.mode@ == "miss-only"@,
            r.process_blocklist@.len() == 0,
    {
        PlexConfig { lookahead: 4, mode: "miss-only".to_owned(), process_blocklist: Vec::new() }
    }
}

impl PlexConfig {
    /// Whether hits trigger prediction too.
    pub fn rolling_buffer(&self) -> (r: bool)
        ensures
            r == (self.mode@ == "rolling-buffer"@),
    {
        text::str_eq(self.mode.as_str(), "rolling-buffer")
    }
}

/// The number of episodes to cache ahead.
pub fn effective_lookahead(preset: &PresetConfig, plex: &PlexConfig) -> (r: usize)
    ensures
        r == (match preset.lookahead {
            Some(n) => n,
            None => plex.lookahead,
        }),
{
    match preset.lookahead {
        Some(n) => n,
        None => plex.lookahead,
    }
}

/// `names` with those of `more` behind them that it does not hold yet.
pub open spec fn merged_names(names: Seq<Seq<char>>, more: Seq<Seq<char>>) -> Seq<Seq<char>>
    decreases more.len(),
{
    if more.len() == 0 {
        names
    } else {
        let before = merged_names(names, more.drop_last());
        if before.contains(more.last()) {
            before
        } else {
            before.push(more.last())
        }
    }
}

/// Joins two lists of process names: the first as it is, then what is new in the second.
pub fn merge_blocklists(names: &Vec<String>, more: &Vec<String>) -> (r: Vec<String>)
    ensures
        text::strings_view(r@) == merged_names(
            text::strings_view(names@),
            text::strings_view(more@),
        ),
{
    let ghost first = text::strings_view(names@);
    let ghost second = text::strings_view(more@);
    let mut out: Vec<String> = Vec::new();
    let mut i: usize = 0;
    while i < names.len()
        invariant
            i <= names.len(),
            first == text::strings_view(names@),
            text::strings_view(out@) =~= first.take(i as int),
        decreases names.len() - i,
    {
        let ghost before = out@;
        out.push(names[i].clone());
        assert(text::strings_view(out@) =~= text::strings_view(before).push(names@[i as int]@));
        i = i + 1;
    }
    assert(text::strings_view(out@) =~= first);
    let mut j: usize = 0;
    assert(second.take(0) =~= Seq::<Seq<char>>::empty());
    while j < more.len()
        invariant
            j <= more.len(),
            second == text::strings_view(more@),
            text::strings_view(out@) == merged_names(first, second.take(j as int)),
        decreases more.len() - j,
    {
        let ghost before = out@;
        proof {
            assert(second.take(j + 1).drop_last() =~= second.take(j as int));
            assert(second.take(j + 1).last() == more@[j as int]@);
        }
        if !text::list_contains(&out, more[j].as_str()) {
            out.push(more[j].clone());
            assert(text::strings_view(out@) =~= text::strings_view(before).push(
                more@[j as int]@,
            ));
        }
        j = j + 1;
    }
    assert(second.take(second.len() as int) =~= second);
    out
}

/// A joined list blocks exactly what one of the two lists blocks.
pub proof fn law_merged_names_hold_both(
    names: Seq<Seq<char>>,
    more: Seq<Seq<char>>,
    name: Seq<char>,
)
    ensures
        merged_names(names, more).contains(name) <==> names.contains(name) || more.contains(name),
    decreases more.len(),
{
    if more.len() > 0 {
        let init = more.drop_last();
        law_merged_names_hold_both(names, init, name);
        let before = merged_names(names, init);
        let after = merged_names(names, more);
        if more.contains(name) {
            let k = choose|k: int| 0 <= k < more.len() && more[k] == name;
            if k < init.len() {
                assert(init[k] == name);
                assert(init.contains(name));
            } else {
                assert(name == more.last());
                if !before.contains(name) {
                    assert(after[before.len() as int] == name);
                }
            }
        }
        if before.contains(name) {
            let k = choose|k: int| 0 <= k < before.len() && before[k] == name;
            assert(after[k] == name);
        }
        if init.contains(name) {
            let k = choose|k: int| 0 <= k < init.len() && init[k] == name;
            assert(more[k] == name);
        }
        if after.contains(name) && !before.contains(name) {
            let k = choose|k: int| 0 <= k < after.len() && after[k] == name;
            if k < before.len() {
                assert(before[k] == name);
            }
            assert(more[more.len() - 1] == name);
        }
    } else {
        assert(!more.contains(name));
    }
}

/// When copies may be made.
#[derive(Debug)]
pub struct ScheduleConfig {
    pub cache_window_start: String,
    pub cache_window_end: String,
}

impl Default for ScheduleConfig {
    fn default() -> (r: Self)
        ensures
            r.cache_window_start@ == "08:00"@,
            r.cache_window_end@ == "02:00"@,
    {
        ScheduleConfig {
            cache_window_start: "08:00".to_owned(),
            cache_window_end: "02:00".to_owned(),
        }
    }
}

/// The value of a decimal digit.
pub open spec fn digit_at(s: Seq<char>, i: int) -> nat {
    (s[i] as nat - '0' as nat) as nat
}

/// The minute of the day that is written `HH:MM`, on a clock of 24 hours.
pub open spec fn minute_of_day(s: Seq<char>) -> Option<nat> {
    if s.len() != 5 || s[2] != ':' || !text::is_digit(s[0]) || !text::is_digit(s[1])
        || !text::is_digit(s[3]) || !text::is_digit(s[4]) {
        None
    } else {
        let h = digit_at(s, 0) * 10 + digit_at(s, 1);
        let m = digit_at(s, 3) * 10 + digit_at(s, 4);
        if h < 24 && m < 60 {
            Some(h * 60 + m)
        } else {
            None
        }
    }
}

/// Reads a time of day.
pub fn parse_time_of_day(s: &str) -> (r: Option<u16>)
    ensures
        r matches Some(n) ==> minute_of_day(s@) == Some(n as nat),
        r is None <==> minute_of_day(s@) is None,
{
    let c = text::str_chars(s);
    if c.len() != 5 || c[2] != ':' {
        return None;
    }
    let digits = c[0] >= '0' && c[0] <= '9' && c[1] >= '0' && c[1] <= '9' && c[3] >= '0' && c[3]
        <= '9' && c[4] >= '0' && c[4] <= '9';
    if !digits {
        return None;
    }
    let h: u32 = (c[0] as u32 - '0' as u32) * 10 + (c[1] as u32 - '0' as u32);
    let m: u32 = (c[3] as u32 - '0' as u32) * 10 + (c[4] as u32 - '0' as u32);
    if h < 24 && m < 60 {
        Some((h * 60 + m) as u16)
    } else {
        None
    }
}

/// Whether a time of day lies in a window from `start` up to `end`. A window that ends before it
/// starts reaches past midnight.
pub open spec fn in_window(start: int, end: int, now: int) -> bool {
    if start <= end {
        start <= now < end
    } else {
        now >= start || now < end
    }
}

/// Whether copies may be made at a time of day.
pub fn window_open(start: u16, end: u16, now: u16) -> (r: bool)
    ensures
        r == in_window(start as int, end as int, now as int),
{
    if start <= end {
        start <= now && now < end
    } else {
        now >= start || now < end
    }
}

/// A window that is turned round is open exactly when it was closed.
pub proof fn law_window_and_its_rest(start: int, end: int, now: int)
    requires
        start != end,
    ensures
        in_window(start, end, now) != in_window(end, start, now),
{
}

/// Where and how much to log.
#[derive(Debug)]
pub struct LoggingConfig {
    pub log_directory: String,
    pub console_level: String,
    pub file_level: String,
    /// Repeated accesses to one file are not logged again within this window.
    pub repeat_log_window_secs: u64,
}

impl Default for LoggingConfig {
    fn default() -> (r: Self)
        ensures
            r.log_directory@ == "/var/log/f-cache"@,
            r.console_level@ == "info"@,
            r.file_level@ == "debug"@,
            r.repeat_log_window_secs == 300,
    {
        LoggingConfig {
            log_directory: "/var/log/f-cache".to_owned(),
            console_level: "info".to_owned(),
            file_level: "debug".to_owned(),
            repeat_log_window_secs: 300,
        }
    }
}

/// Every time of day reads as its minutes since midnight when its hour and minute are written with
/// two digits each and a colon between them.
pub proof fn law_times_of_day_are_read(h: nat, m: nat)
    requires
        h < 24,
        m < 60,
    ensures
        minute_of_day(
            seq![
                text::digit_char(h / 10),
                text::digit_char(h % 10),
                ':',
                text::digit_char(m / 10),
                text::digit_char(m % 10),
            ],
        ) == Some(h * 60 + m),
{
}

/// Only such texts are times of day, and each lies within one day.
pub proof fn law_only_times_of_day_are_read(s: Seq<char>)
    ensures
        minute_of_day(s) matches Some(n) ==> n < 1440 && s == seq![
            text::digit_char(n / 60 / 10),
            text::digit_char(n / 60 % 10),
            ':',
            text::digit_char(n % 60 / 10),
            text::digit_char(n % 60 % 10),
        ],
{
    if let Some(n) = minute_of_day(s) {
        let h = digit_at(s, 0) * 10 + digit_at(s, 1);
        let m = digit_at(s, 3) * 10 + digit_at(s, 4);
        assert(n == h * 60 + m);
        assert(n / 60 == h && n % 60 == m);
        assert(s =~= seq![
            text::digit_char(n / 60 / 10),
            text::digit_char(n / 60 % 10),
            ':',
            text::digit_char(n % 60 / 10),
            text::digit_char(n % 60 % 10),
        ]);
    }
}

/// How many minutes lie between two times of day, going forward round the clock.
pub open spec fn minutes_from(start: int, now: int) -> int {
    if now >= start {
        now - start
    } else {
        now + 1440 - start
    }
}

/// A window is open at a time exactly where, going forward from its start, the time comes before
/// its end. A window that ends where it starts is never open.
pub proof fn law_window_goes_round_the_clock(start: int, end: int, now: int)
    requires
        0 <= start < 1440,
        0 <= end < 1440,
        0 <= now < 1440,
    ensures
        in_window(start, end, now) <==> minutes_from(start, now) < minutes_from(start, end),
        start != end ==> in_window(start, end, start),
        !in_window(start, end, end),
{
}

/// A joined list begins with the first list, unchanged, and behind it holds no name twice and
/// none that the first one holds.
pub proof fn law_merged_names_keep_the_first_list(
    names: Seq<Seq<char>>,
    more: Seq<Seq<char>>,
    i: int,
    j: int,
)
    ensures
        names.is_prefix_of(merged_names(names, more)),
        0 <= i < j < merged_names(names, more).len() && names.len() <= j ==> merged_names(
            names,
            more,
        )[i] != merged_names(names, more)[j],
    decreases more.len(),
{
    let all = merged_names(names, more);
    if more.len() > 0 {
        law_merged_names_keep_the_first_list(names, more.drop_last(), i, j);
        let before = merged_names(names, more.drop_last());
        assert(names =~= before.take(names.len() as int));
        assert(names =~= all.take(names.len() as int));
        if !before.contains(more.last()) && j == before.len() && 0 <= i < j {
            assert(before[i] == all[i]);
            assert(before.contains(before[i]));
        }
    } else {
        assert(names =~= names.take(names.len() as int));
    }
}

} // verus!
