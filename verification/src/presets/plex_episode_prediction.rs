//! Episode prediction that can tell playback from background analysis.

use crate::path;
use crate::path::RelPath;
use crate::path_map::PathMap;
use crate::prediction_utils;
use crate::preset::{CacheAction, ProcessFilterPolicy, ProcessInfo};
use crate::text;
use vstd::prelude::*;

verus! {

/// SxxExx episode prediction with Plex Transcoder awareness.
///
/// On every cache miss the next `lookahead` episodes are looked for in the backing store,
/// in the same season and in later ones. An open by "Plex Transcoder" counts only where its
/// command line proves streamed playback; for other processes the Plex-specific check never
/// applies.
///
/// Plex Transcoder serves two purposes:
///   - Playback uses a streaming container format (-f dash, ssegment, mpegts).
///   - Detection uses other formats (-f flac, null, chromaprint, image2).
///
/// A playback transcode may also have a secondary -f null stream, as for subtitle
/// extraction; any streaming format takes precedence.
pub struct PlexEpisodePrediction {
    pub lookahead: usize,
    pub process_policy: ProcessFilterPolicy,
    /// If true, hits trigger the lookahead too, so that the next episodes stay loaded.
    pub rolling_buffer: bool,
}

/// Whether argument `i` is a streaming format that an `-f` introduces.
pub open spec fn streams_at(args: Seq<Seq<u8>>, i: int) -> bool {
    &&& 1 <= i < args.len()
    &&& args[i - 1] == vstd::utf8::encode_utf8("-f"@)
    &&& {
        ||| args[i] == vstd::utf8::encode_utf8("dash"@)
        ||| args[i] == vstd::utf8::encode_utf8("ssegment"@)
        ||| args[i] == vstd::utf8::encode_utf8("mpegts"@)
    }
}

/// Whether a command line asks for a streaming container format.
pub open spec fn is_playback(cmdline: Seq<u8>) -> bool {
    exists|i: int| #[trigger] streams_at(text::split_at_sep(cmdline, 0u8), i)
}

fn is_streaming_format(arg: &Vec<u8>) -> (r: bool)
    ensures
        r == (arg@ == vstd::utf8::encode_utf8("dash"@) || arg@ == vstd::utf8::encode_utf8(
            "ssegment"@,
        ) || arg@ == vstd::utf8::encode_utf8("mpegts"@)),
{
    text::bytes_eq(arg, "dash".as_bytes()) || text::bytes_eq(arg, "ssegment".as_bytes())
        || text::bytes_eq(arg, "mpegts".as_bytes())
}

/// Playback always uses a streaming container format; background analysis never does.
pub fn is_plex_playback_cmdline(cmdline: &[u8]) -> (r: bool)
    ensures
        r == is_playback(cmdline@),
{
    let args = text::split_bytes(cmdline, 0);
    let ghost all = text::split_at_sep(cmdline@, 0u8);
    let mut i: usize = 1;
    while i < args.len()
        invariant
            1 <= i,
            all == text::byte_strings(args@),
            all == text::split_at_sep(cmdline@, 0u8),
            forall|k: int| k < i ==> !#[trigger] streams_at(all, k),
        decreases args.len() - i,
    {
        assert(all[i as int] == args@[i as int]@);
        assert(all[i - 1] == args@[i - 1]@);
        if text::bytes_eq(&args[i - 1], "-f".as_bytes()) && is_streaming_format(&args[i]) {
            assert(streams_at(all, i as int));
            return true;
        }
        assert(!streams_at(all, i as int));
        i = i + 1;
    }
    false
}

impl PlexEpisodePrediction {
    /// Whether accesses of `process` are to be ignored.
    pub open spec fn filters(self, process: ProcessInfo) -> bool {
        ||| self.process_policy.filters(process)
        ||| {
            &&& text::opt_view(process.name) == Some("Plex Transcoder"@)
            &&& !(process.cmdline is Some && is_playback(process.cmdline->0@))
        }
    }

    pub fn new(lookahead: usize, blocklist: Vec<String>, rolling_buffer: bool) -> (r: Self)
        ensures
            r.lookahead == lookahead,
            r.process_policy.allowlist@.len() == 0,
            r.process_policy.blocklist == blocklist,
            r.rolling_buffer == rolling_buffer,
    {
        PlexEpisodePrediction::new_with_process_policy(
            lookahead,
            Vec::new(),
            blocklist,
            rolling_buffer,
        )
    }

    pub fn new_with_process_policy(
        lookahead: usize,
        process_allowlist: Vec<String>,
        process_blocklist: Vec<String>,
        rolling_buffer: bool,
    ) -> (r: Self)
        ensures
            r.lookahead == lookahead,
            r.process_policy.allowlist == process_allowlist,
            r.process_policy.blocklist == process_blocklist,
            r.rolling_buffer == rolling_buffer,
    {
        PlexEpisodePrediction {
            lookahead,
            process_policy: ProcessFilterPolicy::new(process_allowlist, process_blocklist),
            rolling_buffer,
        }
    }

    pub fn name(&self) -> (r: &'static str)
        ensures
            r@ == "plex_episode_prediction"@,
    {
        "plex_episode_prediction"
    }

    /// Whether accesses of `process` are to be ignored: the process policy comes first, and
    /// a Plex Transcoder counts only where its command line proves streamed playback.
    pub fn should_filter(&self, process: &ProcessInfo) -> (r: bool)
        ensures
            r == self.filters(*process),
    {
        if self.process_policy.should_filter(process) {
            return true;
        }
        let transcoder = match &process.name {
            Some(name) => text::str_eq(name.as_str(), "Plex Transcoder"),
            None => false,
        };
        if transcoder {
            match &process.cmdline {
                Some(cmdline) => !is_plex_playback_cmdline(cmdline),
                None => true,
            }
        } else {
            false
        }
    }

    /// A miss asks for the file itself, since viewers often stop midway, and for `next`, the
    /// episodes that follow it.
    pub fn on_miss_with(&self, rel_path: &RelPath, next: &Vec<RelPath>) -> (r: Vec<CacheAction>)
        ensures
            r@.len() == 1,
            r@[0] matches CacheAction::Cache(files) && path::paths_view(files@) == seq![
                rel_path@,
            ] + path::paths_view(next@),
    {
        let mut files: Vec<RelPath> = Vec::new();
        files.push(rel_path.clone());
        let mut i: usize = 0;
        assert(path::paths_view(files@) =~= seq![rel_path@] + path::paths_view(next@).take(0));
        while i < next.len()
            invariant
                i <= next.len(),
                path::paths_view(files@) =~= seq![rel_path@] + path::paths_view(next@).take(
                    i as int,
                ),
            decreases next.len() - i,
        {
            let ghost before = files@;
            files.push(next[i].clone());
            assert(path::paths_view(files@) =~= path::paths_view(before).push(next@[i as int]@));
            i = i + 1;
        }
        assert(path::paths_view(next@).take(i as int) =~= path::paths_view(next@));
        let mut actions: Vec<CacheAction> = Vec::new();
        actions.push(CacheAction::Cache(files));
        actions
    }

    /// What a miss asks for where the directories of the backing store list as in `tree`.
    pub fn on_miss(&self, rel_path: &RelPath, tree: &PathMap<Vec<Vec<u8>>>) -> (r: Vec<
        CacheAction,
    >)
        ensures
            r@.len() == 1,
            r@[0] matches CacheAction::Cache(files) && path::paths_view(files@) == seq![
                rel_path@,
            ] + prediction_utils::next_episodes(
                rel_path@,
                prediction_utils::listing(tree@),
                self.lookahead as nat,
            ),
    {
        let next = prediction_utils::find_next_episodes(rel_path, tree, self.lookahead);
        self.on_miss_with(rel_path, &next)
    }

    /// Whether hits trigger the lookahead as misses do. Files that are cached or being
    /// copied are skipped later, so that only gaps are filled.
    pub fn predicts_on_hit(&self) -> (r: bool)
        ensures
            r == self.rolling_buffer,
    {
        self.rolling_buffer
    }

    /// What a hit asks for: nothing without a rolling buffer, otherwise what a miss would.
    pub fn on_hit(&self, rel_path: &RelPath, tree: &PathMap<Vec<Vec<u8>>>) -> (r: Vec<CacheAction>)
        ensures
            !self.rolling_buffer ==> r@.len() == 0,
            self.rolling_buffer ==> r@.len() == 1 && (r@[0] matches CacheAction::Cache(files)
                && path::paths_view(files@) == seq![rel_path@] + prediction_utils::next_episodes(
                rel_path@,
                prediction_utils::listing(tree@),
                self.lookahead as nat,
            )),
    {
        if !self.rolling_buffer {
            return Vec::new();
        }
        self.on_miss(rel_path, tree)
    }

    /// The key under which deferred events of one show fall together.
    pub fn deduplicate_key(&self, rel_path: &RelPath) -> (r: RelPath)
        ensures
            r@ == prediction_utils::show_root_of(rel_path@),
    {
        prediction_utils::show_root(rel_path)
    }
}

/// A streaming format keeps a transcoder un-filtered whatever other arguments follow.
pub proof fn law_streaming_takes_precedence(
    preset: PlexEpisodePrediction,
    process: ProcessInfo,
    i: int,
)
    requires
        !preset.process_policy.filters(process),
        process.cmdline is Some,
        streams_at(text::split_at_sep(process.cmdline->0@, 0u8), i),
    ensures
        !preset.filters(process),
{
}

/// An allowlist never lets a transcoder through that does not stream.
pub proof fn law_transcoder_must_stream(preset: PlexEpisodePrediction, process: ProcessInfo)
    requires
        text::opt_view(process.name) == Some("Plex Transcoder"@),
        process.cmdline is None || !is_playback(process.cmdline->0@),
    ensures
        preset.filters(process),
{
}

/// A command line is one of playback exactly where, among its arguments, `-f` is followed by
/// `dash`, `ssegment` or `mpegts`.
pub proof fn law_playback_streams(args: Seq<Seq<u8>>)
    requires
        args.len() > 0,
        forall|i: int| 0 <= i < args.len() ==> !(#[trigger] args[i]).contains(0u8),
    ensures
        is_playback(text::join_with(args, seq![0u8])) <==> exists|i: int|
            1 <= i < args.len() && args[i - 1] == vstd::utf8::encode_utf8("-f"@) && (
            #[trigger] args[i] == vstd::utf8::encode_utf8("dash"@) || args[i]
                == vstd::utf8::encode_utf8("ssegment"@) || args[i] == vstd::utf8::encode_utf8(
                "mpegts"@,
            )),
{
    text::lemma_split_join(args, 0u8);
    let cmdline = text::join_with(args, seq![0u8]);
    if is_playback(cmdline) {
        let i = choose|i: int| #[trigger] streams_at(text::split_at_sep(cmdline, 0u8), i);
        assert(args[i] == text::split_at_sep(cmdline, 0u8)[i]);
    }
    if exists|i: int|
        1 <= i < args.len() && args[i - 1] == vstd::utf8::encode_utf8("-f"@) && (#[trigger] args[i]
            == vstd::utf8::encode_utf8("dash"@) || args[i] == vstd::utf8::encode_utf8("ssegment"@)
            || args[i] == vstd::utf8::encode_utf8("mpegts"@)) {
        let i = choose|i: int|
            1 <= i < args.len() && args[i - 1] == vstd::utf8::encode_utf8("-f"@) && (
            #[trigger] args[i] == vstd::utf8::encode_utf8("dash"@) || args[i]
                == vstd::utf8::encode_utf8("ssegment"@) || args[i] == vstd::utf8::encode_utf8(
                "mpegts"@,
            ));
        assert(streams_at(text::split_at_sep(cmdline, 0u8), i));
    }
}

/// A process that is not a transcoder is filtered by the lists alone, and a transcoder that
/// streams is, too.
pub proof fn law_only_idle_transcoders_are_filtered(
    preset: PlexEpisodePrediction,
    process: ProcessInfo,
)
    ensures
        text::opt_view(process.name) != Some("Plex Transcoder"@) ==> (preset.filters(process)
            <==> preset.process_policy.filters(process)),
        process.cmdline is Some && is_playback(process.cmdline->0@) ==> (preset.filters(process)
            <==> preset.process_policy.filters(process)),
        preset.process_policy.filters(process) ==> preset.filters(process),
{
}

} // verus!
