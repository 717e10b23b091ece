//! Choosing a preset by its configured name.

use crate::path;
use crate::path::{PathView, RelPath};
use crate::prediction_utils;
use crate::preset::{CacheAction, ProcessInfo};
use crate::presets::cache_on_miss::CacheOnMiss;
use crate::presets::plex_episode_prediction::PlexEpisodePrediction;
use crate::text;
use vstd::prelude::*;

verus! {

/// The strategy of a mount.
pub enum Preset {
    /// Episode lookahead that tells Plex playback from Plex's background analysis.
    PlexEpisodePrediction(PlexEpisodePrediction),
    /// The same lookahead without filtering that is specific to Plex.
    EpisodePrediction(PlexEpisodePrediction),
    /// Cache what is accessed and nothing else.
    CacheOnMiss(CacheOnMiss),
}

/// Which preset a name stands for.
#[derive(Clone, Copy, Debug, PartialEq, Eq, Structural)]
pub enum PresetKind {
    PlexEpisodePrediction,
    EpisodePrediction,
    CacheOnMiss,
    /// A preset that is not part of this library.
    Prefetch,
}

/// What a configured name leads to.
pub enum Selection {
    /// The preset of a known name.
    Made(Preset),
    /// The preset `prefetch`, which is made from settings of its own, outside this library.
    Prefetch,
    /// The default, in place of a name that is not known; calls for a warning.
    Fallback(Preset),
}

/// The preset that a name stands for; none for a name that is not known.
pub open spec fn kind_named(name: Seq<char>) -> Option<PresetKind> {
    if name == "plex-episode-prediction"@ {
        Some(PresetKind::PlexEpisodePrediction)
    } else if name == "episode-prediction"@ {
        Some(PresetKind::EpisodePrediction)
    } else if name == "cache-on-miss"@ {
        Some(PresetKind::CacheOnMiss)
    } else if name == "prefetch"@ {
        Some(PresetKind::Prefetch)
    } else {
        None
    }
}

impl Preset {
    pub open spec fn kind(self) -> PresetKind {
        match self {
            Preset::PlexEpisodePrediction(_) => PresetKind::PlexEpisodePrediction,
            Preset::EpisodePrediction(_) => PresetKind::EpisodePrediction,
            Preset::CacheOnMiss(_) => PresetKind::CacheOnMiss,
        }
    }

    /// Whether the preset was made with these settings.
    pub open spec fn made_with(self, lookahead: usize, blocklist: Vec<String>, rolling: bool) -> bool {
        match self {
            Preset::PlexEpisodePrediction(p) => p.lookahead == lookahead
                && p.process_policy.blocklist == blocklist && p.process_policy.allowlist@.len()
                == 0 && p.rolling_buffer == rolling,
            Preset::EpisodePrediction(p) => p.lookahead == lookahead
                && p.process_policy.blocklist == blocklist && p.process_policy.allowlist@.len()
                == 0 && p.rolling_buffer == rolling,
            Preset::CacheOnMiss(p) => p.blocklist == blocklist,
        }
    }

    /// Whether accesses of `process` are to be ignored.
    pub open spec fn filters(self, process: ProcessInfo) -> bool {
        match self {
            Preset::PlexEpisodePrediction(p) => p.filters(process),
            Preset::EpisodePrediction(p) => p.process_policy.filters(process),
            Preset::CacheOnMiss(p) => process.named_in(text::strings_view(p.blocklist@)),
        }
    }

    /// Makes the preset of a configured name. A name that is not known stands for the default.
    pub fn select(name: &str, lookahead: usize, blocklist: Vec<String>, rolling: bool) -> (r:
        Selection)
        ensures
            match kind_named(name@) {
                Some(PresetKind::Prefetch) => r is Prefetch,
                Some(kind) => r matches Selection::Made(p) && p.kind() == kind && p.made_with(
                    lookahead,
                    blocklist,
                    rolling,
                ),
                None => r matches Selection::Fallback(p) && p.kind()
                    == PresetKind::PlexEpisodePrediction && p.made_with(
                    lookahead,
                    blocklist,
                    rolling,
                ),
            },
    {
        if text::str_eq(name, "plex-episode-prediction") {
            Selection::Made(
                Preset::PlexEpisodePrediction(
                    PlexEpisodePrediction::new(lookahead, blocklist, rolling),
                ),
            )
        } else if text::str_eq(name, "episode-prediction") {
            Selection::Made(
                Preset::EpisodePrediction(
                    PlexEpisodePrediction::new(lookahead, blocklist, rolling),
                ),
            )
        } else if text::str_eq(name, "cache-on-miss") {
            Selection::Made(Preset::CacheOnMiss(CacheOnMiss::new(blocklist)))
        } else if text::str_eq(name, "prefetch") {
            Selection::Prefetch
        } else {
            Selection::Fallback(
                Preset::PlexEpisodePrediction(
                    PlexEpisodePrediction::new(lookahead, blocklist, rolling),
                ),
            )
        }
    }

    /// Whether accesses of `process` are to be ignored.
    pub fn should_filter(&self, process: &ProcessInfo) -> (r: bool)
        ensures
            r == self.filters(*process),
    {
        match self {
            Preset::PlexEpisodePrediction(p) => p.should_filter(process),
            Preset::EpisodePrediction(p) => p.process_policy.should_filter(process),
            Preset::CacheOnMiss(p) => p.should_filter(process),
        }
    }

    /// How many following episodes to look for on an access; none where the access calls for
    /// no prediction.
    pub fn lookahead(&self, hit: bool) -> (r: Option<usize>)
        ensures
            r == (match *self {
                Preset::PlexEpisodePrediction(p) => if hit && !p.rolling_buffer {
                    None
                } else {
                    Some(p.lookahead)
                },
                Preset::EpisodePrediction(p) => if hit && !p.rolling_buffer {
                    None
                } else {
                    Some(p.lookahead)
                },
                Preset::CacheOnMiss(_) => None,
            }),
    {
        match self {
            Preset::PlexEpisodePrediction(p) => {
                if hit && !p.predicts_on_hit() {
                    None
                } else {
                    Some(p.lookahead)
                }
            },
            Preset::EpisodePrediction(p) => {
                if hit && !p.predicts_on_hit() {
                    None
                } else {
                    Some(p.lookahead)
                }
            },
            Preset::CacheOnMiss(_) => None,
        }
    }

    /// The files to cache after an access, given the episodes that follow: the file itself and
    /// those; for a hit nothing unless the preset predicts on hits.
    pub fn files_to_cache(&self, rel_path: &RelPath, hit: bool, next: &Vec<RelPath>) -> (r: Vec<
        RelPath,
    >)
        ensures
            path::paths_view(r@) == (match *self {
                Preset::PlexEpisodePrediction(p) => if hit && !p.rolling_buffer {
                    Seq::empty()
                } else {
                    seq![rel_path@] + path::paths_view(next@)
                },
                Preset::EpisodePrediction(p) => if hit && !p.rolling_buffer {
                    Seq::empty()
                } else {
                    seq![rel_path@] + path::paths_view(next@)
                },
                Preset::CacheOnMiss(_) => if hit {
                    Seq::empty()
                } else {
                    seq![rel_path@]
                },
            }),
    {
        let nothing: Vec<RelPath> = Vec::new();
        assert(path::paths_view(nothing@) =~= Seq::<PathView>::empty());
        let actions = match self {
            Preset::PlexEpisodePrediction(p) => {
                if hit && !p.predicts_on_hit() {
                    return nothing;
                }
                p.on_miss_with(rel_path, next)
            },
            Preset::EpisodePrediction(p) => {
                if hit && !p.predicts_on_hit() {
                    return nothing;
                }
                p.on_miss_with(rel_path, next)
            },
            Preset::CacheOnMiss(p) => {
                if hit {
                    return nothing;
                }
                p.on_miss(rel_path)
            },
        };
        let mut actions = actions;
        match actions.pop() {
            Some(CacheAction::Cache(files)) => {
                assert(path::paths_view(files@) =~= match *self {
                    Preset::CacheOnMiss(_) => seq![rel_path@],
                    _ => seq![rel_path@] + path::paths_view(next@),
                });
                files
            },
            None => nothing,
        }
    }

    /// The key under which deferred events fall together: the directory of an episode under
    /// episode prediction, the file itself otherwise.
    pub fn deduplicate_key(&self, rel_path: &RelPath) -> (r: RelPath)
        ensures
            r@ == (match *self {
                Preset::CacheOnMiss(_) => rel_path@,
                _ => prediction_utils::show_root_of(rel_path@),
            }),
    {
        match self {
            Preset::PlexEpisodePrediction(p) => p.deduplicate_key(rel_path),
            Preset::EpisodePrediction(p) => p.deduplicate_key(rel_path),
            Preset::CacheOnMiss(_) => rel_path.clone(),
        }
    }
}

/// Without Plex-specific filtering a transcoder is treated like any other process.
pub proof fn law_plain_prediction_ignores_transcoding(p: PlexEpisodePrediction, process: ProcessInfo)
    ensures
        Preset::EpisodePrediction(p).filters(process) == p.process_policy.filters(process),
        Preset::EpisodePrediction(p).filters(process) ==> Preset::PlexEpisodePrediction(p).filters(
            process,
        ),
{
}

/// Each of the four names stands for its own preset, and no other name stands for any.
pub proof fn law_names_of_presets(name: Seq<char>)
    ensures
        kind_named(name) == Some(PresetKind::PlexEpisodePrediction) <==> name
            == "plex-episode-prediction"@,
        kind_named(name) == Some(PresetKind::EpisodePrediction) <==> name
            == "episode-prediction"@,
        kind_named(name) == Some(PresetKind::CacheOnMiss) <==> name == "cache-on-miss"@,
        kind_named(name) == Some(PresetKind::Prefetch) <==> name == "prefetch"@,
{
    reveal_strlit("plex-episode-prediction");
    reveal_strlit("episode-prediction");
    reveal_strlit("cache-on-miss");
    reveal_strlit("prefetch");
    assert("plex-episode-prediction"@.len() == 23);
    assert("episode-prediction"@.len() == 18);
    assert("cache-on-miss"@.len() == 13);
    assert("prefetch"@.len() == 8);
}

/// A preset filters by what it was made with: caching on a miss by its blocklist alone.
pub proof fn law_presets_filter_by_their_lists(
    preset: Preset,
    lookahead: usize,
    blocklist: Vec<String>,
    rolling: bool,
    process: ProcessInfo,
)
    requires
        preset.made_with(lookahead, blocklist, rolling),
        preset.kind() != PresetKind::PlexEpisodePrediction,
    ensures
        preset.filters(process) <==> (process.name matches Some(n) && text::strings_view(
            blocklist@,
        ).contains(n@)) || exists|i: int|
            0 <= i < process.ancestors@.len() && text::strings_view(blocklist@).contains(
                (#[trigger] process.ancestors@[i])@,
            ),
{
}

/// A preset that predicts episodes keeps the lookahead and the mode that it was made with.
pub proof fn law_presets_keep_their_settings(
    preset: Preset,
    lookahead: usize,
    blocklist: Vec<String>,
    rolling: bool,
)
    requires
        preset.made_with(lookahead, blocklist, rolling),
    ensures
        preset matches Preset::PlexEpisodePrediction(p) ==> p.lookahead == lookahead
            && p.rolling_buffer == rolling && p.process_policy.blocklist == blocklist,
        preset matches Preset::EpisodePrediction(p) ==> p.lookahead == lookahead
            && p.rolling_buffer == rolling && p.process_policy.blocklist == blocklist,
        preset matches Preset::CacheOnMiss(p) ==> p.blocklist == blocklist,
        preset is PlexEpisodePrediction <==> preset.kind() == PresetKind::PlexEpisodePrediction,
        preset is EpisodePrediction <==> preset.kind() == PresetKind::EpisodePrediction,
        preset is CacheOnMiss <==> preset.kind() == PresetKind::CacheOnMiss,
{
}

/// Under the Plex preset an idle transcoder is filtered and everything else goes by the lists; the
/// other presets make no difference between processes but by their lists.
pub proof fn law_plex_preset_watches_transcoders(p: PlexEpisodePrediction, process: ProcessInfo)
    ensures
        text::opt_view(process.name) == Some("Plex Transcoder"@) && process.cmdline is None
            ==> Preset::PlexEpisodePrediction(p).filters(process),
        text::opt_view(process.name) != Some("Plex Transcoder"@)
            ==> Preset::PlexEpisodePrediction(p).filters(process) == p.process_policy.filters(
            process,
        ),
        Preset::EpisodePrediction(p).filters(process) == p.process_policy.filters(process),
{
}

} // verus!
