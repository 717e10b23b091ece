//! Turns file accesses into copy requests.

use crate::path;
use crate::path::{PathView, RelPath};
use crate::path_map::PathMap;
use crate::prediction_utils;
use crate::prediction_utils::EpisodeFilter;
use crate::text;
use vstd::prelude::*;

pub use crate::prediction_utils::parse_season_episode;

verus! {

/// A file was read. The time is in seconds since the Unix epoch.
pub struct AccessEvent {
    pub relative_path: RelPath,
    pub timestamp: u64,
}

/// A file is to be copied to a place in the cache directory.
pub struct CopyRequest {
    pub rel_path: RelPath,
    pub cache_dest: String,
}

/// Decides which files to copy. A file is requested at most once.
pub struct Predictor {
    lookahead: usize,
    in_flight: PathMap<bool>,
}

/// The directory and the window of episodes that follow `p`: same season, numbers above the
/// episode's own by at most `lookahead`.
pub open spec fn window_after(p: PathView, lookahead: usize) -> Option<(PathView, EpisodeFilter)> {
    match prediction_utils::file_episode(p) {
        None => None,
        Some((season, episode)) => Some(
            (
                p.drop_last(),
                EpisodeFilter::Window {
                    season,
                    episode,
                    last: (episode + lookahead as u32) as u64,
                },
            ),
        ),
    }
}

/// The followers of `p` among the names that its directory lists: in episode order, at most
/// `lookahead` of them.
pub open spec fn followers(p: PathView, names: Seq<Seq<u8>>, lookahead: usize) -> Seq<PathView> {
    match window_after(p, lookahead) {
        None => Seq::empty(),
        Some((dir, window)) => prediction_utils::at_most(
            prediction_utils::ranked_episodes(names, dir, window),
            lookahead as int,
        ),
    }
}

/// The candidates that are neither cached nor requested before, each once.
pub open spec fn fresh(candidates: Seq<PathView>, cached: Seq<bool>, seen: Set<PathView>) -> Seq<
    PathView,
>
    decreases candidates.len(),
{
    if candidates.len() == 0 {
        Seq::empty()
    } else {
        let before = fresh(candidates.drop_last(), cached, seen);
        let last = candidates.last();
        if cached[candidates.len() - 1] || seen.contains(last) || before.contains(last) {
            before
        } else {
            before.push(last)
        }
    }
}

impl Predictor {
    /// The files that were requested so far.
    pub closed spec fn requested(&self) -> Set<PathView> {
        self.in_flight@.dom()
    }

    pub closed spec fn spec_lookahead(&self) -> usize {
        self.lookahead
    }

    pub fn new(lookahead: usize) -> (r: Self)
        ensures
            r.requested() == Set::<PathView>::empty(),
            r.spec_lookahead() == lookahead,
    {
        let r = Predictor { lookahead, in_flight: PathMap::new() };
        assert(r.requested() =~= Set::<PathView>::empty());
        r
    }

    /// The directory to list before followers of `rel_path` can be named; none where the
    /// name holds no episode number.
    pub fn wanted_dir(&self, rel_path: &RelPath) -> (r: Option<RelPath>)
        ensures
            r matches Some(dir) ==> window_after(rel_path@, self.spec_lookahead()) is Some && dir@
                == (window_after(rel_path@, self.spec_lookahead())->0).0,
            r is None <==> window_after(rel_path@, self.spec_lookahead()) is None,
    {
        match self.window(rel_path) {
            Some((dir, _)) => Some(dir),
            None => None,
        }
    }

    fn window(&self, rel_path: &RelPath) -> (r: Option<(RelPath, EpisodeFilter)>)
        ensures
            r matches Some((dir, w)) ==> window_after(rel_path@, self.spec_lookahead()) == Some(
                (dir@, w),
            ),
            r is None <==> window_after(rel_path@, self.spec_lookahead()) is None,
    {
        match prediction_utils::episode_of_file(rel_path) {
            None => None,
            Some((season, episode)) => {
                let last: u64 = episode as u64 + (self.lookahead as u32) as u64;
                Some(
                    (
                        rel_path.parent_or_root(),
                        EpisodeFilter::Window { season, episode, last },
                    ),
                )
            },
        }
    }

    /// The followers of `rel_path` among the names in its directory.
    pub fn regex_fallback(&self, rel_path: &RelPath, names: &Vec<Vec<u8>>) -> (r: Vec<RelPath>)
        ensures
            path::paths_view(r@) == followers(
                rel_path@,
                text::byte_strings(names@),
                self.spec_lookahead(),
            ),
    {
        match self.window(rel_path) {
            None => {
                let r: Vec<RelPath> = Vec::new();
                assert(path::paths_view(r@) =~= Seq::<PathView>::empty());
                r
            },
            Some((dir, window)) => {
                let mut r = prediction_utils::rank_episodes(names, &dir, window);
                let ghost all = path::paths_view(r@);
                assert(all.len() == r@.len());
                if r.len() > self.lookahead {
                    r.truncate(self.lookahead);
                    assert(path::paths_view(r@) =~= all.take(self.lookahead as int));
                }
                r
            },
        }
    }

    /// What follows `rel_path`: what the media database names, where it names anything, else
    /// what the names in its directory tell.
    pub fn find_next_episodes(
        &self,
        rel_path: &RelPath,
        from_db: Option<Vec<RelPath>>,
        names: &Vec<Vec<u8>>,
    ) -> (r: Vec<RelPath>)
        ensures
            path::paths_view(r@) == (if from_db is Some && from_db->0@.len() > 0 {
                path::paths_view(from_db->0@)
            } else {
                followers(rel_path@, text::byte_strings(names@), self.spec_lookahead())
            }),
    {
        match from_db {
            Some(found) => {
                if found.len() > 0 {
                    return found;
                }
            },
            None => {},
        }
        self.regex_fallback(rel_path, names)
    }

    /// Picks the files to request now. Outside the caching window there are none. Otherwise
    /// they are the candidates that are not `cached` and were never requested before.
    pub fn plan(
        &mut self,
        allowed: bool,
        candidates: &Vec<RelPath>,
        cached: &Vec<bool>,
    ) -> (r: Vec<RelPath>)
        requires
            candidates@.len() == cached@.len(),
        ensures
            final(self).spec_lookahead() == old(self).spec_lookahead(),
            path::paths_view(r@) == (if allowed {
                fresh(path::paths_view(candidates@), cached@, old(self).requested())
            } else {
                Seq::empty()
            }),
            final(self).requested() == old(self).requested().union(path::paths_view(r@).to_set()),
    {
        let mut out: Vec<RelPath> = Vec::new();
        let ghost all = path::paths_view(candidates@);
        let ghost seen = self.requested();
        let ghost lookahead = self.lookahead;
        assert(path::paths_view(out@) =~= Seq::<PathView>::empty());
        assert(self.requested() =~= seen.union(path::paths_view(out@).to_set()));
        if !allowed {
            return out;
        }
        let mut i: usize = 0;
        assert(all.take(0) =~= Seq::<PathView>::empty());
        while i < candidates.len()
            invariant
                i <= candidates.len(),
                candidates@.len() == cached@.len(),
                all == path::paths_view(candidates@),
                self.lookahead == lookahead,
                path::paths_view(out@) == fresh(all.take(i as int), cached@, seen),
                self.requested() == seen.union(path::paths_view(out@).to_set()),
            decreases candidates.len() - i,
        {
            let rel = &candidates[i];
            let ghost before = out@;
            proof {
                assert(all.take(i + 1).drop_last() =~= all.take(i as int));
                assert(all.take(i + 1).last() == rel@);
            }
            if !cached[i] && !self.in_flight.contains(rel) {
                assert(!path::paths_view(before).contains(rel@)) by {
                    if path::paths_view(before).contains(rel@) {
                        assert(path::paths_view(before).to_set().contains(rel@));
                    }
                }
                self.in_flight.insert(rel.clone(), true);
                out.push(rel.clone());
                proof {
                    let after = path::paths_view(out@);
                    assert(after =~= path::paths_view(before).push(rel@));
                    assert forall|p: PathView| after.to_set().contains(p) <==> path::paths_view(
                        before,
                    ).to_set().contains(p) || p == rel@ by {
                        if path::paths_view(before).contains(p) {
                            let k = choose|k: int|
                                0 <= k < before.len() && path::paths_view(before)[k] == p;
                            assert(after[k] == p);
                        }
                        if p == rel@ {
                            assert(after[after.len() - 1] == p);
                        }
                        if after.contains(p) && p != rel@ {
                            let k = choose|k: int| 0 <= k < after.len() && after[k] == p;
                            assert(path::paths_view(before)[k] == p);
                        }
                    }
                    assert(self.requested() =~= seen.union(after.to_set()));
                }
            } else {
                assert(cached@[i as int] || seen.contains(rel@) || path::paths_view(
                    before,
                ).contains(rel@));
            }
            i = i + 1;
        }
        assert(all.take(all.len() as int) =~= all);
        out
    }
}

/// No file is requested that is cached or was requested before, and none twice.
pub proof fn law_requests_are_fresh(
    candidates: Seq<PathView>,
    cached: Seq<bool>,
    seen: Set<PathView>,
)
    requires
        candidates.len() <= cached.len(),
    ensures
        fresh(candidates, cached, seen).no_duplicates(),
        forall|p: PathView| #[trigger]
            fresh(candidates, cached, seen).contains(p) ==> !seen.contains(p) && exists|i: int|
                0 <= i < candidates.len() && candidates[i] == p && !#[trigger] cached[i],
    decreases candidates.len(),
{
    if candidates.len() > 0 {
        let init = candidates.drop_last();
        law_requests_are_fresh(init, cached, seen);
        let before = fresh(init, cached, seen);
        let after = fresh(candidates, cached, seen);
        assert forall|p: PathView| #[trigger] after.contains(p) implies !seen.contains(p) && exists|
            i: int,
        | 0 <= i < candidates.len() && candidates[i] == p && !#[trigger] cached[i] by {
            let k = choose|k: int| 0 <= k < after.len() && after[k] == p;
            if k < before.len() {
                assert(before[k] == p);
                assert(before.contains(p));
                let i = choose|i: int|
                    0 <= i < init.len() && init[i] == p && !#[trigger] cached[i];
                assert(candidates[i] == p && !cached[i]);
            } else {
                assert(candidates[candidates.len() - 1] == p && !cached[candidates.len() - 1]);
            }
        }
    }
}

/// What to do with a copy request.
#[derive(Clone, Copy, Debug, PartialEq, Eq, Structural)]
pub enum CopyStep {
    /// Ask whether the file is cached already.
    CheckCached,
    /// Ask whether there is free space.
    CheckFreeSpace,
    /// Drop the request: the file is cached.
    SkipCached,
    /// Drop the request: there is no space.
    SkipNoSpace,
    /// Evict what exceeds the limits, then copy.
    EvictThenCopy,
}

/// The step that follows the answer to a check; a step that asks nothing stays.
pub fn next_copy_step(step: CopyStep, answer: bool) -> (r: CopyStep)
    ensures
        r == (match step {
            CopyStep::CheckCached => if answer {
                CopyStep::SkipCached
            } else {
                CopyStep::CheckFreeSpace
            },
            CopyStep::CheckFreeSpace => if answer {
                CopyStep::EvictThenCopy
            } else {
                CopyStep::SkipNoSpace
            },
            other => other,
        }),
{
    match step {
        CopyStep::CheckCached => {
            if answer {
                CopyStep::SkipCached
            } else {
                CopyStep::CheckFreeSpace
            }
        },
        CopyStep::CheckFreeSpace => {
            if answer {
                CopyStep::EvictThenCopy
            } else {
                CopyStep::SkipNoSpace
            }
        },
        other => other,
    }
}

/// Every candidate that is not cached and was not requested before is requested.
pub proof fn law_fresh_candidates_are_requested(
    candidates: Seq<PathView>,
    cached: Seq<bool>,
    seen: Set<PathView>,
    i: int,
)
    requires
        candidates.len() <= cached.len(),
        0 <= i < candidates.len(),
        !cached[i],
        !seen.contains(candidates[i]),
    ensures
        fresh(candidates, cached, seen).contains(candidates[i]),
    decreases candidates.len(),
{
    let init = candidates.drop_last();
    let before = fresh(init, cached, seen);
    let after = fresh(candidates, cached, seen);
    if i < init.len() {
        law_fresh_candidates_are_requested(init, cached, seen, i);
        let k = choose|k: int| 0 <= k < before.len() && before[k] == init[i];
        assert(after[k] == candidates[i]);
    } else if !before.contains(candidates[i]) {
        assert(after[before.len() as int] == candidates[i]);
    }
}

/// What is requested for some candidates stays requested, in the same places, when more follow:
/// requests come in the order of the candidates.
pub proof fn law_requests_keep_the_order(
    candidates: Seq<PathView>,
    cached: Seq<bool>,
    seen: Set<PathView>,
    n: int,
)
    requires
        0 <= n <= candidates.len(),
    ensures
        fresh(candidates.take(n), cached, seen).is_prefix_of(fresh(candidates, cached, seen)),
    decreases candidates.len(),
{
    if n < candidates.len() {
        law_requests_keep_the_order(candidates.drop_last(), cached, seen, n);
        assert(candidates.drop_last().take(n) =~= candidates.take(n));
        let a = fresh(candidates.take(n), cached, seen);
        let b = fresh(candidates.drop_last(), cached, seen);
        let c = fresh(candidates, cached, seen);
        assert(a =~= b.take(a.len() as int));
        assert(a =~= c.take(a.len() as int));
    } else {
        assert(candidates.take(n) =~= candidates);
        let c = fresh(candidates, cached, seen);
        assert(c =~= c.take(c.len() as int));
    }
}

/// The followers of an episode are files of its directory and its season whose numbers lie above
/// its own by at most the lookahead, in increasing order and at most as many as the lookahead.
pub proof fn law_followers_lie_in_the_window(
    p: PathView,
    names: Seq<Seq<u8>>,
    lookahead: usize,
    i: int,
    j: int,
)
    requires
        forall|k: int| 0 <= k < names.len() ==> prediction_utils::is_entry(#[trigger] names[k]),
        lookahead <= u32::MAX,
        0 <= i <= j < followers(p, names, lookahead).len(),
    ensures
        followers(p, names, lookahead).len() <= lookahead,
        followers(p, names, lookahead)[i].drop_last() == p.drop_last(),
        names.contains(followers(p, names, lookahead)[i].last()),
        prediction_utils::file_episode(p) matches Some((season, episode)) && (
        prediction_utils::file_episode(followers(p, names, lookahead)[i]) matches Some((s, e))
            && s == season && episode < e <= episode + lookahead && (prediction_utils::file_episode(
            followers(p, names, lookahead)[j],
        ) matches Some((t, f)) && e <= f)),
{
    let (season, episode) = prediction_utils::file_episode(p)->0;
    let (dir, window) = window_after(p, lookahead)->0;
    prediction_utils::law_found_files_come_in_order(names, dir, window, i, j);
    prediction_utils::law_found_files_come_in_order(names, dir, window, i, i);
    prediction_utils::law_found_files_come_in_order(names, dir, window, j, j);
    lemma_follower_accepted(names, dir, window, i);
    lemma_follower_accepted(names, dir, window, j);
}

proof fn lemma_follower_accepted(
    names: Seq<Seq<u8>>,
    dir: PathView,
    filter: EpisodeFilter,
    i: int,
)
    requires
        forall|k: int| 0 <= k < names.len() ==> prediction_utils::is_entry(#[trigger] names[k]),
        0 <= i < prediction_utils::ranked_episodes(names, dir, filter).len(),
    ensures
        prediction_utils::file_episode(
            prediction_utils::ranked_episodes(names, dir, filter)[i],
        ) matches Some((s, e)) && filter.accepts(s, e),
{
    prediction_utils::lemma_ranked_episode(names, dir, filter);
}

/// A file of the directory whose number lies in the window is among the followers, or else the
/// lookahead is used up by files whose numbers are no higher.
pub proof fn law_no_follower_is_passed_over(
    p: PathView,
    names: Seq<Seq<u8>>,
    lookahead: usize,
    a: int,
)
    requires
        forall|k: int| 0 <= k < names.len() ==> prediction_utils::is_entry(#[trigger] names[k]),
        lookahead <= u32::MAX,
        0 <= a < names.len(),
        prediction_utils::file_episode(p) matches Some((season, episode)) && (
        prediction_utils::entry_episode(names[a]) matches Some((s, e)) && s == season && episode < e
            <= episode + lookahead),
    ensures
        ({
            let found = followers(p, names, lookahead);
            let e = (prediction_utils::entry_episode(names[a])->0).1;
            found.contains(p.drop_last().push(names[a])) || (found.len() == lookahead && forall|
                k: int,
            |
                0 <= k < found.len() ==> (prediction_utils::file_episode(#[trigger] found[k])
                    matches Some((_, f)) && f <= e))
        }),
{
    let found = followers(p, names, lookahead);
    let (dir, window) = window_after(p, lookahead)->0;
    let all = prediction_utils::ranked_episodes(names, dir, window);
    prediction_utils::law_found_files_are_complete(names, dir, window, a);
    let x = choose|x: int| 0 <= x < all.len() && all[x] == dir.push(names[a]);
    let e = (prediction_utils::entry_episode(names[a])->0).1;
    if x < found.len() {
        assert(found[x] == all[x]);
    } else {
        assert forall|k: int| 0 <= k < found.len() implies (prediction_utils::file_episode(
            #[trigger] found[k],
        ) matches Some((_, f)) && f <= e) by {
            assert(found[k] == all[k]);
            prediction_utils::law_found_files_come_in_order(names, dir, window, k, x);
            lemma_follower_accepted(names, dir, window, k);
            prediction_utils::lemma_entry_file(names, dir, a);
        }
    }
}

/// A file whose name holds no number has no followers, and its directory is not asked for.
pub proof fn law_unnumbered_files_have_no_followers(
    p: PathView,
    names: Seq<Seq<u8>>,
    lookahead: usize,
)
    ensures
        prediction_utils::file_episode(p) is None ==> followers(p, names, lookahead).len() == 0
            && window_after(p, lookahead) is None,
        prediction_utils::file_episode(p) is Some ==> (window_after(p, lookahead) matches Some((
            dir,
            _,
        )) && dir == p.drop_last()),
{
}

} // verus!
