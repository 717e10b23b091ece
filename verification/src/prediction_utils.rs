//! Episode numbering and the search for the episodes that follow one.

use crate::path;
use crate::path::{PathView, RelPath};
use crate::path_map::PathMap;
use crate::sort;
use crate::text;
use vstd::prelude::*;

verus! {

/// Capture groups of the leftmost match of a regular expression: the whole match first,
/// `None` for a group that took no part. There is no result where nothing matches or the
/// expression is malformed.
pub uninterp spec fn captures(pattern: Seq<char>, text: Seq<char>) -> Option<
    Seq<Option<Seq<char>>>,
>;

/// Element-wise view of capture groups.
pub open spec fn groups_view(groups: Option<Vec<Option<String>>>) -> Option<
    Seq<Option<Seq<char>>>,
> {
    match groups {
        Some(v) => Some(
            v@.map_values(
                |g: Option<String>|
                    match g {
                        Some(s) => Some(s@),
                        None => None::<Seq<char>>,
                    },
            ),
        ),
        None => None,
    }
}

/// Compiles `pattern` with `regex::Regex::new` and runs `Regex::captures` on `text`. The
/// groups are a function of the two strings alone. A pattern may be too large to compile on one
/// machine and not on another, so only the two patterns of this module may be given, which are
/// small.
#[verifier::external_body]
fn regex_captures(pattern: &str, text: &str) -> (r: Option<Vec<Option<String>>>)
    requires
        pattern@ == episode_pattern() || pattern@ == season_pattern(),
    ensures
        groups_view(r) == captures(pattern@, text@),
{
    let re = regex::Regex::new(pattern).ok()?;
    let found = re.captures(text)?;
    Some(found.iter().map(|g| g.map(|m| m.as_str().to_owned())).collect())
}

/// The number in capture group `i`.
pub open spec fn group_number(groups: Seq<Option<Seq<char>>>, i: int) -> Option<u32> {
    if i < groups.len() && groups[i] is Some {
        match text::decimal_value(groups[i]->0, u32::MAX as nat) {
            Some(n) => Some(n as u32),
            None => None,
        }
    } else {
        None
    }
}

/// Season and episode from the first two groups; both must be numbers.
pub open spec fn numbers_in(groups: Option<Seq<Option<Seq<char>>>>) -> Option<(u32, u32)> {
    match groups {
        None => None,
        Some(g) => match (group_number(g, 1), group_number(g, 2)) {
            (Some(season), Some(episode)) => Some((season, episode)),
            _ => None,
        },
    }
}

/// The season in the first group.
pub open spec fn number_in(groups: Option<Seq<Option<Seq<char>>>>) -> Option<u32> {
    match groups {
        None => None,
        Some(g) => group_number(g, 1),
    }
}

/// `SxxExx` anywhere in a name, in either case.
pub open spec fn episode_pattern() -> Seq<char> {
    "(?i)[Ss](\\d{1,2})[Ee](\\d{1,3})"@
}

/// A whole name of the form "Season N", in either case.
pub open spec fn season_pattern() -> Seq<char> {
    "(?i)^Season\\s+0*(\\d+)$"@
}

/// Season and episode number in a file name.
pub open spec fn season_episode(name: Seq<char>) -> Option<(u32, u32)> {
    numbers_in(captures(episode_pattern(), name))
}

/// Season number of a directory name.
pub open spec fn season_dir(name: Seq<char>) -> Option<u32> {
    number_in(captures(season_pattern(), name))
}

fn read_group(groups: &Vec<Option<String>>, i: usize) -> (r: Option<u32>)
    ensures
        r == group_number(groups_view(Some(*groups))->0, i as int),
{
    if i < groups.len() {
        match &groups[i] {
            Some(s) => match text::parse_decimal(s.as_str(), 0xffff_ffff) {
                Some(n) => Some(n as u32),
                None => None,
            },
            None => None,
        }
    } else {
        None
    }
}

/// Reads season and episode from the capture groups of an `SxxExx` match.
pub fn episode_from_groups(groups: &Option<Vec<Option<String>>>) -> (r: Option<(u32, u32)>)
    ensures
        r == numbers_in(groups_view(*groups)),
{
    match groups {
        None => None,
        Some(g) => match (read_group(g, 1), read_group(g, 2)) {
            (Some(season), Some(episode)) => Some((season, episode)),
            _ => None,
        },
    }
}

/// Reads the season from the capture groups of a "Season N" match.
pub fn season_from_groups(groups: &Option<Vec<Option<String>>>) -> (r: Option<u32>)
    ensures
        r == number_in(groups_view(*groups)),
{
    match groups {
        None => None,
        Some(g) => read_group(g, 1),
    }
}

/// Parses `SxxExx` (or `sxxexx`) from a file name. Returns `(season, episode)`.
pub fn parse_season_episode(name: &str) -> (r: Option<(u32, u32)>)
    ensures
        r == season_episode(name@),
{
    let groups = regex_captures("(?i)[Ss](\\d{1,2})[Ee](\\d{1,3})", name);
    episode_from_groups(&groups)
}

/// Parses a "Season N" directory name. Returns the season number.
pub fn parse_season_dir(name: &str) -> (r: Option<u32>)
    ensures
        r == season_dir(name@),
{
    let groups = regex_captures("(?i)^Season\\s+0*(\\d+)$", name);
    season_from_groups(&groups)
}

/// Season and episode number of a file, by its name.
pub open spec fn file_episode(p: PathView) -> Option<(u32, u32)> {
    if path::has_name(p) {
        entry_episode(p.last())
    } else {
        None
    }
}

/// Reads season and episode number off a file's name.
pub fn episode_of_file(rel_path: &RelPath) -> (r: Option<(u32, u32)>)
    ensures
        r == file_episode(rel_path@),
{
    match rel_path.file_name() {
        Some(name) => {
            let label = text::utf8_lossy(name);
            parse_season_episode(label.as_str())
        },
        None => None,
    }
}

/// The directory of an episode, and any other file itself.
pub open spec fn show_root_of(p: PathView) -> PathView {
    if file_episode(p) is Some {
        path::parent_or_root(p)
    } else {
        p
    }
}

/// The "show root" for deferred-event deduplication: the parent directory for episode files,
/// which groups the events of one show together, or the full path for other files.
pub fn show_root(rel_path: &RelPath) -> (r: RelPath)
    ensures
        r@ == show_root_of(rel_path@),
{
    if episode_of_file(rel_path).is_some() {
        rel_path.parent_or_root()
    } else {
        rel_path.clone()
    }
}

/// Episodes that lie in one directory fall together, and nothing else falls together with another
/// file.
pub proof fn law_show_root_groups_episodes(a: PathView, b: PathView)
    requires
        a.len() > 0,
        b.len() > 0,
    ensures
        file_episode(a) is Some && file_episode(b) is Some ==> (show_root_of(a) == show_root_of(b)
            <==> a.drop_last() == b.drop_last()),
        file_episode(a) is None && file_episode(b) is None ==> (show_root_of(a) == show_root_of(b)
            <==> a == b),
{
}

/// Which episodes of a directory a step of the search is after.
#[derive(Clone, Copy, Debug, PartialEq, Eq, Structural)]
pub enum EpisodeFilter {
    /// Later episodes of one season.
    After { season: u32, episode: u32 },
    /// All episodes of later seasons.
    LaterSeasons { season: u32 },
    /// Episodes of one season after `episode`, up to `last`.
    Window { season: u32, episode: u32, last: u64 },
    /// Every numbered file.
    Any,
}

impl EpisodeFilter {
    /// Whether an episode qualifies.
    pub open spec fn accepts(self, s: u32, e: u32) -> bool {
        match self {
            EpisodeFilter::After { season, episode } => s == season && e > episode,
            EpisodeFilter::LaterSeasons { season } => s > season,
            EpisodeFilter::Window { season, episode, last } => s == season && episode < e && e
                <= last,
            EpisodeFilter::Any => true,
        }
    }
}

/// Sort key that orders by season, then by episode.
pub open spec fn episode_key(season: u32, episode: u32) -> u128 {
    (season * 0x1_0000_0000 + episode) as u128
}

/// Season and episode number of a directory entry.
pub open spec fn entry_episode(name: Seq<u8>) -> Option<(u32, u32)> {
    season_episode(text::lossy_utf8(name))
}

/// Qualifying episodes of a directory listing with their keys, in listing order.
pub open spec fn episodes_in(
    names: Seq<Seq<u8>>,
    dir: PathView,
    filter: EpisodeFilter,
) -> Seq<(u128, PathView)>
    decreases names.len(),
{
    if names.len() == 0 {
        Seq::empty()
    } else {
        let before = episodes_in(names.drop_last(), dir, filter);
        match entry_episode(names.last()) {
            Some((s, e)) => if filter.accepts(s, e) {
                before.push((episode_key(s, e), path::joined(dir, names.last())))
            } else {
                before
            },
            None => before,
        }
    }
}

/// Qualifying entries of a directory listing with their keys, in listing order, when the numbers
/// of the entries are `numbers`.
pub open spec fn numbered_in(
    names: Seq<Seq<u8>>,
    numbers: Seq<Option<(u32, u32)>>,
    dir: PathView,
    filter: EpisodeFilter,
) -> Seq<(u128, PathView)>
    decreases names.len(),
{
    if names.len() == 0 {
        Seq::empty()
    } else {
        let before = numbered_in(names.drop_last(), numbers, dir, filter);
        match numbers[names.len() - 1] {
            Some((s, e)) => if filter.accepts(s, e) {
                before.push((episode_key(s, e), path::joined(dir, names.last())))
            } else {
                before
            },
            None => before,
        }
    }
}

/// Entries of a directory listing whose number, in `numbers`, is above `season`, keyed by it, in
/// listing order.
pub open spec fn later_in(
    names: Seq<Seq<u8>>,
    numbers: Seq<Option<u32>>,
    show: PathView,
    season: u32,
) -> Seq<(u128, PathView)>
    decreases names.len(),
{
    if names.len() == 0 {
        Seq::empty()
    } else {
        let before = later_in(names.drop_last(), numbers, show, season);
        match numbers[names.len() - 1] {
            Some(s) => if s > season {
                before.push((s as u128, path::joined(show, names.last())))
            } else {
                before
            },
            None => before,
        }
    }
}

proof fn lemma_numbered(
    names: Seq<Seq<u8>>,
    numbers: Seq<Option<(u32, u32)>>,
    dir: PathView,
    filter: EpisodeFilter,
)
    requires
        names.len() <= numbers.len(),
        forall|i: int| 0 <= i < names.len() ==> numbers[i] == entry_episode(#[trigger] names[i]),
    ensures
        numbered_in(names, numbers, dir, filter) == episodes_in(names, dir, filter),
    decreases names.len(),
{
    if names.len() > 0 {
        assert forall|i: int| 0 <= i < names.len() - 1 implies numbers[i] == entry_episode(
            #[trigger] names.drop_last()[i],
        ) by {
            assert(names.drop_last()[i] == names[i]);
        }
        lemma_numbered(names.drop_last(), numbers, dir, filter);
        assert(numbers[names.len() - 1] == entry_episode(names[names.len() - 1]));
    }
}

proof fn lemma_later(names: Seq<Seq<u8>>, numbers: Seq<Option<u32>>, show: PathView, season: u32)
    requires
        names.len() <= numbers.len(),
        forall|i: int|
            0 <= i < names.len() ==> numbers[i] == season_dir(
                text::lossy_utf8(#[trigger] names[i]),
            ),
    ensures
        later_in(names, numbers, show, season) == seasons_in(names, show, season),
    decreases names.len(),
{
    if names.len() > 0 {
        assert forall|i: int| 0 <= i < names.len() - 1 implies numbers[i] == season_dir(
            text::lossy_utf8(#[trigger] names.drop_last()[i]),
        ) by {
            assert(names.drop_last()[i] == names[i]);
        }
        lemma_later(names.drop_last(), numbers, show, season);
        assert(numbers[names.len() - 1] == season_dir(text::lossy_utf8(names[names.len() - 1])));
    }
}

/// "Season N" directories later than `season`, keyed by N, in listing order.
pub open spec fn seasons_in(names: Seq<Seq<u8>>, show: PathView, season: u32) -> Seq<
    (u128, PathView),
>
    decreases names.len(),
{
    if names.len() == 0 {
        Seq::empty()
    } else {
        let before = seasons_in(names.drop_last(), show, season);
        match season_dir(text::lossy_utf8(names.last())) {
            Some(s) => if s > season {
                before.push((s as u128, path::joined(show, names.last())))
            } else {
                before
            },
            None => before,
        }
    }
}

/// Qualifying episodes of a directory in season and episode order.
pub open spec fn ranked_episodes(
    names: Seq<Seq<u8>>,
    dir: PathView,
    filter: EpisodeFilter,
) -> Seq<PathView> {
    sort::items(sort::stable_sorted(episodes_in(names, dir, filter)))
}

/// Later season directories in season order.
pub open spec fn ranked_seasons(names: Seq<Seq<u8>>, show: PathView, season: u32) -> Seq<
    PathView,
> {
    sort::items(sort::stable_sorted(seasons_in(names, show, season)))
}

/// At most the first `n` elements.
pub open spec fn at_most<T>(s: Seq<T>, n: int) -> Seq<T> {
    if s.len() <= n {
        s
    } else {
        s.take(n)
    }
}

/// The name under which a directory is checked for being a season directory: empty where it has
/// none.
pub open spec fn dir_label(dir: PathView) -> Seq<char> {
    if path::has_name(dir) {
        text::lossy_utf8(dir.last())
    } else {
        Seq::empty()
    }
}

fn accepts(filter: &EpisodeFilter, s: u32, e: u32) -> (r: bool)
    ensures
        r == filter.accepts(s, e),
{
    match *filter {
        EpisodeFilter::After { season, episode } => s == season && e > episode,
        EpisodeFilter::LaterSeasons { season } => s > season,
        EpisodeFilter::Window { season, episode, last } => s == season && episode < e && e as u64
            <= last,
        EpisodeFilter::Any => true,
    }
}

/// Lists the qualifying entries of a directory in season and episode order, when the numbers of
/// the entries are `numbers`.
pub fn rank_numbered(
    names: &Vec<Vec<u8>>,
    numbers: &Vec<Option<(u32, u32)>>,
    dir: &RelPath,
    filter: EpisodeFilter,
) -> (r: Vec<RelPath>)
    requires
        names@.len() == numbers@.len(),
    ensures
        path::paths_view(r@) == sort::items(
            sort::stable_sorted(
                numbered_in(text::byte_strings(names@), numbers@, dir@, filter),
            ),
        ),
{
    let ghost all = text::byte_strings(names@);
    let mut keyed: Vec<(u128, RelPath)> = Vec::new();
    let mut i: usize = 0;
    proof {
        assert(all.take(0) =~= Seq::<Seq<u8>>::empty());
        assert(sort::map_items(keyed@, path::path_fn()) =~= numbered_in(
            all.take(0),
            numbers@,
            dir@,
            filter,
        ));
    }
    while i < names.len()
        invariant
            i <= names.len(),
            names@.len() == numbers@.len(),
            all == text::byte_strings(names@),
            sort::map_items(keyed@, path::path_fn()) == numbered_in(
                all.take(i as int),
                numbers@,
                dir@,
                filter,
            ),
        decreases names.len() - i,
    {
        let name: &Vec<u8> = &names[i];
        let ghost before = keyed@;
        proof {
            assert(all.take(i + 1).drop_last() =~= all.take(i as int));
            assert(all.take(i + 1).last() == name@);
        }
        match numbers[i] {
            Some((s, e)) => {
                if accepts(&filter, s, e) {
                    let key: u128 = s as u128 * 0x1_0000_0000 + e as u128;
                    let found = dir.join(name);
                    keyed.push((key, found));
                    assert(sort::map_items(keyed@, path::path_fn()) =~= sort::map_items(
                        before,
                        path::path_fn(),
                    ).push((key, found@)));
                }
            },
            None => {},
        }
        i = i + 1;
    }
    assert(all.take(all.len() as int) =~= all);
    sorted_paths(keyed)
}

/// Lists the qualifying episodes of a directory in season and episode order.
pub fn rank_episodes(names: &Vec<Vec<u8>>, dir: &RelPath, filter: EpisodeFilter) -> (r: Vec<RelPath>)
    ensures
        path::paths_view(r@) == ranked_episodes(text::byte_strings(names@), dir@, filter),
{
    let mut numbers: Vec<Option<(u32, u32)>> = Vec::new();
    let mut i: usize = 0;
    while i < names.len()
        invariant
            i <= names.len(),
            numbers@.len() == i,
            forall|k: int| 0 <= k < i ==> #[trigger] numbers@[k] == entry_episode(names@[k]@),
        decreases names.len() - i,
    {
        let label = text::utf8_lossy(&names[i]);
        numbers.push(parse_season_episode(label.as_str()));
        i = i + 1;
    }
    proof {
        let all = text::byte_strings(names@);
        assert forall|k: int| 0 <= k < all.len() implies numbers@[k] == entry_episode(
            #[trigger] all[k],
        ) by {
            assert(all[k] == names@[k]@);
        }
        lemma_numbered(all, numbers@, dir@, filter);
    }
    rank_numbered(names, &numbers, dir, filter)
}

/// Lists the entries of a directory whose number, in `numbers`, is above `season`, in the order of
/// their numbers.
pub fn rank_later(
    names: &Vec<Vec<u8>>,
    numbers: &Vec<Option<u32>>,
    show: &RelPath,
    season: u32,
) -> (r: Vec<RelPath>)
    requires
        names@.len() == numbers@.len(),
    ensures
        path::paths_view(r@) == sort::items(
            sort::stable_sorted(
                later_in(text::byte_strings(names@), numbers@, show@, season),
            ),
        ),
{
    let ghost all = text::byte_strings(names@);
    let mut keyed: Vec<(u128, RelPath)> = Vec::new();
    let mut i: usize = 0;
    proof {
        assert(all.take(0) =~= Seq::<Seq<u8>>::empty());
        assert(sort::map_items(keyed@, path::path_fn()) =~= later_in(
            all.take(0),
            numbers@,
            show@,
            season,
        ));
    }
    while i < names.len()
        invariant
            i <= names.len(),
            names@.len() == numbers@.len(),
            all == text::byte_strings(names@),
            sort::map_items(keyed@, path::path_fn()) == later_in(
                all.take(i as int),
                numbers@,
                show@,
                season,
            ),
        decreases names.len() - i,
    {
        let name: &Vec<u8> = &names[i];
        let ghost before = keyed@;
        proof {
            assert(all.take(i + 1).drop_last() =~= all.take(i as int));
            assert(all.take(i + 1).last() == name@);
        }
        match numbers[i] {
            Some(s) => {
                if s > season {
                    let found = show.join(name);
                    keyed.push((s as u128, found));
                    assert(sort::map_items(keyed@, path::path_fn()) =~= sort::map_items(
                        before,
                        path::path_fn(),
                    ).push((s as u128, found@)));
                }
            },
            None => {},
        }
        i = i + 1;
    }
    assert(all.take(all.len() as int) =~= all);
    sorted_paths(keyed)
}

/// Lists the later season directories of a show in season order.
pub fn rank_seasons(names: &Vec<Vec<u8>>, show: &RelPath, season: u32) -> (r: Vec<RelPath>)
    ensures
        path::paths_view(r@) == ranked_seasons(text::byte_strings(names@), show@, season),
{
    let mut numbers: Vec<Option<u32>> = Vec::new();
    let mut i: usize = 0;
    while i < names.len()
        invariant
            i <= names.len(),
            numbers@.len() == i,
            forall|k: int|
                0 <= k < i ==> #[trigger] numbers@[k] == season_dir(
                    text::lossy_utf8(names@[k]@),
                ),
        decreases names.len() - i,
    {
        let label = text::utf8_lossy(&names[i]);
        numbers.push(parse_season_dir(label.as_str()));
        i = i + 1;
    }
    proof {
        let all = text::byte_strings(names@);
        assert forall|k: int| 0 <= k < all.len() implies numbers@[k] == season_dir(
            text::lossy_utf8(#[trigger] all[k]),
        ) by {
            assert(all[k] == names@[k]@);
        }
        lemma_later(all, numbers@, show@, season);
    }
    rank_later(names, &numbers, show, season)
}

fn sorted_paths(keyed: Vec<(u128, RelPath)>) -> (r: Vec<RelPath>)
    ensures
        path::paths_view(r@) == sort::items(
            sort::stable_sorted(sort::map_items(keyed@, path::path_fn())),
        ),
{
    let sorted = sort::stable_sort(keyed);
    proof {
        sort::lemma_map_items_sorted(keyed@, path::path_fn());
    }
    let ghost want = sort::items(sort::map_items(sorted@, path::path_fn()));
    let mut out: Vec<RelPath> = Vec::new();
    let mut i: usize = 0;
    while i < sorted.len()
        invariant
            i <= sorted.len(),
            want == sort::items(sort::map_items(sorted@, path::path_fn())),
            path::paths_view(out@) =~= want.take(i as int),
        decreases sorted.len() - i,
    {
        let ghost before = out@;
        out.push(sorted[i].1.clone());
        assert(path::paths_view(out@) =~= path::paths_view(before).push(sorted@[i as int].1@));
        i = i + 1;
    }
    assert(path::paths_view(out@) =~= want);
    out
}

/// Where a search stands.
pub enum SearchStage {
    /// The episode's own directory is to be listed.
    SameSeason { dir: RelPath, episode: u32 },
    /// The show directory, which holds the season directories, is to be listed.
    ShowDir { show: RelPath },
    /// The first of the remaining season directories is to be listed.
    Seasons { dirs: Vec<RelPath> },
    /// The directory that holds all seasons is to be listed.
    Flat { dir: RelPath },
    /// Nothing is left to list.
    Finished,
}

/// View of a search stage.
pub enum StageView {
    SameSeason { dir: PathView, episode: u32 },
    ShowDir { show: PathView },
    Seasons { dirs: Seq<PathView> },
    Flat { dir: PathView },
    Finished,
}

/// A search for the episodes that follow one, driven by directory listings.
///
/// First come later episodes of the same season from the episode's own directory. While
/// the lookahead is not reached, later seasons follow: from the `Season X` directories
/// next to the episode's own one where that is a season directory, else from the same
/// directory again.
pub struct EpisodeSearch {
    season: u32,
    lookahead: usize,
    found: Vec<RelPath>,
    stage: SearchStage,
}

/// View of a search.
pub struct SearchView {
    pub season: u32,
    pub lookahead: nat,
    pub found: Seq<PathView>,
    pub stage: StageView,
}

impl View for SearchStage {
    type V = StageView;

    open spec fn view(&self) -> StageView {
        match *self {
            SearchStage::SameSeason { dir, episode } => StageView::SameSeason { dir: dir@, episode },
            SearchStage::ShowDir { show } => StageView::ShowDir { show: show@ },
            SearchStage::Seasons { dirs } => StageView::Seasons { dirs: path::paths_view(dirs@) },
            SearchStage::Flat { dir } => StageView::Flat { dir: dir@ },
            SearchStage::Finished => StageView::Finished,
        }
    }
}

impl View for EpisodeSearch {
    type V = SearchView;

    closed spec fn view(&self) -> SearchView {
        SearchView {
            season: self.season,
            lookahead: self.lookahead as nat,
            found: path::paths_view(self.found@),
            stage: self.stage@,
        }
    }
}

impl SearchView {
    /// What has been found never exceeds the lookahead, and a list of season directories
    /// that is to be visited is not empty.
    pub open spec fn wf(self) -> bool {
        &&& self.found.len() <= self.lookahead
        &&& self.stage matches StageView::Seasons { dirs } ==> dirs.len() > 0
    }

    /// The directory whose listing the search waits for.
    pub open spec fn wants(self) -> Option<PathView> {
        match self.stage {
            StageView::SameSeason { dir, .. } => Some(dir),
            StageView::ShowDir { show } => Some(show),
            StageView::Seasons { dirs } => Some(dirs[0]),
            StageView::Flat { dir } => Some(dir),
            StageView::Finished => None,
        }
    }

    /// The search that begins with an access to `p`, a file of the given season and episode.
    pub open spec fn begun_at(
        p: PathView,
        number: Option<(u32, u32)>,
        lookahead: nat,
    ) -> SearchView {
        match number {
            None => SearchView {
                season: 0,
                lookahead,
                found: Seq::empty(),
                stage: StageView::Finished,
            },
            Some((season, episode)) => SearchView {
                season,
                lookahead,
                found: Seq::empty(),
                stage: StageView::SameSeason { dir: path::parent_or_root(p), episode },
            },
        }
    }

    /// The search that begins with an access to `p`.
    pub open spec fn begun(p: PathView, lookahead: nat) -> SearchView {
        SearchView::begun_at(p, file_episode(p), lookahead)
    }

    /// What the search looks for in the listing that it waits for, in order.
    pub open spec fn ranking(self, names: Seq<Seq<u8>>) -> Seq<PathView> {
        match self.stage {
            StageView::SameSeason { dir, episode } => ranked_episodes(
                names,
                dir,
                EpisodeFilter::After { season: self.season, episode },
            ),
            StageView::ShowDir { show } => ranked_seasons(names, show, self.season),
            StageView::Seasons { dirs } => ranked_episodes(names, dirs[0], EpisodeFilter::Any),
            StageView::Flat { dir } => ranked_episodes(
                names,
                dir,
                EpisodeFilter::LaterSeasons { season: self.season },
            ),
            StageView::Finished => Seq::empty(),
        }
    }

    /// Whether the search is in the directory of one season.
    pub open spec fn in_season_dir(self) -> bool {
        self.stage matches StageView::SameSeason { dir, .. } && season_dir(dir_label(dir)) is Some
    }

    /// The search after what it looks for was found, in order; `in_season` says that it is in the
    /// directory of one season.
    pub open spec fn advanced(self, ranked: Seq<PathView>, in_season: bool) -> SearchView {
        match self.stage {
            StageView::SameSeason { dir, episode } => {
                let found = at_most(ranked, self.lookahead as int);
                SearchView {
                    found,
                    stage: if found.len() >= self.lookahead {
                        StageView::Finished
                    } else if in_season {
                        StageView::ShowDir { show: path::parent_or_root(dir) }
                    } else {
                        StageView::Flat { dir }
                    },
                    ..self
                }
            },
            StageView::ShowDir { show } => SearchView {
                stage: if ranked.len() == 0 {
                    StageView::Finished
                } else {
                    StageView::Seasons { dirs: ranked }
                },
                ..self
            },
            StageView::Seasons { dirs } => {
                let room = self.lookahead - self.found.len();
                SearchView {
                    found: self.found + at_most(ranked, room),
                    stage: if ranked.len() > room || dirs.len() == 1 {
                        StageView::Finished
                    } else {
                        StageView::Seasons { dirs: dirs.skip(1) }
                    },
                    ..self
                }
            },
            StageView::Flat { dir } => SearchView {
                found: self.found + at_most(ranked, self.lookahead - self.found.len()),
                stage: StageView::Finished,
                ..self
            },
            StageView::Finished => self,
        }
    }

    /// The search after the listing it waited for arrived.
    pub open spec fn stepped(self, names: Seq<Seq<u8>>) -> SearchView {
        self.advanced(self.ranking(names), self.in_season_dir())
    }

    /// What the search finds in the end when every directory lists as in `tree`.
    pub open spec fn outcome(self, tree: spec_fn(PathView) -> Seq<Seq<u8>>) -> Seq<PathView> {
        match self.stage {
            StageView::SameSeason { dir, episode } => {
                let own = at_most(
                    ranked_episodes(
                        tree(dir),
                        dir,
                        EpisodeFilter::After { season: self.season, episode },
                    ),
                    self.lookahead as int,
                );
                if own.len() >= self.lookahead {
                    own
                } else if season_dir(dir_label(dir)) is Some {
                    let show = path::parent_or_root(dir);
                    fill_from_seasons(
                        own,
                        ranked_seasons(tree(show), show, self.season),
                        tree,
                        self.lookahead,
                    )
                } else {
                    at_most(
                        own + ranked_episodes(
                            tree(dir),
                            dir,
                            EpisodeFilter::LaterSeasons { season: self.season },
                        ),
                        self.lookahead as int,
                    )
                }
            },
            StageView::ShowDir { show } => fill_from_seasons(
                self.found,
                ranked_seasons(tree(show), show, self.season),
                tree,
                self.lookahead,
            ),
            StageView::Seasons { dirs } => fill_from_seasons(
                self.found,
                dirs,
                tree,
                self.lookahead,
            ),
            StageView::Flat { dir } => at_most(
                self.found + ranked_episodes(
                    tree(dir),
                    dir,
                    EpisodeFilter::LaterSeasons { season: self.season },
                ),
                self.lookahead as int,
            ),
            StageView::Finished => self.found,
        }
    }

    /// Season directories that are still to be listed.
    pub open spec fn remaining(self) -> nat {
        match self.stage {
            StageView::Seasons { dirs } => dirs.len(),
            _ => 0,
        }
    }

    /// Stages in the order in which a search goes through them.
    pub open spec fn rank(self) -> nat {
        match self.stage {
            StageView::SameSeason { .. } => 4,
            StageView::ShowDir { .. } => 3,
            StageView::Seasons { .. } => 2,
            StageView::Flat { .. } => 1,
            StageView::Finished => 0,
        }
    }
}

/// Episodes of the season directories, in order, appended until `limit` is reached.
pub open spec fn fill_from_seasons(
    found: Seq<PathView>,
    dirs: Seq<PathView>,
    tree: spec_fn(PathView) -> Seq<Seq<u8>>,
    limit: nat,
) -> Seq<PathView>
    decreases dirs.len(),
{
    if dirs.len() == 0 {
        found
    } else {
        fill_from_seasons(
            at_most(
                found + ranked_episodes(tree(dirs[0]), dirs[0], EpisodeFilter::Any),
                limit as int,
            ),
            dirs.skip(1),
            tree,
            limit,
        )
    }
}

/// Up to `lookahead` episodes that follow `p` in a tree of directories.
pub open spec fn next_episodes(
    p: PathView,
    tree: spec_fn(PathView) -> Seq<Seq<u8>>,
    lookahead: nat,
) -> Seq<PathView> {
    SearchView::begun(p, lookahead).outcome(tree)
}

/// The episodes of several directories, in order.
pub open spec fn all_in_seasons(dirs: Seq<PathView>, tree: spec_fn(PathView) -> Seq<Seq<u8>>) -> Seq<
    PathView,
>
    decreases dirs.len(),
{
    if dirs.len() == 0 {
        Seq::empty()
    } else {
        ranked_episodes(tree(dirs[0]), dirs[0], EpisodeFilter::Any) + all_in_seasons(
            dirs.skip(1),
            tree,
        )
    }
}

/// All episodes that follow `p` in a tree of directories: the later ones of its season, and then
/// those of later seasons, from their own directories where `p` lies in a season directory and
/// else from the directory of `p`.
pub open spec fn all_following(p: PathView, tree: spec_fn(PathView) -> Seq<Seq<u8>>) -> Seq<
    PathView,
> {
    match file_episode(p) {
        None => Seq::empty(),
        Some((season, episode)) => {
            let dir = path::parent_or_root(p);
            let show = path::parent_or_root(dir);
            ranked_episodes(tree(dir), dir, EpisodeFilter::After { season, episode }) + (if season_dir(
                dir_label(dir),
            ) is Some {
                all_in_seasons(ranked_seasons(tree(show), show, season), tree)
            } else {
                ranked_episodes(tree(dir), dir, EpisodeFilter::LaterSeasons { season })
            })
        },
    }
}

proof fn lemma_fill_is_prefix(
    found: Seq<PathView>,
    dirs: Seq<PathView>,
    tree: spec_fn(PathView) -> Seq<Seq<u8>>,
    limit: nat,
)
    requires
        found.len() <= limit,
    ensures
        fill_from_seasons(found, dirs, tree, limit) == at_most(
            found + all_in_seasons(dirs, tree),
            limit as int,
        ),
    decreases dirs.len(),
{
    let all = all_in_seasons(dirs, tree);
    if dirs.len() == 0 {
        assert(found + all =~= found);
    } else {
        let more = ranked_episodes(tree(dirs[0]), dirs[0], EpisodeFilter::Any);
        let rest = all_in_seasons(dirs.skip(1), tree);
        let next = at_most(found + more, limit as int);
        lemma_fill_is_prefix(next, dirs.skip(1), tree, limit);
        assert(at_most(next + rest, limit as int) =~= at_most(found + all, limit as int));
    }
}

/// A search finds the first episodes that follow, as many as its lookahead allows.
pub proof fn law_search_finds_first_following(
    p: PathView,
    tree: spec_fn(PathView) -> Seq<Seq<u8>>,
    lookahead: nat,
)
    ensures
        next_episodes(p, tree, lookahead) == at_most(all_following(p, tree), lookahead as int),
{
    match file_episode(p) {
        None => {},
        Some((season, episode)) => {
            let dir = path::parent_or_root(p);
            let show = path::parent_or_root(dir);
            let own = ranked_episodes(tree(dir), dir, EpisodeFilter::After { season, episode });
            let all = all_following(p, tree);
            if own.len() >= lookahead {
                assert(at_most(own, lookahead as int) =~= at_most(all, lookahead as int));
            } else {
                lemma_fill_is_prefix(
                    own,
                    ranked_seasons(tree(show), show, season),
                    tree,
                    lookahead,
                );
            }
        },
    }
}

/// A larger lookahead finds what a smaller one finds, and only appends to it.
pub proof fn law_larger_lookahead_appends(
    p: PathView,
    tree: spec_fn(PathView) -> Seq<Seq<u8>>,
    smaller: nat,
    larger: nat,
)
    requires
        smaller <= larger,
    ensures
        next_episodes(p, tree, smaller).is_prefix_of(next_episodes(p, tree, larger)),
        next_episodes(p, tree, smaller) == at_most(
            next_episodes(p, tree, larger),
            smaller as int,
        ),
{
    law_search_finds_first_following(p, tree, smaller);
    law_search_finds_first_following(p, tree, larger);
    let all = all_following(p, tree);
    assert(at_most(at_most(all, larger as int), smaller as int) =~= at_most(all, smaller as int));
    assert(next_episodes(p, tree, smaller) =~= next_episodes(p, tree, larger).take(
        next_episodes(p, tree, smaller).len() as int,
    ));
}

proof fn lemma_fill_full(
    found: Seq<PathView>,
    dirs: Seq<PathView>,
    tree: spec_fn(PathView) -> Seq<Seq<u8>>,
    limit: nat,
)
    requires
        found.len() == limit,
    ensures
        fill_from_seasons(found, dirs, tree, limit) == found,
    decreases dirs.len(),
{
    if dirs.len() > 0 {
        let more = ranked_episodes(tree(dirs[0]), dirs[0], EpisodeFilter::Any);
        assert(at_most(found + more, limit as int) =~= found);
        lemma_fill_full(found, dirs.skip(1), tree, limit);
    }
}

proof fn lemma_at_most_concat<T>(a: Seq<T>, b: Seq<T>, n: int)
    requires
        a.len() <= n,
    ensures
        at_most(a + b, n) == a + at_most(b, n - a.len()),
{
    assert(at_most(a + b, n) =~= a + at_most(b, n - a.len()));
}

/// Answering a search from a tree of directories does not change what it will find.
pub proof fn law_step_keeps_outcome(m: SearchView, tree: spec_fn(PathView) -> Seq<Seq<u8>>)
    requires
        m.wf(),
        m.wants() is Some,
    ensures
        m.stepped(tree(m.wants()->0)).wf(),
        m.stepped(tree(m.wants()->0)).outcome(tree) == m.outcome(tree),
        m.stepped(tree(m.wants()->0)).rank() < m.rank() || (m.stepped(
            tree(m.wants()->0),
        ).rank() == m.rank() && m.stepped(tree(m.wants()->0)).remaining() < m.remaining()),
{
    let next = m.stepped(tree(m.wants()->0));
    match m.stage {
        StageView::Seasons { dirs } => {
            let more = ranked_episodes(tree(dirs[0]), dirs[0], EpisodeFilter::Any);
            let room = m.lookahead - m.found.len();
            lemma_at_most_concat(m.found, more, m.lookahead as int);
            assert(m.outcome(tree) == fill_from_seasons(
                next.found,
                dirs.skip(1),
                tree,
                m.lookahead,
            ));
            if more.len() > room {
                lemma_fill_full(next.found, dirs.skip(1), tree, m.lookahead);
            } else if dirs.len() == 1 {
                assert(fill_from_seasons(next.found, dirs.skip(1), tree, m.lookahead) == next.found);
            }
        },
        StageView::Flat { dir } => {
            lemma_at_most_concat(
                m.found,
                ranked_episodes(tree(dir), dir, EpisodeFilter::LaterSeasons { season: m.season }),
                m.lookahead as int,
            );
        },
        _ => {},
    }
}

/// A search never finds more than its lookahead.
pub proof fn law_lookahead_bounds_outcome(m: SearchView, tree: spec_fn(PathView) -> Seq<Seq<u8>>)
    requires
        m.wf(),
    ensures
        m.outcome(tree).len() <= m.lookahead,
{
    match m.stage {
        StageView::SameSeason { dir, episode } => {
            let own = at_most(
                ranked_episodes(
                    tree(dir),
                    dir,
                    EpisodeFilter::After { season: m.season, episode },
                ),
                m.lookahead as int,
            );
            let show = path::parent_or_root(dir);
            lemma_fill_bounded(
                own,
                ranked_seasons(tree(show), show, m.season),
                tree,
                m.lookahead,
            );
        },
        StageView::ShowDir { show } => {
            lemma_fill_bounded(
                m.found,
                ranked_seasons(tree(show), show, m.season),
                tree,
                m.lookahead,
            );
        },
        StageView::Seasons { dirs } => {
            lemma_fill_bounded(m.found, dirs, tree, m.lookahead);
        },
        _ => {},
    }
}

proof fn lemma_fill_bounded(
    found: Seq<PathView>,
    dirs: Seq<PathView>,
    tree: spec_fn(PathView) -> Seq<Seq<u8>>,
    limit: nat,
)
    requires
        found.len() <= limit,
    ensures
        fill_from_seasons(found, dirs, tree, limit).len() <= limit,
    decreases dirs.len(),
{
    if dirs.len() > 0 {
        let more = ranked_episodes(tree(dirs[0]), dirs[0], EpisodeFilter::Any);
        lemma_fill_bounded(at_most(found + more, limit as int), dirs.skip(1), tree, limit);
    }
}

/// Whether a name can come up in the listing of a directory.
pub open spec fn is_entry(name: Seq<u8>) -> bool {
    path::is_component(name) && name != seq![0x2eu8, 0x2eu8]
}

/// Whether a tree lists names of entries only.
pub open spec fn is_tree(tree: spec_fn(PathView) -> Seq<Seq<u8>>) -> bool {
    forall|dir: PathView, i: int| 0 <= i < tree(dir).len() ==> is_entry(#[trigger] tree(dir)[i])
}

/// Whether a path is an episode that comes after the given one: by its own numbers, or because it
/// lies in the directory of a later season.
pub open spec fn follows(q: PathView, season: u32, episode: u32) -> bool {
    file_episode(q) matches Some((s, e)) && (s > season || (s == season && e > episode)
        || in_later_season(q, season))
}

/// Whether a path lies in the directory of a season later than the given one.
pub open spec fn in_later_season(q: PathView, season: u32) -> bool {
    q.len() >= 2 && (season_dir(text::lossy_utf8(q[q.len() - 2])) matches Some(n) && n > season)
}

/// Whether a path is the directory of a season later than the given one.
pub open spec fn is_later_season(d: PathView, season: u32) -> bool {
    d.len() >= 1 && (season_dir(text::lossy_utf8(d.last())) matches Some(n) && n > season)
}

/// What is found in one directory lies in it and qualifies.
pub proof fn lemma_ranked_episode(names: Seq<Seq<u8>>, dir: PathView, filter: EpisodeFilter)
    requires
        forall|i: int| 0 <= i < names.len() ==> is_entry(#[trigger] names[i]),
    ensures
        forall|k: int|
            0 <= k < ranked_episodes(names, dir, filter).len() ==> {
                let q = #[trigger] ranked_episodes(names, dir, filter)[k];
                &&& q.len() == dir.len() + 1
                &&& q.drop_last() == dir
                &&& file_episode(q) matches Some((s, e)) && filter.accepts(s, e)
            },
{
    let found = episodes_in(names, dir, filter);
    lemma_episode_entries(names, dir, filter);
    sort::lemma_sorted_elements(found);
    let ranked = ranked_episodes(names, dir, filter);
    assert forall|k: int| 0 <= k < ranked.len() implies {
        let q = #[trigger] ranked[k];
        &&& q.len() == dir.len() + 1
        &&& q.drop_last() == dir
        &&& file_episode(q) matches Some((s, e)) && filter.accepts(s, e)
    } by {
        let x = sort::stable_sorted(found)[k];
        assert(found.contains(x));
        let j = choose|j: int| 0 <= j < found.len() && found[j] == x;
        assert(found[j].1 == ranked[k]);
    }
}

proof fn lemma_episode_entries(names: Seq<Seq<u8>>, dir: PathView, filter: EpisodeFilter)
    requires
        forall|i: int| 0 <= i < names.len() ==> is_entry(#[trigger] names[i]),
    ensures
        forall|k: int|
            0 <= k < episodes_in(names, dir, filter).len() ==> {
                let q = (#[trigger] episodes_in(names, dir, filter)[k]).1;
                &&& q.len() == dir.len() + 1
                &&& q.drop_last() == dir
                &&& file_episode(q) matches Some((s, e)) && filter.accepts(s, e)
            },
    decreases names.len(),
{
    if names.len() > 0 {
        let rest = names.drop_last();
        assert forall|i: int| 0 <= i < rest.len() implies is_entry(#[trigger] rest[i]) by {
            assert(rest[i] == names[i]);
        }
        lemma_episode_entries(rest, dir, filter);
        let name = names.last();
        assert(is_entry(names[names.len() - 1]));
        path::lemma_single_component(dir, name);
        let q = path::joined(dir, name);
        assert(q.drop_last() =~= dir);
        assert(q.last() == name);
    }
}

proof fn lemma_ranked_season(names: Seq<Seq<u8>>, show: PathView, season: u32)
    requires
        forall|i: int| 0 <= i < names.len() ==> is_entry(#[trigger] names[i]),
    ensures
        forall|k: int|
            0 <= k < ranked_seasons(names, show, season).len() ==> is_later_season(
                #[trigger] ranked_seasons(names, show, season)[k],
                season,
            ),
{
    let found = seasons_in(names, show, season);
    lemma_season_entries(names, show, season);
    sort::lemma_sorted_elements(found);
    let ranked = ranked_seasons(names, show, season);
    assert forall|k: int| 0 <= k < ranked.len() implies is_later_season(
        #[trigger] ranked[k],
        season,
    ) by {
        let x = sort::stable_sorted(found)[k];
        assert(found.contains(x));
        let j = choose|j: int| 0 <= j < found.len() && found[j] == x;
        assert(found[j].1 == ranked[k]);
    }
}

proof fn lemma_season_entries(names: Seq<Seq<u8>>, show: PathView, season: u32)
    requires
        forall|i: int| 0 <= i < names.len() ==> is_entry(#[trigger] names[i]),
    ensures
        forall|k: int|
            0 <= k < seasons_in(names, show, season).len() ==> is_later_season(
                (#[trigger] seasons_in(names, show, season)[k]).1,
                season,
            ),
    decreases names.len(),
{
    if names.len() > 0 {
        let rest = names.drop_last();
        assert forall|i: int| 0 <= i < rest.len() implies is_entry(#[trigger] rest[i]) by {
            assert(rest[i] == names[i]);
        }
        lemma_season_entries(rest, show, season);
        let name = names.last();
        assert(is_entry(names[names.len() - 1]));
        path::lemma_single_component(show, name);
        let q = path::joined(show, name);
        assert(q.last() == name);
        let before = seasons_in(rest, show, season);
        let all = seasons_in(names, show, season);
        assert forall|k: int| 0 <= k < all.len() implies is_later_season(
            (#[trigger] all[k]).1,
            season,
        ) by {
            if k < before.len() {
                assert(all[k] == before[k]);
            }
        }
    }
}

proof fn lemma_fill_follows(
    found: Seq<PathView>,
    dirs: Seq<PathView>,
    tree: spec_fn(PathView) -> Seq<Seq<u8>>,
    limit: nat,
    season: u32,
    episode: u32,
)
    requires
        is_tree(tree),
        forall|k: int| 0 <= k < found.len() ==> follows(#[trigger] found[k], season, episode),
        forall|k: int| 0 <= k < dirs.len() ==> is_later_season(#[trigger] dirs[k], season),
    ensures
        forall|k: int|
            0 <= k < fill_from_seasons(found, dirs, tree, limit).len() ==> follows(
                #[trigger] fill_from_seasons(found, dirs, tree, limit)[k],
                season,
                episode,
            ),
    decreases dirs.len(),
{
    if dirs.len() > 0 {
        let dir = dirs[0];
        let more = ranked_episodes(tree(dir), dir, EpisodeFilter::Any);
        lemma_ranked_episode(tree(dir), dir, EpisodeFilter::Any);
        let all = found + more;
        assert forall|k: int| 0 <= k < all.len() implies follows(
            #[trigger] all[k],
            season,
            episode,
        ) by {
            if k >= found.len() {
                let q = more[k - found.len()];
                assert(all[k] == q);
                assert(q[q.len() - 2] == q.drop_last().last());
            }
        }
        lemma_fill_follows(
            at_most(all, limit as int),
            dirs.skip(1),
            tree,
            limit,
            season,
            episode,
        );
        assert(fill_from_seasons(found, dirs, tree, limit) == fill_from_seasons(
            at_most(all, limit as int),
            dirs.skip(1),
            tree,
            limit,
        ));
    }
}

/// Whether no directory of a tree lists a name twice.
pub open spec fn lists_once(tree: spec_fn(PathView) -> Seq<Seq<u8>>) -> bool {
    forall|dir: PathView| (#[trigger] tree(dir)).no_duplicates()
}

proof fn lemma_ranked_episodes_distinct(
    names: Seq<Seq<u8>>,
    dir: PathView,
    filter: EpisodeFilter,
)
    requires
        names.no_duplicates(),
        forall|i: int| 0 <= i < names.len() ==> is_entry(#[trigger] names[i]),
    ensures
        ranked_episodes(names, dir, filter).no_duplicates(),
{
    lemma_episode_items(names, dir, filter);
    sort::lemma_sorted_distinct(episodes_in(names, dir, filter));
}

proof fn lemma_episode_items(names: Seq<Seq<u8>>, dir: PathView, filter: EpisodeFilter)
    requires
        names.no_duplicates(),
        forall|i: int| 0 <= i < names.len() ==> is_entry(#[trigger] names[i]),
    ensures
        sort::items(episodes_in(names, dir, filter)).no_duplicates(),
        forall|k: int|
            0 <= k < episodes_in(names, dir, filter).len() ==> names.contains(
                (#[trigger] episodes_in(names, dir, filter)[k]).1.last(),
            ),
    decreases names.len(),
{
    if names.len() > 0 {
        let rest = names.drop_last();
        assert forall|i: int| 0 <= i < rest.len() implies is_entry(#[trigger] rest[i]) by {
            assert(rest[i] == names[i]);
        }
        lemma_episode_items(rest, dir, filter);
        let name = names.last();
        assert(is_entry(names[names.len() - 1]));
        path::lemma_single_component(dir, name);
        let q = path::joined(dir, name);
        assert(q.last() == name);
        lemma_distinct_push(
            episodes_in(rest, dir, filter),
            episodes_in(names, dir, filter),
            names,
            q,
        );
    }
}

proof fn lemma_distinct_push(
    before: Seq<(u128, PathView)>,
    all: Seq<(u128, PathView)>,
    names: Seq<Seq<u8>>,
    q: PathView,
)
    requires
        names.no_duplicates(),
        names.len() > 0,
        q.last() == names.last(),
        all == before || (exists|key: u128| all == #[trigger] before.push((key, q))),
        sort::items(before).no_duplicates(),
        forall|k: int|
            0 <= k < before.len() ==> names.drop_last().contains((#[trigger] before[k]).1.last()),
    ensures
        sort::items(all).no_duplicates(),
        forall|k: int| 0 <= k < all.len() ==> names.contains((#[trigger] all[k]).1.last()),
{
    assert forall|k: int| 0 <= k < before.len() implies names.contains(
        (#[trigger] before[k]).1.last(),
    ) && before[k].1 != q by {
        let last = before[k].1.last();
        assert(names.drop_last().contains(last));
        let i = choose|i: int| 0 <= i < names.drop_last().len() && names.drop_last()[i] == last;
        assert(names[i] == last);
        assert(names[i] != names[names.len() - 1]);
    }
    assert forall|k: int| 0 <= k < all.len() implies names.contains(
        (#[trigger] all[k]).1.last(),
    ) by {
        if k < before.len() {
            assert(all[k] == before[k]);
        } else {
            assert(names[names.len() - 1] == all[k].1.last());
        }
    }
    assert forall|i: int, j: int|
        0 <= i < sort::items(all).len() && 0 <= j < sort::items(all).len() && i
            != j implies sort::items(all)[i] != sort::items(all)[j] by {
        if i < before.len() && j < before.len() {
            assert(sort::items(before)[i] != sort::items(before)[j]);
        } else if i < before.len() {
            assert(before[i].1 != q);
        } else if j < before.len() {
            assert(before[j].1 != q);
        }
    }
}

proof fn lemma_season_items(names: Seq<Seq<u8>>, show: PathView, season: u32)
    requires
        names.no_duplicates(),
        forall|i: int| 0 <= i < names.len() ==> is_entry(#[trigger] names[i]),
    ensures
        sort::items(seasons_in(names, show, season)).no_duplicates(),
        forall|k: int|
            0 <= k < seasons_in(names, show, season).len() ==> names.contains(
                (#[trigger] seasons_in(names, show, season)[k]).1.last(),
            ),
    decreases names.len(),
{
    if names.len() > 0 {
        let rest = names.drop_last();
        assert forall|i: int| 0 <= i < rest.len() implies is_entry(#[trigger] rest[i]) by {
            assert(rest[i] == names[i]);
        }
        lemma_season_items(rest, show, season);
        let name = names.last();
        assert(is_entry(names[names.len() - 1]));
        path::lemma_single_component(show, name);
        let q = path::joined(show, name);
        assert(q.last() == name);
        lemma_distinct_push(
            seasons_in(rest, show, season),
            seasons_in(names, show, season),
            names,
            q,
        );
    }
}

proof fn lemma_all_in_seasons(dirs: Seq<PathView>, tree: spec_fn(PathView) -> Seq<Seq<u8>>)
    requires
        is_tree(tree),
        lists_once(tree),
        dirs.no_duplicates(),
    ensures
        all_in_seasons(dirs, tree).no_duplicates(),
        forall|k: int|
            0 <= k < all_in_seasons(dirs, tree).len() ==> dirs.contains(
                (#[trigger] all_in_seasons(dirs, tree)[k]).drop_last(),
            ),
    decreases dirs.len(),
{
    if dirs.len() > 0 {
        let dir = dirs[0];
        let rest = dirs.skip(1);
        assert forall|i: int, j: int|
            0 <= i < rest.len() && 0 <= j < rest.len() && i != j implies rest[i] != rest[j] by {
            assert(dirs[i + 1] != dirs[j + 1]);
        }
        lemma_all_in_seasons(rest, tree);
        lemma_ranked_episode(tree(dir), dir, EpisodeFilter::Any);
        lemma_ranked_episodes_distinct(tree(dir), dir, EpisodeFilter::Any);
        let here = ranked_episodes(tree(dir), dir, EpisodeFilter::Any);
        let there = all_in_seasons(rest, tree);
        assert forall|k: int| 0 <= k < there.len() implies (#[trigger] there[k]).drop_last() != dir
            && dirs.contains(there[k].drop_last()) by {
            assert(rest.contains(there[k].drop_last()));
            let i = choose|i: int| 0 <= i < rest.len() && rest[i] == there[k].drop_last();
            assert(dirs[i + 1] == rest[i]);
            assert(dirs[i + 1] != dirs[0]);
        }
        let all = all_in_seasons(dirs, tree);
        assert(all == here + there);
        assert forall|k: int| 0 <= k < all.len() implies dirs.contains(
            (#[trigger] all[k]).drop_last(),
        ) by {
            if k < here.len() {
                assert(all[k] == here[k]);
                assert(dirs[0] == here[k].drop_last());
            } else {
                assert(all[k] == there[k - here.len()]);
            }
        }
        lemma_concat_distinct(here, there);
    }
}

proof fn lemma_concat_distinct(a: Seq<PathView>, b: Seq<PathView>)
    requires
        a.no_duplicates(),
        b.no_duplicates(),
        forall|i: int, j: int| 0 <= i < a.len() && 0 <= j < b.len() ==> #[trigger] a[i] != #[trigger] b[j],
    ensures
        (a + b).no_duplicates(),
{
    let all = a + b;
    assert forall|i: int, j: int| 0 <= i < all.len() && 0 <= j < all.len() && i != j implies all[i]
        != all[j] by {
        if i < a.len() && j >= a.len() {
            assert(a[i] != b[j - a.len()]);
        }
        if j < a.len() && i >= a.len() {
            assert(a[j] != b[i - a.len()]);
        }
        if i >= a.len() && j >= a.len() {
            assert(b[i - a.len()] != b[j - a.len()]);
        }
    }
}

/// In a tree that lists names of entries, each once, a search finds no path twice, and never the
/// file that it began with. Left out are files that lie in the directory of a season later than
/// their own: their directory is among the later seasons and is listed again.
pub proof fn law_found_episodes_are_distinct(
    p: PathView,
    tree: spec_fn(PathView) -> Seq<Seq<u8>>,
    lookahead: nat,
)
    requires
        is_tree(tree),
        lists_once(tree),
        file_episode(p) matches Some((season, _)) ==> !in_later_season(p, season),
    ensures
        next_episodes(p, tree, lookahead).no_duplicates(),
        !next_episodes(p, tree, lookahead).contains(p),
{
    law_search_finds_first_following(p, tree, lookahead);
    let all = all_following(p, tree);
    let found = next_episodes(p, tree, lookahead);
    if let Some((season, episode)) = file_episode(p) {
        let dir = path::parent_or_root(p);
        let show = path::parent_or_root(dir);
        let after = EpisodeFilter::After { season, episode };
        let later = EpisodeFilter::LaterSeasons { season };
        let own = ranked_episodes(tree(dir), dir, after);
        let flat = ranked_episodes(tree(dir), dir, later);
        lemma_ranked_episode(tree(dir), dir, after);
        lemma_ranked_episode(tree(dir), dir, later);
        lemma_ranked_episodes_distinct(tree(dir), dir, after);
        lemma_ranked_episodes_distinct(tree(dir), dir, later);
        let dirs = ranked_seasons(tree(show), show, season);
        lemma_ranked_season(tree(show), show, season);
        lemma_season_items(tree(show), show, season);
        sort::lemma_sorted_distinct(seasons_in(tree(show), show, season));
        lemma_all_in_seasons(dirs, tree);
        let seasons = all_in_seasons(dirs, tree);
        assert(!is_later_season(dir, season)) by {
            if is_later_season(dir, season) {
                assert(p[p.len() - 2] == dir.last());
            }
        }
        assert forall|k: int| 0 <= k < seasons.len() implies (#[trigger] seasons[k]).drop_last()
            != dir by {
            assert(dirs.contains(seasons[k].drop_last()));
            let i = choose|i: int| 0 <= i < dirs.len() && dirs[i] == seasons[k].drop_last();
            assert(is_later_season(dirs[i], season));
        }
        assert(p.drop_last() == dir);
        if season_dir(dir_label(dir)) is Some {
            assert forall|i: int, j: int|
                0 <= i < own.len() && 0 <= j < seasons.len() implies #[trigger] own[i]
                != #[trigger] seasons[j] by {
                assert(own[i].drop_last() == dir);
            }
            lemma_concat_distinct(own, seasons);
            assert forall|k: int| 0 <= k < all.len() implies #[trigger] all[k] != p by {
                if k < own.len() {
                    assert(all[k] == own[k]);
                } else {
                    assert(all[k] == seasons[k - own.len()]);
                }
            }
        } else {
            assert forall|i: int, j: int|
                0 <= i < own.len() && 0 <= j < flat.len() implies #[trigger] own[i]
                != #[trigger] flat[j] by {
                assert(file_episode(own[i]) is Some && file_episode(flat[j]) is Some);
            }
            lemma_concat_distinct(own, flat);
            assert forall|k: int| 0 <= k < all.len() implies #[trigger] all[k] != p by {
                if k < own.len() {
                    assert(all[k] == own[k]);
                } else {
                    assert(all[k] == flat[k - own.len()]);
                }
            }
        }
    }
    assert forall|i: int, j: int|
        0 <= i < found.len() && 0 <= j < found.len() && i != j implies found[i] != found[j] by {
        assert(found[i] == all[i] && found[j] == all[j]);
    }
    assert forall|k: int| 0 <= k < found.len() implies found[k] != p by {
        assert(found[k] == all[k]);
    }
}

/// Everything that a search finds is an episode after the one it began with: by its own numbers,
/// or by the season of the directory that it lies in.
pub proof fn law_found_episodes_follow(
    p: PathView,
    tree: spec_fn(PathView) -> Seq<Seq<u8>>,
    lookahead: nat,
)
    requires
        is_tree(tree),
        file_episode(p) is Some,
    ensures
        forall|k: int|
            0 <= k < next_episodes(p, tree, lookahead).len() ==> follows(
                #[trigger] next_episodes(p, tree, lookahead)[k],
                (file_episode(p)->0).0,
                (file_episode(p)->0).1,
            ),
{
    let (season, episode) = file_episode(p)->0;
    let dir = path::parent_or_root(p);
    let after = EpisodeFilter::After { season, episode };
    let later = EpisodeFilter::LaterSeasons { season };
    lemma_ranked_episode(tree(dir), dir, after);
    lemma_ranked_episode(tree(dir), dir, later);
    let own = at_most(ranked_episodes(tree(dir), dir, after), lookahead as int);
    assert forall|k: int| 0 <= k < own.len() implies follows(
        #[trigger] own[k],
        season,
        episode,
    ) by {
        assert(own[k] == ranked_episodes(tree(dir), dir, after)[k]);
    }
    let show = path::parent_or_root(dir);
    let dirs = ranked_seasons(tree(show), show, season);
    lemma_ranked_season(tree(show), show, season);
    lemma_fill_follows(own, dirs, tree, lookahead, season, episode);
    let flat = own + ranked_episodes(tree(dir), dir, later);
    assert forall|k: int| 0 <= k < flat.len() implies follows(
        #[trigger] flat[k],
        season,
        episode,
    ) by {
        if k >= own.len() {
            assert(flat[k] == ranked_episodes(tree(dir), dir, later)[k - own.len()]);
        }
    }
}

/// Appends the first `room` elements of `more`.
fn append_at_most(found: &mut Vec<RelPath>, more: &Vec<RelPath>, room: usize)
    ensures
        path::paths_view(final(found)@) == path::paths_view(old(found)@) + at_most(
            path::paths_view(more@),
            room as int,
        ),
{
    let ghost start = found@;
    let mut i: usize = 0;
    assert(path::paths_view(found@) =~= path::paths_view(start) + path::paths_view(more@).take(0));
    while i < more.len() && i < room
        invariant
            i <= more.len(),
            i <= room,
            path::paths_view(found@) == path::paths_view(start) + path::paths_view(more@).take(
                i as int,
            ),
        decreases more.len() - i,
    {
        let ghost before = found@;
        found.push(more[i].clone());
        assert(path::paths_view(found@) =~= path::paths_view(before).push(more@[i as int]@));
        i = i + 1;
        assert(path::paths_view(found@) =~= path::paths_view(start) + path::paths_view(
            more@,
        ).take(i as int));
    }
    assert(path::paths_view(more@).take(i as int) =~= at_most(
        path::paths_view(more@),
        room as int,
    ));
}

impl EpisodeSearch {
    /// Begins the search for up to `lookahead` episodes after `rel_path`, a file of the given
    /// season and episode.
    pub fn begin_at(rel_path: &RelPath, number: Option<(u32, u32)>, lookahead: usize) -> (r: Self)
        ensures
            r@ == SearchView::begun_at(rel_path@, number, lookahead as nat),
            r@.wf(),
    {
        let found: Vec<RelPath> = Vec::new();
        assert(path::paths_view(found@) =~= Seq::<PathView>::empty());
        match number {
            Some((season, episode)) => {
                let dir = rel_path.parent_or_root();
                EpisodeSearch {
                    season,
                    lookahead,
                    found,
                    stage: SearchStage::SameSeason { dir, episode },
                }
            },
            None => EpisodeSearch { season: 0, lookahead, found, stage: SearchStage::Finished },
        }
    }

    /// Begins the search for up to `lookahead` episodes after `rel_path`.
    pub fn begin(rel_path: &RelPath, lookahead: usize) -> (r: Self)
        ensures
            r@ == SearchView::begun(rel_path@, lookahead as nat),
            r@.wf(),
    {
        EpisodeSearch::begin_at(rel_path, episode_of_file(rel_path), lookahead)
    }

    /// The directory whose listing is needed next; none when the search is over.
    pub fn wanted(&self) -> (r: Option<RelPath>)
        requires
            self@.wf(),
        ensures
            r matches Some(p) ==> self@.wants() == Some(p@),
            r is None <==> self@.wants() is None,
    {
        match &self.stage {
            SearchStage::SameSeason { dir, .. } => Some(dir.clone()),
            SearchStage::ShowDir { show } => Some(show.clone()),
            SearchStage::Seasons { dirs } => {
                assert(path::paths_view(dirs@).len() == dirs@.len());
                assert(path::paths_view(dirs@)[0] == dirs@[0]@);
                Some(dirs[0].clone())
            },
            SearchStage::Flat { dir } => Some(dir.clone()),
            SearchStage::Finished => None,
        }
    }

    /// Goes on with what was found in the wanted directory, in order.
    pub fn advance(self, ranked: Vec<RelPath>, in_season: bool) -> (r: Self)
        requires
            self@.wf(),
        ensures
            r@ == self@.advanced(path::paths_view(ranked@), in_season),
            r@.wf(),
    {
        let EpisodeSearch { season, lookahead, mut found, stage } = self;
        assert(path::paths_view(ranked@).len() == ranked@.len());
        match stage {
            SearchStage::SameSeason { dir, episode } => {
                let mut first: Vec<RelPath> = Vec::new();
                append_at_most(&mut first, &ranked, lookahead);
                assert(path::paths_view(first@) =~= at_most(
                    path::paths_view(ranked@),
                    lookahead as int,
                ));
                assert(path::paths_view(first@).len() == first@.len());
                let stage = if first.len() >= lookahead {
                    SearchStage::Finished
                } else if in_season {
                    SearchStage::ShowDir { show: dir.parent_or_root() }
                } else {
                    SearchStage::Flat { dir }
                };
                EpisodeSearch { season, lookahead, found: first, stage }
            },
            SearchStage::ShowDir { show } => {
                let stage = if ranked.len() == 0 {
                    SearchStage::Finished
                } else {
                    SearchStage::Seasons { dirs: ranked }
                };
                EpisodeSearch { season, lookahead, found, stage }
            },
            SearchStage::Seasons { dirs } => {
                let ghost dirs_view = path::paths_view(dirs@);
                assert(dirs_view.len() == dirs@.len());
                assert(path::paths_view(found@).len() == found@.len());
                let mut dirs = dirs;
                dirs.remove(0);
                assert(path::paths_view(dirs@) =~= dirs_view.skip(1));
                let room: usize = lookahead - found.len();
                append_at_most(&mut found, &ranked, room);
                let stage = if ranked.len() > room || dirs.len() == 0 {
                    SearchStage::Finished
                } else {
                    SearchStage::Seasons { dirs }
                };
                EpisodeSearch { season, lookahead, found, stage }
            },
            SearchStage::Flat { dir } => {
                assert(path::paths_view(found@).len() == found@.len());
                let room: usize = lookahead - found.len();
                append_at_most(&mut found, &ranked, room);
                EpisodeSearch { season, lookahead, found, stage: SearchStage::Finished }
            },
            SearchStage::Finished => EpisodeSearch {
                season,
                lookahead,
                found,
                stage: SearchStage::Finished,
            },
        }
    }

    /// Takes in the listing of the wanted directory. One that cannot be read lists nothing.
    pub fn listed(self, names: &Vec<Vec<u8>>) -> (r: Self)
        requires
            self@.wf(),
        ensures
            r@ == self@.stepped(text::byte_strings(names@)),
            r@.wf(),
    {
        let season: u32 = self.season;
        let mut in_season = false;
        let ranked: Vec<RelPath> = match &self.stage {
            SearchStage::SameSeason { dir, episode } => {
                let label = match dir.file_name() {
                    Some(name) => text::utf8_lossy(name),
                    None => String::new(),
                };
                assert(label@ =~= dir_label(dir@));
                in_season = parse_season_dir(label.as_str()).is_some();
                rank_episodes(names, dir, EpisodeFilter::After { season, episode: *episode })
            },
            SearchStage::ShowDir { show } => rank_seasons(names, show, season),
            SearchStage::Seasons { dirs } => {
                assert(path::paths_view(dirs@).len() == dirs@.len());
                assert(path::paths_view(dirs@)[0] == dirs@[0]@);
                rank_episodes(names, &dirs[0], EpisodeFilter::Any)
            },
            SearchStage::Flat { dir } => rank_episodes(
                names,
                dir,
                EpisodeFilter::LaterSeasons { season },
            ),
            SearchStage::Finished => {
                let nothing: Vec<RelPath> = Vec::new();
                assert(path::paths_view(nothing@) =~= Seq::<PathView>::empty());
                nothing
            },
        };
        self.advance(ranked, in_season)
    }

    /// The episodes found so far, in playing order.
    pub fn into_found(self) -> (r: Vec<RelPath>)
        ensures
            path::paths_view(r@) == self@.found,
    {
        self.found
    }
}

/// What a directory of `tree` lists; an unknown one lists nothing.
pub open spec fn listing(tree: Map<PathView, Vec<Vec<u8>>>) -> spec_fn(PathView) -> Seq<Seq<u8>> {
    |dir: PathView|
        if tree.contains_key(dir) {
            text::byte_strings(tree[dir]@)
        } else {
            Seq::<Seq<u8>>::empty()
        }
}

/// Finds up to `lookahead` episodes that follow `rel_path`, with the directories listed in
/// `tree`.
pub fn find_next_episodes(
    rel_path: &RelPath,
    tree: &PathMap<Vec<Vec<u8>>>,
    lookahead: usize,
) -> (r: Vec<RelPath>)
    ensures
        path::paths_view(r@) == next_episodes(rel_path@, listing(tree@), lookahead as nat),
{
    let mut search = EpisodeSearch::begin(rel_path, lookahead);
    let ghost l = listing(tree@);
    let ghost want = search@.outcome(l);
    let nothing: Vec<Vec<u8>> = Vec::new();
    loop
        invariant_except_break
            search@.wf(),
            l == listing(tree@),
            nothing@.len() == 0,
            search@.outcome(l) == want,
        ensures
            search@.found == want,
        decreases search@.rank(), search@.remaining(),
    {
        match search.wanted() {
            None => {
                break;
            },
            Some(dir) => {
                let names: &Vec<Vec<u8>> = match tree.get(&dir) {
                    Some(names) => names,
                    None => &nothing,
                };
                assert(text::byte_strings(names@) =~= l(dir@));
                proof {
                    law_step_keeps_outcome(search@, l);
                }
                search = search.listed(names);
            },
        }
    }
    search.into_found()
}

/// The numbers of two files compared: by season first, then by episode.
pub open spec fn no_later(a: (u32, u32), b: (u32, u32)) -> bool {
    a.0 < b.0 || (a.0 == b.0 && a.1 <= b.1)
}

/// Keys compare as the numbers do, whatever they are: by season, and within a season by episode.
pub proof fn law_keys_order_by_season_then_episode(s: u32, e: u32, t: u32, f: u32)
    ensures
        episode_key(s, e) <= episode_key(t, f) <==> s < t || (s == t && e <= f),
        episode_key(s, e) == episode_key(t, f) <==> s == t && e == f,
{
}

/// Which episodes each step of a search is after.
pub proof fn law_filters(season: u32, episode: u32, last: u64, s: u32, e: u32)
    ensures
        (EpisodeFilter::After { season, episode }).accepts(s, e) <==> s == season && e > episode,
        (EpisodeFilter::LaterSeasons { season }).accepts(s, e) <==> s > season,
        (EpisodeFilter::Window { season, episode, last }).accepts(s, e) <==> s == season && e
            > episode && e <= last,
        EpisodeFilter::Any.accepts(s, e),
{
}

/// Whether `q` is the entry at position `a` of a listing, with the numbers `n`.
pub open spec fn is_numbered_entry(
    q: PathView,
    names: Seq<Seq<u8>>,
    numbers: Seq<Option<(u32, u32)>>,
    dir: PathView,
    a: int,
    n: (u32, u32),
) -> bool {
    0 <= a < names.len() && numbers[a] == Some(n) && q == path::joined(dir, names[a])
}

/// Whether a keyed path is a qualifying entry of a listing, with the key of its numbers.
spec fn is_keyed_entry(
    x: (u128, PathView),
    names: Seq<Seq<u8>>,
    numbers: Seq<Option<(u32, u32)>>,
    dir: PathView,
    filter: EpisodeFilter,
) -> bool {
    exists|a: int, n: (u32, u32)|
        #![trigger is_numbered_entry(x.1, names, numbers, dir, a, n)]
        is_numbered_entry(x.1, names, numbers, dir, a, n) && filter.accepts(n.0, n.1) && x.0
            == episode_key(n.0, n.1)
}

proof fn lemma_numbered_entries(
    names: Seq<Seq<u8>>,
    numbers: Seq<Option<(u32, u32)>>,
    dir: PathView,
    filter: EpisodeFilter,
)
    requires
        names.len() <= numbers.len(),
    ensures
        forall|k: int|
            0 <= k < numbered_in(names, numbers, dir, filter).len() ==> is_keyed_entry(
                #[trigger] numbered_in(names, numbers, dir, filter)[k],
                names,
                numbers,
                dir,
                filter,
            ),
        forall|a: int|
            0 <= a < names.len() && (numbers[a] matches Some(n) && filter.accepts(n.0, n.1))
                ==> numbered_in(names, numbers, dir, filter).contains(
                (
                    episode_key((numbers[a]->0).0, (numbers[a]->0).1),
                    path::joined(dir, #[trigger] names[a]),
                ),
            ),
    decreases names.len(),
{
    if names.len() > 0 {
        let rest = names.drop_last();
        lemma_numbered_entries(rest, numbers, dir, filter);
        let before = numbered_in(rest, numbers, dir, filter);
        let all = numbered_in(names, numbers, dir, filter);
        let end = names.len() - 1;
        assert forall|k: int| 0 <= k < all.len() implies is_keyed_entry(
            #[trigger] all[k],
            names,
            numbers,
            dir,
            filter,
        ) by {
            let x = all[k];
            if k < before.len() {
                assert(before[k] == x);
                let (a, n) = choose|a: int, n: (u32, u32)|
                    #![trigger is_numbered_entry(x.1, rest, numbers, dir, a, n)]
                    is_numbered_entry(x.1, rest, numbers, dir, a, n) && filter.accepts(n.0, n.1)
                        && x.0 == episode_key(n.0, n.1);
                assert(rest[a] == names[a]);
                assert(is_numbered_entry(x.1, names, numbers, dir, a, n));
            } else {
                let n = numbers[end]->0;
                assert(is_numbered_entry(x.1, names, numbers, dir, end, n));
            }
        }
        assert forall|a: int|
            0 <= a < names.len() && (numbers[a] matches Some(n) && filter.accepts(n.0, n.1)) implies all.contains(
            (
                episode_key((numbers[a]->0).0, (numbers[a]->0).1),
                path::joined(dir, #[trigger] names[a]),
            ),
        ) by {
            let x = (
                episode_key((numbers[a]->0).0, (numbers[a]->0).1),
                path::joined(dir, names[a]),
            );
            if a < end {
                assert(rest[a] == names[a]);
                assert(before.contains(x));
                let k = choose|k: int| 0 <= k < before.len() && before[k] == x;
                assert(all[k] == x);
            } else {
                assert(all[before.len() as int] == x);
            }
        }
    }
}

/// Of two entries that are found in one listing, the one that comes earlier in the result has a
/// season and episode that is no later than the other's; each is an entry of the listing whose
/// numbers qualify.
pub proof fn law_numbered_entries_come_in_order(
    names: Seq<Seq<u8>>,
    numbers: Seq<Option<(u32, u32)>>,
    dir: PathView,
    filter: EpisodeFilter,
    i: int,
    j: int,
)
    requires
        names.len() == numbers.len(),
        0 <= i <= j < sort::items(
            sort::stable_sorted(numbered_in(names, numbers, dir, filter)),
        ).len(),
    ensures
        ({
            let found = sort::items(sort::stable_sorted(numbered_in(names, numbers, dir, filter)));
            exists|a: int, m: (u32, u32), b: int, n: (u32, u32)|
                #![trigger is_numbered_entry(found[i], names, numbers, dir, a, m), is_numbered_entry(found[j], names, numbers, dir, b, n)]
                {
                    &&& is_numbered_entry(found[i], names, numbers, dir, a, m)
                    &&& is_numbered_entry(found[j], names, numbers, dir, b, n)
                    &&& filter.accepts(m.0, m.1)
                    &&& filter.accepts(n.0, n.1)
                    &&& m.0 < n.0 || (m.0 == n.0 && m.1 <= n.1)
                }
        }),
{
    let keyed = numbered_in(names, numbers, dir, filter);
    let sorted = sort::stable_sorted(keyed);
    let found = sort::items(sorted);
    lemma_numbered_entries(names, numbers, dir, filter);
    sort::law_sorting_sorts(keyed);
    sort::lemma_sorted_elements(keyed);
    assert(keyed.contains(sorted[i]) && keyed.contains(sorted[j]));
    let x = choose|x: int| 0 <= x < keyed.len() && keyed[x] == sorted[i];
    let y = choose|y: int| 0 <= y < keyed.len() && keyed[y] == sorted[j];
    let (a, m) = choose|a: int, m: (u32, u32)|
        #![trigger is_numbered_entry(keyed[x].1, names, numbers, dir, a, m)]
        is_numbered_entry(keyed[x].1, names, numbers, dir, a, m) && filter.accepts(m.0, m.1)
            && keyed[x].0 == episode_key(m.0, m.1);
    let (b, n) = choose|b: int, n: (u32, u32)|
        #![trigger is_numbered_entry(keyed[y].1, names, numbers, dir, b, n)]
        is_numbered_entry(keyed[y].1, names, numbers, dir, b, n) && filter.accepts(n.0, n.1)
            && keyed[y].0 == episode_key(n.0, n.1);
    law_keys_order_by_season_then_episode(m.0, m.1, n.0, n.1);
    assert(sorted[i].0 <= sorted[j].0);
    assert(is_numbered_entry(found[i], names, numbers, dir, a, m));
    assert(is_numbered_entry(found[j], names, numbers, dir, b, n));
}

/// No entry of a listing whose numbers qualify is left out.
pub proof fn law_numbered_entries_are_all_found(
    names: Seq<Seq<u8>>,
    numbers: Seq<Option<(u32, u32)>>,
    dir: PathView,
    filter: EpisodeFilter,
    a: int,
)
    requires
        names.len() == numbers.len(),
        0 <= a < names.len(),
        numbers[a] matches Some((s, e)) && filter.accepts(s, e),
    ensures
        sort::items(sort::stable_sorted(numbered_in(names, numbers, dir, filter))).contains(
            path::joined(dir, names[a]),
        ),
{
    let keyed = numbered_in(names, numbers, dir, filter);
    lemma_numbered_entries(names, numbers, dir, filter);
    let x = (
        episode_key((numbers[a]->0).0, (numbers[a]->0).1),
        path::joined(dir, names[a]),
    );
    assert(keyed.contains(x));
    lemma_sorted_contains(keyed, x);
}

proof fn lemma_sorted_contains(keyed: Seq<(u128, PathView)>, x: (u128, PathView))
    requires
        keyed.contains(x),
    ensures
        sort::items(sort::stable_sorted(keyed)).contains(x.1),
{
    broadcast use vstd::seq_lib::group_to_multiset_ensures;

    sort::law_sorting_permutes(keyed);
    let sorted = sort::stable_sorted(keyed);
    assert(keyed.to_multiset().count(x) > 0);
    assert(sorted.contains(x));
    let k = choose|k: int| 0 <= k < sorted.len() && sorted[k] == x;
    assert(sort::items(sorted)[k] == x.1);
}

/// The numbers that the names of a listing have.
pub open spec fn numbers_of(names: Seq<Seq<u8>>) -> Seq<Option<(u32, u32)>> {
    names.map_values(|name: Seq<u8>| entry_episode(name))
}

/// Of two files that are found in one directory, the one that comes earlier has a season and
/// episode that is no later than the other's. Each is a file of the directory.
pub proof fn law_found_files_come_in_order(
    names: Seq<Seq<u8>>,
    dir: PathView,
    filter: EpisodeFilter,
    i: int,
    j: int,
)
    requires
        forall|k: int| 0 <= k < names.len() ==> is_entry(#[trigger] names[k]),
        0 <= i <= j < ranked_episodes(names, dir, filter).len(),
    ensures
        file_episode(ranked_episodes(names, dir, filter)[i]) matches Some((s, e)) && (file_episode(
            ranked_episodes(names, dir, filter)[j],
        ) matches Some((t, f)) && (s < t || (s == t && e <= f))),
        ranked_episodes(names, dir, filter)[i].drop_last() == dir,
        names.contains(ranked_episodes(names, dir, filter)[i].last()),
{
    let numbers = numbers_of(names);
    assert forall|k: int| 0 <= k < names.len() implies numbers[k] == entry_episode(
        #[trigger] names[k],
    ) by {}
    lemma_numbered(names, numbers, dir, filter);
    law_numbered_entries_come_in_order(names, numbers, dir, filter, i, j);
    let found = ranked_episodes(names, dir, filter);
    let (a, m, b, n) = choose|a: int, m: (u32, u32), b: int, n: (u32, u32)|
        #![trigger is_numbered_entry(found[i], names, numbers, dir, a, m), is_numbered_entry(found[j], names, numbers, dir, b, n)]
        {
            &&& is_numbered_entry(found[i], names, numbers, dir, a, m)
            &&& is_numbered_entry(found[j], names, numbers, dir, b, n)
            &&& filter.accepts(m.0, m.1)
            &&& filter.accepts(n.0, n.1)
            &&& m.0 < n.0 || (m.0 == n.0 && m.1 <= n.1)
        };
    lemma_entry_file(names, dir, a);
    lemma_entry_file(names, dir, b);
    assert(names[a] == found[i].last());
}

/// An entry of a listing is a file below the directory, with the numbers of its name.
pub proof fn lemma_entry_file(names: Seq<Seq<u8>>, dir: PathView, a: int)
    requires
        0 <= a < names.len(),
        is_entry(names[a]),
    ensures
        path::joined(dir, names[a]) == dir.push(names[a]),
        path::joined(dir, names[a]).last() == names[a],
        path::joined(dir, names[a]).drop_last() == dir,
        file_episode(path::joined(dir, names[a])) == entry_episode(names[a]),
{
    path::lemma_single_component(dir, names[a]);
    assert(dir.push(names[a]).drop_last() =~= dir);
}

/// No file of a directory whose numbers qualify is left out.
pub proof fn law_found_files_are_complete(
    names: Seq<Seq<u8>>,
    dir: PathView,
    filter: EpisodeFilter,
    a: int,
)
    requires
        0 <= a < names.len(),
        is_entry(names[a]),
        entry_episode(names[a]) matches Some((s, e)) && filter.accepts(s, e),
    ensures
        ranked_episodes(names, dir, filter).contains(dir.push(names[a])),
{
    let numbers = numbers_of(names);
    assert forall|k: int| 0 <= k < names.len() implies numbers[k] == entry_episode(
        #[trigger] names[k],
    ) by {}
    lemma_numbered(names, numbers, dir, filter);
    assert(numbers[a] == entry_episode(names[a]));
    law_numbered_entries_are_all_found(names, numbers, dir, filter, a);
    lemma_entry_file(names, dir, a);
}

/// Of two season directories that are found, the one that comes earlier has the lower number or
/// the same; each is a directory of the show with a number above the given one.
pub proof fn law_found_seasons_come_in_order(
    names: Seq<Seq<u8>>,
    show: PathView,
    season: u32,
    i: int,
    j: int,
)
    requires
        forall|k: int| 0 <= k < names.len() ==> is_entry(#[trigger] names[k]),
        0 <= i <= j < ranked_seasons(names, show, season).len(),
    ensures
        season_dir(text::lossy_utf8(ranked_seasons(names, show, season)[i].last())) matches Some(n)
            && n > season && (season_dir(
            text::lossy_utf8(ranked_seasons(names, show, season)[j].last()),
        ) matches Some(m) && n <= m),
        ranked_seasons(names, show, season)[i].drop_last() == show,
        names.contains(ranked_seasons(names, show, season)[i].last()),
{
    let keyed = seasons_in(names, show, season);
    let sorted = sort::stable_sorted(keyed);
    lemma_season_keys(names, show, season);
    sort::law_sorting_sorts(keyed);
    sort::lemma_sorted_elements(keyed);
    assert(keyed.contains(sorted[i]) && keyed.contains(sorted[j]));
    let x = choose|x: int| 0 <= x < keyed.len() && keyed[x] == sorted[i];
    let y = choose|y: int| 0 <= y < keyed.len() && keyed[y] == sorted[j];
    assert(sorted[i].0 <= sorted[j].0);
    assert(keyed[x].1 == ranked_seasons(names, show, season)[i]);
    assert(keyed[y].1 == ranked_seasons(names, show, season)[j]);
}

/// No directory of a show that is named for a later season is left out.
pub proof fn law_found_seasons_are_complete(
    names: Seq<Seq<u8>>,
    show: PathView,
    season: u32,
    a: int,
)
    requires
        forall|k: int| 0 <= k < names.len() ==> is_entry(#[trigger] names[k]),
        0 <= a < names.len(),
        season_dir(text::lossy_utf8(names[a])) matches Some(n) && n > season,
    ensures
        ranked_seasons(names, show, season).contains(show.push(names[a])),
{
    let keyed = seasons_in(names, show, season);
    lemma_season_keys(names, show, season);
    let n = season_dir(text::lossy_utf8(names[a]))->0;
    let x = (n as u128, show.push(names[a]));
    assert(keyed.contains(x));
    lemma_sorted_contains(keyed, x);
}

proof fn lemma_season_keys(names: Seq<Seq<u8>>, show: PathView, season: u32)
    requires
        forall|i: int| 0 <= i < names.len() ==> is_entry(#[trigger] names[i]),
    ensures
        forall|k: int|
            0 <= k < seasons_in(names, show, season).len() ==> {
                let x = #[trigger] seasons_in(names, show, season)[k];
                &&& x.1.len() > 0
                &&& x.1.drop_last() == show
                &&& names.contains(x.1.last())
                &&& season_dir(text::lossy_utf8(x.1.last())) matches Some(n) && n > season && x.0
                    == n
            },
        forall|a: int|
            0 <= a < names.len() && (season_dir(text::lossy_utf8(names[a])) matches Some(n) && n
                > season) ==> seasons_in(names, show, season).contains(
                (
                    season_dir(text::lossy_utf8(names[a]))->0 as u128,
                    show.push(#[trigger] names[a]),
                ),
            ),
    decreases names.len(),
{
    if names.len() > 0 {
        let rest = names.drop_last();
        assert forall|i: int| 0 <= i < rest.len() implies is_entry(#[trigger] rest[i]) by {
            assert(rest[i] == names[i]);
        }
        lemma_season_keys(rest, show, season);
        let before = seasons_in(rest, show, season);
        let all = seasons_in(names, show, season);
        let end = names.len() - 1;
        assert(is_entry(names[end]));
        lemma_entry_file(names, show, end);
        assert forall|k: int| 0 <= k < all.len() implies {
            let x = #[trigger] all[k];
            &&& x.1.len() > 0
            &&& x.1.drop_last() == show
            &&& names.contains(x.1.last())
            &&& season_dir(text::lossy_utf8(x.1.last())) matches Some(n) && n > season && x.0 == n
        } by {
            if k < before.len() {
                assert(before[k] == all[k]);
                let name = all[k].1.last();
                let w = choose|w: int| 0 <= w < rest.len() && rest[w] == name;
                assert(names[w] == name);
            } else {
                assert(names[end] == all[k].1.last());
            }
        }
        assert forall|a: int|
            0 <= a < names.len() && (season_dir(text::lossy_utf8(names[a])) matches Some(n) && n
                > season) implies all.contains(
            (season_dir(text::lossy_utf8(names[a]))->0 as u128, show.push(#[trigger] names[a])),
        ) by {
            let x = (season_dir(text::lossy_utf8(names[a]))->0 as u128, show.push(names[a]));
            if a < end {
                assert(rest[a] == names[a]);
                assert(before.contains(x));
                let k = choose|k: int| 0 <= k < before.len() && before[k] == x;
                assert(all[k] == x);
            } else {
                assert(all[before.len() as int] == x);
            }
        }
    }
}

/// No episode that follows the opened file is passed over for a later one. An episode of the
/// file's own directory that follows it is found, or else the lookahead is used up by episodes of
/// that directory that come no later than it. Episodes of later seasons count where the directory
/// holds all seasons.
pub proof fn law_no_following_episode_is_passed_over(
    p: PathView,
    tree: spec_fn(PathView) -> Seq<Seq<u8>>,
    lookahead: nat,
    a: int,
)
    requires
        is_tree(tree),
        file_episode(p) is Some,
        0 <= a < tree(p.drop_last()).len(),
        entry_episode(tree(p.drop_last())[a]) matches Some((s, e)) && ((s == (file_episode(p)->0).0
            && e > (file_episode(p)->0).1) || (s > (file_episode(p)->0).0 && season_dir(
            dir_label(p.drop_last()),
        ) is None)),
    ensures
        ({
            let dir = p.drop_last();
            let found = next_episodes(p, tree, lookahead);
            let name = tree(dir)[a];
            found.contains(dir.push(name)) || (found.len() == lookahead && forall|k: int|
                0 <= k < found.len() ==> {
                    &&& (#[trigger] found[k]).drop_last() == dir
                    &&& file_episode(found[k]) matches Some(n) && no_later(
                        n,
                        entry_episode(name)->0,
                    )
                })
        }),
{
    let dir = p.drop_last();
    let name = tree(dir)[a];
    assert(is_entry(name));
    let (season, episode) = file_episode(p)->0;
    let (s, e) = entry_episode(name)->0;
    law_search_finds_first_following(p, tree, lookahead);
    let all = all_following(p, tree);
    let found = next_episodes(p, tree, lookahead);
    let after = EpisodeFilter::After { season, episode };
    let later = EpisodeFilter::LaterSeasons { season };
    let own = ranked_episodes(tree(dir), dir, after);
    let flat = ranked_episodes(tree(dir), dir, later);
    lemma_ranked_episode(tree(dir), dir, after);
    lemma_ranked_episode(tree(dir), dir, later);
    let target = dir.push(name);
    lemma_entry_file(tree(dir), dir, a);
    let x: int = if s == season {
        law_found_files_are_complete(tree(dir), dir, after, a);
        let x = choose|x: int| 0 <= x < own.len() && own[x] == target;
        assert(all[x] == target);
        x
    } else {
        law_found_files_are_complete(tree(dir), dir, later, a);
        let y = choose|y: int| 0 <= y < flat.len() && flat[y] == target;
        assert(all == own + flat);
        assert(all[own.len() + y] == target);
        own.len() + y
    };
    if x < found.len() {
        assert(found[x] == target);
    } else {
        assert(found.len() == lookahead);
        assert forall|k: int| 0 <= k < found.len() implies (#[trigger] found[k]).drop_last() == dir
            && (file_episode(found[k]) matches Some(n) && no_later(n, (s, e))) by {
            assert(found[k] == all[k]);
            if s == season {
                assert(all[k] == own[k]);
                law_found_files_come_in_order(tree(dir), dir, after, k, x);
            } else if k < own.len() {
                assert(all[k] == own[k]);
            } else {
                assert(all[k] == flat[k - own.len()]);
                law_found_files_come_in_order(tree(dir), dir, later, k - own.len(), x - own.len());
            }
        }
    }
}

/// What a search finds in the directory that it began in comes in order: of two such episodes
/// the earlier one has a season and episode that is no later than the other's. Where that
/// directory holds all seasons, everything that is found lies in it.
pub proof fn law_search_result_is_in_order(
    p: PathView,
    tree: spec_fn(PathView) -> Seq<Seq<u8>>,
    lookahead: nat,
    i: int,
    j: int,
)
    requires
        is_tree(tree),
        file_episode(p) is Some,
        season_dir(dir_label(p.drop_last())) is None,
        0 <= i <= j < next_episodes(p, tree, lookahead).len(),
    ensures
        ({
            let found = next_episodes(p, tree, lookahead);
            &&& found[i].drop_last() == p.drop_last()
            &&& file_episode(found[i]) matches Some((s, e)) && (file_episode(found[j]) matches Some(
                (t, f),
            ) && (s < t || (s == t && e <= f)) && (s > (file_episode(p)->0).0 || (s == (
            file_episode(p)->0).0 && e > (file_episode(p)->0).1)))
        }),
{
    let dir = p.drop_last();
    let (season, episode) = file_episode(p)->0;
    law_search_finds_first_following(p, tree, lookahead);
    let all = all_following(p, tree);
    let found = next_episodes(p, tree, lookahead);
    let after = EpisodeFilter::After { season, episode };
    let later = EpisodeFilter::LaterSeasons { season };
    let own = ranked_episodes(tree(dir), dir, after);
    let flat = ranked_episodes(tree(dir), dir, later);
    lemma_ranked_episode(tree(dir), dir, after);
    lemma_ranked_episode(tree(dir), dir, later);
    assert(found[i] == all[i] && found[j] == all[j]);
    assert(all == own + flat);
    if j < own.len() {
        assert(all[i] == own[i] && all[j] == own[j]);
        law_found_files_come_in_order(tree(dir), dir, after, i, j);
    } else if i >= own.len() {
        assert(all[i] == flat[i - own.len()] && all[j] == flat[j - own.len()]);
        law_found_files_come_in_order(tree(dir), dir, later, i - own.len(), j - own.len());
    } else {
        assert(all[i] == own[i] && all[j] == flat[j - own.len()]);
    }
}

/// In a season directory the search finds the later episodes of the season first, in order, and
/// goes on to the directories of later seasons only behind all of them.
pub proof fn law_own_season_comes_first(
    p: PathView,
    tree: spec_fn(PathView) -> Seq<Seq<u8>>,
    lookahead: nat,
    i: int,
    j: int,
)
    requires
        is_tree(tree),
        file_episode(p) matches Some((season, _)) && !in_later_season(p, season),
        p.len() >= 2,
        season_dir(dir_label(p.drop_last())) is Some,
        0 <= i <= j < next_episodes(p, tree, lookahead).len(),
    ensures
        ({
            let found = next_episodes(p, tree, lookahead);
            let dir = p.drop_last();
            let season = (file_episode(p)->0).0;
            &&& found[j].drop_last() == dir ==> found[i].drop_last() == dir && (file_episode(
                found[i],
            ) matches Some((s, e)) && (file_episode(found[j]) matches Some((t, f)) && s == season
                && t == season && (file_episode(p)->0).1 < e <= f))
            &&& found[i].drop_last() != dir ==> {
                &&& found[i].drop_last().drop_last() == dir.drop_last()
                &&& found[j].drop_last().drop_last() == dir.drop_last()
                &&& season_dir(text::lossy_utf8(found[i].drop_last().last())) matches Some(n) && n
                    > season && (season_dir(
                    text::lossy_utf8(found[j].drop_last().last()),
                ) matches Some(m) && n <= m)
            }
        }),
{
    let dir = p.drop_last();
    let (season, episode) = file_episode(p)->0;
    let show = path::parent_or_root(dir);
    law_search_finds_first_following(p, tree, lookahead);
    let all = all_following(p, tree);
    let found = next_episodes(p, tree, lookahead);
    let after = EpisodeFilter::After { season, episode };
    let own = ranked_episodes(tree(dir), dir, after);
    let dirs = ranked_seasons(tree(show), show, season);
    let seasons = all_in_seasons(dirs, tree);
    lemma_ranked_episode(tree(dir), dir, after);
    lemma_ranked_season(tree(show), show, season);
    assert(found[i] == all[i] && found[j] == all[j]);
    assert(all == own + seasons);
    assert(!is_later_season(dir, season)) by {
        if is_later_season(dir, season) {
            assert(p[p.len() - 2] == dir.last());
        }
    }
    if j < own.len() {
        assert(all[i] == own[i] && all[j] == own[j]);
        law_found_files_come_in_order(tree(dir), dir, after, i, j);
    } else {
        let y = j - own.len();
        assert(all[j] == seasons[y]);
        let b = lemma_season_block(dirs, tree, y);
        assert(is_later_season(dirs[b], season));
        if i >= own.len() {
            let x = i - own.len();
            assert(all[i] == seasons[x]);
            let a = lemma_season_block(dirs, tree, x);
            lemma_season_blocks_in_order(dirs, tree, x, y);
            let (a, b) = choose|a: int, b: int|
                0 <= a <= b < dirs.len() && seasons[x].drop_last() == #[trigger] dirs[a]
                    && seasons[y].drop_last() == #[trigger] dirs[b];
            law_found_seasons_come_in_order(tree(show), show, season, a, b);
            law_found_seasons_come_in_order(tree(show), show, season, b, b);
        } else {
            assert(all[i] == own[i]);
        }
    }
}

proof fn lemma_season_block(
    dirs: Seq<PathView>,
    tree: spec_fn(PathView) -> Seq<Seq<u8>>,
    k: int,
) -> (d: int)
    requires
        is_tree(tree),
        0 <= k < all_in_seasons(dirs, tree).len(),
    ensures
        0 <= d < dirs.len(),
        all_in_seasons(dirs, tree)[k].drop_last() == dirs[d],
    decreases dirs.len(),
{
    let here = ranked_episodes(tree(dirs[0]), dirs[0], EpisodeFilter::Any);
    lemma_ranked_episode(tree(dirs[0]), dirs[0], EpisodeFilter::Any);
    if k < here.len() {
        assert(all_in_seasons(dirs, tree)[k] == here[k]);
        0
    } else {
        let d = lemma_season_block(dirs.skip(1), tree, k - here.len());
        assert(all_in_seasons(dirs, tree)[k] == all_in_seasons(dirs.skip(1), tree)[k
            - here.len()]);
        d + 1
    }
}

proof fn lemma_season_blocks_in_order(
    dirs: Seq<PathView>,
    tree: spec_fn(PathView) -> Seq<Seq<u8>>,
    x: int,
    y: int,
)
    requires
        is_tree(tree),
        0 <= x <= y < all_in_seasons(dirs, tree).len(),
    ensures
        exists|a: int, b: int|
            0 <= a <= b < dirs.len() && all_in_seasons(dirs, tree)[x].drop_last()
                == #[trigger] dirs[a] && all_in_seasons(dirs, tree)[y].drop_last()
                == #[trigger] dirs[b],
    decreases dirs.len(),
{
    let all = all_in_seasons(dirs, tree);
    let here = ranked_episodes(tree(dirs[0]), dirs[0], EpisodeFilter::Any);
    let rest = dirs.skip(1);
    let there = all_in_seasons(rest, tree);
    lemma_ranked_episode(tree(dirs[0]), dirs[0], EpisodeFilter::Any);
    assert(all == here + there);
    if y < here.len() {
        assert(all[x] == here[x] && all[y] == here[y]);
        assert(all[x].drop_last() == dirs[0] && all[y].drop_last() == dirs[0]);
    } else if x < here.len() {
        assert(all[x] == here[x] && all[y] == there[y - here.len()]);
        let d = lemma_season_block(rest, tree, y - here.len());
        assert(rest[d] == dirs[d + 1]);
        assert(all[x].drop_last() == dirs[0] && all[y].drop_last() == dirs[d + 1]);
    } else {
        assert(all[x] == there[x - here.len()] && all[y] == there[y - here.len()]);
        lemma_season_blocks_in_order(rest, tree, x - here.len(), y - here.len());
        let (a, b) = choose|a: int, b: int|
            0 <= a <= b < rest.len() && all[x].drop_last() == #[trigger] rest[a]
                && all[y].drop_last() == #[trigger] rest[b];
        assert(rest[a] == dirs[a + 1] && rest[b] == dirs[b + 1]);
        assert(all[x].drop_last() == dirs[a + 1] && all[y].drop_last() == dirs[b + 1]);
    }
}

proof fn lemma_season_episode_is_there(
    dirs: Seq<PathView>,
    tree: spec_fn(PathView) -> Seq<Seq<u8>>,
    d: int,
    a: int,
) -> (w: int)
    requires
        is_tree(tree),
        0 <= d < dirs.len(),
        0 <= a < tree(dirs[d]).len(),
        entry_episode(tree(dirs[d])[a]) is Some,
    ensures
        0 <= w < all_in_seasons(dirs, tree).len(),
        all_in_seasons(dirs, tree)[w] == dirs[d].push(tree(dirs[d])[a]),
        forall|k: int|
            0 <= k <= w ==> exists|c: int|
                0 <= c <= d && (#[trigger] all_in_seasons(dirs, tree)[k]).drop_last()
                    == #[trigger] dirs[c],
    decreases dirs.len(),
{
    let all = all_in_seasons(dirs, tree);
    let here = ranked_episodes(tree(dirs[0]), dirs[0], EpisodeFilter::Any);
    let rest = dirs.skip(1);
    let there = all_in_seasons(rest, tree);
    lemma_ranked_episode(tree(dirs[0]), dirs[0], EpisodeFilter::Any);
    assert(all == here + there);
    if d == 0 {
        assert(is_entry(tree(dirs[0])[a]));
        law_found_files_are_complete(tree(dirs[0]), dirs[0], EpisodeFilter::Any, a);
        let w = choose|w: int| 0 <= w < here.len() && here[w] == dirs[0].push(tree(dirs[0])[a]);
        assert(all[w] == here[w]);
        assert forall|k: int| 0 <= k <= w implies exists|c: int|
            0 <= c <= d && (#[trigger] all[k]).drop_last() == #[trigger] dirs[c] by {
            assert(all[k] == here[k]);
            assert(all[k].drop_last() == dirs[0]);
        }
        w
    } else {
        assert(rest[d - 1] == dirs[d]);
        let v = lemma_season_episode_is_there(rest, tree, d - 1, a);
        let w = here.len() + v;
        assert(all[w] == there[v]);
        assert forall|k: int| 0 <= k <= w implies exists|c: int|
            0 <= c <= d && (#[trigger] all[k]).drop_last() == #[trigger] dirs[c] by {
            if k < here.len() {
                assert(all[k] == here[k]);
                assert(all[k].drop_last() == dirs[0]);
            } else {
                assert(all[k] == there[k - here.len()]);
                let c = choose|c: int|
                    0 <= c <= d - 1 && there[k - here.len()].drop_last() == #[trigger] rest[c];
                assert(rest[c] == dirs[c + 1]);
                assert(all[k].drop_last() == dirs[c + 1]);
            }
        }
        w
    }
}

/// No episode of a later season is passed over for one of a season still later. Where the file
/// lies in a season directory, an episode in the directory of a later season next to it is found,
/// or else the lookahead is used up by episodes of the file's own directory and of directories of
/// seasons that are no later.
pub proof fn law_no_later_season_is_passed_over(
    p: PathView,
    tree: spec_fn(PathView) -> Seq<Seq<u8>>,
    lookahead: nat,
    b: int,
    a: int,
)
    requires
        is_tree(tree),
        file_episode(p) is Some,
        p.len() >= 2,
        season_dir(dir_label(p.drop_last())) is Some,
        0 <= b < tree(p.drop_last().drop_last()).len(),
        season_dir(text::lossy_utf8(tree(p.drop_last().drop_last())[b])) matches Some(n) && n > (
        file_episode(p)->0).0,
        ({
            let other = p.drop_last().drop_last().push(tree(p.drop_last().drop_last())[b]);
            0 <= a < tree(other).len() && entry_episode(tree(other)[a]) is Some
        }),
    ensures
        ({
            let dir = p.drop_last();
            let show = dir.drop_last();
            let other = show.push(tree(show)[b]);
            let found = next_episodes(p, tree, lookahead);
            let n = season_dir(text::lossy_utf8(tree(show)[b]))->0;
            found.contains(other.push(tree(other)[a])) || (found.len() == lookahead && forall|
                k: int,
            |
                0 <= k < found.len() ==> (#[trigger] found[k]).drop_last() == dir || (season_dir(
                    text::lossy_utf8(found[k].drop_last().last()),
                ) matches Some(m) && m <= n))
        }),
{
    let dir = p.drop_last();
    let show = dir.drop_last();
    let (season, episode) = file_episode(p)->0;
    assert(path::parent_or_root(dir) == show);
    let names = tree(show);
    let other = show.push(names[b]);
    let n = season_dir(text::lossy_utf8(names[b]))->0;
    law_search_finds_first_following(p, tree, lookahead);
    let all = all_following(p, tree);
    let found = next_episodes(p, tree, lookahead);
    let after = EpisodeFilter::After { season, episode };
    let own = ranked_episodes(tree(dir), dir, after);
    lemma_ranked_episode(tree(dir), dir, after);
    let dirs = ranked_seasons(names, show, season);
    let seasons = all_in_seasons(dirs, tree);
    assert(all == own + seasons);
    assert forall|k: int| 0 <= k < names.len() implies is_entry(#[trigger] names[k]) by {
        assert(is_entry(tree(show)[k]));
    }
    law_found_seasons_are_complete(names, show, season, b);
    let d = choose|d: int| 0 <= d < dirs.len() && dirs[d] == other;
    let w = lemma_season_episode_is_there(dirs, tree, d, a);
    let target = other.push(tree(other)[a]);
    let x = own.len() + w;
    assert(all[x] == target);
    if x < found.len() {
        assert(found[x] == target);
    } else {
        assert(found.len() == lookahead);
        assert forall|k: int| 0 <= k < found.len() implies (#[trigger] found[k]).drop_last() == dir
            || (season_dir(text::lossy_utf8(found[k].drop_last().last())) matches Some(m) && m
            <= n) by {
            assert(found[k] == all[k]);
            if k < own.len() {
                assert(all[k] == own[k]);
            } else {
                assert(all[k] == seasons[k - own.len()]);
                let c = choose|c: int|
                    0 <= c <= d && seasons[k - own.len()].drop_last() == #[trigger] dirs[c];
                law_found_seasons_come_in_order(names, show, season, c, d);
                assert(dirs[d].last() == names[b]);
            }
        }
    }
}

/// A search finds as many of the episodes that follow as its lookahead allows, the first ones.
pub proof fn law_search_is_a_prefix(
    p: PathView,
    tree: spec_fn(PathView) -> Seq<Seq<u8>>,
    lookahead: nat,
    k: int,
)
    ensures
        next_episodes(p, tree, lookahead).len() <= lookahead,
        next_episodes(p, tree, lookahead).len() <= all_following(p, tree).len(),
        next_episodes(p, tree, lookahead).len() == lookahead || next_episodes(
            p,
            tree,
            lookahead,
        ).len() == all_following(p, tree).len(),
        0 <= k < next_episodes(p, tree, lookahead).len() ==> next_episodes(p, tree, lookahead)[k]
            == all_following(p, tree)[k],
        file_episode(p) is None ==> next_episodes(p, tree, lookahead).len() == 0,
{
    law_search_finds_first_following(p, tree, lookahead);
}

/// The season is what the first group of a match says and the episode what the second one says;
/// there are numbers only where both groups hold one.
pub proof fn law_groups_hold_season_and_episode(groups: Seq<Option<Seq<char>>>)
    ensures
        numbers_in(Some(groups)) matches Some((s, e)) ==> groups.len() >= 3 && (groups[1] matches Some(
            a,
        ) && text::decimal_value(a, u32::MAX as nat) == Some(s as nat)) && (groups[2] matches Some(b)
            && text::decimal_value(b, u32::MAX as nat) == Some(e as nat)),
        groups.len() >= 3 && groups[1] is Some && groups[2] is Some && text::decimal_value(
            groups[1]->0,
            u32::MAX as nat,
        ) is Some && text::decimal_value(groups[2]->0, u32::MAX as nat) is Some ==> numbers_in(
            Some(groups),
        ) is Some,
        number_in(Some(groups)) matches Some(n) ==> groups.len() >= 2 && (groups[1] matches Some(a)
            && text::decimal_value(a, u32::MAX as nat) == Some(n as nat)),
        groups.len() >= 2 && groups[1] is Some && text::decimal_value(
            groups[1]->0,
            u32::MAX as nat,
        ) is Some ==> number_in(Some(groups)) is Some,
{
}

/// A known directory lists its names, and an unknown one lists nothing.
pub proof fn law_tree_lists_its_directories(tree: Map<PathView, Vec<Vec<u8>>>, dir: PathView, i: int)
    ensures
        tree.contains_key(dir) ==> listing(tree)(dir).len() == tree[dir]@.len(),
        tree.contains_key(dir) && 0 <= i < tree[dir]@.len() ==> listing(tree)(dir)[i]
            == tree[dir]@[i]@,
        !tree.contains_key(dir) ==> listing(tree)(dir).len() == 0,
{
}

/// An episode falls together with its directory, and any other file stands for itself.
pub proof fn law_show_root(dir: PathView, name: Seq<u8>)
    requires
        is_entry(name),
    ensures
        entry_episode(name) is Some ==> show_root_of(dir.push(name)) == dir,
        entry_episode(name) is None ==> show_root_of(dir.push(name)) == dir.push(name),
{
    let p = dir.push(name);
    assert(p.last() == name);
    assert(p.drop_last() =~= dir);
    if name == path::root_part() {
        assert(name[0] == 0x2fu8);
        assert(name.contains(0x2fu8));
    }
}

proof fn lemma_later_entries(
    names: Seq<Seq<u8>>,
    numbers: Seq<Option<u32>>,
    show: PathView,
    season: u32,
)
    requires
        names.len() <= numbers.len(),
    ensures
        forall|k: int|
            0 <= k < later_in(names, numbers, show, season).len() ==> is_later_entry(
                #[trigger] later_in(names, numbers, show, season)[k],
                names,
                numbers,
                show,
                season,
            ),
        forall|a: int|
            0 <= a < names.len() && (numbers[a] matches Some(n) && n > season) ==> later_in(
                names,
                numbers,
                show,
                season,
            ).contains((numbers[a]->0 as u128, path::joined(show, #[trigger] names[a]))),
    decreases names.len(),
{
    if names.len() > 0 {
        let rest = names.drop_last();
        lemma_later_entries(rest, numbers, show, season);
        let before = later_in(rest, numbers, show, season);
        let all = later_in(names, numbers, show, season);
        let end = names.len() - 1;
        assert forall|k: int| 0 <= k < all.len() implies is_later_entry(
            #[trigger] all[k],
            names,
            numbers,
            show,
            season,
        ) by {
            if k < before.len() {
                assert(is_later_entry(before[k], rest, numbers, show, season));
                let a = choose|a: int|
                    0 <= a < rest.len() && (numbers[a] matches Some(n) && n > season && before[k].0
                        == n) && before[k].1 == path::joined(show, #[trigger] rest[a]);
                assert(names[a] == rest[a]);
            } else {
                assert(all[k].1 == path::joined(show, names[end]));
            }
        }
        assert forall|a: int|
            0 <= a < names.len() && (numbers[a] matches Some(n) && n > season) implies all.contains(
            (numbers[a]->0 as u128, path::joined(show, #[trigger] names[a])),
        ) by {
            let x = (numbers[a]->0 as u128, path::joined(show, names[a]));
            if a < end {
                assert(rest[a] == names[a]);
                assert(before.contains(x));
                let k = choose|k: int| 0 <= k < before.len() && before[k] == x;
                assert(all[k] == x);
            } else {
                assert(all[before.len() as int] == x);
            }
        }
    }
}

/// Whether a keyed path is an entry of a listing whose number, the key, is above `season`.
pub open spec fn is_later_entry(
    x: (u128, PathView),
    names: Seq<Seq<u8>>,
    numbers: Seq<Option<u32>>,
    show: PathView,
    season: u32,
) -> bool {
    exists|a: int|
        0 <= a < names.len() && (numbers[a] matches Some(n) && n > season && x.0 == n) && x.1
            == path::joined(show, #[trigger] names[a])
}

/// Entries whose numbers are above a season come in the order of their numbers: the one that
/// comes earlier has the lower number or the same. Each is an entry of the listing, and none with
/// such a number is left out.
pub proof fn law_later_entries_come_in_order(
    names: Seq<Seq<u8>>,
    numbers: Seq<Option<u32>>,
    show: PathView,
    season: u32,
    i: int,
    j: int,
    a: int,
)
    requires
        names.len() == numbers.len(),
    ensures
        ({
            let found = sort::items(sort::stable_sorted(later_in(names, numbers, show, season)));
            &&& 0 <= i <= j < found.len() ==> exists|b: int, c: int|
                #![trigger names[b], names[c]]
                {
                    &&& 0 <= b < names.len()
                    &&& 0 <= c < names.len()
                    &&& found[i] == path::joined(show, names[b])
                    &&& found[j] == path::joined(show, names[c])
                    &&& numbers[b] is Some && numbers[c] is Some
                    &&& season < numbers[b]->0 <= numbers[c]->0
                }
            &&& 0 <= a < names.len() && (numbers[a] matches Some(n) && n > season)
                ==> found.contains(path::joined(show, names[a]))
        }),
{
    let keyed = later_in(names, numbers, show, season);
    let sorted = sort::stable_sorted(keyed);
    let found = sort::items(sorted);
    lemma_later_entries(names, numbers, show, season);
    sort::law_sorting_sorts(keyed);
    sort::lemma_sorted_elements(keyed);
    if 0 <= i <= j < found.len() {
        assert(keyed.contains(sorted[i]) && keyed.contains(sorted[j]));
        let x = choose|x: int| 0 <= x < keyed.len() && keyed[x] == sorted[i];
        let y = choose|y: int| 0 <= y < keyed.len() && keyed[y] == sorted[j];
        assert(is_later_entry(keyed[x], names, numbers, show, season));
        assert(is_later_entry(keyed[y], names, numbers, show, season));
        let b = choose|b: int|
            0 <= b < names.len() && (numbers[b] matches Some(n) && n > season && keyed[x].0 == n)
                && keyed[x].1 == path::joined(show, #[trigger] names[b]);
        let c = choose|c: int|
            0 <= c < names.len() && (numbers[c] matches Some(n) && n > season && keyed[y].0 == n)
                && keyed[y].1 == path::joined(show, #[trigger] names[c]);
        assert(sorted[i].0 <= sorted[j].0);
        assert(found[i] == path::joined(show, names[b]));
        assert(found[j] == path::joined(show, names[c]));
    }
    if 0 <= a < names.len() && (numbers[a] matches Some(n) && n > season) {
        let x = (numbers[a]->0 as u128, path::joined(show, names[a]));
        assert(keyed.contains(x));
        lemma_sorted_contains(keyed, x);
    }
}

/// A directory is checked for being a season directory by the name that it ends in; the empty path
/// has none.
pub proof fn law_season_directories_go_by_name(show: PathView, name: Seq<u8>)
    requires
        is_entry(name),
    ensures
        dir_label(show.push(name)) == text::lossy_utf8(name),
        dir_label(PathView::empty()).len() == 0,
        file_episode(show.push(name)) == season_episode(text::lossy_utf8(name)),
        file_episode(PathView::empty()) is None,
{
    assert(show.push(name).last() == name);
    if name == path::root_part() {
        assert(name[0] == 0x2fu8);
        assert(name.contains(0x2fu8));
    }
}

} // verus!
