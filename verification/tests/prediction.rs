use fscache::path::RelPath;
use fscache::path_map::PathMap;
use fscache::prediction_utils::{
    episode_from_groups, find_next_episodes, parse_season_dir, parse_season_episode, rank_episodes,
    rank_later, rank_numbered, rank_seasons, season_from_groups, show_root, EpisodeFilter,
    EpisodeSearch,
};
use fscache::predictor::{next_copy_step, CopyStep, Predictor};

fn p(s: &str) -> RelPath {
    RelPath::from_bytes(s.as_bytes())
}

fn names(list: &[&str]) -> Vec<Vec<u8>> {
    list.iter().map(|n| n.as_bytes().to_vec()).collect()
}

fn shown(list: &[RelPath]) -> Vec<String> {
    list.iter().map(|q| String::from_utf8(q.to_bytes()).unwrap()).collect()
}

#[test]
fn episode_numbers_are_found_in_names() {
    assert_eq!(parse_season_episode("Show.S01E02.mkv"), Some((1, 2)));
    assert_eq!(parse_season_episode("show s1e003 x"), Some((1, 3)));
    assert_eq!(parse_season_episode("S123E4567"), None);
    assert_eq!(parse_season_episode("xS12E4567"), Some((12, 456)));
    assert_eq!(parse_season_episode("a S02E03 S04E05"), Some((2, 3)));
    assert_eq!(parse_season_episode("movie.mkv"), None);
    assert_eq!(parse_season_episode(""), None);
}

#[test]
fn season_directories_are_recognised() {
    assert_eq!(parse_season_dir("Season 01"), Some(1));
    assert_eq!(parse_season_dir("season  12"), Some(12));
    assert_eq!(parse_season_dir("Season 0"), Some(0));
    assert_eq!(parse_season_dir("Season"), None);
    assert_eq!(parse_season_dir("Season 1 Extras"), None);
    assert_eq!(parse_season_dir("Season 4294967295"), Some(4294967295));
    assert_eq!(parse_season_dir("Season 4294967296"), None);
}

#[test]
fn groups_that_are_missing_give_no_numbers() {
    let group = |s: &str| Some(s.to_string());
    assert_eq!(episode_from_groups(&None), None);
    assert_eq!(episode_from_groups(&Some(vec![group("S1E2"), group("1"), None])), None);
    assert_eq!(episode_from_groups(&Some(vec![group("S1E2"), group("1"), group("2")])), Some((1, 2)));
    assert_eq!(season_from_groups(&Some(vec![group("Season 7"), group("7")])), Some(7));
    assert_eq!(season_from_groups(&Some(vec![group("Season x"), group("x")])), None);
    assert_eq!(season_from_groups(&None), None);
}

#[test]
fn show_root_groups_episodes_only() {
    assert_eq!(show_root(&p("tv/Show/Show.S01E01.mkv")).to_bytes(), b"tv/Show".to_vec());
    assert_eq!(show_root(&p("movies/Movie.mkv")).to_bytes(), b"movies/Movie.mkv".to_vec());
    assert!(show_root(&p("S01E01.mkv")).is_root());
}

#[test]
fn same_season_comes_first_and_sorted() {
    let mut tree = PathMap::new();
    tree.insert(
        p("tv"),
        names(&["s01e10.mkv", "notes.txt", "s01e02.mkv", "s02e01.mkv", "s01e09.mkv", "s01e01.mkv"]),
    );
    let found = find_next_episodes(&p("tv/s01e01.mkv"), &tree, 2);
    assert_eq!(shown(&found), vec!["tv/s01e02.mkv", "tv/s01e09.mkv"]);
    let found = find_next_episodes(&p("tv/s01e01.mkv"), &tree, 10);
    assert_eq!(
        shown(&found),
        vec!["tv/s01e02.mkv", "tv/s01e09.mkv", "tv/s01e10.mkv", "tv/s02e01.mkv"]
    );
    assert!(find_next_episodes(&p("tv/s01e01.mkv"), &tree, 0).is_empty());
    assert!(find_next_episodes(&p("tv/notes.txt"), &tree, 5).is_empty());
}

#[test]
fn later_season_directories_fill_the_window() {
    let mut tree = PathMap::new();
    tree.insert(p("Show"), names(&["Season 10", "Season 1", "extras", "Season 2"]));
    tree.insert(p("Show/Season 1"), names(&["S01E02.mkv", "S01E01.mkv"]));
    tree.insert(p("Show/Season 2"), names(&["S02E02.mkv", "S02E01.mkv"]));
    tree.insert(p("Show/Season 10"), names(&["S10E01.mkv"]));
    let found = find_next_episodes(&p("Show/Season 1/S01E01.mkv"), &tree, 4);
    assert_eq!(
        shown(&found),
        vec![
            "Show/Season 1/S01E02.mkv",
            "Show/Season 2/S02E01.mkv",
            "Show/Season 2/S02E02.mkv",
            "Show/Season 10/S10E01.mkv",
        ]
    );
    let found = find_next_episodes(&p("Show/Season 1/S01E01.mkv"), &tree, 2);
    assert_eq!(shown(&found), vec!["Show/Season 1/S01E02.mkv", "Show/Season 2/S02E01.mkv"]);
}

#[test]
fn search_asks_for_one_directory_at_a_time() {
    let search = EpisodeSearch::begin(&p("Show/Season 1/S01E01.mkv"), 1);
    let dir = search.wanted().expect("the directory of the file");
    assert_eq!(dir.to_bytes(), b"Show/Season 1".to_vec());
    let search = search.listed(&names(&["S01E02.mkv"]));
    assert!(search.wanted().is_none());
    assert_eq!(shown(&search.into_found()), vec!["Show/Season 1/S01E02.mkv"]);
    assert!(EpisodeSearch::begin(&p("x.mkv"), 3).wanted().is_none());
}

#[test]
fn lookahead_bounds_what_is_found() {
    let mut tree = PathMap::new();
    tree.insert(p("d"), names(&["s1e1", "s1e2", "s1e3", "s1e4", "s2e1"]));
    for n in 0..6 {
        let found = find_next_episodes(&p("d/s1e1"), &tree, n);
        assert!(found.len() <= n);
    }
}

#[test]
fn larger_lookaheads_only_append() {
    let mut tree = PathMap::new();
    tree.insert(p("Show"), names(&["Season 3", "Season 1", "Season 2"]));
    tree.insert(p("Show/Season 1"), names(&["S01E03", "S01E01", "S01E02"]));
    tree.insert(p("Show/Season 2"), names(&["S02E02", "S02E01"]));
    tree.insert(p("Show/Season 3"), names(&["S03E01"]));
    let all = shown(&find_next_episodes(&p("Show/Season 1/S01E01"), &tree, 100));
    assert_eq!(
        all,
        vec![
            "Show/Season 1/S01E02",
            "Show/Season 1/S01E03",
            "Show/Season 2/S02E01",
            "Show/Season 2/S02E02",
            "Show/Season 3/S03E01",
        ]
    );
    for n in 0..7 {
        let found = shown(&find_next_episodes(&p("Show/Season 1/S01E01"), &tree, n));
        assert_eq!(found, all[..n.min(all.len())].to_vec());
    }
}

#[test]
fn nothing_is_found_twice() {
    let mut tree = PathMap::new();
    tree.insert(p("Show"), names(&["Season 1", "Season 02", "Season 2"]));
    tree.insert(p("Show/Season 1"), names(&["S01E02", "a S01E02", "S01E01", "S02E01"]));
    tree.insert(p("Show/Season 2"), names(&["S02E01", "b S02E01"]));
    tree.insert(p("Show/Season 02"), names(&["S02E01"]));
    let found = shown(&find_next_episodes(&p("Show/Season 1/S01E01"), &tree, 10));
    let mut distinct = found.clone();
    distinct.sort();
    distinct.dedup();
    assert_eq!(found.len(), 5);
    assert_eq!(distinct.len(), 5);
    assert!(!found.contains(&"Show/Season 1/S01E01".to_string()));

    // A file in the directory of a season later than its own: that directory is listed again.
    let mut tree = PathMap::new();
    tree.insert(p("Show"), names(&["Season 5"]));
    tree.insert(p("Show/Season 5"), names(&["S01E01", "S01E02"]));
    let found = shown(&find_next_episodes(&p("Show/Season 5/S01E01"), &tree, 10));
    assert_eq!(
        found,
        vec!["Show/Season 5/S01E02", "Show/Season 5/S01E01", "Show/Season 5/S01E02"]
    );
}

#[test]
fn names_that_are_not_text_are_read_leniently() {
    let mut odd = b"S01E02-".to_vec();
    odd.push(0xff);
    let mut tree = PathMap::new();
    tree.insert(p("d"), vec![odd.clone()]);
    let found = find_next_episodes(&p("d/S01E01"), &tree, 3);
    let mut expected = b"d/".to_vec();
    expected.extend(odd);
    assert_eq!(found.len(), 1);
    assert_eq!(found[0].to_bytes(), expected);
}

#[test]
fn ranking_is_stable_and_filtered() {
    let list = names(&["b.s01e05", "a.s01e05", "s02e01", "s01e01"]);
    let ranked = rank_episodes(&list, &p("d"), EpisodeFilter::Any);
    assert_eq!(shown(&ranked), vec!["d/s01e01", "d/b.s01e05", "d/a.s01e05", "d/s02e01"]);
    let window = EpisodeFilter::Window { season: 1, episode: 1, last: 4 };
    assert!(rank_episodes(&list, &p("d"), window).is_empty());
    let later = EpisodeFilter::LaterSeasons { season: 1 };
    assert_eq!(shown(&rank_episodes(&list, &p("d"), later)), vec!["d/s02e01"]);
    let seasons = rank_seasons(&names(&["Season 3", "Season 2", "x"]), &p("s"), 1);
    assert_eq!(shown(&seasons), vec!["s/Season 2", "s/Season 3"]);
}

#[test]
fn predictor_requests_each_file_once() {
    let mut predictor = Predictor::new(2);
    let file = p("d/s01e01");
    assert_eq!(predictor.wanted_dir(&file).unwrap().to_bytes(), b"d".to_vec());
    let list = names(&["s01e04", "s01e03", "s01e02", "s01e01"]);
    let next = predictor.find_next_episodes(&file, None, &list);
    assert_eq!(shown(&next), vec!["d/s01e02", "d/s01e03"]);
    let from_db = Some(vec![p("d/other")]);
    assert_eq!(shown(&predictor.find_next_episodes(&file, from_db, &list)), vec!["d/other"]);
    let empty = Some(vec![]);
    assert_eq!(predictor.find_next_episodes(&file, empty, &list).len(), 2);

    assert!(predictor.plan(false, &next, &vec![false, false]).is_empty());
    assert_eq!(shown(&predictor.plan(true, &next, &vec![true, false])), vec!["d/s01e03"]);
    assert_eq!(shown(&predictor.plan(true, &next, &vec![false, false])), vec!["d/s01e02"]);
    assert!(predictor.plan(true, &next, &vec![false, false]).is_empty());
}

#[test]
fn copies_are_skipped_when_cached_or_full() {
    assert_eq!(next_copy_step(CopyStep::CheckCached, true), CopyStep::SkipCached);
    assert_eq!(next_copy_step(CopyStep::CheckCached, false), CopyStep::CheckFreeSpace);
    assert_eq!(next_copy_step(CopyStep::CheckFreeSpace, false), CopyStep::SkipNoSpace);
    assert_eq!(next_copy_step(CopyStep::CheckFreeSpace, true), CopyStep::EvictThenCopy);
    assert_eq!(next_copy_step(CopyStep::EvictThenCopy, false), CopyStep::EvictThenCopy);
}

#[test]
fn numbered_entries_are_ranked() {
    let list = names(&["d", "c", "b", "a"]);
    let numbers = vec![Some((1, 3)), None, Some((1, 2)), Some((2, 1))];
    let after = EpisodeFilter::After { season: 1, episode: 1 };
    assert_eq!(shown(&rank_numbered(&list, &numbers, &p("x"), after)), vec!["x/b", "x/d"]);
    let any = rank_numbered(&list, &numbers, &p("x"), EpisodeFilter::Any);
    assert_eq!(shown(&any), vec!["x/b", "x/d", "x/a"]);
    let seasons = rank_later(&list, &vec![Some(9), Some(1), None, Some(3)], &p("x"), 1);
    assert_eq!(shown(&seasons), vec!["x/a", "x/d"]);
}

#[test]
fn search_goes_on_with_what_was_found() {
    let search = EpisodeSearch::begin_at(&p("show/one/file"), Some((1, 1)), 3);
    assert_eq!(search.wanted(), Some(p("show/one")));
    let search = search.advance(vec![p("show/one/next")], true);
    assert_eq!(search.wanted(), Some(p("show")));
    let search = search.advance(vec![p("show/two"), p("show/three")], false);
    assert_eq!(search.wanted(), Some(p("show/two")));
    let search = search.advance(vec![p("show/two/a")], false);
    assert_eq!(search.wanted(), Some(p("show/three")));
    let search = search.advance(vec![p("show/three/a"), p("show/three/b")], false);
    assert_eq!(search.wanted(), None);
    assert_eq!(shown(&search.into_found()), vec!["show/one/next", "show/two/a", "show/three/a"]);
    let flat = EpisodeSearch::begin_at(&p("d/file"), Some((1, 1)), 2).advance(vec![], false);
    assert_eq!(flat.wanted(), Some(p("d")));
    let full = EpisodeSearch::begin_at(&p("d/file"), Some((1, 1)), 1);
    assert_eq!(full.advance(vec![p("d/a"), p("d/b")], true).wanted(), None);
    assert_eq!(EpisodeSearch::begin_at(&p("d/file"), None, 2).wanted(), None);
}

#[test]
fn episodes_of_one_directory_fall_together() {
    assert_eq!(show_root(&p("tv/a.s01e01")), show_root(&p("tv/b.s02e05")));
    assert_ne!(show_root(&p("tv/a.s01e01")), show_root(&p("other/a.s01e01")));
    assert_ne!(show_root(&p("tv/x")), show_root(&p("tv/y")));
}

#[test]
fn found_episodes_follow_the_file() {
    let mut tree = PathMap::new();
    tree.insert(p("d"), names(&["s02e03", "s02e02", "s01e09", "s03e01", "s02e01", "s02e05"]));
    let found = find_next_episodes(&p("d/s02e02"), &tree, 10);
    for file in &found {
        let name = String::from_utf8(file.file_name().unwrap().clone()).unwrap();
        assert!(parse_season_episode(&name).unwrap() > (2, 2));
    }
    assert_eq!(found.len(), 3);
}
