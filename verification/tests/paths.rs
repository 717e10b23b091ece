use fscache::cache::walk::CacheWalk;
use fscache::path::RelPath;
use fscache::path_map::PathMap;
use fscache::sort::stable_sort;
use fscache::text;

fn p(s: &str) -> RelPath {
    RelPath::from_bytes(s.as_bytes())
}

#[test]
fn components_ignore_empty_and_dot_parts() {
    assert_eq!(p("a//./b/").to_bytes(), b"a/b".to_vec());
    assert_eq!(p("/a//./b/").to_bytes(), b"/a/b".to_vec());
    assert_eq!(p("././a").to_bytes(), b"./a".to_vec());
    assert_eq!(p("//").to_bytes(), b"/".to_vec());
    assert_eq!(p("a/../b").depth(), 3);
    assert!(p("").is_root());
    assert!(!p("./").is_root());
    assert!(!p("/").is_root());
    assert!(!p("/a").same_as(&p("a")));
    assert!(!p("./a").same_as(&p("a")));
    assert_eq!(p("a/b").component(1), &b"b".to_vec());
}

fn std_path(s: &str) -> &std::path::Path {
    std::path::Path::new(s)
}

fn same(ours: &RelPath, theirs: &std::path::Path) -> bool {
    let bytes = ours.to_bytes();
    std_path(std::str::from_utf8(&bytes).unwrap()) == theirs
}

#[test]
fn paths_agree_with_the_standard_library() {
    let samples = [
        "", "/", ".", "..", "a", "/a", "./a", "a/", "a/b", "/a/b", "./a/b", "a/./b", "a//b", "/./a",
        "a/..", "../a", "/..", "./.", "a/b/.", "//a", ".a", "...", "/a/b/c",
    ];
    for x in samples {
        let (ours, theirs) = (p(x), std_path(x));
        assert!(same(&ours, theirs), "{x}");
        match (ours.parent(), theirs.parent()) {
            (Some(a), Some(b)) => assert!(same(&a, b), "{x}"),
            (a, b) => assert!(a.is_none() && b.is_none(), "{x}"),
        }
        assert!(same(&ours.parent_or_root(), theirs.parent().unwrap_or(std_path(""))), "{x}");
        let name = theirs.file_name().map(|n| n.to_str().unwrap().as_bytes().to_vec());
        assert_eq!(ours.file_name().cloned(), name, "{x}");
        assert_eq!(ours.depth(), theirs.components().count(), "{x}");
        for y in samples {
            assert_eq!(ours.same_as(&p(y)), theirs == std_path(y), "{x} {y}");
            assert_eq!(ours.starts_with(&p(y)), theirs.starts_with(y), "{x} {y}");
            assert!(same(&ours.join(y.as_bytes()), &theirs.join(y)), "{x} {y}");
        }
    }
}

#[test]
fn walks_visit_directories_in_their_place() {
    let mut walk = CacheWalk::begin(&p("/c"));
    let mut order = Vec::new();
    while let Some(dir) = walk.next_dir() {
        let shown = String::from_utf8(dir.to_bytes()).unwrap();
        let entries: Vec<(&str, bool)> = match shown.as_str() {
            "/c" => vec![("a.mkv", false), ("d", true), ("x.db", false), ("e", true), ("z", false)],
            "/c/d" => vec![("b.partial", false), ("deep.db", true), ("c.mkv", false)],
            "/c/d/deep.db" => vec![("f", false), ("g.db-wal", false), ("h.db-shm", false)],
            _ => vec![],
        };
        let entries: Vec<(Vec<u8>, bool)> =
            entries.into_iter().map(|(n, d)| (n.as_bytes().to_vec(), d)).collect();
        walk.listed(&dir, &entries);
        order.push(shown);
    }
    assert_eq!(order, vec!["/c", "/c/d", "/c/d/deep.db", "/c/e"]);
    let found: Vec<String> =
        walk.into_found().iter().map(|q| String::from_utf8(q.to_bytes()).unwrap()).collect();
    assert_eq!(found, vec!["/c/a.mkv", "/c/d/deep.db/f", "/c/d/c.mkv", "/c/z"]);
}

#[test]
fn parents_and_names() {
    assert_eq!(p("a/b").parent().unwrap().to_bytes(), b"a".to_vec());
    assert!(p("a").parent().unwrap().is_root());
    assert!(p("").parent().is_none());
    assert!(p("").parent_or_root().is_root());
    assert_eq!(p("a/b").file_name(), Some(&b"b".to_vec()));
    assert_eq!(p("").file_name(), None);
    assert_eq!(p("a/..").file_name(), None);
    assert_eq!(p("a/b/c").prefix(2).to_bytes(), b"a/b".to_vec());
}

#[test]
fn prefixes_go_by_whole_components() {
    assert!(p("a/b").starts_with(&p("a")));
    assert!(!p("ab").starts_with(&p("a")));
    assert!(p("a").starts_with(&p("")));
    assert!(p("a/b").same_as(&p("a//b")));
    assert_eq!(p("a/b/c").rebased(&p("a"), &p("x/y")).to_bytes(), b"x/y/b/c".to_vec());
    let there = p("a/b").rebased(&p("a"), &p("z"));
    assert!(there.rebased(&p("z"), &p("a")).same_as(&p("a/b")));
    assert_eq!(p("a").join(b"b").to_bytes(), b"a/b".to_vec());
    assert_eq!(p("a"), p("a/"));
    assert_eq!(p("a").clone(), p("a"));
}

#[test]
fn map_holds_the_last_value_of_each_path() {
    let mut map: PathMap<u32> = PathMap::new();
    assert_eq!(map.insert(p("a"), 1), None);
    assert_eq!(map.insert(p("a/"), 2), Some(1));
    assert_eq!(map.insert(p("b"), 3), None);
    assert_eq!(map.get(&p("a")), Some(&2));
    assert!(map.contains(&p("b")));
    assert!(map.has_more_than(1));
    assert!(!map.has_more_than(2));
    assert_eq!(map.keys().len(), 2);
    assert_eq!(map.remove(&p("a")), Some(2));
    assert_eq!(map.remove(&p("a")), None);
    assert!(!map.contains(&p("a")));
}

#[test]
fn map_copes_with_many_paths() {
    let mut map: PathMap<u32> = PathMap::new();
    for i in 0..2000u32 {
        map.insert(p(&format!("dir{}/file{}", i % 7, i)), i);
    }
    for i in 0..2000u32 {
        assert_eq!(map.get(&p(&format!("dir{}/file{}", i % 7, i))), Some(&i));
    }
    assert!(map.has_more_than(1999));
    assert!(!map.has_more_than(2000));
}

#[test]
fn sorting_is_stable() {
    let sorted = stable_sort(vec![(3u128, 'a'), (1, 'b'), (3, 'c'), (2, 'd'), (1, 'e')]);
    assert_eq!(sorted, vec![(1, 'b'), (1, 'e'), (2, 'd'), (3, 'a'), (3, 'c')]);
    assert!(stable_sort(Vec::<(u128, u8)>::new()).is_empty());
}

#[test]
fn bytes_split_and_join() {
    assert_eq!(text::split_bytes(b"a\0b\0", 0), vec![b"a".to_vec(), b"b".to_vec(), vec![]]);
    assert_eq!(text::split_bytes(b"", 0), vec![Vec::<u8>::new()]);
    let pieces = text::split_bytes(b"x/y//z", b'/');
    assert_eq!(text::join_bytes(&pieces, b'/'), b"x/y//z".to_vec());
    assert!(text::bytes_eq(b"ab", b"ab"));
    assert!(!text::bytes_eq(b"ab", b"a"));
    assert_eq!(text::bytes_clone(b"ab"), b"ab".to_vec());
}

#[test]
fn numbers_are_read_and_written() {
    assert_eq!(text::parse_decimal("+42", 100), Some(42));
    assert_eq!(text::parse_decimal("101", 100), None);
    assert_eq!(text::parse_decimal("", 100), None);
    assert_eq!(text::parse_decimal("+", 100), None);
    assert_eq!(text::parse_decimal("-1", 100), None);
    assert_eq!(text::parse_decimal("18446744073709551615", u64::MAX), Some(u64::MAX));
    assert_eq!(text::parse_decimal("18446744073709551616", u64::MAX), None);
    assert_eq!(text::format_decimal(0), "0");
    assert_eq!(text::format_decimal(u128::MAX), u128::MAX.to_string());
    assert_eq!(text::format_hex(0xab, 8), "000000ab");
    assert_eq!(text::format_hex(0xdeadbeef, 8), "deadbeef");
}

#[test]
fn texts_are_padded_and_joined() {
    assert_eq!(text::pad_right("ab", 4), "ab  ");
    assert_eq!(text::pad_left("ab", 4), "  ab");
    assert_eq!(text::pad_left("abcde", 4), "abcde");
    let list = vec!["a".to_string(), "b".to_string()];
    assert_eq!(text::join_strings(&list, ", "), "a, b");
    assert_eq!(text::join_strings(&vec![], ", "), "");
    assert!(text::list_contains(&list, "b"));
    assert!(!text::list_contains(&list, "c"));
    assert_eq!(text::trim_quotes("\"x\""), "x");
    assert_eq!(text::replace_pair(&vec!['a', 'b', 'a', 'b', 'a'], 'a', 'b', 'x'), vec!['x', 'x', 'a']);
}
