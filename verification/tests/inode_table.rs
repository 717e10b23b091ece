use fscache::fuse::inode::InodeTable;
use fscache::path::RelPath;

fn p(s: &str) -> RelPath {
    RelPath::from_bytes(s.as_bytes())
}

fn shown(table: &InodeTable, ino: u64) -> Option<Vec<u8>> {
    table.get_path(ino).map(|q| q.to_bytes())
}

#[test]
fn root_is_known_from_the_start() {
    let table = InodeTable::new();
    assert_eq!(InodeTable::root_ino(), 1);
    assert_eq!(shown(&table, 1), Some(vec![]));
    assert_eq!(table.get_path_ino(&p("")), Some(1));
    assert!(table.get_path(2).is_none());
    assert_eq!(table.room(), u64::MAX - 2);
}

#[test]
fn lookups_are_stable_and_fresh() {
    let mut table = InodeTable::new();
    let a = table.get_or_create(&p("a"));
    let b = table.get_or_create(&p("b"));
    assert_eq!(a, 2);
    assert_eq!(b, 3);
    assert_eq!(table.get_or_create(&p("a")), a);
    assert_eq!(shown(&table, a), Some(b"a".to_vec()));
    assert_eq!(table.get_path_ino(&p("b")), Some(b));
}

#[test]
fn forget_undoes_lookups() {
    let mut table = InodeTable::new();
    let a = table.get_or_create(&p("a"));
    table.get_or_create(&p("a"));
    table.forget(a, 1);
    assert_eq!(table.get_path_ino(&p("a")), Some(a));
    table.forget(a, 1);
    assert_eq!(table.get_path_ino(&p("a")), None);
    assert!(table.get_path(a).is_none());
    let again = table.get_or_create(&p("a"));
    assert_ne!(again, a);
    table.forget(again, 50);
    assert!(table.get_path(again).is_none());
    table.forget(77, 1);
    assert!(table.get_path(77).is_none());
}

#[test]
fn forgets_cancel_as_many_lookups() {
    let mut table = InodeTable::new();
    let a = table.get_or_create(&p("a"));
    for _ in 0..4 {
        table.get_or_create(&p("a"));
    }
    table.forget(a, 2);
    table.forget(a, 0);
    table.forget(a, 2);
    assert_eq!(table.get_path_ino(&p("a")), Some(a));
    table.forget(a, 1);
    assert_eq!(table.get_path_ino(&p("a")), None);
    assert!(table.get_path(a).is_none());
    table.forget(a, 9);
    assert!(table.get_path(a).is_none());

    // Lookups that are forgotten again leave a known path as it was.
    let b = table.get_or_create(&p("b"));
    for _ in 0..3 {
        table.get_or_create(&p("b"));
    }
    table.forget(b, 3);
    assert_eq!(table.get_path_ino(&p("b")), Some(b));
    table.forget(b, 1);
    assert!(table.get_path(b).is_none());
}

fn is_inverse(table: &InodeTable, paths: &[&str], last_ino: u64) -> bool {
    let forwards = paths.iter().all(|q| match table.get_path_ino(&p(q)) {
        Some(ino) => shown(table, ino) == Some(q.as_bytes().to_vec()),
        None => true,
    });
    let backwards = (1..=last_ino).all(|ino| match table.get_path(ino) {
        Some(q) => table.get_path_ino(q) == Some(ino),
        None => true,
    });
    forwards && backwards
}

#[test]
fn both_maps_are_inverse() {
    let paths = ["", "a", "a/x", "a/y", "b", "b/x", "b/y", "c"];
    let mut table = InodeTable::new();
    for q in ["a", "a/x", "a/y", "c"] {
        table.get_or_create(&p(q));
    }
    assert!(is_inverse(&table, &paths, 9));
    table.rename_path(&p("a"), &p("b"));
    assert!(is_inverse(&table, &paths, 9));
    table.remove_path(&p("b/y"));
    table.forget(5, 1);
    assert!(is_inverse(&table, &paths, 9));
    table.rename_path(&p("b/x"), &p("b"));
    assert!(is_inverse(&table, &paths, 9));
    table.remove_subtree(&p("b"));
    assert!(is_inverse(&table, &paths, 9));

    // A rename onto a directory with known files takes their paths over.
    let mut table = InodeTable::new();
    for q in ["a", "a/x", "b", "b/x"] {
        table.get_or_create(&p(q));
    }
    table.rename_path(&p("a"), &p("b"));
    assert!(!is_inverse(&table, &paths, 9));
    assert_eq!(table.get_path_ino(&p("b/x")), Some(3));
    assert_eq!(shown(&table, 5), Some(b"b/x".to_vec()));
}

#[test]
fn the_root_is_never_forgotten() {
    let mut table = InodeTable::new();
    table.forget(1, u64::MAX);
    assert_eq!(shown(&table, 1), Some(vec![]));
}

#[test]
fn renaming_a_directory_moves_its_subtree() {
    let mut table = InodeTable::new();
    let dir = table.get_or_create(&p("dir"));
    let file = table.get_or_create(&p("dir/sub/file.txt"));
    let other = table.get_or_create(&p("dirty"));
    table.rename_path(&p("dir"), &p("dir2"));
    assert_eq!(table.get_path_ino(&p("dir2/sub/file.txt")), Some(file));
    assert_eq!(table.get_path_ino(&p("dir2")), Some(dir));
    assert_eq!(table.get_path_ino(&p("dir/sub/file.txt")), None);
    assert_eq!(table.get_path_ino(&p("dirty")), Some(other));
    table.rename_path(&p("dir2"), &p("dir"));
    assert_eq!(table.get_path_ino(&p("dir/sub/file.txt")), Some(file));
    assert_eq!(shown(&table, file), Some(b"dir/sub/file.txt".to_vec()));
    assert_eq!(shown(&table, dir), Some(b"dir".to_vec()));
    assert_eq!(shown(&table, other), Some(b"dirty".to_vec()));
}

#[test]
fn removal_takes_paths_away() {
    let mut table = InodeTable::new();
    table.get_or_create(&p("d"));
    table.get_or_create(&p("d/x"));
    table.get_or_create(&p("e"));
    table.remove_subtree(&p("d"));
    assert_eq!(table.get_path_ino(&p("d")), None);
    assert_eq!(table.get_path_ino(&p("d/x")), None);
    assert!(table.get_path_ino(&p("e")).is_some());
    table.remove_path(&p("e"));
    assert_eq!(table.get_path_ino(&p("e")), None);
}
