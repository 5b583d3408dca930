use dsz::entry::{EntryKind, FsNode};
use dsz::size::{size_of, SizeCache, SizeError};

fn file(path: &str, name: &str, len: u64) -> FsNode {
    FsNode {
        path: path.to_string(),
        name: name.to_string(),
        kind: EntryKind::File,
        hidden: name.starts_with('.'),
        meta_ok: true,
        len,
        modified: None,
        created: None,
        time_display: None,
        children: Vec::new(),
    }
}

fn dir(path: &str, name: &str, children: Vec<FsNode>) -> FsNode {
    FsNode {
        path: path.to_string(),
        name: name.to_string(),
        kind: EntryKind::Directory,
        hidden: name.starts_with('.'),
        meta_ok: true,
        len: 0,
        modified: None,
        created: None,
        time_display: None,
        children,
    }
}

#[test]
fn empty_directory_is_zero() {
    let root = dir("/r", "r", vec![]);
    let mut cache = SizeCache::new(&root);
    assert_eq!(size_of(&root, &mut cache), Ok((0, 0)));
}

#[test]
fn single_file() {
    let root = file("/r/a", "a", 42);
    let mut cache = SizeCache::new(&root);
    assert_eq!(size_of(&root, &mut cache), Ok((42, 1)));
}

#[test]
fn bytes_are_the_sum_of_regular_files() {
    let root = dir(
        "/r",
        "r",
        vec![
            file("/r/a", "a", 10),
            dir(
                "/r/d",
                "d",
                vec![file("/r/d/b", "b", 1000), file("/r/d/c", "c", 100000)],
            ),
        ],
    );
    let mut cache = SizeCache::new(&root);
    assert_eq!(size_of(&root, &mut cache), Ok((101010, 3)));
}

#[test]
fn repeated_queries_return_identical_results() {
    let root = dir(
        "/r",
        "r",
        vec![file("/r/a", "a", 7), dir("/r/d", "d", vec![file("/r/d/b", "b", 5)])],
    );
    let mut cache = SizeCache::new(&root);
    let first = size_of(&root, &mut cache);
    let second = size_of(&root, &mut cache);
    let third = size_of(&root, &mut cache);
    assert_eq!(first, Ok((12, 2)));
    assert_eq!(second, first);
    assert_eq!(third, first);
}

#[test]
fn subtree_queries_share_the_cache() {
    let sub = dir("/r/d", "d", vec![file("/r/d/b", "b", 5)]);
    let root = dir("/r", "r", vec![file("/r/a", "a", 7), sub]);
    let mut cache = SizeCache::new(&root);
    assert_eq!(size_of(&root, &mut cache), Ok((12, 2)));
    assert_eq!(size_of(&root.children[1], &mut cache), Ok((5, 1)));
    assert_eq!(size_of(&root.children[0], &mut cache), Ok((7, 1)));
}

#[test]
fn hidden_files_count_toward_the_total() {
    // the whole-tree total is computed unfiltered: hidden entries count
    let root = dir("/A", "A", vec![file("/A/a.txt", "a.txt", 100), file("/A/.b", ".b", 50)]);
    let mut cache = SizeCache::new(&root);
    assert_eq!(size_of(&root, &mut cache), Ok((150, 2)));
}

#[test]
fn unreadable_entries_contribute_nothing() {
    let mut bad = file("/r/bad", "bad", 999);
    bad.meta_ok = false;
    let root = dir("/r", "r", vec![file("/r/a", "a", 3), bad]);
    let mut cache = SizeCache::new(&root);
    assert_eq!(size_of(&root, &mut cache), Ok((3, 1)));
}

#[test]
fn unreadable_root_is_an_error() {
    let mut root = dir("/r", "r", vec![]);
    root.meta_ok = false;
    let mut cache = SizeCache::new(&root);
    assert_eq!(size_of(&root, &mut cache), Err(SizeError::RootUnreadable));
}

#[test]
fn symlinks_and_directories_add_no_bytes() {
    let link = FsNode {
        path: "/r/l".to_string(),
        name: "l".to_string(),
        kind: EntryKind::Symlink,
        hidden: false,
        meta_ok: true,
        len: 11,
        modified: None,
        created: None,
        time_display: None,
        children: Vec::new(),
    };
    let root = dir("/r", "r", vec![link, dir("/r/d", "d", vec![])]);
    let mut cache = SizeCache::new(&root);
    assert_eq!(size_of(&root, &mut cache), Ok((0, 0)));
}
