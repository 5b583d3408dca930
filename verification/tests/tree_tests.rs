use core::cmp::Ordering;
use dsz::compare::{compare_entries, sort_entries};
use dsz::entry::{file_is_hidden, EntryKind, FsNode};
use dsz::options::{SortType, TreeArgs};
use dsz::size::SizeCache;
use dsz::tree::{generate_tree_string, resolve_time_displays};

fn file(path: &str, name: &str, len: u64) -> FsNode {
    FsNode {
        path: path.to_string(),
        name: name.to_string(),
        kind: EntryKind::File,
        hidden: name.starts_with('.'),
        meta_ok: true,
        len,
        modified: None,
        created: None,
        time_display: None,
        children: Vec::new(),
    }
}

fn dir(path: &str, name: &str, children: Vec<FsNode>) -> FsNode {
    FsNode {
        path: path.to_string(),
        name: name.to_string(),
        kind: EntryKind::Directory,
        hidden: name.starts_with('.'),
        meta_ok: true,
        len: 0,
        modified: None,
        created: None,
        time_display: None,
        children,
    }
}

fn args(depth: usize) -> TreeArgs {
    TreeArgs {
        depth,
        no_hidden: false,
        show_size: false,
        sort_type: SortType::Name,
        reverse_sort: false,
    }
}

#[test]
fn hidden_names_start_with_a_period() {
    assert!(file_is_hidden(".b"));
    assert!(!file_is_hidden("a.txt"));
    assert!(!file_is_hidden(""));
}

#[test]
fn empty_directory_renders_root_line_only() {
    let root = dir("/r", "r", vec![]);
    let mut cache = SizeCache::new(&root);
    assert_eq!(generate_tree_string(&root, args(1), &mut cache), "/r");
}

#[test]
fn hidden_file_is_pruned_and_size_annotated() {
    let root = dir("/A", "A", vec![file("/A/a.txt", "a.txt", 100), file("/A/.b", ".b", 50)]);
    let mut cache = SizeCache::new(&root);
    let mut a = args(1);
    a.no_hidden = true;
    a.show_size = true;
    assert_eq!(
        generate_tree_string(&root, a, &mut cache),
        "/A\n└─── a.txt - 100 B"
    );
}

#[test]
fn hidden_directory_is_never_entered() {
    let root = dir(
        "/r",
        "r",
        vec![dir("/r/.h", ".h", vec![file("/r/.h/x", "x", 1)]), file("/r/a", "a", 2)],
    );
    let mut cache = SizeCache::new(&root);
    let mut a = args(5);
    a.no_hidden = true;
    assert_eq!(generate_tree_string(&root, a, &mut cache), "/r\n└─── a");
}

#[test]
fn size_sort_is_descending() {
    let root = dir(
        "/r",
        "r",
        vec![file("/r/a", "a", 10), file("/r/b", "b", 1000), file("/r/c", "c", 100000)],
    );
    let mut cache = SizeCache::new(&root);
    let mut a = args(1);
    a.sort_type = SortType::Size;
    a.show_size = true;
    assert_eq!(
        generate_tree_string(&root, a, &mut cache),
        "/r\n├─── c - 97.65 KB\n├─── b - 1000 B\n└─── a - 10 B"
    );
}

#[test]
fn depth_bounded_directory_carries_full_aggregate() {
    let root = dir("/r", "r", vec![dir("/r/s", "s", vec![file("/r/s/f", "f", 100)])]);
    let mut cache = SizeCache::new(&root);
    let mut a = args(1);
    a.show_size = true;
    assert_eq!(generate_tree_string(&root, a, &mut cache), "/r\n└─── /s - 100 B");
}

#[test]
fn depth_one_hides_deeper_descendants() {
    let root = dir("/r", "r", vec![dir("/r/s", "s", vec![file("/r/s/f", "f", 100)])]);
    let mut cache = SizeCache::new(&root);
    assert_eq!(generate_tree_string(&root, args(1), &mut cache), "/r\n└─── /s");
}

#[test]
fn depth_two_expands_and_indents() {
    let root = dir("/r", "r", vec![dir("/r/s", "s", vec![file("/r/s/f", "f", 100)])]);
    let mut cache = SizeCache::new(&root);
    let mut a = args(2);
    a.show_size = true;
    assert_eq!(
        generate_tree_string(&root, a, &mut cache),
        "/r\n├─── /s\n│   └─── f - 100 B"
    );
}

#[test]
fn directories_sort_before_files() {
    let root = dir(
        "/r",
        "r",
        vec![file("/r/a", "a", 1), dir("/r/z", "z", vec![]), file("/r/b", "b", 1)],
    );
    let mut cache = SizeCache::new(&root);
    assert_eq!(
        generate_tree_string(&root, args(1), &mut cache),
        "/r\n├─── /z\n├─── a\n└─── b"
    );
}

#[test]
fn reverse_sort_inverts_names_but_not_directories_first() {
    let root = dir(
        "/r",
        "r",
        vec![file("/r/a", "a", 1), dir("/r/z", "z", vec![]), file("/r/b", "b", 1)],
    );
    let mut cache = SizeCache::new(&root);
    let mut a = args(1);
    a.reverse_sort = true;
    assert_eq!(
        generate_tree_string(&root, a, &mut cache),
        "/r\n├─── /z\n├─── b\n└─── a"
    );
}

#[test]
fn unreadable_entry_gets_marker_and_fallback_size() {
    let mut bad = file("/r/bad", "bad", 0);
    bad.meta_ok = false;
    let root = dir("/r", "r", vec![bad]);
    let mut cache = SizeCache::new(&root);
    let mut a = args(1);
    a.show_size = true;
    assert_eq!(generate_tree_string(&root, a, &mut cache), "/r\n└───!bad - ???");
}

#[test]
fn date_sort_orders_newest_first_and_annotates() {
    let mut f1 = file("/r/f1", "f1", 1);
    f1.modified = Some(100);
    let mut f2 = file("/r/f2", "f2", 1);
    f2.modified = Some(200);
    let root = dir("/r", "r", vec![f1, f2]);
    let mut cache = SizeCache::new(&root);
    let mut a = args(1);
    a.sort_type = SortType::ModifiedDate;
    assert_eq!(
        generate_tree_string(&root, a, &mut cache),
        "/r\n├─── f2 (???)\n└─── f1 (???)"
    );
}

#[test]
fn missing_timestamp_orders_last() {
    let mut f1 = file("/r/f1", "f1", 1);
    f1.modified = None;
    let mut f2 = file("/r/f2", "f2", 1);
    f2.modified = Some(200);
    let root = dir("/r", "r", vec![f1, f2]);
    let mut cache = SizeCache::new(&root);
    let mut a = args(1);
    a.sort_type = SortType::ModifiedDate;
    assert_eq!(
        generate_tree_string(&root, a, &mut cache),
        "/r\n├─── f2 (???)\n└─── f1 (???)"
    );
}

#[test]
fn resolved_timestamps_are_rendered() {
    let mut f = file("/r/f", "f", 1);
    f.modified = Some(0);
    let root = dir("/r", "r", vec![f]);
    let resolved = resolve_time_displays(root, SortType::ModifiedDate);
    assert!(resolved.children[0].time_display.is_some());
    let mut cache = SizeCache::new(&resolved);
    let mut a = args(1);
    a.sort_type = SortType::ModifiedDate;
    let out = generate_tree_string(&resolved, a, &mut cache);
    assert!(out.starts_with("/r\n└─── f ("));
    assert!(out.ends_with(")"));
    assert!(!out.contains("???"));
}

#[test]
fn resolve_leaves_other_fields_alone() {
    let mut f = file("/r/f", "f", 9);
    f.modified = Some(0);
    let root = dir("/r", "r", vec![f]);
    let resolved = resolve_time_displays(root, SortType::Name);
    assert_eq!(resolved.children[0].len, 9);
    assert_eq!(resolved.children[0].name, "f");
    // under a non-date mode nothing is rendered
    assert!(resolved.children[0].time_display.is_none());
}

#[test]
fn sort_entries_by_name_is_ascending() {
    let root = dir("/r", "r", vec![file("/r/a", "a", 1), file("/r/b", "b", 1)]);
    let mut cache = SizeCache::new(&root);
    let a = &root.children[0];
    let b = &root.children[1];
    assert_eq!(sort_entries(SortType::Name, a, b, &mut cache), Ordering::Less);
    assert_eq!(sort_entries(SortType::Name, b, a, &mut cache), Ordering::Greater);
    assert_eq!(sort_entries(SortType::Name, a, a, &mut cache), Ordering::Equal);
}

#[test]
fn sort_entries_by_size_is_descending_with_missing_last() {
    let mut broken = file("/r/broken", "broken", 1000);
    broken.meta_ok = false;
    let root = dir(
        "/r",
        "r",
        vec![file("/r/big", "big", 100), file("/r/small", "small", 1), broken],
    );
    let mut cache = SizeCache::new(&root);
    let big = &root.children[0];
    let small = &root.children[1];
    let broken = &root.children[2];
    assert_eq!(sort_entries(SortType::Size, big, small, &mut cache), Ordering::Less);
    assert_eq!(sort_entries(SortType::Size, small, big, &mut cache), Ordering::Greater);
    assert_eq!(sort_entries(SortType::Size, broken, big, &mut cache), Ordering::Greater);
    assert_eq!(sort_entries(SortType::Size, big, broken, &mut cache), Ordering::Less);
}

#[test]
fn compare_entries_puts_directories_first() {
    let root = dir("/r", "r", vec![dir("/r/d", "d", vec![]), file("/r/a", "a", 1)]);
    let mut cache = SizeCache::new(&root);
    let d = &root.children[0];
    let f = &root.children[1];
    assert_eq!(
        compare_entries(SortType::Name, false, d, f, &mut cache),
        Ordering::Less
    );
    assert_eq!(
        compare_entries(SortType::Name, true, d, f, &mut cache),
        Ordering::Less
    );
    assert_eq!(
        compare_entries(SortType::Name, false, f, d, &mut cache),
        Ordering::Greater
    );
}

#[test]
fn default_sort_type_is_name() {
    assert_eq!(SortType::default(), SortType::Name);
}

#[test]
fn directories_sort_by_recursive_aggregate() {
    let root = dir(
        "/r",
        "r",
        vec![
            dir("/r/small", "small", vec![file("/r/small/x", "x", 10)]),
            dir("/r/big", "big", vec![file("/r/big/y", "y", 5000)]),
        ],
    );
    let mut cache = SizeCache::new(&root);
    let mut a = args(1);
    a.sort_type = SortType::Size;
    a.show_size = true;
    assert_eq!(
        generate_tree_string(&root, a, &mut cache),
        "/r\n├─── /big - 4.88 KB\n└─── /small - 10 B"
    );
}

#[test]
fn symlinks_are_never_annotated() {
    let link = FsNode {
        path: "/r/l".to_string(),
        name: "l".to_string(),
        kind: EntryKind::Symlink,
        hidden: false,
        meta_ok: true,
        len: 11,
        modified: Some(100),
        created: Some(100),
        time_display: None,
        children: Vec::new(),
    };
    let root = dir("/r", "r", vec![link]);
    let mut cache = SizeCache::new(&root);
    let mut a = args(1);
    a.show_size = true;
    assert_eq!(generate_tree_string(&root, a, &mut cache), "/r\n└─── l");
    let mut b = args(1);
    b.sort_type = SortType::ModifiedDate;
    assert_eq!(generate_tree_string(&root, b, &mut cache), "/r\n└─── l");
}

#[test]
fn other_entries_are_never_annotated() {
    let other = FsNode {
        path: "/r/p".to_string(),
        name: "p".to_string(),
        kind: EntryKind::Other,
        hidden: false,
        meta_ok: true,
        len: 7,
        modified: Some(100),
        created: None,
        time_display: None,
        children: Vec::new(),
    };
    let root = dir("/r", "r", vec![other]);
    let mut cache = SizeCache::new(&root);
    let mut a = args(1);
    a.show_size = true;
    a.sort_type = SortType::ModifiedDate;
    assert_eq!(generate_tree_string(&root, a, &mut cache), "/r\n└─── p");
}
