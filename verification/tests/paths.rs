use helix_files::collections::{PathMap, PathSet};
use helix_files::path::{Component, Prefix, PrefixKind, TreePath};
use helix_files::selection::{normalize, under_any};

fn path(text: &str) -> TreePath {
    let mut parts = Vec::new();
    if text.starts_with('/') {
        parts.push(Component::RootDir);
    }
    for name in text.split('/') {
        if name == "." {
            parts.push(Component::CurDir);
        } else if name == ".." {
            parts.push(Component::ParentDir);
        } else if !name.is_empty() {
            parts.push(Component::Normal(name.as_bytes().to_vec()));
        }
    }
    TreePath::new(parts)
}

#[test]
fn marked_paths_drop_descendants() {
    let root = path("/workspace");
    let paths = vec![root.join(&path("a/b")), root.join(&path("a")), root.join(&path("c"))];
    let normalized = normalize(paths);
    assert_eq!(normalized, vec![root.join(&path("a")), root.join(&path("c"))]);
}

#[test]
fn sibling_names_with_a_common_beginning_are_kept() {
    let normalized = normalize(vec![path("/w/ab"), path("/w/a"), path("/w/a/b"), path("/w/a-b")]);
    assert_eq!(normalized, vec![path("/w/a"), path("/w/a-b"), path("/w/ab")]);
}

#[test]
fn a_path_given_twice_is_kept_once() {
    assert_eq!(normalize(vec![path("/w/a"), path("/w/a")]), vec![path("/w/a")]);
    assert_eq!(normalize(Vec::new()), Vec::<TreePath>::new());
}

#[test]
fn every_dropped_path_lies_under_a_kept_one() {
    let given = vec![path("/w/x/y/z"), path("/w/x"), path("/w/q"), path("/w/x/y")];
    let kept = normalize(given.clone());
    for dropped in &given {
        assert!(under_any(dropped, &kept));
    }
    assert!(!under_any(&path("/w/other"), &kept));
    assert!(!under_any(&path("/w"), &kept));
}

#[test]
fn paths_are_compared_by_component() {
    assert!(path("/a/b").starts_with(&path("/a")));
    assert!(path("/a").starts_with(&path("/a")));
    assert!(!path("/ab").starts_with(&path("/a")));
    assert!(!path("a").starts_with(&path("/")));
    assert!(path("/a").same(&path("/a/")));
    assert!(!path("/a").same(&path("/b")));
}

#[test]
fn parents_end_at_the_root() {
    assert_eq!(path("/a/b").parent(), Some(path("/a")));
    assert_eq!(path("/a").parent(), Some(path("/")));
    assert_eq!(path("/").parent(), None);
    assert_eq!(path("a").parent(), Some(TreePath::new(Vec::new())));
    assert_eq!(TreePath::new(Vec::new()).parent(), None);
}

#[test]
fn only_a_plain_last_component_is_a_file_name() {
    assert_eq!(path("/a/b").file_name(), Some(b"b".to_vec()));
    assert_eq!(path("/").file_name(), None);
    assert_eq!(path("a/..").file_name(), None);
}

#[test]
fn joining_an_absolute_path_replaces() {
    assert_eq!(path("/a").join(&path("b/c")), path("/a/b/c"));
    assert_eq!(path("/a").join(&path("/b")), path("/b"));
    assert_eq!(path("/a").join_name(&b"b".to_vec()), path("/a/b"));
}

fn prefix(kind: PrefixKind, name: &str) -> Component {
    Component::Prefix(Prefix { kind, name: name.as_bytes().to_vec(), share: Vec::new() })
}

fn drive(kind: PrefixKind, letter: &str, rest: &str) -> TreePath {
    let mut parts = vec![prefix(kind, letter)];
    parts.extend(path(rest).parts);
    TreePath::new(parts)
}

#[test]
fn a_rooted_path_stays_on_its_drive() {
    let work = drive(PrefixKind::Disk, "C", "/work");
    assert_eq!(work.join(&path("/foo")), drive(PrefixKind::Disk, "C", "/foo"));
    assert_eq!(work.join(&path("foo")), drive(PrefixKind::Disk, "C", "/work/foo"));
    let other = drive(PrefixKind::Disk, "D", "x");
    assert_eq!(work.join(&other), other);
    let bare = drive(PrefixKind::Disk, "C", "");
    assert_eq!(bare.join(&path("./a")), drive(PrefixKind::Disk, "C", "./a"));
    assert_eq!(work.join(&path("./a")), drive(PrefixKind::Disk, "C", "/work/a"));
}

#[test]
fn behind_a_verbatim_prefix_paths_are_resolved() {
    let work = drive(PrefixKind::VerbatimDisk, "C", "/work");
    let expect = |rest: &str| drive(PrefixKind::VerbatimDisk, "C", rest);
    assert_eq!(work.join(&path("./a/../b")), expect("/work/b"));
    assert_eq!(work.join(&path("../../../x")), expect("/x"));
    assert_eq!(work.join(&path("/foo")), expect("/foo"));
    assert_eq!(work.join(&path("")), work);
}

#[test]
fn a_drive_has_no_parent() {
    assert_eq!(drive(PrefixKind::Disk, "C", "/").parent(), None);
    assert_eq!(drive(PrefixKind::Disk, "C", "").parent(), None);
    let work = drive(PrefixKind::Disk, "C", "/work");
    assert_eq!(work.parent(), Some(drive(PrefixKind::Disk, "C", "/")));
    assert_eq!(drive(PrefixKind::Disk, "C", "a").parent(), Some(drive(PrefixKind::Disk, "C", "")));
}

#[test]
fn drives_come_before_roots() {
    let disk = |letter: &str| drive(PrefixKind::Disk, letter, "/a");
    assert!(disk("C").before(&disk("D")));
    assert!(disk("Z").before(&path("/a")));
    assert!(drive(PrefixKind::Verbatim, "z", "").before(&disk("A")));
    let share = |name: &str, share: &str| {
        TreePath::new(vec![Component::Prefix(Prefix {
            kind: PrefixKind::Unc,
            name: name.as_bytes().to_vec(),
            share: share.as_bytes().to_vec(),
        })])
    };
    assert!(share("a", "z").before(&share("b", "a")));
    assert!(share("a", "a").before(&share("a", "b")));
    assert!(!share("a", "a").before(&share("a", "a")));
    assert!(!share("a", "a").same(&share("a", "b")));
}

#[test]
fn prefixes_are_stripped() {
    assert_eq!(path("/a/b/c").strip_prefix(&path("/a")), Some(path("b/c")));
    assert_eq!(path("/a").strip_prefix(&path("/a")), Some(TreePath::new(Vec::new())));
    assert_eq!(path("/a/b").strip_prefix(&path("/c")), None);
}

#[test]
fn path_order_is_that_of_the_components() {
    // By characters `/w/a-b` would come before `/w/a/b`; by components it comes after.
    assert!(path("/w/a/b").before(&path("/w/a-b")));
    assert!(path("/w/a").before(&path("/w/a/b")));
    assert!(path("/").before(&path("a")));
    assert!(path("./a").before(&path("../a")));
    assert!(path("..").before(&path("a")));
    assert!(!path("a").before(&path("a")));
    assert!(!path("b").before(&path("a")));
}

#[test]
fn path_sets_hold_each_path_once() {
    let mut set = PathSet::new();
    assert!(set.is_empty());
    assert!(set.insert(path("/a")));
    assert!(!set.insert(path("/a")));
    assert!(set.insert(path("/b")));
    assert_eq!(set.len(), 2);
    assert!(set.contains(&path("/a")));
    assert_eq!(set.get(1), &path("/b"));
    let mut kept = PathSet::new();
    kept.insert(path("/b"));
    kept.insert(path("/c"));
    set.retain(&kept);
    assert_eq!(set.to_vec(), vec![path("/b")]);
    assert!(!set.remove(&path("/a")));
    assert!(set.remove(&path("/b")));
    assert!(set.is_empty());
    set.insert(path("/z"));
    set.clear();
    assert_eq!(set.len(), 0);
}

#[test]
fn path_maps_hold_the_last_value() {
    let mut map: PathMap<u8> = PathMap::new();
    map.insert(path("/a"), 1);
    map.insert(path("/b"), 2);
    map.insert(path("/a"), 3);
    assert_eq!(map.len(), 2);
    assert_eq!(map.get(&path("/a")), Some(3));
    assert_eq!(map.get_ref(&path("/b")), Some(&2));
    assert_eq!(map.get(&path("/c")), None);
    let copy = map.clone();
    assert!(map.remove(&path("/a")));
    assert!(!map.remove(&path("/a")));
    assert!(!map.contains_key(&path("/a")));
    assert_eq!(map.key_at(0), &path("/b"));
    assert_eq!(map.value_at(0), 2);
    map.clear();
    assert_eq!(map.len(), 0);
    assert_eq!(copy.get(&path("/a")), Some(3));
}
