use helix_files::collections::{PathMap, PathSet};
use helix_files::flatten::Flattening;
use helix_files::listing::{
    collect_rows, single_visible_directory, sort_entries, Child, Entry, EntryKind, Row,
    WalkOptions,
};
use helix_files::path::{Component, TreePath};

fn path(text: &str) -> TreePath {
    let mut parts = Vec::new();
    if text.starts_with('/') {
        parts.push(Component::RootDir);
    }
    for name in text.split('/') {
        if !name.is_empty() {
            parts.push(Component::Normal(name.as_bytes().to_vec()));
        }
    }
    TreePath::new(parts)
}

fn entry(name: &str, kind: Option<EntryKind>) -> Entry {
    Entry {
        name: name.as_bytes().to_vec(),
        kind,
        leads_to_dir: kind == Some(EntryKind::Directory),
        chain: Vec::new(),
    }
}

fn file(name: &str) -> Entry {
    entry(name, Some(EntryKind::Other))
}

fn directory(name: &str) -> Entry {
    entry(name, Some(EntryKind::Directory))
}

fn link_to_directory(name: &str) -> Entry {
    let mut link = entry(name, Some(EntryKind::Symlink));
    link.leads_to_dir = true;
    link
}

fn sorted_names(entries: Vec<Entry>) -> Vec<String> {
    sort_entries(&entries).into_iter().map(|i: usize| String::from_utf8_lossy(&entries[i].name).into_owned()).collect()
}

fn walk(
    read: &PathMap<Vec<Entry>>,
    expanded: &PathSet,
    follow_symlinks: bool,
    flatten_dirs: bool,
) -> (Vec<Row>, Vec<TreePath>) {
    let mut rows = Vec::new();
    let mut missing = Vec::new();
    let options = WalkOptions { follow_symlinks, flatten_dirs };
    collect_rows(read, expanded, options, &path("/w"), 0, &mut rows, &mut missing);
    (rows, missing)
}

fn described(rows: &Vec<Row>) -> Vec<(TreePath, &str, usize, bool)> {
    rows.iter().map(|row| (row.path.clone(), row.name.as_str(), row.depth, row.is_dir)).collect()
}

#[test]
fn directories_come_first_and_case_does_not_count() {
    assert_eq!(
        sorted_names(vec![file("b"), directory("z"), file("A"), directory("Y"), file("a")]),
        vec!["Y", "z", "A", "a", "b"]
    );
}

#[test]
fn names_are_lowered_as_unicode() {
    // `É` lowers to `é`, which comes after `z`; as it stands it would come before `é`.
    assert_eq!(sorted_names(vec![file("éa"), file("Éb"), file("z")]), vec!["z", "éa", "Éb"]);
}

#[test]
fn only_directories_themselves_come_first() {
    assert_eq!(
        sorted_names(vec![entry("u", None), link_to_directory("l"), directory("z"), file("f")]),
        vec!["z", "f", "l", "u"]
    );
}

#[test]
fn equal_texts_are_ordered_by_name() {
    let mut first = file("x");
    first.name = b"\xff".to_vec();
    let mut second = file("x");
    second.name = b"\xfe".to_vec();
    assert_eq!(sort_entries(&vec![first, second]), vec![1, 0]);
}

#[test]
fn expanded_directories_are_walked() {
    let mut read = PathMap::new();
    read.insert(path("/w"), vec![file("f"), directory("d"), directory("e")]);
    read.insert(path("/w/d"), vec![file("g")]);
    let mut expanded = PathSet::new();
    expanded.insert(path("/w/d"));
    let (rows, missing) = walk(&read, &expanded, false, false);
    assert_eq!(
        described(&rows),
        vec![
            (path("/w/d"), "d", 0, true),
            (path("/w/d/g"), "g", 1, false),
            (path("/w/e"), "e", 0, true),
            (path("/w/f"), "f", 0, false),
        ]
    );
    assert!(missing.is_empty());
}

#[test]
fn directories_that_were_not_read_are_named() {
    let mut read = PathMap::new();
    let mut expanded = PathSet::new();
    expanded.insert(path("/w/d"));
    let (rows, missing) = walk(&read, &expanded, false, false);
    assert!(rows.is_empty());
    assert_eq!(missing, vec![path("/w")]);

    read.insert(path("/w"), vec![directory("d"), file("f")]);
    let (rows, missing) = walk(&read, &expanded, false, false);
    assert_eq!(described(&rows).len(), 2);
    assert_eq!(missing, vec![path("/w/d")]);
}

#[test]
fn entries_of_no_known_kind_are_not_shown() {
    let mut read = PathMap::new();
    read.insert(path("/w"), vec![entry("u", None), file("f")]);
    let (rows, _) = walk(&read, &PathSet::new(), false, false);
    assert_eq!(described(&rows), vec![(path("/w/f"), "f", 0, false)]);
}

#[test]
fn links_are_followed_where_that_is_asked_for() {
    let mut read = PathMap::new();
    read.insert(path("/w"), vec![link_to_directory("l")]);
    let (rows, _) = walk(&read, &PathSet::new(), false, false);
    assert!(!rows[0].is_dir);
    let (rows, _) = walk(&read, &PathSet::new(), true, false);
    assert!(rows[0].is_dir);
}

#[test]
fn names_that_are_no_text_are_shown_with_replacements() {
    let mut odd = directory("a");
    odd.name = b"a\xff".to_vec();
    odd.chain = vec![b"\xfeb".to_vec()];
    let mut read = PathMap::new();
    read.insert(path("/w"), vec![odd]);
    let (rows, _) = walk(&read, &PathSet::new(), false, true);
    assert_eq!(rows[0].name, "a\u{fffd}/\u{fffd}b");
    assert_eq!(rows[0].path.file_name(), Some(b"\xfeb".to_vec()));
}

#[test]
fn chains_of_directories_stand_in_one_row() {
    let mut chained = directory("a");
    chained.chain = vec![b"b".to_vec(), b"c".to_vec()];
    let mut read = PathMap::new();
    read.insert(path("/w"), vec![chained]);
    read.insert(path("/w/a/b/c"), vec![file("f")]);
    let mut expanded = PathSet::new();
    expanded.insert(path("/w/a/b/c"));
    let (rows, _) = walk(&read, &expanded, false, true);
    assert_eq!(
        described(&rows),
        vec![(path("/w/a/b/c"), "a/b/c", 0, true), (path("/w/a/b/c/f"), "f", 1, false)]
    );
    let (rows, _) = walk(&read, &expanded, false, false);
    assert_eq!(described(&rows), vec![(path("/w/a"), "a", 0, true)]);
}

#[test]
fn a_directory_with_one_visible_directory_is_flattened() {
    let child = |name: &str, is_dir: Option<bool>| Child { name: name.as_bytes().to_vec(), is_dir };
    let single = |children: Vec<Child>, show_hidden: bool| {
        single_visible_directory(&path("/w"), &Some(children), show_hidden)
    };
    assert_eq!(single(vec![child("d", Some(true))], false), Some(path("/w/d")));
    assert_eq!(
        single(vec![child(".git", Some(true)), child("d", Some(true))], false),
        Some(path("/w/d"))
    );
    assert_eq!(single(vec![child(".git", Some(true)), child("d", Some(true))], true), None);
    assert_eq!(single(vec![child("f", Some(false))], false), None);
    assert_eq!(single(vec![child("f", None)], false), None);
    assert_eq!(single(Vec::new(), false), None);
    assert_eq!(single_visible_directory(&path("/w"), &None, false), None);
}

#[test]
fn chains_are_followed_to_their_end() {
    let only = |name: &str| {
        Some(vec![
            Child { name: b".hidden".to_vec(), is_dir: Some(false) },
            Child { name: name.as_bytes().to_vec(), is_dir: Some(true) },
        ])
    };
    let mut chain = Flattening::new(path("/w/a"));
    assert!(chain.follow(&only("b"), false));
    assert!(chain.follow(&only("c"), false));
    assert_eq!(chain.path, path("/w/a/b/c"));
    assert_eq!(chain.names, vec![b"b".to_vec(), b"c".to_vec()]);
    assert!(!chain.follow(&only("d"), true));
    assert!(!chain.follow(&Some(Vec::new()), false));
    assert!(!chain.follow(&None, false));
    assert_eq!(chain.path, path("/w/a/b/c"));
    assert_eq!(chain.names.len(), 2);
}
