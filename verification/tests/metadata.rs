use helix_files::collections::PathMap;
use helix_files::metadata::{
    aggregate_diagnostics, aggregate_git_status, git_priority, metadata_badge, GitState,
};
use helix_files::path::{Component, TreePath};
use helix_files::text::decimal_text;

fn path(text: &str) -> TreePath {
    let mut parts = Vec::new();
    if text.starts_with('/') {
        parts.push(Component::RootDir);
    }
    for name in text.split('/') {
        if !name.is_empty() {
            parts.push(Component::Normal(name.as_bytes().to_vec()));
        }
    }
    TreePath::new(parts)
}

#[test]
fn metadata_is_aggregated_to_ancestors() {
    let root = path("/workspace");
    let mut direct = PathMap::new();
    direct.insert(root.join(&path("src/lib.rs")), GitState::Modified);
    direct.insert(root.join(&path("src/main.rs")), GitState::Conflict);
    let aggregated = aggregate_git_status(&direct, &root);
    assert_eq!(aggregated.get(&root.join(&path("src"))), Some(GitState::Conflict));

    let mut counts = PathMap::new();
    counts.insert(root.join(&path("src/lib.rs")), (2, 1));
    let diagnostics = aggregate_diagnostics(counts, &root);
    assert_eq!(diagnostics.get(&root.join(&path("src"))), Some((2, 1)));
    assert_eq!(diagnostics.get(&root), Some((2, 1)));
}

#[test]
fn states_stay_inside_the_root() {
    let root = path("/workspace");
    let mut direct = PathMap::new();
    direct.insert(path("/elsewhere/file"), GitState::Deleted);
    direct.insert(path("/workspace/a/b/c"), GitState::Untracked);
    let aggregated = aggregate_git_status(&direct, &root);
    assert_eq!(aggregated.get(&path("/elsewhere/file")), Some(GitState::Deleted));
    assert_eq!(aggregated.get(&path("/elsewhere")), None);
    assert_eq!(aggregated.get(&path("/workspace/a/b")), Some(GitState::Untracked));
    assert_eq!(aggregated.get(&path("/workspace/a")), Some(GitState::Untracked));
    assert_eq!(aggregated.get(&root), Some(GitState::Untracked));
    assert_eq!(aggregated.get(&path("/")), None);
    assert_eq!(aggregated.len(), 5);
}

#[test]
fn a_directory_is_as_urgent_as_what_it_holds() {
    let root = path("/w");
    let mut direct = PathMap::new();
    direct.insert(path("/w/d"), GitState::Deleted);
    direct.insert(path("/w/d/x"), GitState::Modified);
    direct.insert(path("/w/e/y"), GitState::Renamed);
    let aggregated = aggregate_git_status(&direct, &root);
    assert_eq!(aggregated.get(&path("/w/d")), Some(GitState::Deleted));
    assert_eq!(aggregated.get(&path("/w/e")), Some(GitState::Renamed));
    assert_eq!(aggregated.get(&root), Some(GitState::Deleted));
}

#[test]
fn diagnostics_are_added_up() {
    let root = path("/w");
    let mut direct = PathMap::new();
    direct.insert(path("/w/a/x"), (1, 2));
    direct.insert(path("/w/a/y"), (10, 0));
    direct.insert(path("/w/b"), (0, 5));
    direct.insert(path("/other"), (7, 7));
    let sums = aggregate_diagnostics(direct, &root);
    assert_eq!(sums.get(&path("/w/a")), Some((11, 2)));
    assert_eq!(sums.get(&path("/w/b")), Some((0, 5)));
    assert_eq!(sums.get(&root), Some((11, 7)));
    assert_eq!(sums.get(&path("/other")), None);
    assert_eq!(sums.len(), 5);
}

#[test]
fn priorities_put_conflicts_first() {
    assert_eq!(git_priority(GitState::Untracked), 0);
    assert_eq!(git_priority(GitState::Modified), 1);
    assert_eq!(git_priority(GitState::Renamed), 1);
    assert_eq!(git_priority(GitState::Deleted), 2);
    assert_eq!(git_priority(GitState::Conflict), 3);
}

#[test]
fn badges_show_state_errors_and_warnings() {
    assert_eq!(metadata_badge(None, None), "");
    assert_eq!(metadata_badge(Some(GitState::Untracked), None), " ?");
    assert_eq!(metadata_badge(Some(GitState::Modified), Some((0, 0))), " M");
    assert_eq!(metadata_badge(Some(GitState::Renamed), Some((12, 0))), " R E12");
    assert_eq!(metadata_badge(Some(GitState::Deleted), Some((0, 3))), " D W3");
    assert_eq!(metadata_badge(Some(GitState::Conflict), Some((2, 105))), " ! E2 W105");
    assert_eq!(metadata_badge(None, Some((1, 1))), " E1 W1");
}

#[test]
fn numbers_are_written_in_decimal() {
    assert_eq!(decimal_text(0), "0");
    assert_eq!(decimal_text(9), "9");
    assert_eq!(decimal_text(10), "10");
    assert_eq!(decimal_text(90210), "90210");
    assert_eq!(decimal_text(usize::MAX), format!("{}", usize::MAX));
}
