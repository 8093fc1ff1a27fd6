use helix_files::collections::PathSet;
use helix_files::path::{Component, TreePath};
use helix_files::watch::{
    collect_event, desired_watches, EventBatcher, FileWatcher, OpenFile, RecursiveMode, WatchError,
    WatchEvent, WatchKind,
};

fn path(text: &str) -> TreePath {
    let mut parts = Vec::new();
    if text.starts_with('/') {
        parts.push(Component::RootDir);
    }
    for name in text.split('/') {
        if !name.is_empty() {
            parts.push(Component::Normal(name.as_bytes().to_vec()));
        }
    }
    TreePath::new(parts)
}

fn event(kind: WatchKind, need_rescan: bool, paths: Vec<TreePath>) -> WatchEvent {
    WatchEvent { kind, need_rescan, paths }
}

#[test]
fn batches_paths_and_rescan_requests() {
    let mut paths = PathSet::new();
    let mut rescan = false;
    let event = event(WatchKind::Modify, true, vec![path("/tmp/a")]);
    collect_event(Ok(event), &mut paths, &mut rescan);
    assert!(paths.contains(&path("/tmp/a")));
    assert!(rescan);
}

#[test]
fn watcher_errors_request_a_rescan() {
    let mut paths = PathSet::new();
    let mut rescan = false;
    collect_event(
        Err(WatchError { message: "synthetic watcher error".to_owned() }),
        &mut paths,
        &mut rescan,
    );
    assert!(rescan);
    assert!(paths.is_empty());
}

#[test]
fn accesses_are_no_news() {
    let mut paths = PathSet::new();
    let mut rescan = false;
    collect_event(
        Ok(event(WatchKind::Access, true, vec![path("/tmp/a")])),
        &mut paths,
        &mut rescan,
    );
    assert!(paths.is_empty());
    assert!(!rescan);
}

#[test]
fn a_rescan_is_not_taken_back() {
    let mut paths = PathSet::new();
    let mut rescan = true;
    for kind in [WatchKind::Any, WatchKind::Create, WatchKind::Remove, WatchKind::Other] {
        collect_event(Ok(event(kind, false, vec![path("/tmp/a")])), &mut paths, &mut rescan);
    }
    assert!(rescan);
    assert_eq!(paths.len(), 1);
}

#[test]
fn desired_watches_include_new_file_parents_and_loaded_directories() {
    let root = path("/tmp/root");
    let open = root.join(&path("open.rs"));
    let new_file = root.join(&path("new.rs"));
    let another_new_file = root.join(&path("another-new.rs"));
    let expanded = root.join(&path("expanded"));
    let desired = desired_watches(
        &vec![
            OpenFile { path: open.clone(), exists: true },
            OpenFile { path: new_file, exists: false },
            OpenFile { path: another_new_file, exists: false },
        ],
        &vec![root.clone(), expanded.clone()],
    );

    assert_eq!(desired.len(), 3);
    assert_eq!(desired.get(&open), Some(RecursiveMode::NonRecursive));
    assert_eq!(desired.get(&root), Some(RecursiveMode::NonRecursive));
    assert_eq!(desired.get(&expanded), Some(RecursiveMode::NonRecursive));
    assert!(!desired.contains_key(&root.join(&path("collapsed"))));
    assert!((0..desired.len()).all(|i: usize| desired.value_at(i) == RecursiveMode::NonRecursive));
}

#[test]
fn desired_watches_can_be_empty() {
    let desired = desired_watches(&Vec::new(), &Vec::new());
    assert_eq!(desired.len(), 0);
}

#[test]
fn a_new_file_without_a_directory_is_not_watched() {
    let desired = desired_watches(&vec![OpenFile { path: path("/"), exists: false }], &Vec::new());
    assert_eq!(desired.len(), 0);
}

#[test]
fn a_batch_holds_the_events_since_the_last_one() {
    let mut batcher = EventBatcher::new();
    assert!(batcher.flush().is_none());
    batcher.push(Ok(event(WatchKind::Access, true, vec![path("/read")])));
    assert!(batcher.flush().is_none());
    batcher.push(Ok(event(WatchKind::Create, false, vec![path("/a"), path("/b")])));
    batcher.push(Ok(event(WatchKind::Modify, false, vec![path("/b"), path("/c")])));
    let batch = batcher.flush().unwrap();
    assert_eq!(batch.paths.len(), 3);
    assert!(batch.paths.contains(&path("/c")));
    assert!(!batch.rescan);
    batcher.push(Err(WatchError { message: "lost".to_owned() }));
    let batch = batcher.flush().unwrap();
    assert!(batch.paths.is_empty());
    assert!(batch.rescan);
    assert!(batcher.flush().is_none());
}

#[test]
fn reconciling_ends_stale_watches_and_starts_missing_ones() {
    let mut watcher = FileWatcher::new();
    let first = desired_watches(&Vec::new(), &vec![path("/a"), path("/b")]);
    let plan = watcher.reconcile(&first);
    assert!(plan.unwatch.is_empty());
    assert_eq!(plan.watch.len(), 2);
    for (path, mode) in plan.watch {
        watcher.started(path, mode);
    }
    let second = desired_watches(&Vec::new(), &vec![path("/b"), path("/c")]);
    let plan = watcher.reconcile(&second);
    assert_eq!(plan.unwatch, vec![path("/a")]);
    assert_eq!(plan.watch, vec![(path("/c"), RecursiveMode::NonRecursive)]);
    watcher.started(path("/c"), RecursiveMode::NonRecursive);
    let plan = watcher.reconcile(&second);
    assert!(plan.unwatch.is_empty());
    assert!(plan.watch.is_empty());
}

#[test]
fn a_watch_that_was_not_started_is_planned_again() {
    let mut watcher = FileWatcher::new();
    let desired = desired_watches(&Vec::new(), &vec![path("/a")]);
    assert_eq!(watcher.reconcile(&desired).watch.len(), 1);
    assert_eq!(watcher.reconcile(&desired).watch.len(), 1);
}

#[test]
fn a_watch_of_another_kind_is_replaced() {
    let mut watcher = FileWatcher::new();
    watcher.started(path("/a"), RecursiveMode::Recursive);
    let desired = desired_watches(&Vec::new(), &vec![path("/a")]);
    let plan = watcher.reconcile(&desired);
    assert!(plan.unwatch.is_empty());
    assert_eq!(plan.watch, vec![(path("/a"), RecursiveMode::NonRecursive)]);
}
