//! What a batch of file events holds, and what is watched.

use crate::collections::path_views;
use crate::path::{Part, TreePath};
use crate::watch::{
    added_paths, after_starting, asks_rescan, gathered_paths, gathered_rescan, kept, plans,
    wanted, watch_views, watched_for, OpenFile, RecursiveMode, WatchError, WatchEvent, WatchKind,
    WatchPlan,
};
use vstd::prelude::*;

verus! {

/// Each path of an event that is no mere access is in the batch afterwards, whatever else the kind
/// of the event is, and nothing else comes in with it.
pub proof fn changes_add_their_paths(event: WatchEvent)
    requires
        event.kind != WatchKind::Access,
    ensures
        forall|i: int|
            0 <= i < event.paths.len() ==> added_paths(Ok(event)).contains(
                (#[trigger] event.paths@[i])@,
            ),
        forall|p: Seq<Part>| #[trigger]
            added_paths(Ok(event)).contains(p) ==> exists|i: int|
                0 <= i < event.paths.len() && (#[trigger] event.paths@[i])@ == p,
        asks_rescan(Ok(event)) == event.need_rescan,
{
    let views = path_views(event.paths@);
    assert forall|i: int| 0 <= i < event.paths.len() implies added_paths(Ok(event)).contains(
        (#[trigger] event.paths@[i])@,
    ) by {
        assert(views[i] == event.paths@[i]@);
    }
    assert forall|p: Seq<Part>| #[trigger] added_paths(Ok(event)).contains(p) implies exists|i: int|
        0 <= i < event.paths.len() && (#[trigger] event.paths@[i])@ == p by {
        let i = choose|i: int| 0 <= i < views.len() && views[i] == p;
        assert(event.paths@[i]@ == p);
    }
}

/// Only accesses and errors add no path. An access asks for nothing, an error for a rescan.
pub proof fn accesses_and_errors_add_no_path(event: WatchEvent, error: WatchError)
    requires
        event.kind == WatchKind::Access,
    ensures
        forall|p: Seq<Part>| !(#[trigger] added_paths(Ok(event)).contains(p)),
        !asks_rescan(Ok(event)),
        forall|p: Seq<Part>| !(#[trigger] added_paths(Err(error)).contains(p)),
        asks_rescan(Err(error)),
{
}

/// What an event adds to a batch does not depend on its kind, as long as it is no access.
pub proof fn kinds_of_change_are_alike(a: WatchEvent, b: WatchEvent)
    requires
        a.kind != WatchKind::Access,
        b.kind != WatchKind::Access,
        a.paths == b.paths,
        a.need_rescan == b.need_rescan,
    ensures
        added_paths(Ok(a)) == added_paths(Ok(b)),
        asks_rescan(Ok(a)) == asks_rescan(Ok(b)),
{
}

/// After any run of events the batch holds every path of every event that is no access, and no
/// other path. A rescan is due if one of the events was an error, or a change that asks for one.
pub proof fn batch_holds_every_change(events: Seq<Result<WatchEvent, WatchError>>)
    ensures
        forall|k: int, i: int|
            0 <= k < events.len() && events[k] is Ok && events[k]->Ok_0.kind != WatchKind::Access
                && 0 <= i < events[k]->Ok_0.paths.len() ==> gathered_paths(events).contains(
                (#[trigger] events[k]->Ok_0.paths@[i])@,
            ),
        forall|p: Seq<Part>| #[trigger]
            gathered_paths(events).contains(p) ==> exists|k: int, i: int|
                0 <= k < events.len() && events[k] is Ok && events[k]->Ok_0.kind
                    != WatchKind::Access && 0 <= i < events[k]->Ok_0.paths.len() && (
                #[trigger] events[k]->Ok_0.paths@[i])@ == p,
        gathered_rescan(events) <==> exists|k: int|
            0 <= k < events.len() && match #[trigger] events[k] {
                Err(_) => true,
                Ok(e) => e.need_rescan && e.kind != WatchKind::Access,
            },
    decreases events.len(),
{
    if events.len() > 0 {
        let before = events.drop_last();
        let last = events.last();
        batch_holds_every_change(before);
        if let Ok(event) = last {
            if event.kind != WatchKind::Access {
                changes_add_their_paths(event);
            }
        }
        assert forall|k: int, i: int|
            0 <= k < events.len() && events[k] is Ok && events[k]->Ok_0.kind != WatchKind::Access
                && 0 <= i < events[k]->Ok_0.paths.len() implies gathered_paths(events).contains(
            (#[trigger] events[k]->Ok_0.paths@[i])@,
        ) by {
            if k < before.len() {
                assert(before[k] == events[k]);
                let q = before[k]->Ok_0.paths@[i];
                assert(gathered_paths(before).contains(q@));
            }
        }
        assert forall|p: Seq<Part>| #[trigger] gathered_paths(events).contains(p) implies exists|
            k: int,
            i: int,
        |
            0 <= k < events.len() && events[k] is Ok && events[k]->Ok_0.kind != WatchKind::Access
                && 0 <= i < events[k]->Ok_0.paths.len() && (#[trigger] events[k]->Ok_0.paths@[i])@
                == p by {
            if gathered_paths(before).contains(p) {
                let (k, i) = choose|k: int, i: int|
                    0 <= k < before.len() && before[k] is Ok && before[k]->Ok_0.kind
                        != WatchKind::Access && 0 <= i < before[k]->Ok_0.paths.len() && (
                    #[trigger] before[k]->Ok_0.paths@[i])@ == p;
                assert(events[k]->Ok_0.paths@[i]@ == p);
            } else {
                assert(added_paths(last).contains(p));
                let event = last->Ok_0;
                let i = choose|i: int|
                    0 <= i < event.paths.len() && (#[trigger] event.paths@[i])@ == p;
                assert(events[events.len() - 1]->Ok_0.paths@[i]@ == p);
            }
        }
        if gathered_rescan(before) {
            let k = choose|k: int|
                0 <= k < before.len() && match #[trigger] before[k] {
                    Err(_) => true,
                    Ok(e) => e.need_rescan && e.kind != WatchKind::Access,
                };
            assert(events[k] == before[k]);
        }
        if asks_rescan(last) {
            assert(events[events.len() - 1] == last);
        }
        assert forall|k: int|
            0 <= k < events.len() && match #[trigger] events[k] {
                Err(_) => true,
                Ok(e) => e.need_rescan && e.kind != WatchKind::Access,
            } implies gathered_rescan(events) by {
            if k < before.len() {
                assert(before[k] == events[k]);
            }
        }
    }
}

/// A file that is there is watched itself. For one that is not, its directory is: the path without
/// its last component. A path without a directory is not watched.
pub proof fn missing_files_are_watched_through_their_directory(file: OpenFile)
    ensures
        file.exists ==> watched_for(file) == Some(file.path@),
        !file.exists && file.path@.len() > 0 && (file.path@.last() is Normal
            || file.path@.last() is ParentDir || file.path@.last() is CurDir) ==> watched_for(file)
            == Some(file.path@.take(file.path@.len() - 1)),
        !file.exists && file.path@.len() > 0 && (file.path@.last() is RootDir
            || file.path@.last() is Prefix) ==> watched_for(file) is None,
        !file.exists && file.path@.len() == 0 ==> watched_for(file) is None,
{
    if file.path@.len() > 0 {
        assert(file.path@.drop_last() =~= file.path@.take(file.path@.len() - 1));
    }
}

/// Each directory of the tree and the place of each open file are watched, and a path that is
/// watched is one of these.
pub proof fn tree_and_open_files_are_watched(
    open_files: Seq<OpenFile>,
    tree_directories: Seq<TreePath>,
)
    ensures
        forall|i: int|
            0 <= i < tree_directories.len() ==> wanted(
                open_files,
                tree_directories,
                (#[trigger] tree_directories[i])@,
            ),
        forall|i: int|
            0 <= i < open_files.len() && (#[trigger] open_files[i]).exists ==> wanted(
                open_files,
                tree_directories,
                open_files[i].path@,
            ),
        forall|p: Seq<Part>| #[trigger]
            wanted(open_files, tree_directories, p) ==> (exists|i: int|
                0 <= i < tree_directories.len() && (#[trigger] tree_directories[i])@ == p) || (
            exists|i: int|
                0 <= i < open_files.len() && watched_for(#[trigger] open_files[i]) == Some(p)),
{
    let views = path_views(tree_directories);
    assert forall|i: int| 0 <= i < tree_directories.len() implies wanted(
        open_files,
        tree_directories,
        (#[trigger] tree_directories[i])@,
    ) by {
        assert(views[i] == tree_directories[i]@);
    }
    assert forall|i: int| 0 <= i < open_files.len() && (#[trigger] open_files[i]).exists implies wanted(
        open_files,
        tree_directories,
        open_files[i].path@,
    ) by {
        assert(watched_for(open_files[i]) == Some(open_files[i].path@));
    }
    assert forall|p: Seq<Part>| #[trigger] wanted(open_files, tree_directories, p) implies (exists|
        i: int,
    |
        0 <= i < tree_directories.len() && (#[trigger] tree_directories[i])@ == p) || (exists|i: int|
        0 <= i < open_files.len() && watched_for(#[trigger] open_files[i]) == Some(p)) by {
        if views.contains(p) {
            let i = choose|i: int| 0 <= i < views.len() && views[i] == p;
            assert(tree_directories[i]@ == p);
        }
    }
}

/// Reconciling ends the watches that are no longer wanted and leaves the others as they were. It
/// starts none.
pub proof fn unwanted_watches_end(
    before: Map<Seq<Part>, RecursiveMode>,
    desired: Map<Seq<Part>, RecursiveMode>,
    path: Seq<Part>,
)
    ensures
        kept(before, desired).contains_key(path) <==> before.contains_key(path)
            && desired.contains_key(path),
        before.contains_key(path) && desired.contains_key(path) ==> kept(before, desired)[path]
            == before[path],
{
}

/// Once watches have been started, each of those paths is watched in the mode in which it was last
/// started, and every other path as before.
pub proof fn started_watches_last(
    watches: Map<Seq<Part>, RecursiveMode>,
    watch: Seq<(Seq<Part>, RecursiveMode)>,
    path: Seq<Part>,
)
    ensures
        (forall|i: int| 0 <= i < watch.len() ==> (#[trigger] watch[i]).0 != path) ==> (
        after_starting(watches, watch).contains_key(path) == watches.contains_key(path)
            && after_starting(watches, watch)[path] == watches[path]),
        forall|k: int|
            0 <= k < watch.len() && (#[trigger] watch[k]).0 == path && (forall|j: int|
                k < j < watch.len() ==> (#[trigger] watch[j]).0 != path) ==> (after_starting(
                watches,
                watch,
            ).contains_key(path) && after_starting(watches, watch)[path] == watch[k].1),
    decreases watch.len(),
{
    if watch.len() > 0 {
        let rest = watch.drop_last();
        started_watches_last(watches, rest, path);
        assert forall|i: int| 0 <= i < rest.len() implies #[trigger] rest[i] == watch[i] by {}
        assert(watch.last() == watch[watch.len() - 1]);
        assert forall|k: int|
            0 <= k < watch.len() && (#[trigger] watch[k]).0 == path && (forall|j: int|
                k < j < watch.len() ==> (#[trigger] watch[j]).0 != path) implies (after_starting(
            watches,
            watch,
        ).contains_key(path) && after_starting(watches, watch)[path] == watch[k].1) by {
            if k < rest.len() {
                assert(rest[k].0 == path);
                assert forall|j: int| k < j < rest.len() implies (#[trigger] rest[j]).0 != path by {
                    assert(watch[j].0 != path);
                }
            }
        }
    }
}

/// A plan ends the watches of exactly the paths that are watched and no longer wanted, and starts
/// those of exactly the paths that are wanted and not watched in that mode; none of them twice.
pub proof fn plans_close_the_difference(
    before: Map<Seq<Part>, RecursiveMode>,
    desired: Map<Seq<Part>, RecursiveMode>,
    plan: WatchPlan,
    path: Seq<Part>,
)
    requires
        plans(before, desired, plan),
    ensures
        (exists|i: int| 0 <= i < plan.unwatch.len() && (#[trigger] plan.unwatch@[i])@ == path)
            <==> before.contains_key(path) && !desired.contains_key(path),
        forall|i: int, j: int|
            0 <= i < j < plan.unwatch.len() ==> (#[trigger] plan.unwatch@[i])@ != (
            #[trigger] plan.unwatch@[j])@,
        (exists|i: int| 0 <= i < plan.watch.len() && (#[trigger] plan.watch@[i]).0@ == path)
            <==> desired.contains_key(path) && !(before.contains_key(path) && before[path]
            == desired[path]),
        forall|i: int|
            0 <= i < plan.watch.len() && (#[trigger] plan.watch@[i]).0@ == path ==> plan.watch@[i].1
                == desired[path],
        forall|i: int, j: int|
            0 <= i < j < plan.watch.len() ==> (#[trigger] plan.watch@[i]).0@ != (
            #[trigger] plan.watch@[j]).0@,
{
    let unwatch = path_views(plan.unwatch@);
    let watch = watch_views(plan.watch@);
    assert forall|i: int| 0 <= i < plan.unwatch.len() implies unwatch[i] == (
    #[trigger] plan.unwatch@[i])@ by {}
    assert forall|i: int| 0 <= i < plan.watch.len() implies watch[i] == ((
    #[trigger] plan.watch@[i]).0@, plan.watch@[i].1) by {}
    if before.contains_key(path) && !desired.contains_key(path) {
        assert(unwatch.contains(path));
        let i = choose|i: int| 0 <= i < unwatch.len() && unwatch[i] == path;
        assert(plan.unwatch@[i]@ == path);
    }
    assert forall|i: int| 0 <= i < plan.unwatch.len() && (#[trigger] plan.unwatch@[i])@ == path
        implies before.contains_key(path) && !desired.contains_key(path) by {
        assert(unwatch.contains(unwatch[i]));
    }
    assert forall|i: int, j: int| 0 <= i < j < plan.unwatch.len() implies (
    #[trigger] plan.unwatch@[i])@ != (#[trigger] plan.unwatch@[j])@ by {
        assert(unwatch[i] != unwatch[j]);
    }
    if desired.contains_key(path) && !(before.contains_key(path) && before[path] == desired[path]) {
        assert(watch.contains((path, desired[path])));
        let i = choose|i: int| 0 <= i < watch.len() && watch[i] == (path, desired[path]);
        assert(plan.watch@[i].0@ == path);
    }
    assert forall|i: int| 0 <= i < plan.watch.len() && (#[trigger] plan.watch@[i]).0@ == path implies {
        &&& desired.contains_key(path)
        &&& desired[path] == plan.watch@[i].1
        &&& !(before.contains_key(path) && before[path] == desired[path])
    } by {
        assert(watch.contains(watch[i]));
        assert(watch.contains((path, plan.watch@[i].1)));
    }
    assert forall|i: int, j: int| 0 <= i < j < plan.watch.len() implies (
    #[trigger] plan.watch@[i]).0@ != (#[trigger] plan.watch@[j]).0@ by {
        assert(watch[i].0 != watch[j].0);
    }
}

} // verus!
