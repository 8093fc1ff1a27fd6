//! Which directories and files are watched for changes, and how the events that come in are
//! gathered into batches.

use vstd::prelude::*;

use crate::collections::{
    distinct_keys, has_key, lemma_one_more, lemma_push, map_of_keys, map_of_values, path_views,
    PathMap, PathSet,
};
use crate::path::{parent_of, Part, TreePath};

verus! {

/// How deep a directory is watched.
#[derive(Debug, Clone, Copy, PartialEq, Eq, Structural)]
pub enum RecursiveMode {
    Recursive,
    NonRecursive,
}

/// What an event tells to have happened.
#[derive(Debug, Clone, Copy, PartialEq, Eq, Structural)]
pub enum WatchKind {
    Any,
    Access,
    Create,
    Modify,
    Remove,
    Other,
}

/// An event of the filesystem watcher.
#[derive(Debug)]
pub struct WatchEvent {
    pub kind: WatchKind,
    /// Events may have been lost, so that everything has to be looked at again.
    pub need_rescan: bool,
    pub paths: Vec<TreePath>,
}

/// An error of the filesystem watcher.
#[derive(Debug)]
pub struct WatchError {
    pub message: String,
}

/// The paths at which something happened, and whether everything has to be looked at again.
#[derive(Debug)]
pub struct FileEventBatch {
    pub paths: PathSet,
    pub rescan: bool,
}

/// The paths that the event adds to a batch.
pub open spec fn added_paths(event: Result<WatchEvent, WatchError>) -> Set<Seq<Part>> {
    match event {
        Ok(e) => if e.kind == WatchKind::Access {
            Set::empty()
        } else {
            path_views(e.paths@).to_set()
        },
        Err(_) => Set::empty(),
    }
}

/// The event makes a rescan necessary. An error does, for events may have been lost.
pub open spec fn asks_rescan(event: Result<WatchEvent, WatchError>) -> bool {
    match event {
        Ok(e) => e.kind != WatchKind::Access && e.need_rescan,
        Err(_) => true,
    }
}

/// Adds an event to the paths and the rescan mark of a batch.
pub fn collect_event(
    event: Result<WatchEvent, WatchError>,
    paths: &mut PathSet,
    rescan: &mut bool,
)
    requires
        old(paths).wf(),
    ensures
        final(paths).wf(),
        final(paths)@ == old(paths)@.union(added_paths(event)),
        *final(rescan) == (*old(rescan) || asks_rescan(event)),
{
    match event {
        Ok(event) => {
            if event.kind == WatchKind::Access {
                assert(paths@ =~= paths@.union(Set::empty()));
                return ;
            }
            *rescan = *rescan || event.need_rescan;
            let ghost all = path_views(event.paths@);
            let mut i: usize = 0;
            while i < event.paths.len()
                invariant
                    i <= event.paths.len(),
                    all == path_views(event.paths@),
                    paths.wf(),
                    forall|p: Seq<Part>| #[trigger]
                        paths@.contains(p) <==> old(paths)@.contains(p) || all.take(
                            i as int,
                        ).contains(p),
                decreases event.paths.len() - i,
            {
                proof {
                    lemma_one_more(all, i as int);
                }
                paths.insert(event.paths[i].clone());
                i = i + 1;
            }
            proof {
                assert(all.take(i as int) =~= all);
                assert(paths@ =~= old(paths)@.union(all.to_set())) by {
                    assert forall|p: Seq<Part>| paths@.contains(p) == old(paths)@.union(
                        all.to_set(),
                    ).contains(p) by {}
                }
            }
        },
        Err(_) => {
            *rescan = true;
            assert(paths@ =~= paths@.union(Set::empty()));
        },
    }
}

/// The events gathered since the last batch.
#[derive(Debug)]
pub struct EventBatcher {
    paths: PathSet,
    rescan: bool,
}

impl EventBatcher {
    /// The paths gathered so far.
    pub closed spec fn gathered(&self) -> Set<Seq<Part>> {
        self.paths@
    }

    /// A rescan has been asked for.
    pub closed spec fn rescans(&self) -> bool {
        self.rescan
    }

    pub closed spec fn wf(&self) -> bool {
        self.paths.wf()
    }

    /// Nothing gathered.
    pub fn new() -> (r: EventBatcher)
        ensures
            r.wf(),
            r.gathered() == Set::<Seq<Part>>::empty(),
            !r.rescans(),
    {
        EventBatcher { paths: PathSet::new(), rescan: false }
    }

    /// Gathers an event.
    pub fn push(&mut self, event: Result<WatchEvent, WatchError>)
        requires
            old(self).wf(),
        ensures
            final(self).wf(),
            final(self).gathered() == old(self).gathered().union(added_paths(event)),
            final(self).rescans() == (old(self).rescans() || asks_rescan(event)),
    {
        collect_event(event, &mut self.paths, &mut self.rescan);
    }

    /// Takes out what has been gathered. Where that is nothing at all, there is no batch.
    pub fn flush(&mut self) -> (r: Option<FileEventBatch>)
        requires
            old(self).wf(),
        ensures
            final(self).wf(),
            final(self).gathered() == Set::<Seq<Part>>::empty(),
            !final(self).rescans(),
            match r {
                Some(batch) => {
                    &&& batch.paths.wf()
                    &&& batch.paths@ == old(self).gathered()
                    &&& batch.rescan == old(self).rescans()
                    &&& old(self).rescans() || old(self).gathered() != Set::<Seq<Part>>::empty()
                },
                None => !old(self).rescans() && old(self).gathered() == Set::<Seq<Part>>::empty(),
            },
    {
        let rescan = self.rescan;
        let mut paths = PathSet::new();
        std::mem::swap(&mut paths, &mut self.paths);
        self.rescan = false;
        if rescan || !paths.is_empty() {
            Some(FileEventBatch { paths, rescan })
        } else {
            None
        }
    }
}

/// The paths gathered from a run of events.
pub open spec fn gathered_paths(events: Seq<Result<WatchEvent, WatchError>>) -> Set<Seq<Part>>
    decreases events.len(),
{
    if events.len() == 0 {
        Set::empty()
    } else {
        gathered_paths(events.drop_last()).union(added_paths(events.last()))
    }
}

/// A rescan is asked for somewhere in a run of events.
pub open spec fn gathered_rescan(events: Seq<Result<WatchEvent, WatchError>>) -> bool
    decreases events.len(),
{
    if events.len() == 0 {
        false
    } else {
        gathered_rescan(events.drop_last()) || asks_rescan(events.last())
    }
}

/// No event is lost in a batch: it holds a path exactly if one of the events adds it, and asks for a
/// rescan exactly if one of them does.
pub proof fn batch_holds_all_events(events: Seq<Result<WatchEvent, WatchError>>)
    ensures
        forall|p: Seq<Part>| #[trigger]
            gathered_paths(events).contains(p) <==> exists|i: int|
                0 <= i < events.len() && added_paths(#[trigger] events[i]).contains(p),
        gathered_rescan(events) <==> exists|i: int|
            0 <= i < events.len() && asks_rescan(#[trigger] events[i]),
    decreases events.len(),
{
    if events.len() > 0 {
        let rest = events.drop_last();
        batch_holds_all_events(rest);
        let n = events.len() - 1;
        assert forall|p: Seq<Part>| #[trigger] gathered_paths(events).contains(p) <==> exists|i: int|
            0 <= i < events.len() && added_paths(#[trigger] events[i]).contains(p) by {
            assert(gathered_paths(events).contains(p) <==> gathered_paths(rest).contains(p)
                || added_paths(events[n]).contains(p));
            if gathered_paths(rest).contains(p) {
                let i = choose|i: int|
                    0 <= i < rest.len() && added_paths(#[trigger] rest[i]).contains(p);
                assert(added_paths(events[i]).contains(p));
            }
            if exists|i: int| 0 <= i < events.len() && added_paths(#[trigger] events[i]).contains(p) {
                let i = choose|i: int|
                    0 <= i < events.len() && added_paths(#[trigger] events[i]).contains(p);
                if i < n {
                    assert(added_paths(rest[i]).contains(p));
                }
            }
        }
        if gathered_rescan(rest) {
            let i = choose|i: int| 0 <= i < rest.len() && asks_rescan(#[trigger] rest[i]);
            assert(asks_rescan(events[i]));
        }
        if asks_rescan(events.last()) {
            assert(asks_rescan(events[n]));
        }
        if exists|i: int| 0 <= i < events.len() && asks_rescan(#[trigger] events[i]) {
            let i = choose|i: int| 0 <= i < events.len() && asks_rescan(#[trigger] events[i]);
            if i < n {
                assert(asks_rescan(rest[i]));
            }
        }
    }
}

/// A file that is open in the editor.
#[derive(Debug)]
pub struct OpenFile {
    pub path: TreePath,
    /// Whether there is such a file on the disk.
    pub exists: bool,
}

/// What is watched for an open file. A new file cannot be watched directly; its parent is watched
/// instead, so that a concurrent create is delivered as an event for the target path.
pub open spec fn watched_for(file: OpenFile) -> Option<Seq<Part>> {
    if file.exists {
        Some(file.path@)
    } else {
        parent_of(file.path@)
    }
}

/// The path is to be watched for one of the open files.
pub open spec fn wanted_for_file(open_files: Seq<OpenFile>, path: Seq<Part>) -> bool {
    exists|i: int| 0 <= i < open_files.len() && watched_for(#[trigger] open_files[i]) == Some(path)
}

/// The path is to be watched.
pub open spec fn wanted(
    open_files: Seq<OpenFile>,
    tree_directories: Seq<TreePath>,
    path: Seq<Part>,
) -> bool {
    wanted_for_file(open_files, path) || path_views(tree_directories).contains(path)
}

/// What is to be watched for the open files and the directories of the tree.
pub fn desired_watches(open_files: &Vec<OpenFile>, tree_directories: &Vec<TreePath>) -> (r: PathMap<
    RecursiveMode,
>)
    ensures
        r.wf(),
        forall|p: Seq<Part>| #[trigger]
            r@.contains_key(p) <==> wanted(open_files@, tree_directories@, p),
        forall|p: Seq<Part>| #[trigger]
            r@.contains_key(p) ==> r@[p] == RecursiveMode::NonRecursive,
{
    let mut desired: PathMap<RecursiveMode> = PathMap::new();
    let mut i: usize = 0;
    while i < open_files.len()
        invariant
            i <= open_files.len(),
            desired.wf(),
            forall|p: Seq<Part>| #[trigger]
                desired@.contains_key(p) <==> wanted_for_file(open_files@.take(i as int), p),
            forall|p: Seq<Part>| #[trigger]
                desired@.contains_key(p) ==> desired@[p] == RecursiveMode::NonRecursive,
        decreases open_files.len() - i,
    {
        let ghost (was, now) = (open_files@.take(i as int), open_files@.take(i + 1));
        assert forall|p: Seq<Part>| #[trigger] wanted_for_file(now, p) <==> wanted_for_file(was, p)
            || watched_for(open_files@[i as int]) == Some(p) by {
            if wanted_for_file(was, p) {
                let k = choose|k: int|
                    0 <= k < was.len() && watched_for(#[trigger] was[k]) == Some(p);
                assert(now[k] == was[k]);
            }
            if wanted_for_file(now, p) {
                let k = choose|k: int|
                    0 <= k < now.len() && watched_for(#[trigger] now[k]) == Some(p);
                if k < i {
                    assert(was[k] == now[k]);
                }
            }
            if watched_for(open_files@[i as int]) == Some(p) {
                assert(now[i as int] == open_files@[i as int]);
            }
        }
        let file = &open_files[i];
        if file.exists {
            desired.insert(file.path.clone(), RecursiveMode::NonRecursive);
        } else if let Some(parent) = file.path.parent() {
            desired.insert(parent, RecursiveMode::NonRecursive);
        }
        i = i + 1;
    }
    assert(open_files@.take(i as int) =~= open_files@);
    let ghost dirs = path_views(tree_directories@);
    let mut j: usize = 0;
    while j < tree_directories.len()
        invariant
            j <= tree_directories.len(),
            dirs == path_views(tree_directories@),
            desired.wf(),
            forall|p: Seq<Part>| #[trigger]
                desired@.contains_key(p) <==> wanted_for_file(open_files@, p) || dirs.take(
                    j as int,
                ).contains(p),
            forall|p: Seq<Part>| #[trigger]
                desired@.contains_key(p) ==> desired@[p] == RecursiveMode::NonRecursive,
        decreases tree_directories.len() - j,
    {
        proof {
            lemma_one_more(dirs, j as int);
        }
        desired.insert(tree_directories[j].clone(), RecursiveMode::NonRecursive);
        j = j + 1;
    }
    assert(dirs.take(j as int) =~= dirs);
    desired
}

/// What has to be done so that exactly the desired paths are watched.
#[derive(Debug)]
pub struct WatchPlan {
    /// The watches to end.
    pub unwatch: Vec<TreePath>,
    /// The watches to start.
    pub watch: Vec<(TreePath, RecursiveMode)>,
}

/// The watches to start, by value.
pub open spec fn watch_views(watch: Seq<(TreePath, RecursiveMode)>) -> Seq<
    (Seq<Part>, RecursiveMode),
> {
    watch.map_values(|w: (TreePath, RecursiveMode)| (w.0@, w.1))
}

/// `plan` leads from the paths `before` to the desired ones: it ends the watches that are not
/// desired and starts those that are desired and missing or of another mode, each once.
pub open spec fn plans(
    before: Map<Seq<Part>, RecursiveMode>,
    desired: Map<Seq<Part>, RecursiveMode>,
    plan: WatchPlan,
) -> bool {
    let unwatch = path_views(plan.unwatch@);
    let watch = watch_views(plan.watch@);
    &&& unwatch.no_duplicates()
    &&& forall|p: Seq<Part>| #[trigger]
        unwatch.contains(p) <==> before.contains_key(p) && !desired.contains_key(p)
    &&& distinct_keys(watch)
    &&& forall|p: Seq<Part>, m: RecursiveMode| #[trigger]
        watch.contains((p, m)) <==> desired.contains_key(p) && desired[p] == m && !(
        before.contains_key(p) && before[p] == m)
}

/// The paths of `before` that are desired.
pub open spec fn kept(
    before: Map<Seq<Part>, RecursiveMode>,
    desired: Map<Seq<Part>, RecursiveMode>,
) -> Map<Seq<Part>, RecursiveMode> {
    before.restrict(desired.dom())
}

/// The paths that are watched.
#[derive(Debug)]
pub struct FileWatcher {
    watched: PathMap<RecursiveMode>,
}

impl FileWatcher {
    /// The paths that are watched, and how.
    pub closed spec fn watches(&self) -> Map<Seq<Part>, RecursiveMode> {
        self.watched@
    }

    pub closed spec fn wf(&self) -> bool {
        self.watched.wf()
    }

    /// Nothing is watched.
    pub fn new() -> (r: FileWatcher)
        ensures
            r.wf(),
            r.watches() == Map::<Seq<Part>, RecursiveMode>::empty(),
    {
        FileWatcher { watched: PathMap::new() }
    }

    /// Plans what has to be done so that exactly the desired paths are watched. The watches to end
    /// are given up at once, whatever comes of it; those to start are only recorded when they have
    /// been started.
    pub fn reconcile(&mut self, desired: &PathMap<RecursiveMode>) -> (plan: WatchPlan)
        requires
            old(self).wf(),
            desired.wf(),
        ensures
            final(self).wf(),
            plans(old(self).watches(), desired@, plan),
            final(self).watches() == kept(old(self).watches(), desired@),
    {
        let mut unwatch: Vec<TreePath> = Vec::new();
        let ghost before = self.watched@;
        let ghost pairs = self.watched.pairs();
        proof {
            map_of_keys(pairs);
            map_of_values(pairs);
        }
        let mut i: usize = 0;
        while i < self.watched.len()
            invariant
                i <= pairs.len(),
                *self == *old(self),
                self.wf(),
                desired.wf(),
                pairs == self.watched.pairs(),
                before == self.watched@,
                forall|k: int|
                    0 <= k < pairs.len() ==> before.contains_key(#[trigger] pairs[k].0),
                path_views(unwatch@).no_duplicates(),
                forall|p: Seq<Part>| #[trigger]
                    path_views(unwatch@).contains(p) <==> has_key(pairs.take(i as int), p)
                        && !desired@.contains_key(p),
            decreases pairs.len() - i,
        {
            let ghost had = path_views(unwatch@);
            let ghost p = pairs[i as int].0;
            let ghost (was, now) = (pairs.take(i as int), pairs.take(i + 1));
            assert(!has_key(was, p)) by {
                if has_key(was, p) {
                    let k = choose|k: int| 0 <= k < was.len() && #[trigger] was[k].0 == p;
                    assert(pairs[k].0 == p);
                }
            }
            assert forall|q: Seq<Part>| #[trigger] has_key(now, q) <==> has_key(was, q) || q == p by {
                if has_key(was, q) {
                    let k = choose|k: int| 0 <= k < was.len() && #[trigger] was[k].0 == q;
                    assert(now[k].0 == q);
                }
                if has_key(now, q) {
                    let k = choose|k: int| 0 <= k < now.len() && #[trigger] now[k].0 == q;
                    if k < i {
                        assert(was[k].0 == q);
                    }
                }
                if q == p {
                    assert(now[i as int].0 == q);
                }
            }
            let key = self.watched.key_at(i);
            if !desired.contains_key(key) {
                unwatch.push(key.clone());
                proof {
                    let has = path_views(unwatch@);
                    assert(has =~= had.push(p));
                    assert(!had.contains(p));
                    lemma_push(had, p);
                }
            }
            i = i + 1;
        }
        assert(pairs.take(i as int) =~= pairs);
        let ghost stale = path_views(unwatch@);
        let mut j: usize = 0;
        while j < unwatch.len()
            invariant
                j <= unwatch.len(),
                self.wf(),
                stale == path_views(unwatch@),
                forall|p: Seq<Part>| #[trigger]
                    self.watched@.contains_key(p) <==> before.contains_key(p) && !stale.take(
                        j as int,
                    ).contains(p),
                forall|p: Seq<Part>| #[trigger]
                    self.watched@.contains_key(p) ==> self.watched@[p] == before[p],
            decreases unwatch.len() - j,
        {
            let ghost (was, now) = (stale.take(j as int), stale.take(j + 1));
            assert(now =~= was.push(stale[j as int]));
            proof {
                lemma_push(was, stale[j as int]);
            }
            self.watched.remove(&unwatch[j]);
            j = j + 1;
        }
        proof {
            assert(stale.take(j as int) =~= stale);
            assert(self.watched@ =~= kept(before, desired@));
        }
        let mut watch: Vec<(TreePath, RecursiveMode)> = Vec::new();
        let ghost wanted = desired.pairs();
        proof {
            map_of_keys(wanted);
            map_of_values(wanted);
        }
        let mut n: usize = 0;
        while n < desired.len()
            invariant
                n <= wanted.len(),
                self.wf(),
                desired.wf(),
                wanted == desired.pairs(),
                self.watched@ == kept(before, desired@),
                forall|k: int|
                    0 <= k < wanted.len() ==> desired@.contains_key(#[trigger] wanted[k].0)
                        && desired@[wanted[k].0] == wanted[k].1,
                distinct_keys(watch_views(watch@)),
                forall|p: Seq<Part>, m: RecursiveMode| #[trigger]
                    watch_views(watch@).contains((p, m)) <==> wanted.take(n as int).contains((p, m))
                        && !(before.contains_key(p) && before[p] == m),
            decreases wanted.len() - n,
        {
            let ghost had = watch_views(watch@);
            let ghost e = wanted[n as int];
            let ghost (was, now) = (wanted.take(n as int), wanted.take(n + 1));
            assert(now =~= was.push(e));
            proof {
                lemma_push(was, e);
            }
            let path = desired.key_at(n);
            let mode = desired.value_at(n);
            let current = match self.watched.get(path) {
                Some(m) => m == mode,
                None => false,
            };
            if !current {
                watch.push((path.clone(), mode));
                proof {
                    let has = watch_views(watch@);
                    assert(has =~= had.push(e));
                    lemma_push(had, e);
                    assert forall|a: int, b: int|
                        0 <= a < has.len() && 0 <= b < has.len() && a != b implies #[trigger] has[a].0
                        != #[trigger] has[b].0 by {
                        if a < had.len() && b < had.len() {
                            assert(had[a].0 != had[b].0);
                        } else {
                            let c = if a < had.len() { a } else { b };
                            let x = had[c];
                            assert(had.contains(x));
                            assert(had.contains((x.0, x.1)));
                            assert(was.contains(x));
                            let k = choose|k: int| 0 <= k < was.len() && was[k] == x;
                            assert(wanted[k].0 != wanted[n as int].0);
                        }
                    }
                }
            }
            n = n + 1;
        }
        proof {
            assert(wanted.take(n as int) =~= wanted);
            assert forall|p: Seq<Part>, m: RecursiveMode| #[trigger] wanted.contains((p, m))
                <==> desired@.contains_key(p) && desired@[p] == m by {
                if wanted.contains((p, m)) {
                    let k = choose|k: int| 0 <= k < wanted.len() && wanted[k] == (p, m);
                    assert(wanted[k].0 == p);
                }
                if desired@.contains_key(p) && desired@[p] == m {
                    let k = choose|k: int| 0 <= k < wanted.len() && #[trigger] wanted[k].0 == p;
                    assert(wanted[k] == (p, m));
                }
            }
        }
        WatchPlan { unwatch, watch }
    }

    /// Records a watch that has been started.
    pub fn started(&mut self, path: TreePath, mode: RecursiveMode)
        requires
            old(self).wf(),
        ensures
            final(self).wf(),
            final(self).watches() == old(self).watches().insert(path@, mode),
    {
        self.watched.insert(path, mode);
    }
}

/// The watches after others have been started, one after the other.
pub open spec fn after_starting(
    watches: Map<Seq<Part>, RecursiveMode>,
    watch: Seq<(Seq<Part>, RecursiveMode)>,
) -> Map<Seq<Part>, RecursiveMode>
    decreases watch.len(),
{
    if watch.len() == 0 {
        watches
    } else {
        after_starting(watches, watch.drop_last()).insert(watch.last().0, watch.last().1)
    }
}

proof fn lemma_after_starting(
    watches: Map<Seq<Part>, RecursiveMode>,
    watch: Seq<(Seq<Part>, RecursiveMode)>,
)
    requires
        distinct_keys(watch),
    ensures
        forall|p: Seq<Part>| #[trigger]
            after_starting(watches, watch).contains_key(p) <==> watches.contains_key(p) || has_key(
                watch,
                p,
            ),
        forall|p: Seq<Part>, m: RecursiveMode| #[trigger]
            watch.contains((p, m)) ==> after_starting(watches, watch)[p] == m,
        forall|p: Seq<Part>|
            !has_key(watch, p) && watches.contains_key(p) ==> #[trigger] after_starting(
                watches,
                watch,
            )[p] == watches[p],
    decreases watch.len(),
{
    if watch.len() > 0 {
        let rest = watch.drop_last();
        let last = watch.last();
        assert forall|a: int, b: int|
            0 <= a < rest.len() && 0 <= b < rest.len() && a != b implies #[trigger] rest[a].0
            != #[trigger] rest[b].0 by {
            assert(watch[a].0 != watch[b].0);
        }
        lemma_after_starting(watches, rest);
        assert forall|p: Seq<Part>| #[trigger] has_key(watch, p) <==> has_key(rest, p) || p
            == last.0 by {
            if has_key(rest, p) {
                let k = choose|k: int| 0 <= k < rest.len() && #[trigger] rest[k].0 == p;
                assert(watch[k].0 == p);
            }
            if has_key(watch, p) {
                let k = choose|k: int| 0 <= k < watch.len() && #[trigger] watch[k].0 == p;
                if k < rest.len() {
                    assert(rest[k].0 == p);
                }
            }
            if p == last.0 {
                assert(watch[watch.len() - 1].0 == p);
            }
        }
        assert forall|p: Seq<Part>| #[trigger] after_starting(watches, watch).contains_key(p)
            <==> watches.contains_key(p) || has_key(watch, p) by {
            assert(after_starting(watches, rest).contains_key(p) <==> watches.contains_key(p)
                || has_key(rest, p));
        }
        assert forall|p: Seq<Part>, m: RecursiveMode| #[trigger] watch.contains(
            (p, m),
        ) implies after_starting(watches, watch)[p] == m by {
            let k = choose|k: int| 0 <= k < watch.len() && watch[k] == (p, m);
            if k < rest.len() {
                assert(rest[k] == (p, m));
                assert(rest.contains((p, m)));
                assert(watch[k].0 != watch[watch.len() - 1].0);
            }
        }
        assert forall|p: Seq<Part>|
            !has_key(watch, p) && watches.contains_key(p) implies #[trigger] after_starting(
            watches,
            watch,
        )[p] == watches[p] by {
            assert(has_key(watch, p) <==> has_key(rest, p) || p == last.0);
            assert(after_starting(watches, rest)[p] == watches[p]);
        }
    }
}

/// When all the planned watches have been started, exactly the desired paths are watched; and then
/// there is nothing left to plan.
pub proof fn reconcile_settles(
    before: Map<Seq<Part>, RecursiveMode>,
    desired: Map<Seq<Part>, RecursiveMode>,
    plan: WatchPlan,
    again: WatchPlan,
)
    requires
        plans(before, desired, plan),
        plans(desired, desired, again),
    ensures
        after_starting(kept(before, desired), watch_views(plan.watch@)) == desired,
        again.unwatch@.len() == 0,
        again.watch@.len() == 0,
{
    let watch = watch_views(plan.watch@);
    let base = kept(before, desired);
    lemma_after_starting(base, watch);
    let end = after_starting(base, watch);
    assert forall|p: Seq<Part>| end.contains_key(p) == desired.contains_key(p) by {
        if has_key(watch, p) {
            let k = choose|k: int| 0 <= k < watch.len() && #[trigger] watch[k].0 == p;
            assert(watch.contains((p, watch[k].1))) by {
                assert(watch[k] == (p, watch[k].1));
            }
        }
        if desired.contains_key(p) && !base.contains_key(p) {
            assert(watch.contains((p, desired[p])));
            let k = choose|k: int| 0 <= k < watch.len() && watch[k] == (p, desired[p]);
            assert(watch[k].0 == p);
        }
    }
    assert forall|p: Seq<Part>| end.contains_key(p) implies end[p] == desired[p] by {
        if has_key(watch, p) {
            let k = choose|k: int| 0 <= k < watch.len() && #[trigger] watch[k].0 == p;
            assert(watch[k] == (p, watch[k].1));
            assert(watch.contains((p, watch[k].1)));
        } else {
            assert(base.contains_key(p));
            if before[p] != desired[p] {
                assert(watch.contains((p, desired[p])));
                let k = choose|k: int| 0 <= k < watch.len() && watch[k] == (p, desired[p]);
                assert(watch[k].0 == p);
            }
        }
    }
    assert(end =~= desired);
    if again.unwatch@.len() > 0 {
        let p = path_views(again.unwatch@)[0];
        assert(path_views(again.unwatch@).contains(p));
    }
    if again.watch@.len() > 0 {
        let w = watch_views(again.watch@)[0];
        assert(w == (w.0, w.1));
        assert(watch_views(again.watch@).contains((w.0, w.1)));
    }
}

} // verus!
