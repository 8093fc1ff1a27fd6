//! What each call of an operation answers and leaves behind, over the arguments and the results of
//! the call itself.

use crate::clipboard::{
    copy_action, empty_clipboard_message, CopyAction, PasteEnd, PasteJob, PasteRefusal, PasteStart,
};
use crate::collections::{PathMap, PathSet};
use crate::events::{
    open_failure, Effect, EventResult, FileTreeAction, MouseKind, TerminalEvent,
};
use crate::flatten::Flattening;
use crate::geometry::Rect;
use crate::jj::{
    canonical_file, changed_line, diff_args, Arg, ChangedLine, JjError, JjFailure, LineError, Lookup,
    LookupView,
};
use crate::listing::{
    collect_rows, single_visible_directory, sort_entries, Child, Entry, EntryKind, Row, WalkOptions,
};
use crate::metadata::GitState;
use crate::path::{Part, TreePath};
use crate::prompts::{CreatePrompt, DeletePrompt, OpenDocument, RenameAction, RenamePrompt};
use crate::refresh::{GitUpdate, Refresh};
use crate::render::{border, DrawnRow};
use crate::tree::{ordered_width_bounds, ClipboardKind, FileTree, TreeConfig, TreeView};
use crate::vcs::{ChangeView, FileChange, Iteration, VcsError};
use crate::watch::{
    collect_event, desired_watches, EventBatcher, FileEventBatch, OpenFile, RecursiveMode,
    WatchError, WatchEvent, WatchKind,
};
use vstd::math::{max, min};
use vstd::prelude::*;

verus! {

/// After a call with an event that is no access, each path of the event is in the set, with
/// everything that was in it; after any other call the set is what it was. A rescan that was due
/// stays due, and is due after an error and after a change that asks for one.
pub proof fn collect_event_gathers(
    event: Result<WatchEvent, WatchError>,
    paths: &mut PathSet,
    rescan: &mut bool,
    p: Seq<Part>,
    i: int,
)
    requires
        call_ensures(collect_event, (event, paths, rescan), ()),
    ensures
        old(paths)@.contains(p) ==> final(paths)@.contains(p),
        event is Ok && event->Ok_0.kind != WatchKind::Access && 0 <= i < event->Ok_0.paths.len()
            ==> final(paths)@.contains(event->Ok_0.paths@[i]@),
        event is Err || event->Ok_0.kind == WatchKind::Access ==> final(paths)@ == old(paths)@,
        final(paths)@.contains(p) && !old(paths)@.contains(p) ==> event is Ok && exists|k: int|
            0 <= k < event->Ok_0.paths.len() && (#[trigger] event->Ok_0.paths@[k])@ == p,
        *final(rescan) <==> *old(rescan) || event is Err || (event->Ok_0.kind != WatchKind::Access
            && event->Ok_0.need_rescan),
{
    if let Ok(e) = event {
        if e.kind != WatchKind::Access {
            crate::laws::watching::changes_add_their_paths(e);
        } else {
            assert(old(paths)@.union(Set::empty()) =~= old(paths)@);
        }
    } else {
        assert(old(paths)@.union(Set::empty()) =~= old(paths)@);
    }
}

/// Flushing hands out everything that was gathered and leaves nothing behind. Nothing is handed out
/// only if nothing was gathered and no rescan is due.
pub proof fn flush_hands_out_everything(batcher: &mut EventBatcher, r: Option<FileEventBatch>)
    requires
        call_ensures(EventBatcher::flush, (batcher,), r),
    ensures
        r is Some ==> r->0.paths@ == old(batcher).gathered() && r->0.rescan == old(
            batcher,
        ).rescans(),
        r is None <==> old(batcher).gathered() == Set::<Seq<Part>>::empty() && !old(
            batcher,
        ).rescans(),
        final(batcher).gathered() == Set::<Seq<Part>>::empty(),
        !final(batcher).rescans(),
{
}

/// No watch goes into the directories below. Every directory of the tree and every open file that
/// is there is watched.
pub proof fn watches_do_not_recurse(
    open_files: &Vec<OpenFile>,
    tree_directories: &Vec<TreePath>,
    r: PathMap<RecursiveMode>,
    p: Seq<Part>,
    i: int,
)
    requires
        call_ensures(desired_watches, (open_files, tree_directories), r),
    ensures
        r@.contains_key(p) ==> r@[p] == RecursiveMode::NonRecursive,
        0 <= i < tree_directories.len() ==> r@.contains_key(tree_directories@[i]@),
        0 <= i < open_files.len() && open_files@[i].exists ==> r@.contains_key(
            open_files@[i].path@,
        ),
{
    crate::laws::watching::tree_and_open_files_are_watched(open_files@, tree_directories@);
}

/// A directory is not followed if two of its entries have names without a dot (byte 46) in front,
/// whatever they are, nor if it could not be read. Where it is followed, it is into an entry that
/// is a directory, by its name, and every other entry has a hidden name while these are not shown.
pub proof fn a_lone_directory_is_followed(
    path: &TreePath,
    children: &Option<Vec<Child>>,
    show_hidden: bool,
    r: Option<TreePath>,
    i: int,
    j: int,
)
    requires
        call_ensures(single_visible_directory, (path, children, show_hidden), r),
    ensures
        *children is None ==> r is None,
        *children is Some && 0 <= i < j < children->0.len() && (show_hidden || ((
        children->0@[i].name@.len() == 0 || children->0@[i].name@[0] != 46) && (
        children->0@[j].name@.len() == 0 || children->0@[j].name@[0] != 46))) ==> r is None,
        *children is Some && r is Some ==> exists|k: int|
            {
                &&& 0 <= k < children->0.len()
                &&& (#[trigger] children->0@[k]).is_dir == Some(true)
                &&& r->0@ == path@.push(Part::Normal(children->0@[k].name@))
            },
        *children is Some && children->0.len() == 1 && children->0@[0].is_dir == Some(true) && (
        show_hidden || children->0@[0].name@.len() == 0 || children->0@[0].name@[0] != 46)
            ==> r is Some && r->0@ == path@.push(Part::Normal(children->0@[0].name@)),
{
    if let Some(list) = children {
        if 0 <= i < j < list.len() && (show_hidden || ((list@[i].name@.len() == 0
            || list@[i].name@[0] != 46) && (list@[j].name@.len() == 0 || list@[j].name@[0]
            != 46))) {
            crate::laws::listing::two_shown_entries_are_not_followed(list@, show_hidden, i, j);
        }
        if let Some(name) = crate::listing::only_directory(Some(list@), show_hidden) {
            crate::laws::listing::only_a_lone_directory_is_followed(list@, show_hidden, name);
            let k = choose|k: int|
                {
                    &&& 0 <= k < list.len()
                    &&& (#[trigger] list@[k]).is_dir == Some(true)
                    &&& list@[k].name@ == name
                };
            assert(children->0@[k].is_dir == Some(true));
        }
        if list.len() == 1 && list@[0].is_dir == Some(true) && (show_hidden
            || list@[0].name@.len() == 0 || list@[0].name@[0] != 46) {
            crate::laws::listing::only_a_lone_directory_is_followed(
                list@,
                show_hidden,
                list@[0].name@,
            );
            assert(list@[0].is_dir == Some(true));
        }
    }
}

/// A line is told as a conflict exactly if it is not empty and holds a record with the status
/// "modified" and a target of the type "conflict".
pub proof fn changed_line_tells_conflicts(
    repository: &TreePath,
    changed: ChangedLine,
    r: Option<Result<FileChange, LineError>>,
)
    requires
        call_ensures(changed_line, (repository, changed), r),
    ensures
        r is Some && r->0 is Ok && r->0->Ok_0 is Conflict <==> {
            &&& changed.line.len() > 0
            &&& changed.record is Some
            &&& changed.record->0.status@ == "modified"@
            &&& changed.record->0.target_type@ == "conflict"@
        },
{
    crate::laws::reporting::conflicts_are_modified_into_a_conflict(repository@, changed);
    if let Some(Ok(change)) = r {
        assert(change is Conflict <==> change@ is Conflict);
    }
}

/// Two lines whose records differ in the type of the source alone are told alike, if both are told:
/// the same kind of change, at the same path.
pub proof fn changed_line_ignores_the_source_type(
    repository: &TreePath,
    a: ChangedLine,
    b: ChangedLine,
    first: FileChange,
    second: FileChange,
)
    requires
        a.record is Some,
        b.record is Some,
        a.record->0.path@ == b.record->0.path@,
        a.record->0.status@ == b.record->0.status@,
        a.record->0.source_path@ == b.record->0.source_path@,
        a.record->0.target_type@ == b.record->0.target_type@,
        call_ensures(changed_line, (repository, a), Some(Ok(first))),
        call_ensures(changed_line, (repository, b), Some(Ok(second))),
    ensures
        first@ == second@,
{
    crate::laws::reporting::the_source_type_does_not_count(
        repository@,
        a.record->0,
        b.record->0,
        a,
        b,
    );
}

/// After a call with something to operate on, the clipboard holds the kind that was asked for and
/// the operation paths, all of them, whatever it held before; otherwise it is what it was.
pub proof fn set_clipboard_replaces_the_clipboard(
    tree: &mut FileTree,
    kind: ClipboardKind,
    count: usize,
)
    requires
        call_ensures(FileTree::set_clipboard, (tree, kind), count),
    ensures
        count > 0 ==> {
            &&& final(tree)@.clipboard is Some
            &&& final(tree)@.clipboard->0.kind == kind
            &&& crate::navigate::operated(old(tree)@, final(tree)@.clipboard->0.paths)
            &&& final(tree)@.clipboard->0.paths.len() == count
        },
        count == 0 ==> final(tree)@ == old(tree)@,
        crate::navigate::operated(old(tree)@, Seq::empty()) <==> count == 0,
{
    let paths = choose|paths: Seq<Seq<Part>>| #[trigger]
        crate::navigate::operated(old(tree)@, paths) && count == paths.len() && final(tree)@
            == crate::clipboard::with_clipboard(old(tree)@, kind, paths);
    if count == 0 {
        assert(paths =~= Seq::<Seq<Part>>::empty());
    }
    if crate::navigate::operated(old(tree)@, Seq::empty()) {
        crate::navigate::operation_paths_unique(old(tree)@, paths, Seq::empty());
    }
}

/// Each line that is drawn begins with its mark, is indented by two blanks for each level, and ends
/// with the name of its row.
pub proof fn render_indents_each_row(
    tree: &mut FileTree,
    area: Rect,
    active: &Option<TreePath>,
    diagnostics: Option<PathMap<(usize, usize)>>,
    rows: Vec<DrawnRow>,
    i: int,
)
    requires
        call_ensures(FileTree::render, (tree, area, active, diagnostics), rows),
        0 <= i < rows.len(),
    ensures
        ({
            let row = final(tree)@.rows[final(tree)@.scroll + i];
            let text = rows@[i].text@;
            let sign = 2 + 2 * row.depth as int;
            &&& text.len() == sign + 2 + row.name.len()
            &&& text[0] == (if final(tree)@.marked.contains(row.path) {
                '●'
            } else {
                ' '
            })
            &&& forall|k: int| 1 <= k < sign ==> #[trigger] text[k] == ' '
            &&& text.skip(sign + 2) == row.name
        }),
        rows.len() <= max(area.height as int, 1),
{
    let row = final(tree)@.rows[final(tree)@.scroll + i];
    crate::laws::drawing::row_is_drawn_in_columns(final(tree)@, row);
    assert(rows@[i]@.text == rows@[i].text@);
}

/// A refresh is due before drawing exactly if one was asked for or the working directory is another
/// one. The place is remembered, and the request is gone.
pub proof fn begin_render_asks_for_a_refresh(
    tree: &mut FileTree,
    area: Rect,
    cwd: &TreePath,
    refresh: bool,
)
    requires
        call_ensures(FileTree::begin_render, (tree, area, cwd), refresh),
    ensures
        refresh <==> old(tree)@.dirty || cwd@ != old(tree)@.root,
        !final(tree)@.dirty,
        final(tree)@.last_area == Some(area),
        final(tree)@.rows == old(tree)@.rows,
        final(tree)@.root == old(tree)@.root,
{
}

/// The border runs down the first column of the tree, one cell for each line of the screen.
pub proof fn border_runs_down_the_first_column(area: Rect, cells: Vec<(u16, u16)>, i: int)
    requires
        call_ensures(border, (area,), cells),
        0 <= i < cells.len(),
    ensures
        cells.len() == min(area.y + area.height, 65535) - area.y,
        cells@[i].0 == area.x,
        cells@[i].1 == area.y + i,
{
}

/// A hidden tree is shown with the focus. A visible one gives the focus to the editor if it has it,
/// and takes it otherwise. Showing asks for a refresh, and taking the focus for revealing the file
/// where that is configured.
pub proof fn toggle_focus_shows_or_switches(
    tree: &mut FileTree,
    config: &TreeConfig,
    r: (bool, bool),
)
    requires
        call_ensures(FileTree::toggle_focus, (tree, config), r),
    ensures
        final(tree)@.visible,
        !old(tree)@.visible ==> final(tree)@.focused && r.0,
        old(tree)@.visible ==> final(tree)@.focused == !old(tree)@.focused && !r.0,
        r.1 <==> final(tree)@.focused && config.auto_reveal,
        final(tree)@.rows == old(tree)@.rows && final(tree)@.cursor == old(tree)@.cursor,
{
}

/// Showing and hiding switch. Only showing asks for a refresh, and a hidden tree has no focus.
pub proof fn toggle_shows_and_hides(tree: &mut FileTree, refresh: bool)
    requires
        call_ensures(FileTree::toggle, (tree,), refresh),
    ensures
        final(tree)@.visible == !old(tree)@.visible,
        refresh == final(tree)@.visible,
        old(tree)@.visible ==> !final(tree)@.focused,
{
}

/// A tree without room loses the focus and its place on the screen, and keeps everything else; one
/// with room keeps everything.
pub proof fn layout_takes_the_focus_without_room(
    tree: &mut FileTree,
    area: Rect,
    r: (Rect, Option<Rect>),
)
    requires
        call_ensures(FileTree::layout, (tree, area), r),
    ensures
        r.1 is Some ==> final(tree)@ == old(tree)@,
        r.1 is None ==> r.0 == area && !final(tree)@.focused && final(tree)@.last_area is None,
        r.1 is None ==> final(tree)@.visible == old(tree)@.visible && final(tree)@.rows == old(
            tree,
        )@.rows,
        r.1 is Some ==> old(tree)@.visible && r.0.width + r.1->0.width == area.width && r.1->0.width
            <= old(tree)@.width && r.0.width >= min(20, area.width as int),
{
}

/// Opening a file gives the focus to the editor exactly if it succeeds.
pub proof fn opened_gives_the_focus_away(tree: &mut FileTree, succeeded: bool)
    requires
        call_ensures(FileTree::opened, (tree, succeeded), ()),
    ensures
        succeeded ==> !final(tree)@.focused && final(tree)@ == (TreeView {
            focused: false,
            ..old(tree)@
        }),
        !succeeded ==> final(tree)@ == old(tree)@,
{
}

/// A change is taken up exactly if it comes under the generation that is current: it is then shown
/// at its path, and a redraw is due. Under another generation nothing changes and the iteration
/// ends.
pub proof fn git_change_counts_in_its_generation(
    tree: &mut FileTree,
    generation: u64,
    change: Option<FileChange>,
    r: GitUpdate,
)
    requires
        call_ensures(FileTree::git_change, (tree, generation, change), r),
    ensures
        r.proceed <==> generation == old(tree)@.git_generation,
        r.redraw <==> generation == old(tree)@.git_generation && change is Some,
        generation != old(tree)@.git_generation ==> final(tree)@ == old(tree)@,
        change is None ==> final(tree)@ == old(tree)@,
        generation == old(tree)@.git_generation && change is Some ==> match change->0@ {
            ChangeView::Untracked(path) => final(tree)@.git_status[path] == GitState::Untracked,
            ChangeView::Modified(path) => final(tree)@.git_status[path] == GitState::Modified,
            ChangeView::Conflict(path) => final(tree)@.git_status[path] == GitState::Conflict,
            ChangeView::Deleted(path) => final(tree)@.git_status[path] == GitState::Deleted,
            ChangeView::Renamed(_, path) => final(tree)@.git_status[path] == GitState::Renamed,
        },
{
}

/// A new tree is what its configuration says: empty, at the top, with its root open, without the
/// focus, and between its bounds as wide as configured.
pub proof fn new_trees_follow_the_configuration(
    config: &TreeConfig,
    root: TreePath,
    tree: FileTree,
    path: Seq<Part>,
)
    requires
        call_ensures(FileTree::new, (config, root), tree),
    ensures
        tree@.root == root@,
        tree@.rows.len() == 0,
        tree@.expanded.contains(path) <==> path == root@,
        !tree@.marked.contains(path),
        tree@.cursor == 0 && tree@.scroll == 0,
        tree@.visible == config.visible,
        !tree@.focused,
        tree@.show_hidden == !config.hidden,
        tree@.clipboard is None,
        tree@.width == max(
            min(config.min_width as int, config.max_width as int),
            min(config.width as int, max(config.min_width as int, config.max_width as int)),
        ),
        !tree@.git_status.contains_key(path),
        !tree@.dirty,
{
}

/// Of two bounds the smaller comes first.
pub proof fn bounds_are_put_in_order(a: u16, b: u16, r: (u16, u16))
    requires
        call_ensures(ordered_width_bounds, (a, b), r),
    ensures
        r.0 == min(a as int, b as int),
        r.1 == max(a as int, b as int),
{
}

/// A link is copied as a link, even one that leads to a directory; anything else as what it is.
pub proof fn links_are_copied_as_links(is_symlink: bool, is_dir: bool, r: CopyAction)
    requires
        call_ensures(copy_action, (is_symlink, is_dir), r),
    ensures
        r == CopyAction::Link <==> is_symlink,
        r == CopyAction::Directory <==> !is_symlink && is_dir,
        r == CopyAction::File <==> !is_symlink && !is_dir,
{
}

/// A paste is refused exactly if a target exists or lies inside its own source. An existing target
/// is told first, the first of them.
pub proof fn pastes_are_refused_before_they_start(
    job: &PasteJob,
    existing: &Vec<bool>,
    r: Option<PasteRefusal>,
    i: int,
)
    requires
        existing.len() == job.targets.len(),
        call_ensures(PasteJob::refusal, (job, existing), r),
        0 <= i < existing.len(),
    ensures
        existing@[i] ==> r is Some && r->0 is Exists,
        existing@[i] && (forall|j: int| 0 <= j < i ==> !(#[trigger] existing@[j]))
            ==> r->0->Exists_target@ == job.targets@[i].1@,
        job.targets@[i].0@.len() <= job.targets@[i].1@.len() && job.targets@[i].0@
            == job.targets@[i].1@.take(job.targets@[i].0@.len() as int) ==> r is Some,
        r is Some && r->0 is Exists ==> exists|j: int|
            0 <= j < existing.len() && #[trigger] existing@[j],
{
    let targets = crate::clipboard::target_views(job.targets@);
    assert(targets[i] == (job.targets@[i].0@, job.targets@[i].1@));
    if existing@[i] {
        crate::laws::pasting::the_first_existing_target_is_told(existing@, i, i);
        assert(existing@.contains(true));
    }
    if existing@[i] && (forall|j: int| 0 <= j < i ==> !(#[trigger] existing@[j])) {
        assert(crate::clipboard::first_existing(existing@, i));
    }
    if job.targets@[i].0@.len() <= job.targets@[i].1@.len() && job.targets@[i].0@
        =~= job.targets@[i].1@.take(job.targets@[i].0@.len() as int) {
        assert(crate::path::under(targets[i].1, targets[i].0));
    }
}

/// The end of a paste counts what was done. After a cut that went through the clipboard is empty,
/// after a copy it is what it was, and after a failure the whole tree is.
pub proof fn finish_paste_settles_clipboard_and_marks(
    tree: &mut FileTree,
    job: &PasteJob,
    r: PasteEnd,
    path: Seq<Part>,
)
    requires
        call_ensures(FileTree::finish_paste, (tree, job), r),
    ensures
        job.failed ==> r == PasteEnd::Stopped(job.completed) && final(tree)@ == old(tree)@,
        !job.failed ==> r == PasteEnd::Pasted(job.targets.len()) && !final(tree)@.marked.contains(
            path,
        ),
        !job.failed && job.kind == ClipboardKind::Cut ==> final(tree)@.clipboard is None,
        !job.failed && job.kind == ClipboardKind::Copy ==> final(tree)@.clipboard == old(
            tree,
        )@.clipboard,
{
}

/// Deleting takes the word "yes", validated, and nothing else.
pub proof fn deleting_takes_a_yes(
    prompt: &DeletePrompt,
    validated: bool,
    input: &str,
    confirmed: bool,
)
    requires
        call_ensures(DeletePrompt::confirmed, (prompt, validated, input), confirmed),
    ensures
        confirmed <==> validated && input@ == seq!['y', 'e', 's'],
{
    reveal_strlit("yes");
    assert("yes"@ =~= seq!['y', 'e', 's']);
}

/// A rename is carried out exactly if there is a validated answer and nothing at the target. It is
/// refused if there is something, and ignored without an answer, whatever is at the target.
pub proof fn renaming_spares_what_exists(
    prompt: &RenamePrompt,
    validated: bool,
    input: &str,
    target_exists: bool,
    r: RenameAction,
)
    requires
        call_ensures(RenamePrompt::action, (prompt, validated, input, target_exists), r),
    ensures
        r == RenameAction::Move <==> validated && input@.len() > 0 && !target_exists,
        r == RenameAction::Refuse <==> validated && input@.len() > 0 && target_exists,
        r == RenameAction::Ignore <==> !validated || input@.len() == 0,
{
}

/// What is asked for is named: a directory or a file.
pub proof fn creations_are_labelled(prompt: &CreatePrompt, r: String)
    requires
        call_ensures(CreatePrompt::label, (prompt,), r),
    ensures
        prompt.is_dir ==> r@ == "New directory: "@,
        !prompt.is_dir ==> r@ == "New file: "@,
{
}

/// An empty clipboard is told as such.
pub proof fn empty_clipboards_are_told(r: String)
    requires
        call_ensures(empty_clipboard_message, (), r),
    ensures
        r@ == "File-tree clipboard is empty"@,
{
}

/// A path is looked up only if it could be resolved and is a regular file; what could be resolved
/// and is none is told by its path.
pub proof fn only_regular_files_are_looked_up(
    resolved: Option<TreePath>,
    is_file: bool,
    shown: &str,
    r: Result<TreePath, JjError>,
)
    requires
        call_ensures(canonical_file, (resolved, is_file, shown), r),
    ensures
        r is Ok <==> resolved is Some && is_file,
        r is Ok ==> r->Ok_0@ == resolved->0@,
        resolved is None ==> r->Err_0.failure == JjFailure::Unresolved,
        resolved is Some && !is_file ==> r->Err_0.failure == JjFailure::NotAFile
            && r->Err_0.detail@ == shown@,
{
}

/// A lookup starts with the root of the workspace, unless the file lies in no directory.
pub proof fn lookups_start_with_the_root(file: TreePath, r: Lookup)
    requires
        call_ensures(Lookup::start, (file,), r),
    ensures
        file@.len() > 0 && file@.last() is Normal ==> r@ == (LookupView::Root { file: file@ }),
        file@.len() == 0 || file@.last() is RootDir || file@.last() is Prefix ==> r@ is Done
            && r@->Done_0 is Err && r@->Done_0->Err_0.failure == JjFailure::NoDirectory,
{
}

/// The end of an iteration is told only if it failed and the listener has not stopped it.
pub proof fn only_failures_are_told_at_the_end(
    iteration: &Iteration,
    result: Result<(), VcsError>,
    r: Option<VcsError>,
)
    requires
        call_ensures(Iteration::closing, (iteration, result), r),
    ensures
        r is Some <==> result is Err && !iteration.stopped,
        r is Some ==> r->0 == result->Err_0,
{
}

/// A job hands out its targets in turn, from the first that is not done, and none once it is over.
pub proof fn pastes_hand_out_the_next_target(job: &PasteJob, r: Option<(TreePath, TreePath)>)
    requires
        call_ensures(PasteJob::next, (job,), r),
        job.completed <= job.targets.len(),
    ensures
        r is Some <==> !job.failed && job.completed < job.targets.len(),
        r is Some ==> (r->0).0@ == job.targets@[job.completed as int].0@ && (r->0).1@
            == job.targets@[job.completed as int].1@,
{
    let views = crate::clipboard::target_views(job.targets@);
    if job.completed < job.targets.len() {
        let i = job.completed as int;
        assert(views[i] == (job.targets@[i].0@, job.targets@[i].1@));
    }
}

/// A success counts one more target, a failure ends the job. What is pasted, and how, stays.
pub proof fn pastes_count_what_was_done(job: &mut PasteJob, succeeded: bool, more: bool)
    requires
        call_ensures(PasteJob::performed, (job, succeeded), more),
    ensures
        succeeded ==> final(job).completed == old(job).completed + 1 && !final(job).failed,
        !succeeded ==> final(job).completed == old(job).completed && final(job).failed,
        more <==> succeeded && old(job).completed + 1 < old(job).targets.len(),
        final(job).targets == old(job).targets,
        final(job).kind == old(job).kind,
{
    assert(final(job).progress().completed == final(job).completed);
}

/// A prompt hands out its paths in turn, from the first that is not deleted.
pub proof fn deletions_hand_out_the_next_path(prompt: &DeletePrompt, r: Option<TreePath>)
    requires
        call_ensures(DeletePrompt::next, (prompt,), r),
        prompt.completed <= prompt.paths.len(),
    ensures
        r is Some <==> prompt.completed < prompt.paths.len(),
        r is Some ==> r->0@ == prompt.paths@[prompt.completed as int]@,
{
    let views = crate::collections::path_views(prompt.paths@);
    if prompt.completed < prompt.paths.len() {
        assert(views[prompt.completed as int] == prompt.paths@[prompt.completed as int]@);
    }
}

/// A deletion counts one more path and asks for a refresh; a failure does neither and ends it.
pub proof fn deletions_count_what_was_done(
    prompt: &mut DeletePrompt,
    tree: &mut FileTree,
    succeeded: bool,
    more: bool,
)
    requires
        call_ensures(DeletePrompt::deleted, (prompt, tree, succeeded), more),
    ensures
        succeeded ==> final(prompt).completed == old(prompt).completed + 1 && final(tree)@.dirty,
        !succeeded ==> final(prompt).completed == old(prompt).completed && final(tree)@ == old(
            tree,
        )@,
        more <==> succeeded && old(prompt).completed + 1 < old(prompt).paths.len(),
        final(prompt).paths == old(prompt).paths,
{
}

/// A path that is created or renamed to is put behind the directory that the prompt was made for.
pub proof fn answers_are_put_into_the_directory(
    create: &CreatePrompt,
    rename: &RenamePrompt,
    input: &TreePath,
    created: TreePath,
    renamed: TreePath,
)
    requires
        call_ensures(CreatePrompt::target, (create, input), created),
        call_ensures(RenamePrompt::target, (rename, input), renamed),
        input@.len() > 0,
        input@[0] is Normal,
    ensures
        create.parent@.len() > 0 && !(create.parent@[0] is Prefix) ==> created@ == create.parent@
            + input@,
        rename.parent@.len() > 0 && !(rename.parent@[0] is Prefix) ==> renamed@ == rename.parent@
            + input@,
{
    crate::laws::paths::joining_puts_paths_behind_one_another(create.parent@, input@);
    crate::laws::paths::joining_puts_paths_behind_one_another(rename.parent@, input@);
}

/// Renaming offers the name as it is shown, and tells a failure and an existing target.
pub proof fn renames_are_told(
    prompt: &RenamePrompt,
    text: &str,
    label: String,
    line: String,
    refusal: String,
    failure: String,
)
    requires
        call_ensures(RenamePrompt::label, (prompt,), label),
        call_ensures(RenamePrompt::line, (prompt,), line),
        call_ensures(RenamePrompt::refusal, (prompt, text), refusal),
        call_ensures(RenamePrompt::failure, (prompt, text), failure),
    ensures
        label@ == "Rename: "@,
        line@ == crate::text::lossy(prompt.name@),
        refusal@ == "Destination already exists: "@ + text@,
        failure@ == "Could not rename: "@ + text@,
{
}

/// A refused paste names the target, and the source where the target lies in it.
pub proof fn refusals_are_told(refusal: &PasteRefusal, source: &str, target: &str, r: String)
    requires
        call_ensures(PasteRefusal::message, (refusal, source, target), r),
    ensures
        *refusal is Exists ==> r@ == "Destination already exists: "@ + target@,
        *refusal is InsideItself ==> r@ == "Cannot place "@ + source@ + " inside itself ("@
            + target@ + ")"@,
{
}

/// An error of the lookup is told with its detail behind it; a path that is no file stands before
/// what is told of it.
pub proof fn lookup_errors_are_told(error: &JjError, r: String)
    requires
        call_ensures(JjError::message, (error,), r),
    ensures
        error.failure is NotAFile ==> r@ == error.detail@ + " is not a regular file"@,
        !(error.failure is NotAFile) ==> r@ == crate::jj::failure_text(error.failure)
            + error.detail@,
{
}

/// An error of a line tells that it is no record, or which status is not known.
pub proof fn line_errors_are_told(error: &LineError, r: String)
    requires
        call_ensures(LineError::message, (error,), r),
    ensures
        *error is Unparsed ==> r@ == "parse jj diff template"@,
        *error is Unsupported ==> r@ == "unsupported jj diff status "@ + error->Unsupported_0@,
{
}

/// An error of a provider is told as it came.
pub proof fn provider_errors_are_told(error: &VcsError, r: String)
    requires
        call_ensures(VcsError::message, (error,), r),
    ensures
        *error is NoDiffSupport ==> r@ == "No diff support compiled in"@,
        *error is NoProvider ==> r@ == "no diff provider returns success"@,
        *error is Provider ==> r@ == error->Provider_0@,
{
}

/// The rows of a directory are put behind the rows that are there.
pub proof fn rows_are_put_behind(
    read: &PathMap<Vec<Entry>>,
    expanded: &PathSet,
    options: WalkOptions,
    dir: &TreePath,
    depth: usize,
    rows: &mut Vec<Row>,
    missing: &mut Vec<TreePath>,
    i: int,
)
    requires
        call_ensures(collect_rows, (read, expanded, options, dir, depth, rows, missing), ()),
    ensures
        old(rows).len() <= final(rows).len(),
        0 <= i < old(rows).len() ==> final(rows)@[i]@ == old(rows)@[i]@,
        !read@.contains_key(dir@) ==> final(rows).len() == old(rows).len() && final(missing).len()
            == old(missing).len() + 1 && final(missing)@[old(missing).len() as int]@ == dir@,
{
    let before = crate::listing::row_views(old(rows)@);
    let after = crate::listing::row_views(final(rows)@);
    assert(before.len() == old(rows).len());
    assert(after.len() == final(rows).len());
    if 0 <= i < old(rows).len() {
        assert(before[i] == old(rows)@[i]@);
        assert(after[i] == final(rows)@[i]@);
    }
    if !read@.contains_key(dir@) {
        crate::laws::listing::directories_give_what_was_read(
            read@,
            expanded.listed(),
            options,
            dir@,
            depth as nat,
        );
        let paths = crate::collections::path_views(final(missing)@);
        assert(paths.len() == final(missing).len());
        assert(crate::collections::path_views(old(missing)@).len() == old(missing).len());
        assert(paths[old(missing).len() as int] == final(missing)@[old(missing).len() as int]@);
    }
}

/// The order of entries takes each of them, and puts no directory behind an entry that is none.
pub proof fn sorting_puts_directories_first(
    entries: &Vec<Entry>,
    order: Vec<usize>,
    i: int,
    j: int,
)
    requires
        call_ensures(sort_entries, (entries,), order),
        0 <= i < j < order.len(),
    ensures
        order.len() == entries.len(),
        order@[i] < entries.len(),
        entries@[order@[j] as int].kind == Some(EntryKind::Directory) ==> entries@[order@[i] as int].kind
            == Some(EntryKind::Directory),
{
    let views = crate::listing::entry_views(entries@);
    let sorted = crate::listing::sorted_entries(views);
    crate::listing::sorted_entries_law(views);
    let picked = crate::listing::picked(entries@, order@);
    assert(picked.len() == order.len());
    assert(picked[i] == entries@[order@[i] as int]@);
    assert(picked[j] == entries@[order@[j] as int]@);
    if entries@[order@[j] as int].kind == Some(EntryKind::Directory) {
        crate::laws::listing::shown_order_puts_directories_first(views, i, j);
    }
}

/// A copy or a cut fills the clipboard with its own kind and tells how many paths are in it; with
/// nothing to operate on it changes and tells nothing.
pub proof fn execute_fills_the_clipboard(
    tree: &mut FileTree,
    action: FileTreeAction,
    config: &TreeConfig,
    documents: &Vec<OpenDocument>,
    effect: Effect,
)
    requires
        call_ensures(FileTree::execute, (tree, action, config, documents), effect),
        action is Copy || action is Cut,
    ensures
        effect is Nothing || effect is Clipboard,
        effect is Nothing ==> final(tree)@ == old(tree)@,
        effect is Clipboard ==> {
            &&& effect->Clipboard_kind == ClipboardKind::Cut <==> action is Cut
            &&& final(tree)@.clipboard is Some
            &&& final(tree)@.clipboard->0.kind == effect->Clipboard_kind
            &&& final(tree)@.clipboard->0.paths.len() == effect->count
            &&& effect->count > 0
            &&& crate::navigate::operated(old(tree)@, final(tree)@.clipboard->0.paths)
        },
{
    let kind = if action is Cut {
        ClipboardKind::Cut
    } else {
        ClipboardKind::Copy
    };
    let paths = choose|paths: Seq<Seq<Part>>| #[trigger]
        crate::navigate::operated(old(tree)@, paths) && final(tree)@
            == crate::clipboard::with_clipboard(old(tree)@, kind, paths) && (if paths.len() == 0 {
            effect is Nothing
        } else {
            effect == (Effect::Clipboard { kind, count: paths.len() as usize }) && paths.len()
                <= usize::MAX
        });
    assert(crate::navigate::operated(old(tree)@, paths));
}

/// Of the actions on the row under the cursor those ask for a refresh that open or close a
/// directory: exactly if what is open has changed.
pub proof fn opening_and_closing_ask_for_a_refresh(
    toggled: &mut FileTree,
    collapsed: &mut FileTree,
    toggle: bool,
    collapse: bool,
)
    requires
        call_ensures(FileTree::toggle_expand, (toggled,), toggle),
        call_ensures(FileTree::collapse_or_parent, (collapsed,), collapse),
    ensures
        toggle <==> final(toggled)@.expanded != old(toggled)@.expanded,
        collapse <==> final(collapsed)@.expanded != old(collapsed)@.expanded,
{
    let before = old(toggled)@;
    if before.cursor < before.rows.len() {
        let path = before.rows[before.cursor].path;
        crate::laws::moving::toggling_flips_the_row_under_the_cursor(before, path);
    }
    let open = old(collapsed)@;
    if open.cursor < open.rows.len() {
        let path = open.rows[open.cursor].path;
        assert(crate::navigate::selects_open_dir(open) ==> open.expanded.contains(path)
            && !open.expanded.remove(path).contains(path));
    }
}

/// Revealing a file asks for a refresh exactly if its path begins with the components of the root.
pub proof fn revealing_asks_for_a_refresh_in_the_tree(
    tree: &mut FileTree,
    path: &TreePath,
    refresh: bool,
    dir: Seq<Part>,
)
    requires
        call_ensures(FileTree::reveal_current, (tree, path), refresh),
    ensures
        refresh <==> old(tree)@.root.len() <= path@.len() && old(tree)@.root == path@.take(
            old(tree)@.root.len() as int,
        ),
        old(tree)@.expanded.contains(dir) ==> final(tree)@.expanded.contains(dir),
        final(tree)@.cursor == old(tree)@.cursor,
{
    if refresh {
        assert(old(tree)@.root =~= path@.take(old(tree)@.root.len() as int));
    }
}

/// An event over the tree is taken, and any other is left alone with the tree as it was. A click
/// asks for a refresh exactly if it has opened or closed something.
pub proof fn clicks_ask_for_a_refresh_when_they_toggle(
    tree: &mut FileTree,
    event: TerminalEvent,
    r: EventResult,
)
    requires
        call_ensures(FileTree::handle_event, (tree, event), r),
        old(tree).wf(),
    ensures
        r is Ignored ==> final(tree)@ == old(tree)@,
        r is Consumed <==> crate::events::over_tree(old(tree)@, event),
        r is Consumed ==> (r->refresh <==> final(tree)@.expanded != old(tree)@.expanded),
{
    let before = old(tree)@;
    if crate::events::over_tree(before, event) {
        let mouse = event->Mouse_0;
        let area = before.last_area->0;
        if mouse.kind == MouseKind::DownLeft {
            let index = crate::events::row_at_line(before, area, mouse.row);
            if index < before.rows.len() {
                let path = before.rows[index].path;
                let there = crate::tree::at_row(TreeView { focused: true, ..before }, index);
                assert(there.cursor == index);
                crate::laws::moving::toggling_flips_the_row_under_the_cursor(there, path);
            }
        }
    }
}

/// A refresh that lacks directories names them and leaves the rows. One that lacks none shows the
/// working directory: it keeps marks only where they were and the path exists, forgets the states,
/// and asks for new ones exactly if the tree is visible and states are configured.
pub proof fn refresh_shows_the_working_directory(
    tree: &mut FileTree,
    cwd: TreePath,
    read: &PathMap<Vec<Entry>>,
    existing: &PathSet,
    config: &TreeConfig,
    r: Refresh,
    path: Seq<Part>,
)
    requires
        call_ensures(FileTree::refresh, (tree, cwd, read, existing, config), r),
    ensures
        final(tree)@.root == cwd@,
        r is Read ==> r->Read_0.len() > 0 && final(tree)@.rows == old(tree)@.rows,
        r is Read && cwd@ == old(tree)@.root ==> final(tree)@ == old(tree)@,
        r is Done ==> {
            &&& final(tree)@.marked.contains(path) ==> old(tree)@.marked.contains(path)
                && existing@.contains(path)
            &&& cwd@ == old(tree)@.root && old(tree)@.marked.contains(path) && existing@.contains(
                path,
            ) ==> final(tree)@.marked.contains(path)
            &&& !final(tree)@.git_status.contains_key(path)
            &&& r->Done_0 is Some <==> old(tree)@.visible && config.git_status
            &&& r->Done_0 is Some ==> r->Done_0->0 == final(tree)@.git_generation
                && final(tree)@.git_generation != old(tree)@.git_generation
            &&& cwd@ == old(tree)@.root ==> final(tree)@.expanded == old(tree)@.expanded
                && final(tree)@.clipboard == old(tree)@.clipboard
            &&& cwd@ != old(tree)@.root ==> final(tree)@.clipboard is None
        },
        final(tree)@.visible == old(tree)@.visible,
        final(tree)@.focused == old(tree)@.focused,
        final(tree)@.width == old(tree)@.width,
        final(tree)@.show_hidden == old(tree)@.show_hidden,
{
    if let Refresh::Read(missing) = r {
        assert(crate::collections::path_views(missing@).len() == missing.len());
    }
}

/// Changes are asked for unless paths were given and none of them begins with the components of the
/// repository.
pub proof fn changes_are_asked_for_in_the_repository(
    repository: &TreePath,
    paths: &Vec<TreePath>,
    r: Option<Vec<Arg>>,
    i: int,
)
    requires
        call_ensures(diff_args, (repository, paths), r),
    ensures
        paths.len() == 0 ==> r is Some,
        0 <= i < paths.len() && repository@.len() <= paths@[i]@.len() && repository@
            == paths@[i]@.take(repository@.len() as int) ==> r is Some,
        r is None ==> paths.len() > 0,
{
    if 0 <= i < paths.len() && repository@.len() <= paths@[i]@.len() && repository@
        =~= paths@[i]@.take(repository@.len() as int) {
        let views = crate::collections::path_views(paths@);
        let first = views.take(i);
        let rest = views.skip(i + 1);
        let path = paths@[i]@;
        assert(views[i] == path);
        assert(views =~= first + (seq![path] + rest));
        crate::laws::asking::paths_are_given_within_the_repository(
            repository@,
            first,
            seq![path] + rest,
            path,
        );
        crate::laws::asking::paths_are_given_within_the_repository(
            repository@,
            seq![path],
            rest,
            path,
        );
        assert(crate::jj::paths_within(repository@, views).len() > 0);
    }
}

/// Following a chain adds one name to it and one component to its path, or changes nothing.
pub proof fn chains_grow_by_one_name(
    chain: &mut Flattening,
    children: &Option<Vec<Child>>,
    show_hidden: bool,
    more: bool,
)
    requires
        call_ensures(Flattening::follow, (chain, children, show_hidden), more),
    ensures
        !more ==> *final(chain) == *old(chain),
        more ==> {
            &&& final(chain).names.len() == old(chain).names.len() + 1
            &&& final(chain).path@ == old(chain).path@.push(
                Part::Normal(final(chain).names@[old(chain).names.len() as int]@),
            )
        },
        *children is None ==> !more,
{
    if more {
        let before = crate::listing::name_views(old(chain).names@);
        let after = crate::listing::name_views(final(chain).names@);
        assert(before.len() == old(chain).names.len());
        assert(after.len() == final(chain).names.len());
        assert(after[before.len() as int] == final(chain).names@[before.len() as int]@);
    }
}

/// What is left of a path without its beginning, put behind that beginning, is the path; and there
/// is such a rest exactly if the path begins so.
pub proof fn stripping_undoes_what_stood_before(
    path: &TreePath,
    base: &TreePath,
    r: Option<TreePath>,
)
    requires
        call_ensures(TreePath::strip_prefix, (path, base), r),
    ensures
        r is Some ==> base@ + r->0@ == path@,
        r is None ==> !(base@.len() <= path@.len() && base@ == path@.take(base@.len() as int)),
{
    if let Some(rest) = r {
        assert(base@ + rest@ =~= path@);
    }
}

/// A failure to create, to delete or to open something names the path and the error.
pub proof fn failures_name_what_was_tried(
    create: &CreatePrompt,
    delete: &DeletePrompt,
    path: &str,
    error: &str,
    created: String,
    deleted: String,
    opened: String,
)
    requires
        call_ensures(CreatePrompt::failure, (create, path, error), created),
        call_ensures(DeletePrompt::failure, (delete, path, error), deleted),
        call_ensures(open_failure, (path, error), opened),
    ensures
        created@ == "Could not create "@ + path@ + ": "@ + error@,
        deleted@ == "Could not delete "@ + path@ + ": "@ + error@,
        opened@ == "Could not open "@ + path@ + ": "@ + error@,
{
}

/// A paste starts unless the clipboard is empty or there is no row, with the kind of the clipboard,
/// nothing done, and no more targets than the clipboard has paths.
pub proof fn pastes_start_with_the_clipboard(tree: &FileTree, r: PasteStart)
    requires
        call_ensures(FileTree::paste, (tree,), r),
    ensures
        r is EmptyClipboard <==> tree@.clipboard is None,
        r is NoRow <==> tree@.clipboard is Some && tree@.rows.len() <= tree@.cursor,
        r is Job ==> {
            &&& r->Job_0.kind == tree@.clipboard->0.kind
            &&& r->Job_0.completed == 0
            &&& r->Job_0.targets.len() <= tree@.clipboard->0.paths.len()
        },
{
    crate::laws::pasting::pasting_goes_where_the_cursor_is(tree@);
    if let PasteStart::Job(job) = r {
        crate::laws::pasting::targets_are_no_more_than_sources(
            tree@.clipboard->0.paths,
            crate::clipboard::directory_at(tree@)->0,
        );
        assert(crate::clipboard::target_views(job.targets@).len() == job.targets.len());
        assert(job.progress().completed == 0);
    }
}

} // verus!
