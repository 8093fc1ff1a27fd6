//! Bringing the tree up to date with the disk and with version control.

use vstd::prelude::*;

use crate::collections::{path_views, PathMap, PathSet};
use crate::geometry::Rect;
use crate::listing::{collect_rows, row_views, walk_dir, Entry, Row, RowView, WalkOptions};
use crate::metadata::GitState;
use crate::navigate::{
    centered, clamped_keeps_what_is_in_view, opened_up, revealed_file_is_centered,
};
use crate::path::{is_ancestor, strictly_under, Part, TreePath};
use crate::render::{drawn_height, drawn_row_is_centered, fitted};
use crate::rows::{expanded_path_has_a_row, paths_distinct, reachable};
use crate::tree::{
    clamped, cursor_in_view, first_row, first_row_is_first, next_generation, selected, FileTree,
    TreeConfig, TreeView,
};
use crate::vcs::{ChangeView, FileChange};

verus! {

/// How far a refresh has come.
#[derive(Debug)]
pub enum Refresh {
    /// These directories have to be read first.
    Read(Vec<TreePath>),
    /// The tree is up to date. Version control is to be asked for the changed files, for the given
    /// generation of states, where there is one.
    Done(Option<u64>),
}

/// The tree after it has been taken to a directory: what belonged to another one is forgotten.
pub open spec fn entered(tree: TreeView, cwd: Seq<Part>) -> TreeView {
    if tree.root == cwd {
        tree
    } else {
        TreeView {
            root: cwd,
            expanded: Set::empty().insert(cwd),
            marked: Set::empty(),
            clipboard: None,
            cursor: 0,
            scroll: 0,
            ..tree
        }
    }
}

/// The directories that are expanded after the tree has been taken to a directory, in the order in
/// which they are held.
pub open spec fn entered_expanded(tree: FileTree, cwd: Seq<Part>) -> Seq<Seq<Part>> {
    if tree.root@ == cwd {
        tree.expanded.listed()
    } else {
        seq![cwd]
    }
}

/// The tree with new rows: the cursor stays on the path on which it stood, where that still has a
/// row, and marks of paths that do not exist any more are dropped.
pub open spec fn with_rows(
    tree: TreeView,
    rows: Seq<RowView>,
    existing: Set<Seq<Part>>,
) -> TreeView {
    let cursor = match selected(tree) {
        Some(row) => match first_row(rows, row.path, 0) {
            Some(index) => index,
            None => tree.cursor,
        },
        None => tree.cursor,
    };
    clamped(TreeView { rows, marked: tree.marked.intersect(existing), cursor, ..tree })
}

/// The tree with its version-control states forgotten. Where they are shown, a new generation of
/// them begins.
pub open spec fn states_forgotten(tree: TreeView, shown: bool) -> TreeView {
    TreeView {
        git_status: Map::empty(),
        git_generation: if tree.visible && shown {
            next_generation(tree.git_generation)
        } else {
            tree.git_generation
        },
        ..tree
    }
}

/// The generation of states for which version control is to be asked.
pub open spec fn asked_generation(tree: TreeView, shown: bool) -> Option<u64> {
    if tree.visible && shown {
        Some(next_generation(tree.git_generation))
    } else {
        None
    }
}

/// The path and the state that a change gives it. A renamed file is shown at its new path.
pub open spec fn state_of(change: ChangeView) -> (Seq<Part>, GitState) {
    match change {
        ChangeView::Untracked(path) => (path, GitState::Untracked),
        ChangeView::Modified(path) => (path, GitState::Modified),
        ChangeView::Conflict(path) => (path, GitState::Conflict),
        ChangeView::Deleted(path) => (path, GitState::Deleted),
        ChangeView::Renamed(_, to_path) => (to_path, GitState::Renamed),
    }
}

/// What becomes of a report about a changed file.
#[derive(Debug, Clone, Copy, PartialEq, Eq, Structural)]
pub struct GitUpdate {
    /// More reports are welcome.
    pub proceed: bool,
    /// The tree has to be drawn again.
    pub redraw: bool,
}

impl FileTree {
    /// Brings the tree up to date. `read` holds the entries of the directories read so far, and
    /// `existing` those of the marked paths that exist. Directories that have to be read first are
    /// returned; until they have been read the rows stay as they are.
    pub fn refresh(
        &mut self,
        cwd: TreePath,
        read: &PathMap<Vec<Entry>>,
        existing: &PathSet,
        config: &TreeConfig,
    ) -> (r: Refresh)
        requires
            old(self).wf(),
            read.wf(),
        ensures
            final(self).wf(),
            ({
                let start = entered(old(self)@, cwd@);
                let walk = walk_dir(
                    read@,
                    entered_expanded(*old(self), cwd@),
                    config.walk_options(),
                    cwd@,
                    0,
                );
                match r {
                    Refresh::Read(missing) => {
                        &&& walk.missing.len() > 0
                        &&& path_views(missing@) == walk.missing
                        &&& final(self)@ == start
                    },
                    Refresh::Done(generation) => {
                        let shown = with_rows(start, walk.rows, existing@);
                        &&& walk.missing.len() == 0
                        &&& final(self)@ == states_forgotten(shown, config.git_status)
                        &&& generation == asked_generation(shown, config.git_status)
                    },
                }
            }),
            entered_expanded(*final(self), cwd@) == entered_expanded(*old(self), cwd@),
    {
        if !cwd.same(&self.root) {
            self.root = cwd.clone();
            self.expanded.clear();
            self.expanded.insert(cwd.clone());
            self.marked.clear();
            self.clipboard = None;
            self.cursor = 0;
            self.scroll = 0;
            assert(self.expanded.listed() =~= seq![cwd@]);
        }
        assert(self@ == entered(old(self)@, cwd@));
        let options = WalkOptions {
            follow_symlinks: config.follow_symlinks,
            flatten_dirs: config.flatten_dirs,
        };
        let mut rows: Vec<Row> = Vec::new();
        let mut missing: Vec<TreePath> = Vec::new();
        assert(row_views(rows@) =~= Seq::<RowView>::empty());
        assert(path_views(missing@) =~= Seq::<Seq<Part>>::empty());
        collect_rows(read, &self.expanded, options, &cwd, 0, &mut rows, &mut missing);
        let ghost walk = walk_dir(read@, self.expanded.listed(), options, cwd@, 0);
        assert(row_views(rows@) =~= walk.rows);
        assert(path_views(missing@) =~= walk.missing);
        if missing.len() > 0 {
            return Refresh::Read(missing);
        }
        let selected_path = match self.selected_row() {
            Some(row) => Some(row.path.clone()),
            None => None,
        };
        self.rows = rows;
        self.marked.retain(existing);
        if let Some(path) = selected_path {
            if let Some(index) = self.find_row(&path) {
                self.cursor = index;
            }
        }
        self.clamp_cursor();
        assert(self@ == with_rows(entered(old(self)@, cwd@), walk.rows, existing@));
        let generation = self.refresh_git(config);
        Refresh::Done(generation)
    }

    /// Forgets the version-control states. Where they are shown, a new generation of them begins,
    /// and is returned.
    pub fn refresh_git(&mut self, config: &TreeConfig) -> (generation: Option<u64>)
        requires
            old(self).wf(),
        ensures
            final(self).wf(),
            final(self)@ == states_forgotten(old(self)@, config.git_status),
            generation == asked_generation(old(self)@, config.git_status),
            final(self).expanded == old(self).expanded,
    {
        self.git_status.clear();
        if !self.visible || !config.git_status {
            return None;
        }
        self.git_generation = self.git_generation.wrapping_add(1);
        Some(self.git_generation)
    }

    /// Takes a report about a changed file that was asked for with some generation. What was asked
    /// for with an earlier one is refused. `change` is missing where the report is an error.
    pub fn git_change(&mut self, generation: u64, change: Option<FileChange>) -> (r: GitUpdate)
        requires
            old(self).wf(),
        ensures
            final(self).wf(),
            r.proceed == (generation == old(self)@.git_generation),
            r.redraw == (r.proceed && change is Some),
            final(self)@ == if r.redraw {
                TreeView {
                    git_status: old(self)@.git_status.insert(
                        state_of(change->0@).0,
                        state_of(change->0@).1,
                    ),
                    ..old(self)@
                }
            } else {
                old(self)@
            },
    {
        if self.git_generation != generation {
            return GitUpdate { proceed: false, redraw: false };
        }
        let change = match change {
            Some(change) => change,
            None => {
                return GitUpdate { proceed: true, redraw: false };
            },
        };
        let (path, state) = match change {
            FileChange::Untracked { path } => (path, GitState::Untracked),
            FileChange::Modified { path } => (path, GitState::Modified),
            FileChange::Conflict { path } => (path, GitState::Conflict),
            FileChange::Deleted { path } => (path, GitState::Deleted),
            FileChange::Renamed { to_path, .. } => (to_path, GitState::Renamed),
        };
        self.git_status.insert(path, state);
        GitUpdate { proceed: true, redraw: true }
    }
}

/// A refresh leaves the cursor on the path on which it stood, wherever that path still has a row.
pub proof fn refresh_keeps_the_selection(
    tree: TreeView,
    rows: Seq<RowView>,
    existing: Set<Seq<Part>>,
)
    requires
        cursor_in_view(tree),
        selected(tree) is Some,
        exists|i: int| 0 <= i < rows.len() && (#[trigger] rows[i]).path == selected(tree)->0.path,
    ensures
        selected(with_rows(tree, rows, existing)) is Some,
        selected(with_rows(tree, rows, existing))->0.path == selected(tree)->0.path,
{
    let path = selected(tree)->0.path;
    first_row_is_first(rows, path, 0);
}

/// A second refresh gives the same rows, marks and cursor, as long as the disk stays the same.
pub proof fn refresh_settles(tree: TreeView, rows: Seq<RowView>, existing: Set<Seq<Part>>)
    requires
        cursor_in_view(tree),
        paths_distinct(rows),
    ensures
        with_rows(with_rows(tree, rows, existing), rows, existing) == with_rows(
            tree,
            rows,
            existing,
        ),
{
    let once = with_rows(tree, rows, existing);
    if let Some(row) = selected(tree) {
        first_row_is_first(rows, row.path, 0);
    }
    if let Some(row) = selected(once) {
        first_row_is_first(rows, row.path, 0);
    }
    assert(once.marked.intersect(existing) =~= once.marked);
    clamped_keeps_what_is_in_view(once);
}

/// The active file is revealed when the tree gains the focus: once the directories in which it lies
/// have been opened up and the tree has been refreshed, the file has a row, which is selected. When
/// the tree is drawn, that row stands in the middle of the area, or as near to it as the first row
/// allows, whatever was known of the area before.
pub proof fn active_file_is_revealed(
    tree: TreeView,
    path: Seq<Part>,
    read: Map<Seq<Part>, Vec<Entry>>,
    expanded: Seq<Seq<Part>>,
    config: TreeConfig,
    existing: Set<Seq<Part>>,
    area: Rect,
)
    requires
        cursor_in_view(tree),
        is_ancestor(tree.root, path),
        reachable(read, config.walk_options(), path),
        forall|d: Seq<Part>| #[trigger] expanded.contains(d) <==> opened_up(tree, path).contains(d),
        walk_dir(read, expanded, config.walk_options(), tree.root, 0).missing.len() == 0,
    ensures
        ({
            let rows = walk_dir(read, expanded, config.walk_options(), tree.root, 0).rows;
            let opened = TreeView { expanded: opened_up(tree, path), ..tree };
            let fresh = states_forgotten(with_rows(opened, rows, existing), config.git_status);
            let shown = centered(fresh, path);
            let drawn = fitted(shown, area);
            &&& selected(shown) is Some
            &&& selected(shown)->0.path == path
            &&& selected(drawn) is Some
            &&& selected(drawn)->0.path == path
            &&& drawn.cursor - drawn.scroll == if drawn.cursor < drawn_height(area) / 2 {
                drawn.cursor
            } else {
                drawn_height(area) / 2
            }
        }),
{
    let rows = walk_dir(read, expanded, config.walk_options(), tree.root, 0).rows;
    assert forall|d: Seq<Part>|
        is_ancestor(d, path) && strictly_under(d, tree.root) implies #[trigger] expanded.contains(
    d) by {
        assert(opened_up(tree, path).contains(d));
    }
    expanded_path_has_a_row(read, expanded, config.walk_options(), tree.root, 0, path);
    first_row_is_first(rows, path, 0);
    let opened = TreeView { expanded: opened_up(tree, path), ..tree };
    if let Some(row) = selected(opened) {
        first_row_is_first(rows, row.path, 0);
    }
    let fresh = states_forgotten(with_rows(opened, rows, existing), config.git_status);
    revealed_file_is_centered(fresh, path);
    drawn_row_is_centered(centered(fresh, path), area);
}

/// Reports that were asked for before a new generation of states began are refused afterwards: the
/// generation is another one.
pub proof fn new_generation_refuses_the_last(tree: TreeView, shown: bool)
    ensures
        asked_generation(tree, shown) is Some ==> states_forgotten(tree, shown).git_generation
            != tree.git_generation,
        asked_generation(tree, shown) is Some ==> asked_generation(tree, shown) == Some(
            states_forgotten(tree, shown).git_generation,
        ),
{
}

} // verus!
