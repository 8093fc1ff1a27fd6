//! Moving through the tree, opening directories up, and marking.

use vstd::prelude::*;

use crate::collections::path_views;
use crate::listing::Row;
use crate::path::{
    ancestors_by_parent, is_ancestor, parent_of, still_above, under, under_transitive, Part, TreePath,
};
use crate::selection::{normalize, outermost};
use crate::tree::{
    at_row, centering_scroll, clamped, cursor_in_view, first_row, last_row, moved, selected, FileTree,
    TreeView,
};

verus! {

/// After the cursor has been brought back, it is in view.
pub proof fn clamped_is_in_view(tree: TreeView)
    requires
        1 <= tree.last_height <= u16::MAX,
        tree.cursor >= 0,
        tree.scroll >= 0,
    ensures
        cursor_in_view(clamped(tree)),
{
}

/// A tree whose cursor is in view needs no bringing back.
pub proof fn clamped_keeps_what_is_in_view(tree: TreeView)
    requires
        cursor_in_view(tree),
    ensures
        clamped(tree) == tree,
{
}

/// A step down and a step up again, with a row below the cursor, lead back to the same row.
pub proof fn down_and_up_returns(tree: TreeView)
    requires
        cursor_in_view(tree),
        tree.cursor + 1 < tree.rows.len(),
    ensures
        moved(moved(tree, 1), -1).cursor == tree.cursor,
{
}

impl FileTree {
    /// Brings the cursor back onto a row and into view.
    pub fn clamp_cursor(&mut self)
        requires
            old(self).expanded.wf(),
            old(self).marked.wf(),
            old(self).git_status.wf(),
            1 <= old(self).last_height <= u16::MAX,
            old(self).focused ==> old(self).visible,
        ensures
            final(self).wf(),
            final(self)@ == clamped(old(self)@),
            final(self).expanded == old(self).expanded,
            final(self).rows == old(self).rows,
    {
        let last = self.rows.len().saturating_sub(1);
        if self.cursor > last {
            self.cursor = last;
        }
        if self.cursor < self.scroll {
            self.scroll = self.cursor;
        } else if self.cursor - self.scroll >= self.last_height {
            self.scroll = self.cursor - (self.last_height - 1);
        }
    }

    /// Moves the cursor by some rows, as far as there are rows.
    pub fn move_cursor(&mut self, delta: isize)
        requires
            old(self).wf(),
        ensures
            final(self).wf(),
            final(self)@ == moved(old(self)@, delta as int),
    {
        if self.rows.len() == 0 {
            return ;
        }
        let last = self.rows.len() - 1;
        if delta >= 0 {
            let steps = delta as usize;
            if steps >= last - self.cursor {
                self.cursor = last;
            } else {
                self.cursor = self.cursor + steps;
            }
        } else {
            let steps_less_one = (-(delta + 1)) as usize;
            if self.cursor > steps_less_one {
                self.cursor = self.cursor - steps_less_one - 1;
            } else {
                self.cursor = 0;
            }
        }
        self.clamp_cursor();
    }

    /// Puts the cursor onto the first row.
    pub fn cursor_first(&mut self)
        requires
            old(self).wf(),
        ensures
            final(self).wf(),
            final(self)@ == at_row(old(self)@, 0),
    {
        self.cursor = 0;
        self.clamp_cursor();
    }

    /// Puts the cursor onto the last row.
    pub fn cursor_last(&mut self)
        requires
            old(self).wf(),
        ensures
            final(self).wf(),
            final(self)@ == at_row(old(self)@, last_row(old(self)@.rows.len())),
    {
        self.cursor = self.rows.len().saturating_sub(1);
        self.clamp_cursor();
    }

    /// The row on which the cursor stands.
    pub fn selected_row(&self) -> (r: Option<&Row>)
        ensures
            match r {
                Some(row) => selected(self@) == Some(row@) && self@.cursor < self@.rows.len()
                    && *row == self.rows@[self.cursor as int],
                None => selected(self@) is None,
            },
    {
        if self.cursor < self.rows.len() {
            assert(self@.rows[self.cursor as int] == self.rows@[self.cursor as int]@);
            Some(&self.rows[self.cursor])
        } else {
            None
        }
    }

    /// The first row of a path.
    pub fn find_row(&self, path: &TreePath) -> (r: Option<usize>)
        ensures
            match r {
                Some(i) => first_row(self@.rows, path@, 0) == Some(i as int) && i
                    < self.rows.len(),
                None => first_row(self@.rows, path@, 0) is None,
            },
    {
        let mut i: usize = 0;
        while i < self.rows.len()
            invariant
                i <= self.rows.len(),
                first_row(self@.rows, path@, 0) == first_row(self@.rows, path@, i as int),
            decreases self.rows.len() - i,
        {
            assert(self@.rows[i as int].path == self.rows@[i as int].path@);
            if self.rows[i].path.same(path) {
                return Some(i);
            }
            i = i + 1;
        }
        None
    }

    /// Opens the selected directory up, or closes it. Tells whether that changed anything, so that
    /// the tree has to be refreshed.
    pub fn toggle_expand(&mut self) -> (refresh: bool)
        requires
            old(self).wf(),
        ensures
            final(self).wf(),
            refresh == selects_dir(old(self)@),
            final(self)@ == toggled(old(self)@),
    {
        let path = match self.selected_row() {
            Some(row) => {
                if !row.is_dir {
                    return false;
                }
                row.path.clone()
            },
            None => {
                return false;
            },
        };
        if !self.expanded.remove(&path) {
            self.expanded.insert(path);
        }
        true
    }

    /// Closes the selected directory; where it is closed, or no directory, the cursor goes to the
    /// row of the parent. Tells whether the tree has to be refreshed.
    pub fn collapse_or_parent(&mut self) -> (refresh: bool)
        requires
            old(self).wf(),
        ensures
            final(self).wf(),
            refresh == selects_open_dir(old(self)@),
            final(self)@ == collapsed_or_parent(old(self)@),
    {
        let row = match self.selected_row() {
            Some(row) => row.clone(),
            None => {
                return false;
            },
        };
        if row.is_dir && self.expanded.remove(&row.path) {
            return true;
        }
        assert(self@.expanded =~= old(self)@.expanded);
        if let Some(parent) = row.path.parent() {
            if let Some(index) = self.find_row(&parent) {
                self.cursor = index;
                self.clamp_cursor();
            }
        }
        false
    }

    /// Opens the selected directory up. Tells whether the tree has to be refreshed.
    pub fn expand_selected(&mut self) -> (refresh: bool)
        requires
            old(self).wf(),
        ensures
            final(self).wf(),
            refresh == selects_dir(old(self)@),
            final(self)@ == expanded_at_cursor(old(self)@),
    {
        let path = match self.selected_row() {
            Some(row) => {
                if !row.is_dir {
                    return false;
                }
                row.path.clone()
            },
            None => {
                return false;
            },
        };
        self.expanded.insert(path);
        true
    }

    /// Marks the selected row, or takes its mark away, and goes on to the next row.
    pub fn toggle_mark(&mut self)
        requires
            old(self).wf(),
        ensures
            final(self).wf(),
            final(self)@ == mark_toggled(old(self)@),
    {
        let path = match self.selected_row() {
            Some(row) => row.path.clone(),
            None => {
                return ;
            },
        };
        if !self.marked.remove(&path) {
            self.marked.insert(path);
        }
        if self.cursor < self.rows.len() - 1 {
            self.cursor = self.cursor + 1;
        }
        self.clamp_cursor();
    }

    /// The paths on which an operation works: the marked ones, or the selected one where none is
    /// marked. Those that lie under another are left out.
    pub fn operation_paths(&self) -> (r: Vec<TreePath>)
        requires
            self.wf(),
        ensures
            operated(self@, path_views(r@)),
    {
        let mut paths: Vec<TreePath> = Vec::new();
        if self.marked.is_empty() {
            if let Some(row) = self.selected_row() {
                paths.push(row.path.clone());
            }
        } else {
            paths = self.marked.to_vec();
        }
        let ghost chosen = path_views(paths@);
        proof {
            assert forall|p: Seq<Part>| #[trigger] chosen.contains(p) <==> operation_base(
                self@,
            ).contains(p) by {
                if self.marked@ == Set::<Seq<Part>>::empty() {
                    match selected(self@) {
                        Some(row) => {
                            assert(chosen =~= seq![row.path]);
                            if p == row.path {
                                assert(chosen[0] == p);
                            }
                        },
                        None => {
                            assert(chosen =~= Seq::empty());
                        },
                    }
                }
            }
        }
        let r = normalize(paths);
        proof {
            assert(outermost(chosen, path_views(r@)));
        }
        r
    }

    /// Prepares to show a file: opens up the directories in which it lies, where it lies in the
    /// tree. Tells whether it does, and so the tree has to be refreshed and the row to be found.
    pub fn reveal_current(&mut self, path: &TreePath) -> (refresh: bool)
        requires
            old(self).wf(),
        ensures
            final(self).wf(),
            refresh == under(path@, old(self)@.root),
            final(self)@ == (TreeView {
                expanded: opened_up(old(self)@, path@),
                ..old(self)@
            }),
    {
        if !path.starts_with(&self.root) {
            assert(opened_up(old(self)@, path@) =~= old(self)@.expanded) by {
                assert forall|d: Seq<Part>| is_ancestor(d, path@) && under(d, self@.root) implies false by {
                    under_transitive(path@, d, self@.root);
                }
            }
            return false;
        }
        let mut parent = path.parent();
        proof {
            assert(opened_above(old(self)@, path@, parent) =~= old(self)@.expanded) by {
                assert forall|d: Seq<Part>| is_ancestor(d, path@) implies still_above(parent, d) by {
                    ancestors_by_parent(d, path@);
                }
            }
        }
        loop
            invariant_except_break
                self.expanded@ == opened_above(old(self)@, path@, parent),
                parent matches Some(d) ==> is_ancestor(d@, path@),
            invariant
                self.wf(),
                self.expanded.wf(),
                self@ == (TreeView { expanded: self.expanded@, ..old(self)@ }),
            ensures
                self.expanded@ == opened_up(old(self)@, path@),
            decreases
                    (if parent is Some {
                        parent->0@.len() + 1
                    } else {
                        0
                    }),
        {
            let dir = match parent {
                Some(dir) => dir,
                None => {
                    assert(opened_above(old(self)@, path@, None) =~= opened_up(old(self)@, path@));
                    break;
                },
            };
            if !dir.starts_with(&self.root) {
                proof {
                    assert forall|d: Seq<Part>| under(d, self@.root) implies !still_above(
                        Some(dir),
                        d,
                    ) by {
                        if still_above(Some(dir), d) && d != dir@ {
                            under_transitive(dir@, d, self@.root);
                        }
                    }
                    assert(opened_above(old(self)@, path@, Some(dir)) =~= opened_up(
                        old(self)@,
                        path@,
                    ));
                }
                break;
            }
            let next = dir.parent();
            let ghost before = self.expanded@;
            let ghost d = dir@;
            self.expanded.insert(dir);
            proof {
                assert(opened_above(old(self)@, path@, next) =~= before.insert(d)) by {
                    assert forall|k: Seq<Part>| opened_above(old(self)@, path@, next).contains(k)
                        == before.insert(d).contains(k) by {
                        ancestors_by_parent(k, d);
                        if k == d {
                            assert(!still_above(next, d)) by {
                                if next is Some {
                                    assert(next->0@.len() < d.len());
                                    if is_ancestor(d, next->0@) {
                                        assert(d.len() <= next->0@.len());
                                    }
                                }
                            }
                        }
                    }
                }
                if next is Some {
                    ancestors_by_parent(next->0@, d);
                    under_transitive(path@, d, next->0@);
                }
            }
            parent = next;
        }
        true
    }

    /// Puts the cursor onto the row of a file, where it has one, and that row into the middle of
    /// what is shown. How much is shown is only known when the tree is drawn; the row is put into
    /// the middle of that then.
    pub fn center_on(&mut self, path: &TreePath)
        requires
            old(self).wf(),
        ensures
            final(self).wf(),
            final(self)@ == centered(old(self)@, path@),
    {
        if let Some(index) = self.find_row(path) {
            self.cursor = index;
            self.scroll = index.saturating_sub(self.last_height / 2);
            self.to_center = Some(path.clone());
        }
    }

    /// The file to open: the selected row's, where that is no directory.
    pub fn open_selected(&self) -> (r: Option<TreePath>)
        ensures
            match r {
                Some(path) => file_at_cursor(self@) == Some(path@),
                None => file_at_cursor(self@) is None,
            },
    {
        match self.selected_row() {
            Some(row) => {
                if row.is_dir {
                    None
                } else {
                    Some(row.path.clone())
                }
            },
            None => None,
        }
    }

    /// Takes the outcome of opening a file: the editor gets the focus where it succeeded.
    pub fn opened(&mut self, succeeded: bool)
        requires
            old(self).wf(),
        ensures
            final(self).wf(),
            final(self)@ == if succeeded {
                TreeView { focused: false, ..old(self)@ }
            } else {
                old(self)@
            },
    {
        if succeeded {
            self.focus_editor();
        }
    }
}

/// The cursor stands on a directory.
pub open spec fn selects_dir(tree: TreeView) -> bool {
    selected(tree) matches Some(row) && row.is_dir
}

/// The cursor stands on a directory that is opened up.
pub open spec fn selects_open_dir(tree: TreeView) -> bool {
    selected(tree) matches Some(row) && row.is_dir && tree.expanded.contains(row.path)
}

/// The tree with the selected directory opened up or closed.
pub open spec fn toggled(tree: TreeView) -> TreeView {
    match selected(tree) {
        Some(row) => if !row.is_dir {
            tree
        } else if tree.expanded.contains(row.path) {
            TreeView { expanded: tree.expanded.remove(row.path), ..tree }
        } else {
            TreeView { expanded: tree.expanded.insert(row.path), ..tree }
        },
        None => tree,
    }
}

/// The tree with the selected directory closed, or the cursor on the parent's row.
pub open spec fn collapsed_or_parent(tree: TreeView) -> TreeView {
    match selected(tree) {
        Some(row) => if selects_open_dir(tree) {
            TreeView { expanded: tree.expanded.remove(row.path), ..tree }
        } else {
            match parent_of(row.path) {
                Some(parent) => match first_row(tree.rows, parent, 0) {
                    Some(index) => at_row(tree, index),
                    None => tree,
                },
                None => tree,
            }
        },
        None => tree,
    }
}

/// The tree with the selected directory opened up.
pub open spec fn expanded_at_cursor(tree: TreeView) -> TreeView {
    match selected(tree) {
        Some(row) => if row.is_dir {
            TreeView { expanded: tree.expanded.insert(row.path), ..tree }
        } else {
            tree
        },
        None => tree,
    }
}

/// The tree with the mark of the selected row changed, and the cursor on the next row.
pub open spec fn mark_toggled(tree: TreeView) -> TreeView {
    match selected(tree) {
        Some(row) => at_row(
            TreeView {
                marked: if tree.marked.contains(row.path) {
                    tree.marked.remove(row.path)
                } else {
                    tree.marked.insert(row.path)
                },
                ..tree
            },
            tree.cursor + 1,
        ),
        None => tree,
    }
}

/// The paths from which an operation starts: the marked ones, or the selected one where none is
/// marked.
pub open spec fn operation_base(tree: TreeView) -> Set<Seq<Part>> {
    if tree.marked == Set::<Seq<Part>>::empty() {
        match selected(tree) {
            Some(row) => Set::empty().insert(row.path),
            None => Set::empty(),
        }
    } else {
        tree.marked
    }
}

/// `paths` are the paths on which an operation works: the outermost of those from which it starts,
/// each once and in order.
pub open spec fn operated(tree: TreeView, paths: Seq<Seq<Part>>) -> bool {
    exists|base: Seq<Seq<Part>>|
        {
            &&& #[trigger] outermost(base, paths)
            &&& forall|p: Seq<Part>| #[trigger]
                base.contains(p) <==> operation_base(tree).contains(p)
        }
}

/// The paths on which an operation works are determined by what is marked and selected.
pub proof fn operation_paths_unique(tree: TreeView, a: Seq<Seq<Part>>, b: Seq<Seq<Part>>)
    requires
        operated(tree, a),
        operated(tree, b),
    ensures
        a == b,
{
    let base_a = choose|base: Seq<Seq<Part>>|
        {
            &&& #[trigger] outermost(base, a)
            &&& forall|p: Seq<Part>| #[trigger]
                base.contains(p) <==> operation_base(tree).contains(p)
        };
    let base_b = choose|base: Seq<Seq<Part>>|
        {
            &&& #[trigger] outermost(base, b)
            &&& forall|p: Seq<Part>| #[trigger]
                base.contains(p) <==> operation_base(tree).contains(p)
        };
    assert forall|p: Seq<Part>| #[trigger] base_a.contains(p) <==> base_b.contains(p) by {
        assert(operation_base(tree).contains(p) <==> base_b.contains(p));
    }
    crate::selection::outermost_unique(base_a, base_b, a, b);
}

/// No path on which an operation works lies under another of them, and every marked path lies under
/// one of them.
pub proof fn operation_paths_are_outermost(tree: TreeView, paths: Seq<Seq<Part>>)
    requires
        operated(tree, paths),
    ensures
        forall|p: Seq<Part>, q: Seq<Part>|
            paths.contains(p) && paths.contains(q) ==> !#[trigger] crate::path::strictly_under(p, q),
        forall|p: Seq<Part>| #[trigger]
            operation_base(tree).contains(p) ==> exists|q: Seq<Part>|
                paths.contains(q) && #[trigger] under(p, q),
        forall|p: Seq<Part>| #[trigger] paths.contains(p) ==> operation_base(tree).contains(p),
{
    let base = choose|base: Seq<Seq<Part>>|
        {
            &&& #[trigger] outermost(base, paths)
            &&& forall|p: Seq<Part>| #[trigger]
                base.contains(p) <==> operation_base(tree).contains(p)
        };
    crate::selection::outermost_covers(base, paths);
    assert forall|p: Seq<Part>| #[trigger] operation_base(tree).contains(p) implies exists|
        q: Seq<Part>,
    | paths.contains(q) && #[trigger] under(p, q) by {
        assert(base.contains(p));
    }
    assert forall|p: Seq<Part>| #[trigger] paths.contains(p) implies operation_base(
        tree,
    ).contains(p) by {
        assert(crate::selection::is_outermost(base, p));
    }
}

/// The expanded directories with those in which a file lies, as far as the root.
pub open spec fn opened_up(tree: TreeView, path: Seq<Part>) -> Set<Seq<Part>> {
    tree.expanded.union(
        Set::new(|d: Seq<Part>| is_ancestor(d, path) && under(d, tree.root)),
    )
}

spec fn opened_above(tree: TreeView, path: Seq<Part>, left: Option<TreePath>) -> Set<Seq<Part>> {
    tree.expanded.union(
        Set::new(
            |d: Seq<Part>| is_ancestor(d, path) && under(d, tree.root) && !still_above(left, d),
        ),
    )
}

/// The tree with the cursor on the row of a path and that row in the middle of what is shown.
pub open spec fn centered(tree: TreeView, path: Seq<Part>) -> TreeView {
    match first_row(tree.rows, path, 0) {
        Some(index) => TreeView {
            cursor: index,
            scroll: centering_scroll(index, tree.last_height),
            to_center: Some(path),
            ..tree
        },
        None => tree,
    }
}

/// A revealed file is the selected one, and as many rows are shown before it as fit into the upper
/// half of what is shown.
pub proof fn revealed_file_is_centered(tree: TreeView, path: Seq<Part>)
    requires
        cursor_in_view(tree),
        first_row(tree.rows, path, 0) is Some,
    ensures
        cursor_in_view(centered(tree, path)),
        selected(centered(tree, path)) is Some,
        selected(centered(tree, path))->0.path == path,
        centered(tree, path).cursor - centered(tree, path).scroll == if centered(tree, path).cursor
            < tree.last_height / 2 {
            centered(tree, path).cursor
        } else {
            tree.last_height / 2
        },
{
    crate::tree::first_row_is_first(tree.rows, path, 0);
}

/// The path of the selected row, where that is no directory.
pub open spec fn file_at_cursor(tree: TreeView) -> Option<Seq<Part>> {
    match selected(tree) {
        Some(row) => if row.is_dir {
            None
        } else {
            Some(row.path)
        },
        None => None,
    }
}

/// Opening a directory up and closing it again changes nothing.
pub proof fn toggle_expand_twice(tree: TreeView)
    ensures
        toggled(toggled(tree)) == tree,
{
    if let Some(row) = selected(tree) {
        if row.is_dir {
            assert(toggled(toggled(tree)).expanded =~= tree.expanded);
        }
    }
}

} // verus!
