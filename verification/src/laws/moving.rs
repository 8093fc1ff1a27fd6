//! Where the cursor goes, what is shown around it, and what opens and closes.

use crate::laws::counting::{lies_below, lies_in};
use crate::listing::RowView;
use crate::navigate::{
    centered, collapsed_or_parent, expanded_at_cursor, file_at_cursor, mark_toggled, opened_up,
    operated, selects_dir, selects_open_dir, toggled,
};
use crate::path::Part;
use crate::selection::{is_outermost, outermost};
use crate::tree::{at_row, clamped, collapsed, first_row, moved, TreeView};
use vstd::math::{max, min};
use vstd::prelude::*;

verus! {

/// Wherever the cursor is put, it ends on the last row at most, and the rows shown move no further
/// than it takes to show it. Nothing else of the tree changes.
pub proof fn cursor_stays_among_the_rows(tree: TreeView, row: int)
    requires
        0 <= row,
        0 <= tree.scroll,
        1 <= tree.last_height,
    ensures
        at_row(tree, row).cursor == min(row, max(tree.rows.len() - 1, 0)),
        at_row(tree, row).scroll <= at_row(tree, row).cursor < at_row(tree, row).scroll
            + tree.last_height,
        at_row(tree, row).scroll == max(
            min(tree.scroll, at_row(tree, row).cursor),
            at_row(tree, row).cursor + 1 - tree.last_height,
        ),
        at_row(tree, row) == (TreeView {
            cursor: at_row(tree, row).cursor,
            scroll: at_row(tree, row).scroll,
            ..tree
        }),
        clamped(tree) == at_row(tree, tree.cursor),
{
}

/// The cursor moves by as many rows as it is told, or to the first or the last row where there are
/// fewer that way. Without rows nothing moves.
pub proof fn cursor_moves_by_rows(tree: TreeView, delta: int)
    requires
        0 <= tree.cursor,
        0 <= tree.scroll,
        1 <= tree.last_height,
    ensures
        tree.rows.len() == 0 ==> moved(tree, delta) == tree,
        tree.rows.len() > 0 ==> moved(tree, delta).cursor == max(
            0,
            min(tree.cursor + delta, tree.rows.len() - 1),
        ),
        tree.rows.len() > 0 ==> moved(tree, delta).scroll == max(
            min(tree.scroll, moved(tree, delta).cursor),
            moved(tree, delta).cursor + 1 - tree.last_height,
        ),
        moved(tree, delta) == (TreeView {
            cursor: moved(tree, delta).cursor,
            scroll: moved(tree, delta).scroll,
            ..tree
        }),
{
}

/// The row of a path is the first one that has it, and there is none only if no row has it.
pub proof fn rows_are_found_by_path(rows: Seq<RowView>, path: Seq<Part>, i: int)
    ensures
        first_row(rows, path, 0) == Some(i) <==> 0 <= i < rows.len() && rows[i].path == path && (
        forall|j: int| 0 <= j < i ==> (#[trigger] rows[j]).path != path),
        first_row(rows, path, 0) is None <==> forall|j: int|
            0 <= j < rows.len() ==> (#[trigger] rows[j]).path != path,
{
    lemma_first(rows, path, 0);
    let found = first_row(rows, path, 0);
    if 0 <= i < rows.len() && rows[i].path == path && (forall|j: int|
        0 <= j < i ==> (#[trigger] rows[j]).path != path) {
        assert(found is Some);
        assert(rows[found->0].path == path);
    }
}

proof fn lemma_first(rows: Seq<RowView>, path: Seq<Part>, from: int)
    requires
        0 <= from,
    ensures
        match first_row(rows, path, from) {
            Some(i) => from <= i < rows.len() && rows[i].path == path && forall|j: int|
                from <= j < i ==> (#[trigger] rows[j]).path != path,
            None => forall|j: int| from <= j < rows.len() ==> (#[trigger] rows[j]).path != path,
        },
    decreases rows.len() - from,
{
    if from < rows.len() && rows[from].path != path {
        lemma_first(rows, path, from + 1);
    }
}

/// Toggling opens the directory under the cursor if it was closed and closes it if it was open. No
/// other directory changes, nothing else of the tree does, and on a file nothing happens at all.
pub proof fn toggling_flips_the_row_under_the_cursor(tree: TreeView, path: Seq<Part>)
    requires
        0 <= tree.cursor < tree.rows.len(),
    ensures
        tree.rows[tree.cursor].is_dir && path == tree.rows[tree.cursor].path ==> toggled(
            tree,
        ).expanded.contains(path) == !tree.expanded.contains(path),
        !tree.rows[tree.cursor].is_dir || path != tree.rows[tree.cursor].path ==> toggled(
            tree,
        ).expanded.contains(path) == tree.expanded.contains(path),
        toggled(tree) == (TreeView { expanded: toggled(tree).expanded, ..tree }),
        selects_dir(tree) == tree.rows[tree.cursor].is_dir,
        selects_open_dir(tree) == (tree.rows[tree.cursor].is_dir && tree.expanded.contains(
            tree.rows[tree.cursor].path,
        )),
{
}

/// Expanding opens the directory under the cursor and leaves it open if it was. On a file nothing
/// happens.
pub proof fn expanding_opens_the_row_under_the_cursor(tree: TreeView, path: Seq<Part>)
    requires
        0 <= tree.cursor < tree.rows.len(),
    ensures
        expanded_at_cursor(tree).expanded.contains(path) <==> tree.expanded.contains(path) || (
        tree.rows[tree.cursor].is_dir && path == tree.rows[tree.cursor].path),
        expanded_at_cursor(tree) == (TreeView {
            expanded: expanded_at_cursor(tree).expanded,
            ..tree
        }),
{
}

/// Collapsing closes an open directory under the cursor and nothing else. From any other row the
/// cursor goes to the first row of the directory that the row lies in, if that has one, and no
/// directory is closed.
pub proof fn collapsing_closes_or_goes_up(tree: TreeView, path: Seq<Part>)
    requires
        0 <= tree.cursor < tree.rows.len(),
        0 <= tree.scroll,
        1 <= tree.last_height,
    ensures
        ({
            let row = tree.rows[tree.cursor];
            let after = collapsed_or_parent(tree);
            let parent = row.path.take(row.path.len() - 1);
            &&& row.is_dir && tree.expanded.contains(row.path) ==> (after.expanded.contains(path)
                <==> tree.expanded.contains(path) && path != row.path) && after.cursor
                == tree.cursor && after.scroll == tree.scroll
            &&& !(row.is_dir && tree.expanded.contains(row.path)) ==> after.expanded
                == tree.expanded
            &&& !(row.is_dir && tree.expanded.contains(row.path)) && row.path.len() > 0
                && row.path.last() is Normal ==> forall|i: int|
                0 <= i < tree.rows.len() && (#[trigger] tree.rows[i]).path == parent && (forall|
                    j: int,
                |
                    0 <= j < i ==> (#[trigger] tree.rows[j]).path != parent) ==> after.cursor == i
            &&& !(row.is_dir && tree.expanded.contains(row.path)) && (row.path.len() == 0
                || row.path.last() is RootDir || row.path.last() is Prefix || forall|i: int|
                0 <= i < tree.rows.len() ==> (#[trigger] tree.rows[i]).path != parent) ==> after
                == tree
            &&& after == (TreeView {
                expanded: after.expanded,
                cursor: after.cursor,
                scroll: after.scroll,
                ..tree
            })
        }),
{
    let row = tree.rows[tree.cursor];
    if row.path.len() > 0 {
        let parent = row.path.take(row.path.len() - 1);
        assert(row.path.drop_last() =~= parent);
        lemma_first(tree.rows, parent, 0);
        assert forall|i: int|
            0 <= i < tree.rows.len() && (#[trigger] tree.rows[i]).path == parent && (forall|j: int|
                0 <= j < i ==> (#[trigger] tree.rows[j]).path != parent) implies first_row(
            tree.rows,
            parent,
            0,
        ) == Some(i) by {
            rows_are_found_by_path(tree.rows, parent, i);
        }
    }
}

/// Marking flips the mark of the row under the cursor and of no other path, and goes on to the next
/// row, or stays on the last.
pub proof fn marking_flips_one_mark_and_goes_on(tree: TreeView, path: Seq<Part>)
    requires
        0 <= tree.cursor < tree.rows.len(),
        0 <= tree.scroll,
        1 <= tree.last_height,
    ensures
        path == tree.rows[tree.cursor].path ==> mark_toggled(tree).marked.contains(path)
            == !tree.marked.contains(path),
        path != tree.rows[tree.cursor].path ==> mark_toggled(tree).marked.contains(path)
            == tree.marked.contains(path),
        mark_toggled(tree).cursor == min(tree.cursor + 1, tree.rows.len() - 1),
        mark_toggled(tree) == (TreeView {
            marked: mark_toggled(tree).marked,
            cursor: mark_toggled(tree).cursor,
            scroll: mark_toggled(tree).scroll,
            ..tree
        }),
{
}

/// Without a row under the cursor no action on that row changes anything.
pub proof fn nothing_happens_without_a_row(tree: TreeView)
    requires
        tree.rows.len() <= tree.cursor,
    ensures
        toggled(tree) == tree,
        expanded_at_cursor(tree) == tree,
        collapsed_or_parent(tree) == tree,
        mark_toggled(tree) == tree,
        !selects_dir(tree),
        !selects_open_dir(tree),
        file_at_cursor(tree) is None,
{
}

/// What opens as a file is the path of the row under the cursor, unless that is a directory.
pub proof fn files_open_from_their_row(tree: TreeView)
    requires
        0 <= tree.cursor < tree.rows.len(),
    ensures
        tree.rows[tree.cursor].is_dir ==> file_at_cursor(tree) is None,
        !tree.rows[tree.cursor].is_dir ==> file_at_cursor(tree) == Some(
            tree.rows[tree.cursor].path,
        ),
{
}

/// Collapsing everything leaves the root open and nothing else.
pub proof fn collapsing_all_leaves_the_root(tree: TreeView, path: Seq<Part>)
    ensures
        collapsed(tree).expanded.contains(path) <==> path == tree.root,
        collapsed(tree) == (TreeView { expanded: collapsed(tree).expanded, ..tree }),
{
}

/// To reveal a path is to open each directory of the tree that it lies below, and no other; what
/// was open stays open.
pub proof fn revealing_opens_what_lies_above(tree: TreeView, path: Seq<Part>, dir: Seq<Part>)
    ensures
        opened_up(tree, path).contains(dir) <==> tree.expanded.contains(dir) || (lies_below(
            path,
            dir,
        ) && lies_in(dir, tree.root)),
{
    crate::laws::counting::lemma_below(path, dir, tree.root);
}

/// The cursor goes to the first row of a path, which is brought to the middle of the rows shown, as
/// far as there are rows above it. A path without a row changes nothing.
pub proof fn centring_puts_the_row_in_the_middle(tree: TreeView, path: Seq<Part>, i: int)
    ensures
        0 <= i < tree.rows.len() && tree.rows[i].path == path && (forall|j: int|
            0 <= j < i ==> (#[trigger] tree.rows[j]).path != path) ==> centered(tree, path) == (
        TreeView {
            cursor: i,
            scroll: max(i - tree.last_height / 2, 0),
            to_center: Some(path),
            ..tree
        }),
        (forall|j: int| 0 <= j < tree.rows.len() ==> (#[trigger] tree.rows[j]).path != path)
            ==> centered(tree, path) == tree,
{
    rows_are_found_by_path(tree.rows, path, i);
}

/// With marks, an operation works on the marked paths that lie below no other marked path, whatever
/// is under the cursor.
pub proof fn operations_work_on_the_marks(tree: TreeView, paths: Seq<Seq<Part>>, p: Seq<Part>)
    requires
        operated(tree, paths),
        exists|m: Seq<Part>| tree.marked.contains(m),
    ensures
        paths.contains(p) <==> tree.marked.contains(p) && (forall|q: Seq<Part>| #[trigger]
            tree.marked.contains(q) && q.len() < p.len() ==> q != p.take(q.len() as int)),
{
    let base = choose|base: Seq<Seq<Part>>|
        {
            &&& #[trigger] outermost(base, paths)
            &&& forall|p: Seq<Part>| #[trigger]
                base.contains(p) <==> crate::navigate::operation_base(tree).contains(p)
        };
    let m = choose|m: Seq<Part>| tree.marked.contains(m);
    assert(tree.marked != Set::<Seq<Part>>::empty());
    assert(forall|q: Seq<Part>| #[trigger] base.contains(q) <==> tree.marked.contains(q));
    assert(paths.contains(p) <==> is_outermost(base, p));
    if is_outermost(base, p) {
        assert forall|q: Seq<Part>| #[trigger]
            tree.marked.contains(q) && q.len() < p.len() implies q != p.take(q.len() as int) by {
            assert(base.contains(q));
            if q == p.take(q.len() as int) {
                assert(q.is_prefix_of(p));
            }
        }
    }
    if tree.marked.contains(p) && (forall|q: Seq<Part>| #[trigger]
        tree.marked.contains(q) && q.len() < p.len() ==> q != p.take(q.len() as int)) {
        assert forall|q: Seq<Part>| #[trigger] base.contains(q) implies !crate::path::strictly_under(
            p,
            q,
        ) by {
            assert(tree.marked.contains(q));
            if crate::path::strictly_under(p, q) {
                assert(q.len() != p.len()) by {
                    if q.len() == p.len() {
                        assert(q =~= p);
                    }
                }
                assert(q =~= p.take(q.len() as int));
            }
        }
    }
}

/// Each marked path is operated on, by itself or together with one that it lies below.
pub proof fn marks_are_operated_on(tree: TreeView, paths: Seq<Seq<Part>>, marked: Seq<Part>)
    requires
        operated(tree, paths),
        tree.marked.contains(marked),
    ensures
        paths.len() > 0,
        exists|i: int|
            0 <= i < paths.len() && (#[trigger] paths[i]).len() <= marked.len() && paths[i]
                == marked.take(paths[i].len() as int),
{
    let base = choose|base: Seq<Seq<Part>>|
        {
            &&& #[trigger] outermost(base, paths)
            &&& forall|p: Seq<Part>| #[trigger]
                base.contains(p) <==> crate::navigate::operation_base(tree).contains(p)
        };
    assert(tree.marked != Set::<Seq<Part>>::empty());
    assert(base.contains(marked));
    crate::selection::outermost_covers(base, paths);
    let i = choose|i: int| 0 <= i < paths.len() && crate::path::under(marked, #[trigger] paths[i]);
    assert(paths[i] =~= marked.take(paths[i].len() as int));
}

/// Without marks, an operation works on the path under the cursor alone, and on nothing where there
/// is no row.
pub proof fn operations_work_on_the_row_without_marks(tree: TreeView, paths: Seq<Seq<Part>>)
    requires
        operated(tree, paths),
        tree.marked == Set::<Seq<Part>>::empty(),
    ensures
        tree.cursor < tree.rows.len() ==> paths == seq![tree.rows[tree.cursor].path],
        tree.rows.len() <= tree.cursor ==> paths.len() == 0,
{
    let base = choose|base: Seq<Seq<Part>>|
        {
            &&& #[trigger] outermost(base, paths)
            &&& forall|p: Seq<Part>| #[trigger]
                base.contains(p) <==> crate::navigate::operation_base(tree).contains(p)
        };
    if tree.cursor < tree.rows.len() {
        let only = tree.rows[tree.cursor].path;
        assert(base.contains(only));
        assert(is_outermost(base, only)) by {
            assert forall|q: Seq<Part>| #[trigger]
                base.contains(q) implies !crate::path::strictly_under(only, q) by {
                assert(q == only);
            }
        }
        assert(paths.contains(only));
        assert forall|i: int| 0 <= i < paths.len() implies #[trigger] paths[i] == only by {
            assert(paths.contains(paths[i]));
            assert(base.contains(paths[i]));
        }
        if paths.len() > 1 {
            assert(crate::path::path_lt(paths[0], paths[1]));
            crate::path::path_lt_irreflexive(only);
        }
        assert(paths =~= seq![only]);
    } else if paths.len() > 0 {
        assert(paths.contains(paths[0]));
        assert(base.contains(paths[0]));
    }
}

/// The paths of an operation are in order, and each occurs once.
pub proof fn operations_take_each_path_once(
    tree: TreeView,
    paths: Seq<Seq<Part>>,
    i: int,
    j: int,
)
    requires
        operated(tree, paths),
        0 <= i < j < paths.len(),
    ensures
        paths[i] != paths[j],
        crate::path::path_lt(paths[i], paths[j]),
{
    assert(crate::path::path_lt(paths[i], paths[j]));
    crate::path::path_lt_irreflexive(paths[i]);
}

/// Of any paths those are kept that begin with no other of them: in order, each once, and nothing
/// else.
pub proof fn only_outermost_paths_are_kept(
    paths: Seq<Seq<Part>>,
    kept: Seq<Seq<Part>>,
    p: Seq<Part>,
)
    requires
        outermost(paths, kept),
    ensures
        kept.contains(p) <==> paths.contains(p) && (forall|q: Seq<Part>| #[trigger]
            paths.contains(q) && q.len() < p.len() ==> q != p.take(q.len() as int)),
        forall|i: int, j: int|
            0 <= i < j < kept.len() ==> crate::path::path_lt(#[trigger] kept[i], #[trigger] kept[j]),
{
    if is_outermost(paths, p) {
        assert forall|q: Seq<Part>| #[trigger]
            paths.contains(q) && q.len() < p.len() implies q != p.take(q.len() as int) by {
            if q == p.take(q.len() as int) {
                assert(q.is_prefix_of(p));
            }
        }
    }
    if paths.contains(p) && (forall|q: Seq<Part>| #[trigger]
        paths.contains(q) && q.len() < p.len() ==> q != p.take(q.len() as int)) {
        assert forall|q: Seq<Part>| #[trigger] paths.contains(q) implies !crate::path::strictly_under(
            p,
            q,
        ) by {
            if crate::path::strictly_under(p, q) {
                if q.len() == p.len() {
                    assert(q =~= p);
                }
                assert(q =~= p.take(q.len() as int));
            }
        }
        assert(is_outermost(paths, p));
    }
}

} // verus!
