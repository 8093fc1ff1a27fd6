//! What one action undoes of another.

use vstd::prelude::*;

use crate::events::{after_action, FileTreeAction};
use crate::flatten::{hidden_names_have_no_row, lists_nothing_hidden};
use crate::listing::{hidden_name, walk_depends_on_members, walk_dir, Entry, RowView};
use crate::path::{file_name_of, Part};
use crate::refresh::{states_forgotten, with_rows};
use crate::rows::{
    paths_distinct, read_distinct, walk_grows_with_expansion, walk_shows_each_path_once,
};
use crate::tree::{cursor_in_view, first_row_is_first, selected, TreeConfig, TreeView};

verus! {

/// The list holds exactly the expanded directories of the tree.
pub open spec fn lists_expanded(expanded: Seq<Seq<Part>>, tree: TreeView) -> bool {
    forall|p: Seq<Part>| #[trigger] expanded.contains(p) <==> tree.expanded.contains(p)
}

/// The rows of a tree for what was read.
pub open spec fn rows_for(
    tree: TreeView,
    read: Map<Seq<Part>, Vec<Entry>>,
    expanded: Seq<Seq<Part>>,
    config: TreeConfig,
) -> Seq<RowView> {
    walk_dir(read, expanded, config.walk_options(), tree.root, 0).rows
}

/// The tree after a refresh that has read all it needs, in the same working directory.
pub open spec fn refreshed(
    tree: TreeView,
    read: Map<Seq<Part>, Vec<Entry>>,
    expanded: Seq<Seq<Part>>,
    config: TreeConfig,
    existing: Set<Seq<Part>>,
) -> TreeView {
    states_forgotten(
        with_rows(tree, rows_for(tree, read, expanded, config), existing),
        config.git_status,
    )
}

/// No row is that of a hidden name.
pub open spec fn shows_nothing_hidden(rows: Seq<RowView>) -> bool {
    forall|i: int|
        0 <= i < rows.len() ==> file_name_of((#[trigger] rows[i]).path) is Some && !hidden_name(
            file_name_of(rows[i].path)->0,
        )
}

/// Showing hidden files and hiding them again, or the other way round, gives back the same rows, as
/// long as the disk stays the same. `now` is what is read as the tree is, and `other` what is read
/// with hidden files shown or hidden the other way; `before`, `between` and `after` are the expanded
/// directories as they are held. Which names are left out when hidden files are not shown is
/// decided where the directories are read.
pub proof fn toggle_hidden_twice(
    tree: TreeView,
    now: Map<Seq<Part>, Vec<Entry>>,
    other: Map<Seq<Part>, Vec<Entry>>,
    before: Seq<Seq<Part>>,
    between: Seq<Seq<Part>>,
    after: Seq<Seq<Part>>,
    config: TreeConfig,
    existing: Set<Seq<Part>>,
)
    requires
        tree.rows == rows_for(tree, now, before, config),
        lists_expanded(before, tree),
        lists_expanded(between, tree),
        lists_expanded(after, tree),
    ensures
        ({
            let once = refreshed(
                after_action(tree, FileTreeAction::ToggleHidden, config),
                other,
                between,
                config,
                existing,
            );
            let twice = refreshed(
                after_action(once, FileTreeAction::ToggleHidden, config),
                now,
                after,
                config,
                existing,
            );
            &&& once.show_hidden == !tree.show_hidden
            &&& once.expanded == tree.expanded
            &&& once.rows == rows_for(tree, other, between, config)
            &&& !once.show_hidden && lists_nothing_hidden(other) ==> shows_nothing_hidden(once.rows)
            &&& twice.show_hidden == tree.show_hidden
            &&& twice.expanded == tree.expanded
            &&& twice.rows == tree.rows
        }),
{
    let options = config.walk_options();
    assert forall|p: Seq<Part>| #[trigger] before.contains(p) <==> after.contains(p) by {
        assert(before.contains(p) <==> tree.expanded.contains(p));
        assert(after.contains(p) <==> tree.expanded.contains(p));
    }
    walk_depends_on_members(now, before, after, options, tree.root, 0);
    if lists_nothing_hidden(other) {
        hidden_names_have_no_row(other, between, options, tree.root, 0);
        let rows = rows_for(tree, other, between, config);
        assert(rows == walk_dir(other, between, options, tree.root, 0).rows);
        assert(shows_nothing_hidden(rows));
    }
}

/// Closing a directory undoes opening it up: with the cursor on a closed directory, Expand and then
/// Collapse give back the expanded directories, the rows and the path under the cursor, as long as
/// the disk stays the same. `before`, `between` and `after` are the expanded directories as they are
/// held.
pub proof fn collapse_undoes_expand(
    tree: TreeView,
    read: Map<Seq<Part>, Vec<Entry>>,
    before: Seq<Seq<Part>>,
    between: Seq<Seq<Part>>,
    after: Seq<Seq<Part>>,
    config: TreeConfig,
    existing: Set<Seq<Part>>,
)
    requires
        cursor_in_view(tree),
        read_distinct(read),
        tree.rows == rows_for(tree, read, before, config),
        selected(tree) is Some,
        selected(tree)->0.is_dir,
        !tree.expanded.contains(selected(tree)->0.path),
        lists_expanded(before, tree),
        lists_expanded(between, after_action(tree, FileTreeAction::Expand, config)),
        lists_expanded(after, tree),
    ensures
        ({
            let dir = selected(tree)->0.path;
            let open = refreshed(
                after_action(tree, FileTreeAction::Expand, config),
                read,
                between,
                config,
                existing,
            );
            let closed = refreshed(
                after_action(open, FileTreeAction::Collapse, config),
                read,
                after,
                config,
                existing,
            );
            &&& open.expanded == tree.expanded.insert(dir)
            &&& selected(open) is Some
            &&& selected(open)->0.path == dir
            &&& closed.expanded == tree.expanded
            &&& closed.rows == tree.rows
            &&& selected(closed) is Some
            &&& selected(closed)->0.path == dir
        }),
{
    let options = config.walk_options();
    let row = selected(tree)->0;
    let dir = row.path;
    let expand = after_action(tree, FileTreeAction::Expand, config);
    let rows = rows_for(tree, read, between, config);
    assert forall|p: Seq<Part>| #[trigger] before.contains(p) implies between.contains(p) by {
        assert(tree.expanded.contains(p));
        assert(expand.expanded.contains(p));
    }
    walk_grows_with_expansion(read, before, between, options, tree.root, 0);
    walk_shows_each_path_once(read, between, options, tree.root, 0);
    assert(tree.rows.contains(row)) by {
        assert(tree.rows[tree.cursor] == row);
    }
    assert(rows.contains(row));
    let k = choose|k: int| 0 <= k < rows.len() && rows[k] == row;
    first_row_is_first(rows, dir, 0);
    let open = refreshed(expand, read, between, config, existing);
    let found = crate::tree::first_row(rows, dir, 0)->0;
    assert(found == k) by {
        assert(rows[found].path == dir && rows[k].path == dir);
        assert(paths_distinct(rows));
        if found < k {
            assert(rows[found].path != rows[k].path);
        }
    }
    assert(selected(open) == Some(row));
    let collapse = after_action(open, FileTreeAction::Collapse, config);
    assert(collapse.expanded =~= tree.expanded);
    assert forall|p: Seq<Part>| #[trigger] before.contains(p) <==> after.contains(p) by {
        assert(before.contains(p) <==> tree.expanded.contains(p));
        assert(after.contains(p) <==> tree.expanded.contains(p));
    }
    walk_depends_on_members(read, before, after, options, tree.root, 0);
    first_row_is_first(tree.rows, dir, 0);
    assert(tree.rows[tree.cursor].path == dir);
}

} // verus!
