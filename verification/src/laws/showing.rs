//! How wide the tree is and where it stands, what a refresh keeps, and which states are shown.

use crate::geometry::Rect;
use crate::listing::RowView;
use crate::metadata::GitState;
use crate::path::Part;
use crate::refresh::{
    asked_generation, entered, entered_expanded, state_of, states_forgotten, with_rows,
};
use crate::tree::{
    division, initial_width, narrower, next_generation, visibility_toggled, wider, FileTree,
    TreeConfig, TreeView,
};
use crate::vcs::ChangeView;
use vstd::math::{max, min};
use vstd::prelude::*;

verus! {

/// The tree starts as wide as it is configured, or as wide as the nearer of its two bounds, which
/// may be given in either order.
pub proof fn the_first_width_lies_between_the_bounds(config: TreeConfig)
    ensures
        ({
            let low = min(config.min_width as int, config.max_width as int);
            let high = max(config.min_width as int, config.max_width as int);
            &&& initial_width(config) == max(low, min(config.width as int, high))
        }),
        initial_width(
            (TreeConfig { min_width: config.max_width, max_width: config.min_width, ..config }),
        ) == initial_width(config),
{
}

/// A step makes the tree wider or narrower by the configured step, but not past the bound on that
/// side, which may be given in either place. Nothing else of the tree changes.
pub proof fn steps_of_width_end_at_the_bounds(tree: TreeView, config: TreeConfig)
    ensures
        wider(tree, config).width == min(
            min(tree.width + config.width_step, 65535),
            max(config.min_width as int, config.max_width as int),
        ),
        narrower(tree, config).width == max(
            max(tree.width - config.width_step, 0),
            min(config.min_width as int, config.max_width as int),
        ),
        wider(tree, config) == (TreeView { width: wider(tree, config).width, ..tree }),
        narrower(tree, config) == (TreeView { width: narrower(tree, config).width, ..tree }),
{
}

/// The tree takes its width at the right of the screen, but leaves twenty columns to the editor
/// where that is possible, and the editor has the rest. A hidden tree, and one for which no column
/// is left, leaves everything to the editor.
pub proof fn the_editor_keeps_twenty_columns(tree: TreeView, area: Rect)
    ensures
        ({
            let columns = if tree.visible {
                min(tree.width as int, max(area.width - 20, 0))
            } else {
                0
            };
            let (editor, shown) = division(tree, area);
            &&& shown is Some <==> columns > 0
            &&& editor.x == area.x && editor.y == area.y && editor.height == area.height
            &&& editor.width == area.width - columns
            &&& shown is Some ==> {
                &&& shown->0.width == columns
                &&& shown->0.x + columns == min(area.x + area.width, 65535)
                &&& shown->0.y == area.y && shown->0.height == area.height
            }
        }),
{
}

/// Hiding the tree takes its focus, forgets the states and refuses those still on their way.
/// Showing it changes nothing but that.
pub proof fn hiding_forgets_the_states(tree: TreeView)
    ensures
        visibility_toggled(tree).visible == !tree.visible,
        tree.visible ==> {
            &&& !visibility_toggled(tree).focused
            &&& visibility_toggled(tree).git_generation != tree.git_generation
            &&& visibility_toggled(tree).git_generation == next_generation(tree.git_generation)
            &&& forall|p: Seq<Part>| !(#[trigger] visibility_toggled(tree).git_status.contains_key(p))
            &&& visibility_toggled(tree) == (TreeView {
                visible: false,
                focused: false,
                git_generation: visibility_toggled(tree).git_generation,
                git_status: visibility_toggled(tree).git_status,
                ..tree
            })
        },
        !tree.visible ==> visibility_toggled(tree) == (TreeView { visible: true, ..tree }),
{
}

/// Generations are counted up by one, and begin again after the greatest.
pub proof fn generations_count_up(generation: u64)
    ensures
        generation < u64::MAX ==> next_generation(generation) == generation + 1,
        next_generation(u64::MAX) == 0,
        next_generation(generation) != generation,
{
}

/// In another working directory the tree starts anew: with that directory as its root, open alone,
/// without marks and clipboard, at the top. In the same one it stays as it is. Its width, its
/// visibility and its other settings stay either way.
pub proof fn another_directory_starts_anew(tree: TreeView, cwd: Seq<Part>, path: Seq<Part>)
    ensures
        entered(tree, tree.root) == tree,
        entered(tree, cwd).root == cwd,
        cwd != tree.root ==> {
            &&& entered(tree, cwd).expanded.contains(path) <==> path == cwd
            &&& !entered(tree, cwd).marked.contains(path)
            &&& entered(tree, cwd).clipboard is None
            &&& entered(tree, cwd).cursor == 0
            &&& entered(tree, cwd).scroll == 0
        },
        entered(tree, cwd) == (TreeView {
            root: cwd,
            expanded: entered(tree, cwd).expanded,
            marked: entered(tree, cwd).marked,
            clipboard: entered(tree, cwd).clipboard,
            cursor: entered(tree, cwd).cursor,
            scroll: entered(tree, cwd).scroll,
            ..tree
        }),
{
}

/// New rows replace the old ones. Marks stay exactly on paths that still exist. The cursor stays on
/// the path it was on, at the first row that now has it, or else at its place, on the last row at
/// most. Nothing else of the tree changes.
pub proof fn new_rows_keep_cursor_and_marks(
    tree: TreeView,
    rows: Seq<RowView>,
    existing: Set<Seq<Part>>,
    path: Seq<Part>,
    i: int,
)
    requires
        0 <= tree.cursor,
        0 <= tree.scroll,
        1 <= tree.last_height,
    ensures
        ({
            let after = with_rows(tree, rows, existing);
            let chosen = tree.rows[tree.cursor].path;
            &&& after.rows == rows
            &&& after.marked.contains(path) <==> tree.marked.contains(path) && existing.contains(
                path,
            )
            &&& tree.cursor < tree.rows.len() && 0 <= i < rows.len() && rows[i].path == chosen && (
            forall|j: int| 0 <= j < i ==> (#[trigger] rows[j]).path != chosen) ==> after.cursor == i
            &&& tree.rows.len() <= tree.cursor || (forall|j: int|
                0 <= j < rows.len() ==> (#[trigger] rows[j]).path != chosen) ==> after.cursor == min(
                tree.cursor,
                max(rows.len() - 1, 0),
            )
            &&& after.scroll == max(
                min(tree.scroll, after.cursor),
                after.cursor + 1 - tree.last_height,
            )
            &&& after == (TreeView {
                rows,
                marked: after.marked,
                cursor: after.cursor,
                scroll: after.scroll,
                ..tree
            })
        }),
{
    crate::laws::moving::rows_are_found_by_path(rows, tree.rows[tree.cursor].path, i);
}

/// States are asked for, under a new generation, exactly if the tree is visible and states are
/// shown. The old ones are forgotten either way.
pub proof fn states_are_asked_for_while_visible(tree: TreeView, shown: bool)
    ensures
        forall|p: Seq<Part>| !(#[trigger] states_forgotten(tree, shown).git_status.contains_key(p)),
        tree.visible && shown ==> asked_generation(tree, shown) == Some(
            states_forgotten(tree, shown).git_generation,
        ) && states_forgotten(tree, shown).git_generation == next_generation(tree.git_generation),
        !(tree.visible && shown) ==> asked_generation(tree, shown) is None && states_forgotten(
            tree,
            shown,
        ).git_generation == tree.git_generation,
        states_forgotten(tree, shown) == (TreeView {
            git_status: states_forgotten(tree, shown).git_status,
            git_generation: states_forgotten(tree, shown).git_generation,
            ..tree
        }),
{
}

/// A change is shown at its path as what it is, a rename at the new path.
pub proof fn changes_are_shown_as_what_they_are(path: Seq<Part>, from: Seq<Part>)
    ensures
        state_of(ChangeView::Untracked(path)) == (path, GitState::Untracked),
        state_of(ChangeView::Modified(path)) == (path, GitState::Modified),
        state_of(ChangeView::Conflict(path)) == (path, GitState::Conflict),
        state_of(ChangeView::Deleted(path)) == (path, GitState::Deleted),
        state_of(ChangeView::Renamed(from, path)) == (path, GitState::Renamed),
{
}

/// What is walked in a directory is what is open once that directory has been entered.
pub proof fn the_walk_opens_what_is_expanded(tree: FileTree, cwd: Seq<Part>, path: Seq<Part>)
    ensures
        entered_expanded(tree, cwd).contains(path) <==> entered(tree@, cwd).expanded.contains(path),
{
    if tree.root@ != cwd {
        assert(seq![cwd][0] == cwd);
        assert(seq![cwd].contains(path) <==> path == cwd);
    }
}

/// Links are followed and chains flattened exactly as the configuration says.
pub proof fn walks_follow_the_configuration(config: TreeConfig)
    ensures
        config.walk_options().follow_symlinks == config.follow_symlinks,
        config.walk_options().flatten_dirs == config.flatten_dirs,
{
}

/// In every state that is kept, only a visible tree has the focus, the cursor is on a row if there
/// is any, and its row is among those that are shown.
pub proof fn every_state_shows_the_cursor(tree: FileTree)
    requires
        tree.wf(),
    ensures
        tree.focused ==> tree.visible,
        tree.rows.len() > 0 ==> tree.cursor < tree.rows.len(),
        tree.rows.len() == 0 ==> tree.cursor == 0,
        tree.scroll <= tree.cursor < tree.scroll + tree.last_height,
        1 <= tree.last_height <= 65535,
{
}

} // verus!
