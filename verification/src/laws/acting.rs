//! What the mouse and the actions do to the tree, and what they ask for.

use crate::clipboard::{paste_targets, target_views};
use crate::collections::path_views;
use crate::events::{
    action_refreshes, after_action, after_mouse, asks, click_countable, click_toggles,
    clipboard_action, half_page, over_tree, paste_effect, plain_effect, prompt_effect, row_at_line, Effect,
    FileTreeAction, MouseEvent, MouseKind, OpenAction, TerminalEvent,
};
use crate::geometry::Rect;
use crate::navigate::{collapsed_or_parent, expanded_at_cursor, mark_toggled, operated, toggled};
use crate::path::Part;
use crate::prompts::{endangered_count, OpenDocument};
use crate::tree::{ClipboardKind, TreeConfig, TreeView};
use vstd::math::{max, min};
use vstd::prelude::*;

verus! {

/// The tree takes an event exactly if it is a mouse event over the place where the tree was last
/// drawn, while the tree is visible.
pub proof fn mouse_events_over_the_tree_are_taken(tree: TreeView, mouse: MouseEvent)
    ensures
        !over_tree(tree, TerminalEvent::Other),
        tree.last_area is None ==> !over_tree(tree, TerminalEvent::Mouse(mouse)),
        tree.last_area is Some ==> (over_tree(tree, TerminalEvent::Mouse(mouse)) <==> {
            let area = tree.last_area->0;
            &&& tree.visible
            &&& area.x <= mouse.column < min(area.x + area.width, 65535)
            &&& area.y <= mouse.row < min(area.y + area.height, 65535)
        }),
{
}

/// The wheel moves the cursor by three rows, as far as there are rows. Events of other kinds are
/// taken without an effect.
pub proof fn the_wheel_moves_three_rows(tree: TreeView, area: Rect, mouse: MouseEvent)
    requires
        0 <= tree.cursor < tree.rows.len(),
        0 <= tree.scroll,
        1 <= tree.last_height,
        mouse.kind != MouseKind::DownLeft,
    ensures
        mouse.kind == MouseKind::ScrollUp ==> after_mouse(tree, area, mouse).cursor == max(
            tree.cursor - 3,
            0,
        ),
        mouse.kind == MouseKind::ScrollDown ==> after_mouse(tree, area, mouse).cursor == min(
            tree.cursor + 3,
            tree.rows.len() - 1,
        ),
        mouse.kind == MouseKind::Other ==> after_mouse(tree, area, mouse) == tree,
        after_mouse(tree, area, mouse) == (TreeView {
            cursor: after_mouse(tree, area, mouse).cursor,
            scroll: after_mouse(tree, area, mouse).scroll,
            ..tree
        }),
{
}

/// A click on the line of a row brings the focus to the tree and the cursor to that row. It opens
/// or closes the row's directory if it hits the sign, which stands three columns in and two more
/// for each level, or if the cursor was on the row and the tree had the focus. A click below the
/// rows does nothing.
pub proof fn clicks_choose_and_toggle(
    tree: TreeView,
    area: Rect,
    mouse: MouseEvent,
    path: Seq<Part>,
)
    requires
        0 <= tree.scroll,
        1 <= tree.last_height,
        area.y <= mouse.row,
        mouse.kind == MouseKind::DownLeft,
        tree.scroll + (mouse.row - area.y) < tree.rows.len() ==> 3 + 2 * tree.rows[tree.scroll + (
        mouse.row - area.y)].depth <= 65535,
    ensures
        ({
            let index = tree.scroll + (mouse.row - area.y);
            let row = tree.rows[index];
            let sign = min(area.x + 3 + 2 * row.depth, 65535);
            let toggles = row.is_dir && (mouse.column == sign || (tree.focused && tree.cursor
                == index));
            let after = after_mouse(tree, area, mouse);
            &&& row_at_line(tree, area, mouse.row) == index
            &&& index >= tree.rows.len() ==> after == tree
            &&& index < tree.rows.len() ==> {
                &&& click_toggles(tree, area, mouse) == toggles
                &&& after.focused
                &&& after.cursor == index
                &&& after.scroll == max(min(tree.scroll, index), index + 1 - tree.last_height)
                &&& after.expanded.contains(path) == (tree.expanded.contains(path) != (toggles
                    && path == row.path))
                &&& after == (TreeView {
                    focused: true,
                    cursor: after.cursor,
                    scroll: after.scroll,
                    expanded: after.expanded,
                    ..tree
                })
            }
        }),
{
}

/// Single steps, half pages and the two ends: each moves the cursor by what it says, as far as
/// there are rows, and changes nothing but the cursor and which rows are shown.
pub proof fn cursor_actions_move_the_cursor(
    tree: TreeView,
    action: FileTreeAction,
    config: TreeConfig,
)
    requires
        0 <= tree.cursor < tree.rows.len(),
        0 <= tree.scroll,
        1 <= tree.last_height,
        action is CursorUp || action is CursorDown || action is PageUp || action is PageDown
            || action is CursorFirst || action is CursorLast,
    ensures
        ({
            let after = after_action(tree, action, config);
            let half = max(tree.last_height / 2, 1);
            &&& half_page(tree) == half
            &&& action is CursorUp ==> after.cursor == max(tree.cursor - 1, 0)
            &&& action is CursorDown ==> after.cursor == min(tree.cursor + 1, tree.rows.len() - 1)
            &&& action is PageUp ==> after.cursor == max(tree.cursor - half, 0)
            &&& action is PageDown ==> after.cursor == min(tree.cursor + half, tree.rows.len() - 1)
            &&& action is CursorFirst ==> after.cursor == 0
            &&& action is CursorLast ==> after.cursor == tree.rows.len() - 1
            &&& after.scroll <= after.cursor < after.scroll + tree.last_height || after.cursor
                == tree.cursor
            &&& after == (TreeView { cursor: after.cursor, scroll: after.scroll, ..tree })
        }),
{
}

/// The actions that show or hide something, or change how wide the tree is or who has the focus,
/// change that alone.
pub proof fn settings_change_alone(tree: TreeView, config: TreeConfig)
    ensures
        after_action(tree, FileTreeAction::ToggleHidden, config) == (TreeView {
            show_hidden: !tree.show_hidden,
            ..tree
        }),
        after_action(tree, FileTreeAction::FocusEditor, config) == (TreeView {
            focused: false,
            ..tree
        }),
        after_action(tree, FileTreeAction::CollapseAll, config) == (TreeView {
            expanded: set![tree.root],
            ..tree
        }),
        after_action(tree, FileTreeAction::WidthIncrease, config) == (TreeView {
            width: after_action(tree, FileTreeAction::WidthIncrease, config).width,
            ..tree
        }),
        after_action(tree, FileTreeAction::WidthDecrease, config) == (TreeView {
            width: after_action(tree, FileTreeAction::WidthDecrease, config).width,
            ..tree
        }),
        after_action(tree, FileTreeAction::WidthIncrease, config).width == min(
            min(tree.width + config.width_step, 65535),
            max(config.min_width as int, config.max_width as int),
        ),
        after_action(tree, FileTreeAction::WidthDecrease, config).width == max(
            max(tree.width - config.width_step, 0),
            min(config.min_width as int, config.max_width as int),
        ),
{
}

/// The actions on the row under the cursor are those that open, close and mark it.
pub proof fn row_actions_work_on_the_row(tree: TreeView, config: TreeConfig)
    ensures
        after_action(tree, FileTreeAction::Open, config) == toggled(tree),
        after_action(tree, FileTreeAction::Expand, config) == expanded_at_cursor(tree),
        after_action(tree, FileTreeAction::Collapse, config) == collapsed_or_parent(tree),
        after_action(tree, FileTreeAction::Mark, config) == mark_toggled(tree),
{
}

/// What only asks, opens a file beside, pastes or refreshes leaves the tree as it is.
pub proof fn other_actions_leave_the_tree(
    tree: TreeView,
    action: FileTreeAction,
    config: TreeConfig,
)
    requires
        action is OpenHorizontalSplit || action is OpenVerticalSplit || action is Paste
            || action is CreateFile || action is CreateDirectory || action is Rename
            || action is Delete || action is Refresh,
    ensures
        after_action(tree, action, config) == tree,
{
}

/// Copying and cutting fill the clipboard with their own kind, and no other action fills it.
pub proof fn copy_and_cut_fill_the_clipboard(action: FileTreeAction)
    ensures
        clipboard_action(action) == Some(ClipboardKind::Copy) <==> action is Copy,
        clipboard_action(action) == Some(ClipboardKind::Cut) <==> action is Cut,
        clipboard_action(action) is None <==> !(action is Copy) && !(action is Cut),
        asks(action) <==> action is CreateFile || action is CreateDirectory || action is Rename
            || action is Delete,
{
}

/// What an action leads to beyond the tree itself. A refresh, collapsing everything and showing or
/// hiding hidden names refresh the tree; so do opening, expanding and collapsing a directory under
/// the cursor, the last only if it was open. A file under the cursor is opened in the way that was
/// asked for. Everything else leads to nothing.
pub proof fn plain_actions_lead_to(tree: TreeView, action: FileTreeAction, effect: Effect)
    requires
        0 <= tree.cursor < tree.rows.len(),
        plain_effect(tree, action, effect),
    ensures
        ({
            let row = tree.rows[tree.cursor];
            let open = row.is_dir && tree.expanded.contains(row.path);
            &&& action is Refresh || action is CollapseAll || action is ToggleHidden
                ==> effect is Refresh
            &&& (action is Open || action is Expand) && row.is_dir ==> effect is Refresh
            &&& action is Collapse && open ==> effect is Refresh
            &&& action is Collapse && !open ==> effect is Nothing
            &&& action is Expand && !row.is_dir ==> effect is Nothing
            &&& (action is OpenHorizontalSplit || action is OpenVerticalSplit) && row.is_dir
                ==> effect is Nothing
            &&& (action is Open || action is OpenHorizontalSplit || action is OpenVerticalSplit)
                && !row.is_dir ==> effect is Open && effect->path@ == row.path
            &&& action is Open && !row.is_dir ==> effect->Open_action == OpenAction::Replace
            &&& action is OpenHorizontalSplit && !row.is_dir ==> effect->Open_action
                == OpenAction::HorizontalSplit
            &&& action is OpenVerticalSplit && !row.is_dir ==> effect->Open_action
                == OpenAction::VerticalSplit
            &&& action is CursorUp || action is CursorDown || action is PageUp || action is PageDown
                || action is CursorFirst || action is CursorLast || action is Mark
                || action is WidthIncrease || action is WidthDecrease || action is FocusEditor
                ==> effect is Nothing
        }),
{
}

/// Without a row under the cursor only the actions on the whole tree lead to a refresh, and the
/// others to nothing.
pub proof fn plain_actions_without_a_row_lead_to(
    tree: TreeView,
    action: FileTreeAction,
    effect: Effect,
)
    requires
        tree.rows.len() <= tree.cursor,
        plain_effect(tree, action, effect),
    ensures
        action is Refresh || action is CollapseAll || action is ToggleHidden <==> effect is Refresh,
        !(effect is Refresh) ==> effect is Nothing,
        action_refreshes(tree, action) <==> action is Refresh || action is CollapseAll
            || action is ToggleHidden,
{
}

/// A paste with an empty clipboard, and one without a row, are told as such. Any other starts with
/// nothing done, with the kind of the clipboard, and with each of its paths that has a name, to that
/// name in the directory under the cursor.
pub proof fn pastes_lead_to(tree: TreeView, effect: Effect)
    requires
        0 <= tree.cursor,
        paste_effect(tree, effect),
    ensures
        effect is Paste,
        tree.clipboard is None <==> effect->Paste_0 is EmptyClipboard,
        tree.clipboard is Some && tree.rows.len() <= tree.cursor ==> effect->Paste_0 is NoRow,
        tree.clipboard is Some && tree.cursor < tree.rows.len() ==> {
            &&& effect->Paste_0 is Job
            &&& effect->Paste_0->Job_0.kind == tree.clipboard->0.kind
            &&& effect->Paste_0->Job_0.completed == 0
            &&& effect->Paste_0->Job_0.targets.len() > 0 ==> !effect->Paste_0->Job_0.failed
            &&& tree.rows[tree.cursor].is_dir ==> target_views(
                effect->Paste_0->Job_0.targets@,
            ) == paste_targets(tree.clipboard->0.paths, tree.rows[tree.cursor].path)
            &&& !tree.rows[tree.cursor].is_dir && tree.rows[tree.cursor].path.len() > 0
                && tree.rows[tree.cursor].path.last() is Normal ==> target_views(
                effect->Paste_0->Job_0.targets@,
            ) == paste_targets(
                tree.clipboard->0.paths,
                tree.rows[tree.cursor].path.take(tree.rows[tree.cursor].path.len() - 1),
            )
        },
{
    crate::laws::pasting::pasting_goes_where_the_cursor_is(tree);
}

/// Creating asks for a name in the directory under the cursor, or the one that the file under the
/// cursor lies in, or the root where there is no row; and for a directory only where one was asked
/// for.
pub proof fn creations_ask_where_the_cursor_is(
    tree: TreeView,
    action: FileTreeAction,
    documents: Seq<OpenDocument>,
    effect: Effect,
)
    requires
        0 <= tree.cursor,
        action is CreateFile || action is CreateDirectory,
        prompt_effect(tree, action, documents, effect),
    ensures
        effect is Create,
        effect->Create_0.is_dir <==> action is CreateDirectory,
        tree.rows.len() <= tree.cursor ==> effect->Create_0.parent@ == tree.root,
        tree.cursor < tree.rows.len() && tree.rows[tree.cursor].is_dir ==> effect->Create_0.parent@
            == tree.rows[tree.cursor].path,
        tree.cursor < tree.rows.len() && !tree.rows[tree.cursor].is_dir
            && tree.rows[tree.cursor].path.len() > 0 && tree.rows[tree.cursor].path.last() is Normal
            ==> effect->Create_0.parent@ == tree.rows[tree.cursor].path.take(
            tree.rows[tree.cursor].path.len() - 1,
        ),
{
    crate::laws::pasting::pasting_goes_where_the_cursor_is(tree);
}

/// Renaming asks for a new name for the row under the cursor, exactly if its path ends in a name:
/// that name is offered, and the new one goes beside it.
pub proof fn renaming_asks_for_the_row(
    tree: TreeView,
    documents: Seq<OpenDocument>,
    effect: Effect,
)
    requires
        0 <= tree.cursor,
        prompt_effect(tree, FileTreeAction::Rename, documents, effect),
    ensures
        ({
            let path = tree.rows[tree.cursor].path;
            let named = tree.cursor < tree.rows.len() && path.len() > 0 && path.last() is Normal;
            &&& !named ==> effect is Nothing
            &&& named ==> {
                &&& effect is Rename
                &&& effect->Rename_0.source@ == path
                &&& Part::Normal(effect->Rename_0.name@) == path.last()
                &&& effect->Rename_0.parent@ == path.take(path.len() - 1)
            }
        }),
{
    let path = tree.rows[tree.cursor].path;
    if path.len() > 0 {
        assert(path.drop_last() =~= path.take(path.len() - 1));
    }
}

/// Deleting asks about the paths on which an operation works, if there are any, with none deleted
/// yet and with the count of the modified documents in them. With marks, or with a row under the
/// cursor, there are some.
pub proof fn deleting_asks_about_the_operation_paths(
    tree: TreeView,
    documents: Seq<OpenDocument>,
    effect: Effect,
    marked: Seq<Part>,
)
    requires
        0 <= tree.cursor,
        prompt_effect(tree, FileTreeAction::Delete, documents, effect),
    ensures
        effect is Nothing || effect is Delete,
        effect is Delete ==> {
            &&& effect->Delete_0.completed == 0
            &&& effect->Delete_0.paths.len() > 0
            &&& operated(tree, path_views(effect->Delete_0.paths@))
            &&& effect->Delete_0.modified == endangered_count(
                documents,
                path_views(effect->Delete_0.paths@),
            )
        },
        tree.marked == Set::<Seq<Part>>::empty() && tree.cursor < tree.rows.len()
            ==> effect is Delete && path_views(effect->Delete_0.paths@) == seq![
            tree.rows[tree.cursor].path,
        ],
        tree.marked == Set::<Seq<Part>>::empty() && tree.rows.len() <= tree.cursor
            ==> effect is Nothing,
        tree.marked.contains(marked) ==> effect is Delete,
{
    let paths = if effect is Delete {
        path_views(effect->Delete_0.paths@)
    } else {
        Seq::empty()
    };
    assert(operated(tree, paths));
    if tree.marked =~= Set::<Seq<Part>>::empty() {
        crate::laws::moving::operations_work_on_the_row_without_marks(tree, paths);
        if tree.cursor < tree.rows.len() {
            assert(paths == seq![tree.rows[tree.cursor].path]);
            assert(paths.len() == 1);
            assert(effect is Delete);
        }
    }
    if tree.marked.contains(marked) {
        crate::laws::moving::marks_are_operated_on(tree, paths, marked);
    }
}

/// A click can be judged unless it hits a row whose sign would stand beyond the last column.
pub proof fn clicks_can_be_judged(tree: TreeView, mouse: MouseEvent)
    ensures
        click_countable(tree, TerminalEvent::Other),
        mouse.kind != MouseKind::DownLeft ==> click_countable(tree, TerminalEvent::Mouse(mouse)),
        !tree.visible || tree.last_area is None ==> click_countable(
            tree,
            TerminalEvent::Mouse(mouse),
        ),
        (forall|i: int| 0 <= i < tree.rows.len() ==> (#[trigger] tree.rows[i]).depth <= 32766)
            && 0 <= tree.scroll ==> click_countable(tree, TerminalEvent::Mouse(mouse)),
{
}

} // verus!
