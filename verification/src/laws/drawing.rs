//! What a row looks like on the screen, character by character and column by column.

use crate::geometry::{screen_difference, screen_sum, Rect};
use crate::listing::RowView;
use crate::metadata::{badge_of, GitState};
use crate::path::Part;
use crate::render::{
    badge_style, drawn, drawn_as, drawn_badge, drawn_count, fitted, indentation, lines_countable,
    row_text, BadgeStyle, DrawnRow,
};
use crate::text::decimal;
use crate::tree::TreeView;
use vstd::math::{max, min};
use vstd::prelude::*;

verus! {

/// The indentation of a row has two characters for each level above it, all of them blanks.
pub proof fn indentation_is_two_blanks_per_level(depth: nat)
    ensures
        indentation(depth).len() == 2 * depth,
        forall|i: int| 0 <= i < 2 * depth ==> #[trigger] indentation(depth)[i] == ' ',
    decreases depth,
{
    reveal_strlit("  ");
    if depth > 0 {
        indentation_is_two_blanks_per_level((depth - 1) as nat);
    }
}

/// The line of a row, character by character: a dot if the row is marked, a blank, two blanks for
/// each level, a triangle that points down for an expanded directory and right for another, a
/// blank, and the name.
pub proof fn row_is_drawn_in_columns(tree: TreeView, row: RowView)
    ensures
        ({
            let text = row_text(tree, row);
            let sign = 2 + 2 * row.depth as int;
            &&& text.len() == sign + 2 + row.name.len()
            &&& text[0] == (if tree.marked.contains(row.path) {
                '●'
            } else {
                ' '
            })
            &&& forall|i: int| 1 <= i < sign ==> #[trigger] text[i] == ' '
            &&& row.is_dir && tree.expanded.contains(row.path) ==> text[sign] == '▾'
            &&& row.is_dir && !tree.expanded.contains(row.path) ==> text[sign] == '▸'
            &&& !row.is_dir ==> text[sign] == ' '
            &&& text[sign + 1] == ' '
            &&& text.skip(sign + 2) == row.name
        }),
{
    reveal_strlit(" ");
    reveal_strlit("●");
    reveal_strlit("▾");
    reveal_strlit("▸");
    indentation_is_two_blanks_per_level(row.depth);
    let text = row_text(tree, row);
    let sign = 2 + 2 * row.depth as int;
    assert forall|i: int| 1 <= i < sign implies #[trigger] text[i] == ' ' by {
        if i >= 2 {
            assert(text[i] == indentation(row.depth)[i - 2]);
        }
    }
    assert(text.skip(sign + 2) =~= row.name);
}

/// A row that is one level deeper is drawn two columns further in: its sign and its name stand two
/// columns to the right of where they would stand.
pub proof fn deeper_rows_stand_further_in(tree: TreeView, row: RowView, deeper: RowView)
    requires
        deeper == (RowView { depth: row.depth + 1, ..row }),
    ensures
        row_text(tree, deeper).len() == row_text(tree, row).len() + 2,
        row_text(tree, deeper).skip((4 + 2 * row.depth) as int) == row_text(tree, row).skip(
            (2 + 2 * row.depth) as int,
        ),
{
    row_is_drawn_in_columns(tree, row);
    row_is_drawn_in_columns(tree, deeper);
    let a = row_text(tree, row).skip((2 + 2 * row.depth) as int);
    let b = row_text(tree, deeper).skip((4 + 2 * row.depth) as int);
    let short = row_text(tree, row);
    let long = row_text(tree, deeper);
    assert(a.len() == b.len());
    assert forall|i: int| 0 <= i < a.len() implies a[i] == b[i] by {
        if i >= 2 {
            assert(short.skip((4 + 2 * row.depth) as int)[i - 2] == a[i]);
            assert(long.skip((6 + 2 * row.depth) as int)[i - 2] == b[i]);
        }
    }
    assert(a =~= b);
}

/// A number is written with its decimal digits: the last one is the remainder by ten, those before
/// it are the digits of the rest, and nothing stands before a number below ten.
pub proof fn numbers_are_written_in_digits(n: nat)
    ensures
        decimal(n).len() > 0,
        decimal(n).last() as int == 48 + n % 10,
        n < 10 ==> decimal(n).len() == 1,
        n >= 10 ==> decimal(n).take(decimal(n).len() - 1) == decimal(n / 10),
{
    assert(n >= 10 ==> decimal(n).take(decimal(n).len() - 1) =~= decimal(n / 10));
    let d = n % 10;
    assert(d < 10);
    assert(n < 10 ==> d == n);
}

/// The badge of a row is the sign of its state, then its errors, then its warnings. A state that
/// there is none of and a count of nothing are not drawn.
pub proof fn badges_are_put_together(git: Option<GitState>, errors: usize, warnings: usize)
    ensures
        badge_of(None, None).len() == 0,
        badge_of(None, Some((0, 0))).len() == 0,
        badge_of(git, Some((errors, warnings))) == badge_of(git, None) + badge_of(
            None,
            Some((errors, 0)),
        ) + badge_of(None, Some((0, warnings))),
        errors > 0 ==> badge_of(None, Some((errors, 0))) == seq![' ', 'E'] + decimal(
            errors as nat,
        ),
        warnings > 0 ==> badge_of(None, Some((0, warnings))) == seq![' ', 'W'] + decimal(
            warnings as nat,
        ),
{
    assert(badge_of(git, Some((errors, warnings))) =~= badge_of(git, None) + badge_of(
        None,
        Some((errors, 0)),
    ) + badge_of(None, Some((0, warnings))));
}

/// Each state has a sign of its own, behind a blank.
pub proof fn states_have_their_signs()
    ensures
        badge_of(Some(GitState::Untracked), None) == seq![' ', '?'],
        badge_of(Some(GitState::Modified), None) == seq![' ', 'M'],
        badge_of(Some(GitState::Renamed), None) == seq![' ', 'R'],
        badge_of(Some(GitState::Deleted), None) == seq![' ', 'D'],
        badge_of(Some(GitState::Conflict), None) == seq![' ', '!'],
{
}

/// A badge with errors is drawn as an error, one with warnings alone as a warning, whatever the
/// state of the path. Without either the state decides, as if there were no diagnostics.
pub proof fn diagnostics_decide_the_style(git: Option<GitState>, errors: usize, warnings: usize)
    ensures
        errors > 0 ==> badge_style(git, Some((errors, warnings))) == BadgeStyle::Error,
        errors == 0 && warnings > 0 ==> badge_style(git, Some((errors, warnings)))
            == BadgeStyle::Warning,
        errors == 0 && warnings == 0 ==> badge_style(git, Some((errors, warnings))) == badge_style(
            git,
            None,
        ),
        badge_style(git, None) == BadgeStyle::Error <==> git == Some(GitState::Conflict),
        badge_style(git, None) == BadgeStyle::Plus <==> git == Some(GitState::Untracked),
        badge_style(git, None) == BadgeStyle::Minus <==> git == Some(GitState::Deleted),
        badge_style(git, None) != BadgeStyle::Warning,
{
}

/// A badge is drawn exactly if there is something in it and two columns more than it takes are
/// there. It ends one column before the right edge of the tree.
pub proof fn badges_end_before_the_edge(
    area: Rect,
    git: Option<GitState>,
    diagnostics: Option<(usize, usize)>,
)
    ensures
        ({
            let text = badge_of(git, diagnostics);
            let badge = drawn_badge(area, git, diagnostics);
            &&& badge is Some <==> 0 < text.len() < area.width - 2
            &&& badge is Some ==> {
                &&& badge->0.text == text
                &&& badge->0.width == text.len()
                &&& badge->0.x + text.len() + 1 == min(area.x + area.width, 65535)
                &&& badge->0.style == badge_style(git, diagnostics)
            }
        }),
{
}

/// Columns and lines are added and taken away on a screen that ends at zero and at 65535.
pub proof fn screen_has_two_ends(a: u16, b: u16)
    ensures
        screen_sum(a, b) == min(a + b, 65535),
        screen_difference(a, b) == max(a - b, 0),
{
}

/// A rectangle holds the places from its corner on, as far as it is wide and high, on the screen.
pub proof fn rectangles_hold_their_places(area: Rect, column: u16, row: u16)
    ensures
        area.holds(column, row) <==> area.x <= column && column < area.x + area.width && column
            < 65535 && area.y <= row && row < area.y + area.height && row < 65535,
{
}

/// The row at an index is drawn on the line that is as far below the top as the index is beyond the
/// first row shown. It leaves the column of the border free and one at the right, it is active if
/// its path is the active one, and selected if the cursor is on it and the tree has the focus.
pub proof fn rows_are_drawn_in_place(
    tree: TreeView,
    area: Rect,
    active: Option<Seq<Part>>,
    git: Map<Seq<Part>, GitState>,
    diagnostics: Map<Seq<Part>, (usize, usize)>,
    index: int,
)
    requires
        tree.scroll <= index < tree.rows.len(),
        area.y + index - tree.scroll <= 65535,
    ensures
        ({
            let row = tree.rows[index];
            let line = drawn(tree, area, active, git, diagnostics, index);
            &&& line.x == min(area.x + 1, 65535)
            &&& line.y - area.y == index - tree.scroll
            &&& line.width == max(area.width - 2, 0)
            &&& line.text == row_text(tree, row)
            &&& line.style.directory == row.is_dir
            &&& line.style.active <==> active is Some && active->0 == row.path
            &&& line.style.selected <==> tree.focused && tree.cursor == index
            &&& !git.contains_key(row.path) && !diagnostics.contains_key(row.path)
                ==> line.badge is None
            &&& git.contains_key(row.path) && !diagnostics.contains_key(row.path) ==> line.badge
                == drawn_badge(area, Some(git[row.path]), None)
            &&& !git.contains_key(row.path) && diagnostics.contains_key(row.path) ==> line.badge
                == drawn_badge(area, None, Some(diagnostics[row.path]))
            &&& git.contains_key(row.path) && diagnostics.contains_key(row.path) ==> line.badge
                == drawn_badge(area, Some(git[row.path]), Some(diagnostics[row.path]))
        }),
{
}

/// As many rows are drawn as there are lines, or rows from the first one shown.
pub proof fn rows_fill_the_lines(tree: TreeView)
    ensures
        drawn_count(tree) == min(tree.rows.len() - tree.scroll, tree.last_height),
{
}

/// Fitting the tree to an area brings the cursor to the last row at most, and the rows shown to
/// where the cursor is among them: no further than needed, or with the cursor row in the middle
/// where that row is to be centred. Nothing else of the tree changes.
pub proof fn fitting_keeps_the_cursor_in_view(tree: TreeView, area: Rect)
    requires
        tree.cursor >= 0,
        tree.scroll >= 0,
    ensures
        ({
            let f = fitted(tree, area);
            let height = max(area.height as int, 1);
            let centers = f.cursor < tree.rows.len() && tree.to_center == Some(
                tree.rows[f.cursor].path,
            );
            &&& f.last_height == height
            &&& f.cursor == min(tree.cursor, max(tree.rows.len() - 1, 0))
            &&& f.to_center is None
            &&& centers ==> f.scroll == max(f.cursor - height / 2, 0)
            &&& !centers ==> f.scroll == max(min(tree.scroll, f.cursor), f.cursor + 1 - height)
            &&& f == (TreeView {
                last_height: f.last_height,
                cursor: f.cursor,
                scroll: f.scroll,
                to_center: None,
                ..tree
            })
        }),
{
}

/// The lines of a tree can be numbered exactly if each row that is drawn has a line on the screen.
pub proof fn lines_are_numbered_on_the_screen(tree: TreeView, area: Rect)
    requires
        0 <= tree.cursor < max(tree.rows.len() as int, 1),
        0 <= tree.scroll,
    ensures
        lines_countable(tree, area) <==> forall|i: int|
            0 <= i < drawn_count(fitted(tree, area)) ==> #[trigger] (area.y + i) <= 65535,
{
    let count = drawn_count(fitted(tree, area));
    if forall|i: int| 0 <= i < count ==> #[trigger] (area.y + i) <= 65535 {
        if count > 0 {
            assert(area.y + (count - 1) <= 65535);
        }
    }
}

/// What is drawn are the rows from the first one shown on, in order, each in its place.
pub proof fn rows_are_drawn_from_the_first_shown(
    tree: TreeView,
    area: Rect,
    active: Option<Seq<Part>>,
    git: Map<Seq<Part>, GitState>,
    diagnostics: Map<Seq<Part>, (usize, usize)>,
    rows: Seq<DrawnRow>,
    i: int,
)
    requires
        drawn_as(tree, area, active, git, diagnostics, rows),
        0 <= i < rows.len(),
    ensures
        rows.len() == min(tree.rows.len() - tree.scroll, tree.last_height),
        rows[i].text@ == row_text(tree, tree.rows[tree.scroll + i]),
        rows[i]@ == drawn(tree, area, active, git, diagnostics, tree.scroll + i),
{
}

} // verus!
