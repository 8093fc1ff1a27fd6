//! Drawing the tree: what stands in each line, where, and in which style.

use vstd::prelude::*;
use vstd::string::*;

use crate::collections::PathMap;
use crate::geometry::{screen_difference, screen_sum, Rect};
use crate::listing::{Row, RowView};
use crate::metadata::{
    aggregate_diagnostics, aggregate_git_status, all_counting, badge_of, carries, counted,
    metadata_badge, sums_fit, totals, GitState,
};
use crate::path::{path_of, Part, TreePath};
use crate::text::decimal;
use crate::tree::{centering_scroll, clamped, cursor_in_view, selected, FileTree, TreeView};

verus! {

/// The style of a row's text.
#[derive(Debug, Clone, Copy, PartialEq, Eq, Structural)]
pub struct RowStyle {
    /// It is a directory.
    pub directory: bool,
    /// It is the file that is being edited.
    pub active: bool,
    /// The cursor stands on it, and the tree has the focus.
    pub selected: bool,
}

/// The style of a row's badge.
#[derive(Debug, Clone, Copy, PartialEq, Eq, Structural)]
pub enum BadgeStyle {
    Error,
    Warning,
    Plus,
    Minus,
    Delta,
}

/// What stands at the end of a row, and where it starts.
#[derive(Debug, PartialEq, Eq)]
pub struct Badge {
    pub x: u16,
    pub width: u16,
    pub text: String,
    pub style: BadgeStyle,
}

/// One drawn row.
#[derive(Debug, PartialEq, Eq)]
pub struct DrawnRow {
    pub x: u16,
    pub y: u16,
    /// The columns that the text may take.
    pub width: u16,
    pub text: String,
    pub style: RowStyle,
    pub badge: Option<Badge>,
}

/// The mathematical value of a [`Badge`].
pub struct BadgeView {
    pub x: u16,
    pub width: u16,
    pub text: Seq<char>,
    pub style: BadgeStyle,
}

/// The mathematical value of a [`DrawnRow`].
pub struct DrawnView {
    pub x: u16,
    pub y: u16,
    pub width: u16,
    pub text: Seq<char>,
    pub style: RowStyle,
    pub badge: Option<BadgeView>,
}

impl View for Badge {
    type V = BadgeView;

    open spec fn view(&self) -> BadgeView {
        BadgeView { x: self.x, width: self.width, text: self.text@, style: self.style }
    }
}

impl View for DrawnRow {
    type V = DrawnView;

    open spec fn view(&self) -> DrawnView {
        DrawnView {
            x: self.x,
            y: self.y,
            width: self.width,
            text: self.text@,
            style: self.style,
            badge: match self.badge {
                Some(badge) => Some(badge@),
                None => None,
            },
        }
    }
}

/// The indentation of a row.
pub open spec fn indentation(depth: nat) -> Seq<char>
    decreases depth,
{
    if depth == 0 {
        Seq::empty()
    } else {
        indentation((depth - 1) as nat) + "  "@
    }
}

/// The text of a row: its mark, its indentation, whether its directory is opened up, and its name.
pub open spec fn row_text(tree: TreeView, row: RowView) -> Seq<char> {
    (if tree.marked.contains(row.path) {
        "●"@
    } else {
        " "@
    }) + " "@ + indentation(row.depth) + (if row.is_dir {
        if tree.expanded.contains(row.path) {
            "▾"@
        } else {
            "▸"@
        }
    } else {
        " "@
    }) + " "@ + row.name
}

/// The style of a badge: errors matter more than warnings, and these more than version control.
pub open spec fn badge_style(git: Option<GitState>, diagnostics: Option<(usize, usize)>) -> BadgeStyle {
    match diagnostics {
        Some((errors, warnings)) => if errors > 0 {
            BadgeStyle::Error
        } else if warnings > 0 {
            BadgeStyle::Warning
        } else {
            git_style(git)
        },
        None => git_style(git),
    }
}

/// The style of a version-control state.
pub open spec fn git_style(git: Option<GitState>) -> BadgeStyle {
    match git {
        Some(GitState::Untracked) => BadgeStyle::Plus,
        Some(GitState::Deleted) => BadgeStyle::Minus,
        Some(GitState::Conflict) => BadgeStyle::Error,
        _ => BadgeStyle::Delta,
    }
}

/// The badge of a row, where it has one and there is place for it.
pub open spec fn drawn_badge(
    area: Rect,
    git: Option<GitState>,
    diagnostics: Option<(usize, usize)>,
) -> Option<BadgeView> {
    let text = badge_of(git, diagnostics);
    if text.len() > 0 && text.len() + 2 < area.width {
        Some(
            BadgeView {
                x: screen_difference(area.right_column(), (text.len() + 1) as u16),
                width: text.len() as u16,
                text,
                style: badge_style(git, diagnostics),
            },
        )
    } else {
        None
    }
}

/// What a map holds for a key.
pub open spec fn held<V>(map: Map<Seq<Part>, V>, key: Seq<Part>) -> Option<V> {
    if map.contains_key(key) {
        Some(map[key])
    } else {
        None
    }
}

/// The drawn form of the row at a position.
pub open spec fn drawn(
    tree: TreeView,
    area: Rect,
    active: Option<Seq<Part>>,
    git: Map<Seq<Part>, GitState>,
    diagnostics: Map<Seq<Part>, (usize, usize)>,
    index: int,
) -> DrawnView {
    let row = tree.rows[index];
    DrawnView {
        x: screen_sum(area.x, 1),
        y: (area.y + index - tree.scroll) as u16,
        width: screen_difference(area.width, 2),
        text: row_text(tree, row),
        style: RowStyle {
            directory: row.is_dir,
            active: active == Some(row.path),
            selected: index == tree.cursor && tree.focused,
        },
        badge: drawn_badge(area, held(git, row.path), held(diagnostics, row.path)),
    }
}

/// The number of rows that are drawn.
pub open spec fn drawn_count(tree: TreeView) -> int {
    if tree.rows.len() - tree.scroll <= tree.last_height {
        tree.rows.len() - tree.scroll
    } else {
        tree.last_height
    }
}

/// The height of the tree when it is drawn into an area.
pub open spec fn drawn_height(area: Rect) -> int {
    if area.height >= 1 {
        area.height as int
    } else {
        1
    }
}

/// The cursor stands on the row that is to stand in the middle.
pub open spec fn centers(tree: TreeView) -> bool {
    selected(tree) matches Some(row) && tree.to_center == Some(row.path)
}

/// The tree as it is drawn into an area: as high as that, with the cursor in view, and with its row
/// in the middle where that is still to be done.
pub open spec fn fitted(tree: TreeView, area: Rect) -> TreeView {
    let sized = clamped(TreeView { last_height: drawn_height(area), ..tree });
    TreeView {
        scroll: if centers(sized) {
            centering_scroll(sized.cursor, sized.last_height)
        } else {
            sized.scroll
        },
        to_center: None,
        ..sized
    }
}

/// A row that is to stand in the middle does so in the area into which the tree is drawn, or as near
/// to it as the first row allows.
pub proof fn drawn_row_is_centered(tree: TreeView, area: Rect)
    requires
        cursor_in_view(tree),
        centers(tree),
    ensures
        cursor_in_view(fitted(tree, area)),
        selected(fitted(tree, area)) == selected(tree),
        fitted(tree, area).cursor - fitted(tree, area).scroll == if tree.cursor < drawn_height(area)
            / 2 {
            tree.cursor
        } else {
            drawn_height(area) / 2
        },
{
}

/// The lines into which the tree is drawn have numbers.
pub open spec fn lines_countable(tree: TreeView, area: Rect) -> bool {
    area.y + drawn_count(fitted(tree, area)) <= u16::MAX + 1
}

/// `rows` is the drawn form of the tree for the summaries `git` and `diagnostics`.
pub open spec fn drawn_as(
    tree: TreeView,
    area: Rect,
    active: Option<Seq<Part>>,
    git: Map<Seq<Part>, GitState>,
    diagnostics: Map<Seq<Part>, (usize, usize)>,
    rows: Seq<DrawnRow>,
) -> bool {
    &&& rows.len() == drawn_count(tree)
    &&& forall|i: int|
        0 <= i < rows.len() ==> (#[trigger] rows[i])@ == drawn(
            tree,
            area,
            active,
            git,
            diagnostics,
            tree.scroll + i,
        )
}

/// A power of ten.
pub open spec fn ten_to(n: nat) -> nat
    decreases n,
{
    if n == 0 {
        1
    } else {
        10 * ten_to((n - 1) as nat)
    }
}

proof fn lemma_decimal_length(n: nat, digits: nat)
    requires
        n < ten_to(digits),
        digits >= 1,
    ensures
        1 <= decimal(n).len() <= digits,
    decreases digits,
{
    if n >= 10 {
        if digits == 1 {
            reveal_with_fuel(ten_to, 2);
        }
        lemma_decimal_length(n / 10, (digits - 1) as nat);
    }
}

/// A badge is short.
pub proof fn badge_is_short(git: Option<GitState>, diagnostics: Option<(usize, usize)>)
    ensures
        badge_of(git, diagnostics).len() <= 46,
{
    reveal_with_fuel(ten_to, 21);
    if let Some((errors, warnings)) = diagnostics {
        lemma_decimal_length(errors as nat, 20);
        lemma_decimal_length(warnings as nat, 20);
        assert(counted('E', errors as nat).len() <= 22);
        assert(counted('W', warnings as nat).len() <= 22);
    }
}

fn make_row_text(tree: &FileTree, row: &Row) -> (r: String)
    requires
        tree.wf(),
    ensures
        r@ == row_text(tree@, row@),
{
    let marker = if tree.marked.contains(&row.path) {
        "●"
    } else {
        " "
    };
    let disclosure = if row.is_dir {
        if tree.expanded.contains(&row.path) {
            "▾"
        } else {
            "▸"
        }
    } else {
        " "
    };
    let mut r = marker.to_owned();
    r.append(" ");
    let ghost head = r@;
    assert(head + indentation(0) =~= head);
    let mut k: usize = 0;
    while k < row.depth
        invariant
            k <= row.depth,
            r@ == head + indentation(k as nat),
        decreases row.depth - k,
    {
        r.append("  ");
        k = k + 1;
        assert(r@ =~= head + indentation(k as nat));
    }
    r.append(disclosure);
    r.append(" ");
    r.append(row.name.as_str());
    r
}

fn make_badge(area: Rect, git: Option<GitState>, diagnostics: Option<(usize, usize)>) -> (r: Option<
    Badge,
>)
    ensures
        match r {
            Some(badge) => drawn_badge(area, git, diagnostics) == Some(badge@),
            None => drawn_badge(area, git, diagnostics) is None,
        },
{
    let text = metadata_badge(git, diagnostics);
    proof {
        badge_is_short(git, diagnostics);
    }
    let width = text.as_str().unicode_len() as u16;
    if width == 0 || width + 2 >= area.width {
        return None;
    }
    let by_git = match git {
        Some(GitState::Untracked) => BadgeStyle::Plus,
        Some(GitState::Deleted) => BadgeStyle::Minus,
        Some(GitState::Conflict) => BadgeStyle::Error,
        _ => BadgeStyle::Delta,
    };
    let style = match diagnostics {
        Some((errors, warnings)) => {
            if errors > 0 {
                BadgeStyle::Error
            } else if warnings > 0 {
                BadgeStyle::Warning
            } else {
                by_git
            }
        },
        None => by_git,
    };
    Some(Badge { x: area.right().saturating_sub(width + 1), width, text, style })
}

/// `git` and `diagnostics` are summaries of what is known of the files of the tree. Where
/// diagnostics are not shown, there are none.
pub open spec fn summaries(
    tree: TreeView,
    direct: Option<PathMap<(usize, usize)>>,
    git: Map<Seq<Part>, GitState>,
    diagnostics: Map<Seq<Part>, (usize, usize)>,
) -> bool {
    &&& carries(tree.git_status, all_counting(tree.git_status, tree.root), git)
    &&& match direct {
        Some(direct) => totals(direct.pairs(), tree.root, diagnostics),
        None => diagnostics == Map::<Seq<Part>, (usize, usize)>::empty(),
    }
}

impl FileTree {
    /// Notes where the tree is drawn, and tells whether it has to be refreshed before: where the
    /// disk has changed, or the working directory.
    pub fn begin_render(&mut self, area: Rect, cwd: &TreePath) -> (refresh: bool)
        requires
            old(self).wf(),
        ensures
            final(self).wf(),
            refresh == (old(self)@.dirty || old(self)@.root != cwd@),
            final(self)@ == (TreeView { last_area: Some(area), dirty: false, ..old(self)@ }),
    {
        let dirty = self.dirty;
        self.last_area = Some(area);
        self.dirty = false;
        dirty || !cwd.same(&self.root)
    }

    fn height_in(area: Rect) -> (r: usize)
        ensures
            r == drawn_height(area),
            1 <= r <= u16::MAX,
    {
        if area.height >= 1 {
            area.height as usize
        } else {
            1
        }
    }

    /// The first row that is shown when the tree is drawn into an area.
    fn scroll_in(&self, area: Rect) -> (r: usize)
        requires
            self.wf(),
        ensures
            r == fitted(self@, area).scroll,
    {
        let height = Self::height_in(area);
        let center = match (&self.to_center, self.selected_row()) {
            (Some(path), Some(row)) => path.same(&row.path),
            _ => false,
        };
        if center {
            self.cursor.saturating_sub(height / 2)
        } else if self.cursor < self.scroll {
            self.cursor
        } else if self.cursor - self.scroll >= height {
            self.cursor - (height - 1)
        } else {
            self.scroll
        }
    }

    /// Makes the tree as high as the area into which it is drawn.
    fn fit(&mut self, area: Rect)
        requires
            old(self).wf(),
        ensures
            final(self).wf(),
            final(self)@ == fitted(old(self)@, area),
    {
        self.scroll = self.scroll_in(area);
        self.last_height = Self::height_in(area);
        self.to_center = None;
    }

    /// The lines into which the tree would be drawn have numbers.
    pub fn lines_have_numbers(&self, area: Rect) -> (r: bool)
        requires
            self.wf(),
        ensures
            r == lines_countable(self@, area),
    {
        let height = Self::height_in(area);
        let left = self.rows.len() - self.scroll_in(area);
        let count = if left <= height {
            left
        } else {
            height
        };
        area.y as usize + count <= 0x10000
    }

    /// Draws the tree into an area. `active` is the file that is being edited, and `diagnostics`
    /// the errors and warnings of each file, where they are shown.
    pub fn render(
        &mut self,
        area: Rect,
        active: &Option<TreePath>,
        diagnostics: Option<PathMap<(usize, usize)>>,
    ) -> (rows: Vec<DrawnRow>)
        requires
            old(self).wf(),
            lines_countable(old(self)@, area),
            diagnostics matches Some(direct) ==> direct.wf() && sums_fit(
                direct.pairs(),
                old(self)@.root,
            ),
        ensures
            final(self).wf(),
            final(self)@ == fitted(old(self)@, area),
            exists|
                git: Map<Seq<Part>, GitState>,
                sums: Map<Seq<Part>, (usize, usize)>,
            | #[trigger]
                summaries(old(self)@, diagnostics, git, sums) && drawn_as(
                    final(self)@,
                    area,
                    path_of(*active),
                    git,
                    sums,
                    rows@,
                ),
    {
        let ghost direct = diagnostics;
        self.fit(area);
        let git = aggregate_git_status(&self.git_status, &self.root);
        let sums = match diagnostics {
            Some(direct) => aggregate_diagnostics(direct, &self.root),
            None => PathMap::new(),
        };
        assert(summaries(old(self)@, direct, git@, sums@));
        let ghost active_view = path_of(*active);
        let mut rows: Vec<DrawnRow> = Vec::new();
        let left = self.rows.len() - self.scroll;
        let count = if left <= self.last_height {
            left
        } else {
            self.last_height
        };
        let mut i: usize = 0;
        while i < count
            invariant
                i <= count,
                self.wf(),
                git.wf(),
                sums.wf(),
                area.y + count <= u16::MAX + 1,
                self@ == fitted(old(self)@, area),
                count == drawn_count(self@),
                count <= u16::MAX,
                active_view == path_of(*active),
                rows.len() == i,
                forall|j: int|
                    0 <= j < i ==> (#[trigger] rows@[j])@ == drawn(
                        self@,
                        area,
                        active_view,
                        git@,
                        sums@,
                        self@.scroll + j,
                    ),
            decreases count - i,
        {
            assert(self@.rows.len() == self.rows.len());
            let index = self.scroll + i;
            let row = &self.rows[index];
            assert(self@.rows[index as int] == row@);
            let is_active = match active {
                Some(path) => path.same(&row.path),
                None => false,
            };
            let text = make_row_text(self, row);
            let badge = make_badge(area, git.get(&row.path), sums.get(&row.path));
            let style = RowStyle {
                directory: row.is_dir,
                active: is_active,
                selected: index == self.cursor && self.focused,
            };
            let line = i as u16;
            rows.push(
                DrawnRow {
                    x: area.x.saturating_add(1),
                    y: area.y + line,
                    width: area.width.saturating_sub(2),
                    text,
                    style,
                    badge,
                },
            );
            i = i + 1;
        }
        assert(drawn_as(self@, area, active_view, git@, sums@, rows@));
        rows
    }
}

/// What the border of the tree is made of.
pub const BORDER: &'static str = "│";

/// The cells of the border: the first column of the area, from its first line to its last.
pub fn border(area: Rect) -> (cells: Vec<(u16, u16)>)
    ensures
        cells.len() == area.bottom_line() - area.y,
        forall|i: int|
            0 <= i < cells.len() ==> (#[trigger] cells@[i]).0 == area.x && cells@[i].1 == area.y + i,
{
    let bottom = area.bottom();
    let mut cells: Vec<(u16, u16)> = Vec::new();
    let mut y: u16 = area.y;
    while y < bottom
        invariant
            area.y <= y <= bottom,
            bottom == area.bottom_line(),
            cells.len() == y - area.y,
            forall|i: int|
                0 <= i < cells.len() ==> (#[trigger] cells@[i]).0 == area.x && cells@[i].1 == area.y
                    + i,
        decreases bottom - y,
    {
        cells.push((area.x, y));
        y = y + 1;
    }
    cells
}

/// The row of the cursor is among those that are drawn, wherever there is a row at all.
pub proof fn cursor_row_is_drawn(tree: TreeView)
    requires
        cursor_in_view(tree),
        tree.rows.len() > 0,
    ensures
        0 <= tree.cursor - tree.scroll < drawn_count(tree),
{
}

} // verus!
