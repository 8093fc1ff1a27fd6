//! The file tree: what it shows, where its cursor stands, and what is marked in it.
//!
//! The tree never touches the disk or the editor. An operation that has to be followed by some work
//! outside says so in what it returns.

use vstd::prelude::*;

use crate::collections::{path_views, PathMap, PathSet};
use crate::geometry::{screen_difference, screen_sum, Rect};
use crate::listing::{row_views, Row, RowView, WalkOptions};
use crate::metadata::GitState;
use crate::path::{path_of, Part, TreePath};

verus! {

/// The columns that are always left to the editor.
pub const MIN_EDITOR_WIDTH: u16 = 20;

/// Whether what is in the clipboard is copied or moved.
#[derive(Debug, Clone, Copy, PartialEq, Eq, Structural)]
pub enum ClipboardKind {
    Copy,
    Cut,
}

/// The paths to be pasted.
#[derive(Debug)]
pub struct TreeClipboard {
    pub kind: ClipboardKind,
    pub paths: Vec<TreePath>,
}

/// The mathematical value of a [`TreeClipboard`].
pub struct ClipboardView {
    pub kind: ClipboardKind,
    pub paths: Seq<Seq<Part>>,
}

impl View for TreeClipboard {
    type V = ClipboardView;

    open spec fn view(&self) -> ClipboardView {
        ClipboardView { kind: self.kind, paths: path_views(self.paths@) }
    }
}

/// The settings of the tree.
#[derive(Debug, Clone, Copy)]
pub struct TreeConfig {
    pub visible: bool,
    pub hidden: bool,
    pub width: u16,
    pub min_width: u16,
    pub max_width: u16,
    pub width_step: u16,
    pub auto_reveal: bool,
    pub git_status: bool,
    pub diagnostics: bool,
    pub follow_symlinks: bool,
    pub flatten_dirs: bool,
}

impl TreeConfig {
    /// How the tree is walked.
    pub open spec fn walk_options(self) -> WalkOptions {
        WalkOptions { follow_symlinks: self.follow_symlinks, flatten_dirs: self.flatten_dirs }
    }
}

/// Persistent, keyboard-focused file tree rendered beside the editor.
#[derive(Debug)]
pub struct FileTree {
    pub root: TreePath,
    pub rows: Vec<Row>,
    pub expanded: PathSet,
    pub marked: PathSet,
    pub cursor: usize,
    pub scroll: usize,
    pub visible: bool,
    pub focused: bool,
    pub width: u16,
    pub show_hidden: bool,
    pub clipboard: Option<TreeClipboard>,
    pub last_height: usize,
    pub git_status: PathMap<GitState>,
    pub git_generation: u64,
    pub last_area: Option<Rect>,
    pub dirty: bool,
    /// The file whose row is to stand in the middle when the tree is drawn next.
    pub to_center: Option<TreePath>,
}

/// The mathematical value of a [`FileTree`].
pub struct TreeView {
    pub root: Seq<Part>,
    pub rows: Seq<RowView>,
    pub expanded: Set<Seq<Part>>,
    pub marked: Set<Seq<Part>>,
    pub cursor: int,
    pub scroll: int,
    pub visible: bool,
    pub focused: bool,
    pub width: u16,
    pub show_hidden: bool,
    pub clipboard: Option<ClipboardView>,
    pub last_height: int,
    pub git_status: Map<Seq<Part>, GitState>,
    pub git_generation: u64,
    pub last_area: Option<Rect>,
    pub dirty: bool,
    pub to_center: Option<Seq<Part>>,
}

impl View for FileTree {
    type V = TreeView;

    open spec fn view(&self) -> TreeView {
        TreeView {
            root: self.root@,
            rows: row_views(self.rows@),
            expanded: self.expanded@,
            marked: self.marked@,
            cursor: self.cursor as int,
            scroll: self.scroll as int,
            visible: self.visible,
            focused: self.focused,
            width: self.width,
            show_hidden: self.show_hidden,
            clipboard: match self.clipboard {
                Some(clipboard) => Some(clipboard@),
                None => None,
            },
            last_height: self.last_height as int,
            git_status: self.git_status@,
            git_generation: self.git_generation,
            last_area: self.last_area,
            dirty: self.dirty,
            to_center: path_of(self.to_center),
        }
    }
}

/// The cursor stands on a row, where there is one, and that row is in the part that is shown.
pub open spec fn cursor_in_view(tree: TreeView) -> bool {
    &&& 1 <= tree.last_height <= u16::MAX
    &&& 0 <= tree.scroll <= tree.cursor < tree.scroll + tree.last_height
    &&& tree.cursor < tree.rows.len() || (tree.rows.len() == 0 && tree.cursor == 0)
}

impl FileTree {
    /// The tree is in order: its sets hold nothing twice, its cursor is in view, and a hidden tree
    /// has no focus.
    pub open spec fn wf(&self) -> bool {
        &&& self.expanded.wf()
        &&& self.marked.wf()
        &&& self.git_status.wf()
        &&& cursor_in_view(self@)
        &&& self.focused ==> self.visible
    }
}

/// The row on which the cursor stands.
pub open spec fn selected(tree: TreeView) -> Option<RowView> {
    if tree.cursor < tree.rows.len() {
        Some(tree.rows[tree.cursor])
    } else {
        None
    }
}

/// The first line shown when the cursor is at `cursor` and `scroll` was the first line before: as
/// little as possible is scrolled.
pub open spec fn scrolled(cursor: int, scroll: int, height: int) -> int {
    if cursor < scroll {
        cursor
    } else if cursor >= scroll + height {
        cursor + 1 - height
    } else {
        scroll
    }
}

/// The first row that is shown when the row of the cursor stands in the middle, or as near to it as
/// the first row allows.
pub open spec fn centering_scroll(cursor: int, height: int) -> int {
    if cursor >= height / 2 {
        cursor - height / 2
    } else {
        0
    }
}

/// The last row, or zero where there is none.
pub open spec fn last_row(rows: nat) -> int {
    if rows == 0 {
        0
    } else {
        rows - 1
    }
}

/// The tree with its cursor brought back onto a row and into view.
pub open spec fn clamped(tree: TreeView) -> TreeView {
    let cursor = if tree.cursor <= last_row(tree.rows.len()) {
        tree.cursor
    } else {
        last_row(tree.rows.len())
    };
    TreeView { cursor, scroll: scrolled(cursor, tree.scroll, tree.last_height), ..tree }
}

/// The tree with its cursor at a row, in view.
pub open spec fn at_row(tree: TreeView, row: int) -> TreeView {
    clamped(TreeView { cursor: row, ..tree })
}

/// The tree with its cursor moved by some rows, as far as there are rows.
pub open spec fn moved(tree: TreeView, delta: int) -> TreeView {
    if tree.rows.len() == 0 {
        tree
    } else if tree.cursor + delta < 0 {
        at_row(tree, 0)
    } else {
        at_row(tree, tree.cursor + delta)
    }
}

/// The position of the first row of a path, from some position on.
pub open spec fn first_row(rows: Seq<RowView>, path: Seq<Part>, from: int) -> Option<int>
    decreases rows.len() - from,
{
    if from < 0 || from >= rows.len() {
        None
    } else if rows[from].path == path {
        Some(from)
    } else {
        first_row(rows, path, from + 1)
    }
}

/// The first row of a path is a row of that path, none comes before it, and a path without one has
/// no row at all.
pub proof fn first_row_is_first(rows: Seq<RowView>, path: Seq<Part>, from: int)
    requires
        0 <= from,
    ensures
        match first_row(rows, path, from) {
            Some(i) => from <= i < rows.len() && rows[i].path == path && (forall|j: int|
                from <= j < i ==> (#[trigger] rows[j]).path != path),
            None => forall|j: int| from <= j < rows.len() ==> (#[trigger] rows[j]).path != path,
        },
    decreases rows.len() - from,
{
    if from < rows.len() && rows[from].path != path {
        first_row_is_first(rows, path, from + 1);
    }
}

/// The lower and the upper bound of two numbers.
pub fn ordered_width_bounds(a: u16, b: u16) -> (r: (u16, u16))
    ensures
        r.0 == if a <= b { a } else { b },
        r.1 == if a <= b { b } else { a },
{
    if a <= b {
        (a, b)
    } else {
        (b, a)
    }
}

/// The smallest width that the settings allow.
pub open spec fn lower_width(config: TreeConfig) -> u16 {
    if config.min_width <= config.max_width {
        config.min_width
    } else {
        config.max_width
    }
}

/// The largest width that the settings allow.
pub open spec fn upper_width(config: TreeConfig) -> u16 {
    if config.min_width <= config.max_width {
        config.max_width
    } else {
        config.min_width
    }
}

/// The width with which the tree starts.
pub open spec fn initial_width(config: TreeConfig) -> u16 {
    if config.width < lower_width(config) {
        lower_width(config)
    } else if config.width > upper_width(config) {
        upper_width(config)
    } else {
        config.width
    }
}

impl FileTree {
    /// A tree over a directory. Its rows are still to be read.
    pub fn new(config: &TreeConfig, root: TreePath) -> (r: FileTree)
        ensures
            r.wf(),
            r@ == (TreeView {
                root: root@,
                rows: Seq::empty(),
                expanded: Set::empty().insert(root@),
                marked: Set::empty(),
                cursor: 0,
                scroll: 0,
                visible: config.visible,
                focused: false,
                width: initial_width(*config),
                show_hidden: !config.hidden,
                clipboard: None,
                last_height: 1,
                git_status: Map::empty(),
                git_generation: 0,
                last_area: None,
                dirty: false,
                to_center: None,
            }),
    {
        let (min_width, max_width) = ordered_width_bounds(config.min_width, config.max_width);
        let width = if config.width < min_width {
            min_width
        } else if config.width > max_width {
            max_width
        } else {
            config.width
        };
        let mut expanded = PathSet::new();
        expanded.insert(root.clone());
        let tree = FileTree {
            root,
            rows: Vec::new(),
            expanded,
            marked: PathSet::new(),
            cursor: 0,
            scroll: 0,
            visible: config.visible,
            focused: false,
            width,
            show_hidden: !config.hidden,
            clipboard: None,
            last_height: 1,
            git_status: PathMap::new(),
            git_generation: 0,
            last_area: None,
            dirty: false,
            to_center: None,
        };
        assert(tree@.rows =~= Seq::<RowView>::empty());
        tree
    }

    /// Shows or hides the tree. A hidden tree is not focused, and what is still on its way to its
    /// version-control states is refused. Tells whether the tree has to be refreshed.
    pub fn toggle(&mut self) -> (refresh: bool)
        requires
            old(self).wf(),
        ensures
            final(self).wf(),
            refresh == !old(self)@.visible,
            final(self)@ == visibility_toggled(old(self)@),
    {
        self.visible = !self.visible;
        if !self.visible {
            self.focused = false;
            self.git_generation = self.git_generation.wrapping_add(1);
            self.git_status.clear();
            false
        } else {
            true
        }
    }

    /// Moves the focus between the tree and the editor, and shows the tree where it is hidden. Tells
    /// whether the tree has to be refreshed, and whether the active file is to be revealed.
    pub fn toggle_focus(&mut self, config: &TreeConfig) -> (r: (bool, bool))
        requires
            old(self).wf(),
        ensures
            final(self).wf(),
            final(self)@ == (TreeView {
                visible: true,
                focused: !old(self)@.visible || !old(self)@.focused,
                ..old(self)@
            }),
            r.0 == !old(self)@.visible,
            r.1 == (final(self)@.focused && config.auto_reveal),
    {
        let refresh = !self.visible;
        if refresh {
            self.visible = true;
            self.focused = true;
        } else {
            self.focused = !self.focused;
        }
        (refresh, self.focused && config.auto_reveal)
    }

    /// Gives the focus back to the editor.
    pub fn focus_editor(&mut self)
        requires
            old(self).wf(),
        ensures
            final(self).wf(),
            final(self)@ == (TreeView { focused: false, ..old(self)@ }),
    {
        self.focused = false;
    }

    /// The tree has the focus.
    pub fn focused(&self) -> (r: bool)
        ensures
            r == self@.focused,
    {
        self.focused
    }

    /// Makes the tree wider, as far as the settings allow.
    pub fn increase_width(&mut self, config: &TreeConfig)
        requires
            old(self).wf(),
        ensures
            final(self).wf(),
            final(self)@ == wider(old(self)@, *config),
    {
        let (_, max_width) = ordered_width_bounds(config.min_width, config.max_width);
        let width = self.width.saturating_add(config.width_step);
        self.width = if width <= max_width {
            width
        } else {
            max_width
        };
    }

    /// Makes the tree narrower, as far as the settings allow.
    pub fn decrease_width(&mut self, config: &TreeConfig)
        requires
            old(self).wf(),
        ensures
            final(self).wf(),
            final(self)@ == narrower(old(self)@, *config),
    {
        let (min_width, _) = ordered_width_bounds(config.min_width, config.max_width);
        let width = self.width.saturating_sub(config.width_step);
        self.width = if width >= min_width {
            width
        } else {
            min_width
        };
    }

    /// Divides the screen between the editor and the tree. A tree for which there is no place is not
    /// shown, and not focused.
    pub fn layout(&mut self, area: Rect) -> (r: (Rect, Option<Rect>))
        requires
            old(self).wf(),
        ensures
            final(self).wf(),
            r == division(old(self)@, area),
            final(self)@ == if r.1 is Some {
                old(self)@
            } else {
                TreeView { last_area: None, focused: false, ..old(self)@ }
            },
    {
        if !self.visible || area.width < MIN_EDITOR_WIDTH + 1 {
            self.last_area = None;
            self.focused = false;
            return (area, None);
        }
        let left = area.width - MIN_EDITOR_WIDTH;
        let width = if self.width <= left {
            self.width
        } else {
            left
        };
        if width == 0 {
            self.last_area = None;
            self.focused = false;
            return (area, None);
        }
        (
            area.clip_right(width),
            Some(Rect { x: area.right() - width, y: area.y, width, height: area.height }),
        )
    }

    /// Closes all directories but the root. The tree has to be refreshed.
    pub fn collapse_all(&mut self)
        requires
            old(self).wf(),
        ensures
            final(self).wf(),
            final(self)@ == collapsed(old(self)@),
    {
        self.expanded.clear();
        self.expanded.insert(self.root.clone());
    }
}

/// The generation after another. The count starts over when it is exhausted.
pub open spec fn next_generation(generation: u64) -> u64 {
    if generation == u64::MAX {
        0
    } else {
        (generation + 1) as u64
    }
}

/// The tree shown where it is hidden, and hidden where it is shown. A hidden tree has no focus and
/// no version-control states, and begins a new generation of them.
pub open spec fn visibility_toggled(tree: TreeView) -> TreeView {
    if tree.visible {
        TreeView {
            visible: false,
            focused: false,
            git_generation: next_generation(tree.git_generation),
            git_status: Map::empty(),
            ..tree
        }
    } else {
        TreeView { visible: true, ..tree }
    }
}

/// Hiding the tree and showing it again, or the other way round, loses nothing but the focus and
/// the version-control states.
pub proof fn toggle_twice_keeps_the_tree(tree: TreeView)
    requires
        tree.focused ==> tree.visible,
    ensures
        visibility_toggled(visibility_toggled(tree)) == (TreeView {
            focused: false,
            git_generation: next_generation(tree.git_generation),
            git_status: Map::empty(),
            ..tree
        }),
{
}

/// The tree one step wider.
pub open spec fn wider(tree: TreeView, config: TreeConfig) -> TreeView {
    let width = screen_sum(tree.width, config.width_step);
    TreeView {
        width: if width <= upper_width(config) {
            width
        } else {
            upper_width(config)
        },
        ..tree
    }
}

/// The tree one step narrower.
pub open spec fn narrower(tree: TreeView, config: TreeConfig) -> TreeView {
    let width = screen_difference(tree.width, config.width_step);
    TreeView {
        width: if width >= lower_width(config) {
            width
        } else {
            lower_width(config)
        },
        ..tree
    }
}

/// The columns of the tree when the screen is `area` wide.
pub open spec fn tree_columns(tree: TreeView, area: Rect) -> u16 {
    let left = screen_difference(area.width, MIN_EDITOR_WIDTH);
    if !tree.visible {
        0
    } else if tree.width <= left {
        tree.width
    } else {
        left
    }
}

/// How the screen is divided: what is left to the editor, and the tree at its right.
pub open spec fn division(tree: TreeView, area: Rect) -> (Rect, Option<Rect>) {
    let columns = tree_columns(tree, area);
    if columns == 0 {
        (area, None)
    } else {
        (
            Rect { width: (area.width - columns) as u16, ..area },
            Some(
                Rect {
                    x: (area.right_column() - columns) as u16,
                    y: area.y,
                    width: columns,
                    height: area.height,
                },
            ),
        )
    }
}

/// The tree with all directories but the root closed.
pub open spec fn collapsed(tree: TreeView) -> TreeView {
    TreeView { expanded: Set::empty().insert(tree.root), ..tree }
}

/// The editor keeps its minimal width beside the tree, the two together fill the screen, and they
/// meet without a gap, wherever the screen's right edge is itself on the screen.
pub proof fn division_fills_the_screen(tree: TreeView, area: Rect)
    requires
        area.x + area.width <= u16::MAX,
    ensures
        division(tree, area) matches (editor, Some(side)) ==> {
            &&& editor.width >= MIN_EDITOR_WIDTH
            &&& editor.width + side.width == area.width
            &&& editor.x == area.x
            &&& side.x == editor.right_column()
            &&& side.right_column() == area.right_column()
            &&& side.width <= tree.width
        },
{
}

/// Between the bounds of the settings, a step wider or narrower stays between them.
pub proof fn width_stays_in_bounds(tree: TreeView, config: TreeConfig)
    requires
        lower_width(config) <= tree.width <= upper_width(config),
    ensures
        lower_width(config) <= wider(tree, config).width <= upper_width(config),
        lower_width(config) <= narrower(tree, config).width <= upper_width(config),
        wider(tree, config).width >= tree.width,
        narrower(tree, config).width <= tree.width,
{
}

/// A step wider and a step narrower lead back to the same width, and so do the two the other way
/// round, wherever the bounds of the settings leave room for a whole step.
pub proof fn width_steps_undo_each_other(tree: TreeView, config: TreeConfig)
    ensures
        lower_width(config) <= tree.width && tree.width + config.width_step <= upper_width(config)
            ==> narrower(wider(tree, config), config) == tree,
        tree.width <= upper_width(config) && lower_width(config) <= tree.width - config.width_step
            ==> wider(narrower(tree, config), config) == tree,
{
}

/// The tree starts with a width between the bounds of the settings.
pub proof fn initial_width_in_bounds(config: TreeConfig)
    ensures
        lower_width(config) <= initial_width(config) <= upper_width(config),
{
}

} // verus!
