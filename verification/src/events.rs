//! What the mouse and the keyboard do to the tree.

use vstd::prelude::*;

use crate::clipboard::{paste_targets, target_views, with_clipboard, PasteStart};
use crate::collections::path_views;
use crate::geometry::{screen_sum, Rect};
use crate::listing::RowView;
use crate::navigate::{
    collapsed_or_parent, expanded_at_cursor, file_at_cursor, mark_toggled, operated, selects_dir,
    selects_open_dir, toggled,
};
use crate::path::{Part, TreePath};
use crate::prompts::{
    creation_directory, endangered_count, CreatePrompt, DeletePrompt, OpenDocument, RenamePrompt,
};
use crate::text::{failure_at, failure_text_at};
use crate::tree::{
    at_row, collapsed, last_row, moved, narrower, selected, wider, ClipboardKind, FileTree,
    TreeConfig, TreeView,
};

verus! {

/// What the mouse did.
#[derive(Debug, Clone, Copy, PartialEq, Eq, Structural)]
pub enum MouseKind {
    ScrollUp,
    ScrollDown,
    DownLeft,
    Other,
}

/// What the mouse did, and where.
#[derive(Debug, Clone, Copy, PartialEq, Eq, Structural)]
pub struct MouseEvent {
    pub kind: MouseKind,
    pub column: u16,
    pub row: u16,
}

/// Something that the terminal reports.
#[derive(Debug, Clone, Copy, PartialEq, Eq, Structural)]
pub enum TerminalEvent {
    Mouse(MouseEvent),
    Other,
}

/// What became of an event.
#[derive(Debug, Clone, Copy, PartialEq, Eq, Structural)]
pub enum EventResult {
    /// It is for someone else.
    Ignored,
    /// It has been dealt with. The tree may have to be refreshed.
    Consumed { refresh: bool },
}

/// The event is one of the mouse over the tree.
pub open spec fn over_tree(tree: TreeView, event: TerminalEvent) -> bool {
    &&& tree.visible
    &&& event matches TerminalEvent::Mouse(mouse)
    &&& tree.last_area matches Some(area)
    &&& area.holds(mouse.column, mouse.row)
}

/// The row that is drawn in a line of the screen.
pub open spec fn row_at_line(tree: TreeView, area: Rect, line: u16) -> int {
    tree.scroll + (line - area.y)
}

/// The column in which a row shows whether its directory is opened up.
pub open spec fn disclosure_column(area: Rect, row: RowView) -> u16 {
    screen_sum(area.x, (3 + 2 * row.depth) as u16)
}

/// The columns before the disclosure mark of a row that is clicked can be counted.
pub open spec fn click_countable(tree: TreeView, event: TerminalEvent) -> bool {
    over_tree(tree, event) ==> {
        let mouse = event->Mouse_0;
        let index = row_at_line(tree, tree.last_area->0, mouse.row);
        mouse.kind == MouseKind::DownLeft && index < tree.rows.len() ==> 3 + 2
            * tree.rows[index].depth <= u16::MAX
    }
}

/// A click opens the directory up or closes it: where it goes to a directory's mark, or to the row
/// that was selected already.
pub open spec fn click_toggles(tree: TreeView, area: Rect, mouse: MouseEvent) -> bool {
    let index = row_at_line(tree, area, mouse.row);
    tree.rows[index].is_dir && ((tree.focused && tree.cursor == index) || mouse.column
        == disclosure_column(area, tree.rows[index]))
}

/// The tree after a click: the row that was clicked is selected, and the tree has the focus.
pub open spec fn clicked(tree: TreeView, area: Rect, mouse: MouseEvent) -> TreeView {
    let index = row_at_line(tree, area, mouse.row);
    if index < tree.rows.len() {
        let there = at_row(TreeView { focused: true, ..tree }, index);
        if click_toggles(tree, area, mouse) {
            toggled(there)
        } else {
            there
        }
    } else {
        tree
    }
}

/// The tree after the mouse did something over it.
pub open spec fn after_mouse(tree: TreeView, area: Rect, mouse: MouseEvent) -> TreeView {
    match mouse.kind {
        MouseKind::ScrollUp => moved(tree, -3),
        MouseKind::ScrollDown => moved(tree, 3),
        MouseKind::DownLeft => clicked(tree, area, mouse),
        MouseKind::Other => tree,
    }
}

impl FileTree {
    /// The columns before the disclosure mark of a row that the event clicks can be counted.
    pub fn click_has_a_column(&self, event: TerminalEvent) -> (r: bool)
        requires
            self.wf(),
        ensures
            r == click_countable(self@, event),
    {
        match (event, self.last_area) {
            (TerminalEvent::Mouse(mouse), Some(area)) => {
                if !self.visible || mouse.kind != MouseKind::DownLeft || !area.contains(
                    mouse.column,
                    mouse.row,
                ) {
                    return true;
                }
                let line = (mouse.row - area.y) as usize;
                if self.rows.len() == 0 || line >= self.rows.len() - self.scroll {
                    return true;
                }
                let index = self.scroll + line;
                assert(self@.rows[index as int] == self.rows@[index as int]@);
                self.rows[index].depth <= 32766
            },
            _ => true,
        }
    }

    /// Deals with an event, if it is one of the mouse over the tree.
    pub fn handle_event(&mut self, event: TerminalEvent) -> (r: EventResult)
        requires
            old(self).wf(),
            click_countable(old(self)@, event),
        ensures
            final(self).wf(),
            match r {
                EventResult::Ignored => !over_tree(old(self)@, event) && final(self)@
                    == old(self)@,
                EventResult::Consumed { refresh } => {
                    &&& over_tree(old(self)@, event)
                    &&& final(self)@ == after_mouse(
                        old(self)@,
                        old(self)@.last_area->0,
                        event->Mouse_0,
                    )
                    &&& refresh == ({
                        let mouse = event->Mouse_0;
                        let area = old(self)@.last_area->0;
                        mouse.kind == MouseKind::DownLeft && row_at_line(old(self)@, area, mouse.row)
                            < old(self)@.rows.len() && click_toggles(old(self)@, area, mouse)
                    })
                },
            },
    {
        if !self.visible {
            return EventResult::Ignored;
        }
        let mouse = match event {
            TerminalEvent::Mouse(mouse) => mouse,
            TerminalEvent::Other => {
                return EventResult::Ignored;
            },
        };
        let area = match self.last_area {
            Some(area) => area,
            None => {
                return EventResult::Ignored;
            },
        };
        if !area.contains(mouse.column, mouse.row) {
            return EventResult::Ignored;
        }
        let mut refresh = false;
        match mouse.kind {
            MouseKind::ScrollUp => self.move_cursor(-3),
            MouseKind::ScrollDown => self.move_cursor(3),
            MouseKind::DownLeft => {
                let line = (mouse.row - area.y) as usize;
                if self.rows.len() > 0 && line < self.rows.len() - self.scroll {
                    let index = self.scroll + line;
                    assert(self@.rows[index as int] == self.rows@[index as int]@);
                    let same = self.focused && self.cursor == index;
                    let depth = self.rows[index].depth as u16;
                    let mark = area.x.saturating_add(3 + 2 * depth);
                    let is_dir = self.rows[index].is_dir;
                    self.focused = true;
                    self.cursor = index;
                    self.clamp_cursor();
                    if is_dir && (same || mouse.column == mark) {
                        refresh = self.toggle_expand();
                    }
                }
            },
            MouseKind::Other => {},
        }
        EventResult::Consumed { refresh }
    }
}

/// What the keyboard can ask of the tree.
#[derive(Debug, Clone, Copy, PartialEq, Eq, Structural)]
pub enum FileTreeAction {
    CursorUp,
    CursorDown,
    PageUp,
    PageDown,
    CursorFirst,
    CursorLast,
    Collapse,
    Expand,
    Open,
    OpenHorizontalSplit,
    OpenVerticalSplit,
    Mark,
    Copy,
    Cut,
    Paste,
    CreateFile,
    CreateDirectory,
    Rename,
    Delete,
    Refresh,
    CollapseAll,
    ToggleHidden,
    WidthIncrease,
    WidthDecrease,
    FocusEditor,
}

/// How a file is opened.
#[derive(Debug, Clone, Copy, PartialEq, Eq, Structural)]
pub enum OpenAction {
    Replace,
    HorizontalSplit,
    VerticalSplit,
}

/// What has to be done outside the tree after an action.
#[derive(Debug)]
pub enum Effect {
    /// Nothing.
    Nothing,
    /// The tree is refreshed.
    Refresh,
    /// A file is opened; the editor gets the focus where that succeeds.
    Open { path: TreePath, action: OpenAction },
    /// It is said how many paths are in the clipboard.
    Clipboard { kind: ClipboardKind, count: usize },
    /// A paste begins.
    Paste(PasteStart),
    /// Something is asked.
    Create(CreatePrompt),
    Rename(RenamePrompt),
    Delete(DeletePrompt),
}

/// What is said when a file cannot be opened, given how its path is shown.
pub fn open_failure(path: &str, error: &str) -> (r: String)
    ensures
        r@ == failure_at("Could not open "@, path@, error@),
{
    failure_text_at("Could not open ", path, error)
}

/// Half of what is shown, but at least one row.
pub open spec fn half_page(tree: TreeView) -> int {
    if tree.last_height / 2 >= 1 {
        tree.last_height / 2
    } else {
        1
    }
}

/// The tree after an action, but for what goes into the clipboard.
pub open spec fn after_action(
    tree: TreeView,
    action: FileTreeAction,
    config: TreeConfig,
) -> TreeView {
    match action {
        FileTreeAction::CursorUp => moved(tree, -1),
        FileTreeAction::CursorDown => moved(tree, 1),
        FileTreeAction::PageUp => moved(tree, -half_page(tree)),
        FileTreeAction::PageDown => moved(tree, half_page(tree)),
        FileTreeAction::CursorFirst => at_row(tree, 0),
        FileTreeAction::CursorLast => at_row(tree, last_row(tree.rows.len())),
        FileTreeAction::Collapse => collapsed_or_parent(tree),
        FileTreeAction::Expand => expanded_at_cursor(tree),
        FileTreeAction::Open => toggled(tree),
        FileTreeAction::Mark => mark_toggled(tree),
        FileTreeAction::CollapseAll => collapsed(tree),
        FileTreeAction::ToggleHidden => TreeView { show_hidden: !tree.show_hidden, ..tree },
        FileTreeAction::WidthIncrease => wider(tree, config),
        FileTreeAction::WidthDecrease => narrower(tree, config),
        FileTreeAction::FocusEditor => TreeView { focused: false, ..tree },
        _ => tree,
    }
}

/// The action has the tree refreshed.
pub open spec fn action_refreshes(tree: TreeView, action: FileTreeAction) -> bool {
    match action {
        FileTreeAction::Collapse => selects_open_dir(tree),
        FileTreeAction::Expand => selects_dir(tree),
        FileTreeAction::Open => selects_dir(tree),
        FileTreeAction::Refresh => true,
        FileTreeAction::CollapseAll => true,
        FileTreeAction::ToggleHidden => true,
        _ => false,
    }
}

/// How an action opens the selected file, where it does.
pub open spec fn open_action(action: FileTreeAction) -> Option<OpenAction> {
    match action {
        FileTreeAction::Open => Some(OpenAction::Replace),
        FileTreeAction::OpenHorizontalSplit => Some(OpenAction::HorizontalSplit),
        FileTreeAction::OpenVerticalSplit => Some(OpenAction::VerticalSplit),
        _ => None,
    }
}

/// What an action puts into the clipboard.
pub open spec fn clipboard_action(action: FileTreeAction) -> Option<ClipboardKind> {
    match action {
        FileTreeAction::Copy => Some(ClipboardKind::Copy),
        FileTreeAction::Cut => Some(ClipboardKind::Cut),
        _ => None,
    }
}

/// What has to be done outside after an action that neither touches the clipboard nor asks
/// anything.
pub open spec fn plain_effect(tree: TreeView, action: FileTreeAction, effect: Effect) -> bool {
    if action_refreshes(tree, action) {
        effect is Refresh
    } else {
        match (open_action(action), file_at_cursor(tree)) {
            (Some(how), Some(file)) => effect matches Effect::Open { path, action: a } && path@
                == file && a == how,
            _ => effect is Nothing,
        }
    }
}

/// `effect` is what a paste of the tree begins with.
pub open spec fn paste_effect(tree: TreeView, effect: Effect) -> bool {
    match effect {
        Effect::Paste(PasteStart::EmptyClipboard) => tree.clipboard is None,
        Effect::Paste(PasteStart::NoRow) => tree.clipboard is Some
            && crate::clipboard::directory_at(tree) is None,
        Effect::Paste(PasteStart::Job(job)) => {
            &&& tree.clipboard is Some
            &&& crate::clipboard::directory_at(tree) is Some
            &&& job.wf()
            &&& job.progress() == crate::progress::begun(job.targets.len() as nat)
            &&& job.kind == tree.clipboard->0.kind
            &&& target_views(job.targets@) == paste_targets(
                tree.clipboard->0.paths,
                crate::clipboard::directory_at(tree)->0,
            )
        },
        _ => false,
    }
}

/// `effect` is the question to which an action leads, or nothing where there is nothing to ask.
pub open spec fn prompt_effect(
    tree: TreeView,
    action: FileTreeAction,
    documents: Seq<OpenDocument>,
    effect: Effect,
) -> bool {
    match action {
        FileTreeAction::CreateFile => effect matches Effect::Create(prompt) && prompt.parent@
            == creation_directory(tree) && !prompt.is_dir,
        FileTreeAction::CreateDirectory => effect matches Effect::Create(prompt) && prompt.parent@
            == creation_directory(tree) && prompt.is_dir,
        FileTreeAction::Rename => match effect {
            Effect::Rename(prompt) => {
                &&& selected(tree) is Some
                &&& prompt.source@ == selected(tree)->0.path
                &&& crate::path::file_name_of(prompt.source@) == Some(prompt.name@)
                &&& crate::path::parent_of(prompt.source@) == Some(prompt.parent@)
            },
            Effect::Nothing => selected(tree) is None || crate::path::file_name_of(
                selected(tree)->0.path,
            ) is None,
            _ => false,
        },
        FileTreeAction::Delete => match effect {
            Effect::Delete(prompt) => {
                &&& prompt.wf()
                &&& prompt.completed == 0
                &&& prompt.paths.len() > 0
                &&& operated(tree, path_views(prompt.paths@))
                &&& prompt.modified == endangered_count(documents, path_views(prompt.paths@))
            },
            Effect::Nothing => operated(tree, Seq::empty()),
            _ => false,
        },
        _ => false,
    }
}

/// The action asks something.
pub open spec fn asks(action: FileTreeAction) -> bool {
    action is CreateFile || action is CreateDirectory || action is Rename || action is Delete
}

impl FileTree {
    /// Does what the keyboard asks, and returns what has to be done outside the tree.
    pub fn execute(
        &mut self,
        action: FileTreeAction,
        config: &TreeConfig,
        documents: &Vec<OpenDocument>,
    ) -> (effect: Effect)
        requires
            old(self).wf(),
        ensures
            final(self).wf(),
            match clipboard_action(action) {
                Some(kind) => exists|paths: Seq<Seq<Part>>| #[trigger]
                    operated(old(self)@, paths) && final(self)@ == with_clipboard(
                        old(self)@,
                        kind,
                        paths,
                    ) && (if paths.len() == 0 {
                        effect is Nothing
                    } else {
                        effect == (Effect::Clipboard { kind, count: paths.len() as usize })
                            && paths.len() <= usize::MAX
                    }),
                None => final(self)@ == after_action(old(self)@, action, *config),
            },
            action is Paste ==> paste_effect(old(self)@, effect),
            asks(action) ==> prompt_effect(old(self)@, action, documents@, effect),
            clipboard_action(action) is None && !(action is Paste) && !asks(action)
                ==> plain_effect(old(self)@, action, effect),
    {
        let mut refresh = false;
        match action {
            FileTreeAction::CursorUp => self.move_cursor(-1),
            FileTreeAction::CursorDown => self.move_cursor(1),
            FileTreeAction::PageUp => {
                let half = self.half_page();
                self.move_cursor(-half);
            },
            FileTreeAction::PageDown => {
                let half = self.half_page();
                self.move_cursor(half);
            },
            FileTreeAction::CursorFirst => self.cursor_first(),
            FileTreeAction::CursorLast => self.cursor_last(),
            FileTreeAction::Collapse => {
                refresh = self.collapse_or_parent();
            },
            FileTreeAction::Expand => {
                refresh = self.expand_selected();
            },
            FileTreeAction::Open => {
                refresh = self.toggle_expand();
                if !refresh {
                    return self.open_effect(OpenAction::Replace);
                }
            },
            FileTreeAction::OpenHorizontalSplit => {
                return self.open_effect(OpenAction::HorizontalSplit);
            },
            FileTreeAction::OpenVerticalSplit => {
                return self.open_effect(OpenAction::VerticalSplit);
            },
            FileTreeAction::Mark => self.toggle_mark(),
            FileTreeAction::Copy => {
                return self.clipboard_effect(ClipboardKind::Copy);
            },
            FileTreeAction::Cut => {
                return self.clipboard_effect(ClipboardKind::Cut);
            },
            FileTreeAction::Paste => {
                return Effect::Paste(self.paste());
            },
            FileTreeAction::CreateFile => {
                return Effect::Create(self.prompt_create(false));
            },
            FileTreeAction::CreateDirectory => {
                return Effect::Create(self.prompt_create(true));
            },
            FileTreeAction::Rename => {
                return match self.prompt_rename() {
                    Some(prompt) => Effect::Rename(prompt),
                    None => Effect::Nothing,
                };
            },
            FileTreeAction::Delete => {
                return match self.prompt_delete(documents) {
                    Some(prompt) => Effect::Delete(prompt),
                    None => Effect::Nothing,
                };
            },
            FileTreeAction::Refresh => {
                refresh = true;
            },
            FileTreeAction::CollapseAll => {
                self.collapse_all();
                refresh = true;
            },
            FileTreeAction::ToggleHidden => {
                self.show_hidden = !self.show_hidden;
                refresh = true;
            },
            FileTreeAction::WidthIncrease => self.increase_width(config),
            FileTreeAction::WidthDecrease => self.decrease_width(config),
            FileTreeAction::FocusEditor => self.focus_editor(),
        }
        if refresh {
            Effect::Refresh
        } else {
            Effect::Nothing
        }
    }

    fn half_page(&self) -> (r: isize)
        requires
            self.wf(),
        ensures
            r == half_page(self@),
            1 <= r <= u16::MAX,
    {
        let half = (self.last_height / 2) as isize;
        if half >= 1 {
            half
        } else {
            1
        }
    }

    fn open_effect(&self, action: OpenAction) -> (r: Effect)
        ensures
            match file_at_cursor(self@) {
                Some(file) => r matches Effect::Open { path, action: a } && path@ == file && a
                    == action,
                None => r is Nothing,
            },
    {
        match self.open_selected() {
            Some(path) => Effect::Open { path, action },
            None => Effect::Nothing,
        }
    }

    fn clipboard_effect(&mut self, kind: ClipboardKind) -> (r: Effect)
        requires
            old(self).wf(),
        ensures
            final(self).wf(),
            exists|paths: Seq<Seq<Part>>| #[trigger]
                operated(old(self)@, paths) && final(self)@ == with_clipboard(
                    old(self)@,
                    kind,
                    paths,
                ) && (if paths.len() == 0 {
                    r is Nothing
                } else {
                    r == (Effect::Clipboard { kind, count: paths.len() as usize }) && paths.len()
                        <= usize::MAX
                }),
    {
        let count = self.set_clipboard(kind);
        if count == 0 {
            Effect::Nothing
        } else {
            Effect::Clipboard { kind, count }
        }
    }
}

} // verus!
