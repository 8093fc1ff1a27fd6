use helix_files::collections::{PathMap, PathSet};
use helix_files::events::{
    Effect, EventResult, FileTreeAction, MouseEvent, MouseKind, OpenAction, TerminalEvent,
};
use helix_files::geometry::Rect;
use helix_files::listing::{Entry, EntryKind};
use helix_files::metadata::GitState;
use helix_files::path::{Component, TreePath};
use helix_files::refresh::Refresh;
use helix_files::tree::{ordered_width_bounds, FileTree, TreeConfig};
use helix_files::vcs::FileChange;

fn path(text: &str) -> TreePath {
    let mut parts = Vec::new();
    if text.starts_with('/') {
        parts.push(Component::RootDir);
    }
    for name in text.split('/') {
        if !name.is_empty() {
            parts.push(Component::Normal(name.as_bytes().to_vec()));
        }
    }
    TreePath::new(parts)
}

fn entry(name: &str, kind: EntryKind) -> Entry {
    Entry {
        name: name.as_bytes().to_vec(),
        kind: Some(kind),
        leads_to_dir: kind == EntryKind::Directory,
        chain: Vec::new(),
    }
}

fn config() -> TreeConfig {
    TreeConfig {
        visible: true,
        hidden: true,
        width: 30,
        min_width: 10,
        max_width: 60,
        width_step: 5,
        auto_reveal: true,
        git_status: true,
        diagnostics: true,
        follow_symlinks: false,
        flatten_dirs: false,
    }
}

/// `/w` with the directories `d` (with `x` and `y`) and `e` (with `z`) and the files `f1` to `f4`.
fn disk() -> PathMap<Vec<Entry>> {
    let mut read = PathMap::new();
    let mut entries = vec![entry("d", EntryKind::Directory), entry("e", EntryKind::Directory)];
    for name in ["f1", "f2", "f3", "f4"] {
        entries.push(entry(name, EntryKind::Other));
    }
    read.insert(path("/w"), entries);
    read.insert(path("/w/d"), vec![entry("x", EntryKind::Other), entry("y", EntryKind::Other)]);
    read.insert(path("/w/e"), vec![entry("z", EntryKind::Other)]);
    read
}

fn refreshed(tree: &mut FileTree) {
    let existing = PathSet::new();
    assert!(matches!(tree.refresh(path("/w"), &disk(), &existing, &config()), Refresh::Done(_)));
}

fn tree() -> FileTree {
    let mut tree = FileTree::new(&config(), path("/w"));
    refreshed(&mut tree);
    tree
}

fn run(tree: &mut FileTree, action: FileTreeAction) -> Effect {
    tree.execute(action, &config(), &Vec::new())
}

fn names(tree: &FileTree) -> Vec<String> {
    tree.rows.iter().map(|row| row.name.clone()).collect()
}

fn area(x: u16, y: u16, width: u16, height: u16) -> Rect {
    Rect { x, y, width, height }
}

#[test]
fn a_new_tree_is_as_configured() {
    let tree = FileTree::new(&TreeConfig { width: 5, ..config() }, path("/w"));
    assert!(tree.rows.is_empty());
    assert!(tree.expanded.contains(&path("/w")));
    assert_eq!(tree.expanded.len(), 1);
    assert_eq!((tree.cursor, tree.scroll, tree.last_height), (0, 0, 1));
    assert!(tree.visible && !tree.focused() && !tree.show_hidden && !tree.dirty);
    assert_eq!(tree.width, 10);
    assert_eq!(FileTree::new(&TreeConfig { width: 99, ..config() }, path("/w")).width, 60);
    let swapped = TreeConfig { min_width: 60, max_width: 10, ..config() };
    assert_eq!(FileTree::new(&swapped, path("/w")).width, 30);
    assert!(FileTree::new(&TreeConfig { hidden: false, ..config() }, path("/w")).show_hidden);
}

#[test]
fn width_bounds_are_put_in_order() {
    assert_eq!(ordered_width_bounds(3, 8), (3, 8));
    assert_eq!(ordered_width_bounds(8, 3), (3, 8));
    assert_eq!(ordered_width_bounds(4, 4), (4, 4));
}

#[test]
fn widths_change_in_steps_up_to_their_bounds() {
    let mut tree = tree();
    tree.increase_width(&config());
    assert_eq!(tree.width, 35);
    tree.decrease_width(&config());
    assert_eq!(tree.width, 30);
    tree.increase_width(&TreeConfig { width_step: u16::MAX, ..config() });
    assert_eq!(tree.width, 60);
    tree.decrease_width(&TreeConfig { width_step: 61, ..config() });
    assert_eq!(tree.width, 10);
}

#[test]
fn hiding_the_tree_forgets_states() {
    let mut tree = tree();
    let generation = tree.git_generation;
    tree.git_change(generation, Some(FileChange::Modified { path: path("/w/f1") }));
    assert_eq!(tree.toggle_focus(&config()), (false, true));
    assert!(tree.focused());
    assert!(!tree.toggle());
    assert!(!tree.visible && !tree.focused());
    assert_eq!(tree.git_status.len(), 0);
    assert_eq!(tree.git_generation, generation + 1);
    assert!(tree.toggle());
    assert!(tree.visible && !tree.focused());
}

#[test]
fn focus_shows_the_tree() {
    let mut tree = tree();
    tree.toggle();
    assert_eq!(tree.toggle_focus(&config()), (true, true));
    assert!(tree.visible && tree.focused());
    assert_eq!(tree.toggle_focus(&config()), (false, false));
    assert!(tree.visible && !tree.focused());
    assert_eq!(tree.toggle_focus(&TreeConfig { auto_reveal: false, ..config() }), (false, false));
    assert!(tree.focused());
    tree.focus_editor();
    assert!(!tree.focused());
}

#[test]
fn the_tree_stands_beside_the_editor() {
    let mut tree = tree();
    assert_eq!(
        tree.layout(area(0, 1, 100, 40)),
        (area(0, 1, 70, 40), Some(area(70, 1, 30, 40)))
    );
    assert_eq!(
        tree.layout(area(5, 0, 25, 10)),
        (area(5, 0, 20, 10), Some(area(25, 0, 5, 10)))
    );
    assert_eq!(
        tree.layout(area(0, 0, 21, 10)),
        (area(0, 0, 20, 10), Some(area(20, 0, 1, 10)))
    );
}

#[test]
fn a_tree_without_room_is_not_shown() {
    let mut tree = tree();
    tree.toggle_focus(&config());
    tree.last_area = Some(area(0, 0, 1, 1));
    assert_eq!(tree.layout(area(0, 0, 20, 10)), (area(0, 0, 20, 10), None));
    assert_eq!(tree.last_area, None);
    assert!(!tree.focused());
    let bounds = TreeConfig { width: 0, min_width: 0, ..config() };
    let mut narrow = FileTree::new(&bounds, path("/w"));
    assert_eq!(narrow.layout(area(0, 0, 100, 10)), (area(0, 0, 100, 10), None));
}

#[test]
fn a_refresh_asks_for_what_it_has_to_read() {
    let mut tree = FileTree::new(&config(), path("/w"));
    tree.expanded.insert(path("/w/d"));
    let mut read = PathMap::new();
    let none = PathSet::new();
    match tree.refresh(path("/w"), &read, &none, &config()) {
        Refresh::Read(missing) => assert_eq!(missing, vec![path("/w")]),
        Refresh::Done(_) => panic!("nothing was read yet"),
    }
    assert!(tree.rows.is_empty());
    read.insert(path("/w"), vec![entry("d", EntryKind::Directory)]);
    match tree.refresh(path("/w"), &read, &none, &config()) {
        Refresh::Read(missing) => assert_eq!(missing, vec![path("/w/d")]),
        Refresh::Done(_) => panic!("the directory was not read yet"),
    }
    read.insert(path("/w/d"), vec![entry("x", EntryKind::Other)]);
    match tree.refresh(path("/w"), &read, &none, &config()) {
        Refresh::Read(missing) => panic!("{:?} was read already", missing),
        Refresh::Done(generation) => assert_eq!(generation, Some(1)),
    }
    assert_eq!(names(&tree), vec!["d", "x"]);
}

#[test]
fn a_refresh_keeps_the_selection_and_the_marks_that_exist() {
    let mut tree = tree();
    tree.last_height = 10;
    run(&mut tree, FileTreeAction::CursorLast);
    assert_eq!(tree.rows[tree.cursor].path, path("/w/f4"));
    tree.marked.insert(path("/w/f1"));
    tree.marked.insert(path("/w/gone"));
    tree.expanded.insert(path("/w/d"));
    let mut existing = PathSet::new();
    existing.insert(path("/w/f1"));
    tree.refresh(path("/w"), &disk(), &existing, &config());
    assert_eq!(names(&tree), vec!["d", "x", "y", "e", "f1", "f2", "f3", "f4"]);
    assert_eq!(tree.rows[tree.cursor].path, path("/w/f4"));
    assert_eq!(tree.marked.to_vec(), vec![path("/w/f1")]);
}

#[test]
fn a_second_refresh_changes_nothing() {
    let mut tree = tree();
    tree.last_height = 2;
    run(&mut tree, FileTreeAction::CursorLast);
    tree.expanded.insert(path("/w/d"));
    refreshed(&mut tree);
    let once = (names(&tree), tree.cursor, tree.scroll);
    refreshed(&mut tree);
    assert_eq!((names(&tree), tree.cursor, tree.scroll), once);
    let mut seen = PathSet::new();
    assert!(tree.rows.iter().all(|row| seen.insert(row.path.clone())));
}

#[test]
fn a_tree_that_is_shown_again_is_the_same() {
    let mut tree = tree();
    run(&mut tree, FileTreeAction::CursorDown);
    run(&mut tree, FileTreeAction::Mark);
    let before = (names(&tree), tree.cursor, tree.marked.to_vec(), tree.width);
    tree.toggle();
    tree.toggle();
    assert_eq!((names(&tree), tree.cursor, tree.marked.to_vec(), tree.width), before);
    assert!(tree.visible);
}

#[test]
fn another_working_directory_starts_afresh() {
    let mut tree = tree();
    run(&mut tree, FileTreeAction::CursorDown);
    run(&mut tree, FileTreeAction::Mark);
    run(&mut tree, FileTreeAction::Copy);
    let mut read = PathMap::new();
    read.insert(path("/v"), vec![entry("only", EntryKind::Other)]);
    tree.refresh(path("/v"), &read, &PathSet::new(), &config());
    assert_eq!(tree.root, path("/v"));
    assert_eq!(tree.expanded.to_vec(), vec![path("/v")]);
    assert!(tree.marked.is_empty());
    assert!(tree.clipboard.is_none());
    assert_eq!((tree.cursor, tree.scroll), (0, 0));
    assert_eq!(names(&tree), vec!["only"]);
}

#[test]
fn states_of_an_old_generation_are_refused() {
    let mut tree = tree();
    let generation = tree.git_generation;
    let update = tree.git_change(generation, Some(FileChange::Deleted { path: path("/w/f1") }));
    assert!(update.proceed && update.redraw);
    let renamed = FileChange::Renamed { from_path: path("/w/f1"), to_path: path("/w/f2") };
    assert!(tree.git_change(generation, Some(renamed)).redraw);
    let update = tree.git_change(generation, None);
    assert!(update.proceed && !update.redraw);
    assert_eq!(tree.git_status.get(&path("/w/f1")), Some(GitState::Deleted));
    assert_eq!(tree.git_status.get(&path("/w/f2")), Some(GitState::Renamed));
    for (change, state) in [
        (FileChange::Untracked { path: path("/w/s") }, GitState::Untracked),
        (FileChange::Modified { path: path("/w/s") }, GitState::Modified),
        (FileChange::Conflict { path: path("/w/s") }, GitState::Conflict),
    ] {
        tree.git_change(generation, Some(change));
        assert_eq!(tree.git_status.get(&path("/w/s")), Some(state));
    }

    assert_eq!(tree.refresh_git(&config()), Some(generation + 1));
    assert_eq!(tree.git_status.len(), 0);
    let update = tree.git_change(generation, Some(FileChange::Deleted { path: path("/w/f1") }));
    assert!(!update.proceed && !update.redraw);
    assert_eq!(tree.git_status.len(), 0);

    assert_eq!(tree.refresh_git(&TreeConfig { git_status: false, ..config() }), None);
    assert_eq!(tree.git_generation, generation + 1);
}

#[test]
fn the_cursor_stays_in_view() {
    let mut tree = tree();
    tree.last_height = 3;
    for _ in 0..4 {
        run(&mut tree, FileTreeAction::CursorDown);
    }
    assert_eq!((tree.cursor, tree.scroll), (4, 2));
    run(&mut tree, FileTreeAction::CursorUp);
    assert_eq!((tree.cursor, tree.scroll), (3, 2));
    run(&mut tree, FileTreeAction::CursorFirst);
    assert_eq!((tree.cursor, tree.scroll), (0, 0));
    run(&mut tree, FileTreeAction::CursorUp);
    assert_eq!((tree.cursor, tree.scroll), (0, 0));
    run(&mut tree, FileTreeAction::CursorLast);
    assert_eq!((tree.cursor, tree.scroll), (5, 3));
    tree.move_cursor(isize::MAX);
    assert_eq!(tree.cursor, 5);
    tree.move_cursor(isize::MIN);
    assert_eq!(tree.cursor, 0);
}

#[test]
fn pages_are_half_of_what_is_shown() {
    let mut tree = tree();
    tree.last_height = 5;
    run(&mut tree, FileTreeAction::PageDown);
    assert_eq!(tree.cursor, 2);
    run(&mut tree, FileTreeAction::PageUp);
    assert_eq!(tree.cursor, 0);
    tree.last_height = 1;
    run(&mut tree, FileTreeAction::PageDown);
    assert_eq!(tree.cursor, 1);
}

#[test]
fn directories_are_opened_up_and_closed() {
    let mut tree = tree();
    assert!(matches!(run(&mut tree, FileTreeAction::Open), Effect::Refresh));
    refreshed(&mut tree);
    assert_eq!(names(&tree), vec!["d", "x", "y", "e", "f1", "f2", "f3", "f4"]);
    run(&mut tree, FileTreeAction::Open);
    refreshed(&mut tree);
    assert_eq!(names(&tree), vec!["d", "e", "f1", "f2", "f3", "f4"]);

    assert!(matches!(run(&mut tree, FileTreeAction::Expand), Effect::Refresh));
    refreshed(&mut tree);
    run(&mut tree, FileTreeAction::CursorDown);
    assert!(matches!(run(&mut tree, FileTreeAction::Expand), Effect::Nothing));
    assert!(matches!(run(&mut tree, FileTreeAction::Collapse), Effect::Nothing));
    assert_eq!(tree.rows[tree.cursor].path, path("/w/d"));
    assert!(matches!(run(&mut tree, FileTreeAction::Collapse), Effect::Refresh));
    refreshed(&mut tree);
    assert_eq!(names(&tree), vec!["d", "e", "f1", "f2", "f3", "f4"]);
}

#[test]
fn collapsing_all_leaves_the_root() {
    let mut tree = tree();
    tree.expanded.insert(path("/w/d"));
    assert!(matches!(run(&mut tree, FileTreeAction::CollapseAll), Effect::Refresh));
    assert_eq!(tree.expanded.to_vec(), vec![path("/w")]);
}

#[test]
fn files_are_opened_and_directories_are_not() {
    let mut tree = tree();
    assert!(matches!(run(&mut tree, FileTreeAction::OpenVerticalSplit), Effect::Nothing));
    run(&mut tree, FileTreeAction::CursorLast);
    for (action, expected) in [
        (FileTreeAction::Open, OpenAction::Replace),
        (FileTreeAction::OpenHorizontalSplit, OpenAction::HorizontalSplit),
        (FileTreeAction::OpenVerticalSplit, OpenAction::VerticalSplit),
    ] {
        match run(&mut tree, action) {
            Effect::Open { path: opened, action } => {
                assert_eq!(opened, path("/w/f4"));
                assert_eq!(action, expected);
            }
            other => panic!("{:?}", other),
        }
    }
}

#[test]
fn the_other_actions_do_as_they_say() {
    let mut tree = tree();
    assert!(matches!(run(&mut tree, FileTreeAction::Refresh), Effect::Refresh));
    assert!(matches!(run(&mut tree, FileTreeAction::ToggleHidden), Effect::Refresh));
    assert!(tree.show_hidden);
    run(&mut tree, FileTreeAction::WidthIncrease);
    assert_eq!(tree.width, 35);
    run(&mut tree, FileTreeAction::WidthDecrease);
    assert_eq!(tree.width, 30);
    tree.toggle_focus(&config());
    run(&mut tree, FileTreeAction::FocusEditor);
    assert!(!tree.focused());
}

#[test]
fn marking_goes_on_to_the_next_row() {
    let mut tree = tree();
    run(&mut tree, FileTreeAction::Mark);
    assert!(tree.marked.contains(&path("/w/d")));
    assert_eq!(tree.cursor, 1);
    run(&mut tree, FileTreeAction::CursorFirst);
    run(&mut tree, FileTreeAction::Mark);
    assert!(tree.marked.is_empty());
    run(&mut tree, FileTreeAction::CursorLast);
    run(&mut tree, FileTreeAction::Mark);
    assert_eq!(tree.cursor, 5);
}

#[test]
fn operations_go_to_the_marks_or_the_cursor() {
    let mut tree = tree();
    assert_eq!(tree.operation_paths(), vec![path("/w/d")]);
    tree.marked.insert(path("/w/f1"));
    tree.marked.insert(path("/w/d/x"));
    tree.marked.insert(path("/w/d"));
    assert_eq!(tree.operation_paths(), vec![path("/w/d"), path("/w/f1")]);
    assert!(FileTree::new(&config(), path("/w")).operation_paths().is_empty());
}

#[test]
fn a_revealed_file_is_centered() {
    let mut tree = tree();
    tree.last_height = 3;
    assert!(!tree.reveal_current(&path("/elsewhere/file")));
    assert!(tree.reveal_current(&path("/w/e/z")));
    assert!(tree.expanded.contains(&path("/w/e")));
    assert!(!tree.expanded.contains(&path("/w/e/z")));
    assert!(!tree.expanded.contains(&path("/")));
    refreshed(&mut tree);
    tree.center_on(&path("/w/e/z"));
    assert_eq!(tree.rows[tree.cursor].path, path("/w/e/z"));
    assert_eq!((tree.cursor, tree.scroll), (2, 1));
    tree.center_on(&path("/w/missing"));
    assert_eq!((tree.cursor, tree.scroll), (2, 1));
    tree.center_on(&path("/w/d"));
    assert_eq!((tree.cursor, tree.scroll), (0, 0));
}

fn mouse(kind: MouseKind, column: u16, row: u16) -> TerminalEvent {
    TerminalEvent::Mouse(MouseEvent { kind, column, row })
}

#[test]
fn events_elsewhere_are_ignored() {
    let mut tree = tree();
    assert_eq!(tree.handle_event(mouse(MouseKind::ScrollDown, 71, 2)), EventResult::Ignored);
    tree.last_area = Some(area(70, 1, 30, 6));
    assert_eq!(tree.handle_event(TerminalEvent::Other), EventResult::Ignored);
    for (column, row) in [(69, 2), (100, 2), (70, 0), (70, 7)] {
        let event = mouse(MouseKind::ScrollDown, column, row);
        assert_eq!(tree.handle_event(event), EventResult::Ignored);
    }
    assert_eq!(tree.cursor, 0);
    tree.toggle();
    assert_eq!(tree.handle_event(mouse(MouseKind::ScrollDown, 71, 2)), EventResult::Ignored);
}

#[test]
fn the_wheel_moves_by_three() {
    let mut tree = tree();
    tree.last_area = Some(area(70, 1, 30, 6));
    let consumed = EventResult::Consumed { refresh: false };
    assert_eq!(tree.handle_event(mouse(MouseKind::ScrollDown, 99, 6)), consumed);
    assert_eq!(tree.cursor, 3);
    assert_eq!(tree.handle_event(mouse(MouseKind::ScrollUp, 70, 1)), consumed);
    assert_eq!(tree.cursor, 0);
    assert_eq!(tree.handle_event(mouse(MouseKind::Other, 70, 1)), consumed);
}

#[test]
fn clicks_select_and_open_up() {
    let mut tree = tree();
    tree.last_height = 6;
    tree.last_area = Some(area(70, 1, 30, 8));
    let consumed = EventResult::Consumed { refresh: false };
    let refresh = EventResult::Consumed { refresh: true };
    assert_eq!(tree.handle_event(mouse(MouseKind::DownLeft, 80, 2)), consumed);
    assert!(tree.focused());
    assert_eq!(tree.cursor, 1);
    // A second click on the selected directory opens it up.
    assert_eq!(tree.handle_event(mouse(MouseKind::DownLeft, 80, 2)), refresh);
    assert!(tree.expanded.contains(&path("/w/e")));
    // So does one on its mark.
    assert_eq!(tree.handle_event(mouse(MouseKind::DownLeft, 73, 1)), refresh);
    assert!(tree.expanded.contains(&path("/w/d")));
    // Files have nothing to open up, and below the last row there is nothing.
    assert_eq!(tree.handle_event(mouse(MouseKind::DownLeft, 73, 3)), consumed);
    assert_eq!(tree.cursor, 2);
    assert_eq!(tree.handle_event(mouse(MouseKind::DownLeft, 73, 7)), consumed);
    assert_eq!(tree.cursor, 2);
}

#[test]
fn an_opened_file_takes_the_focus() {
    let mut tree = tree();
    tree.toggle_focus(&config());
    tree.opened(false);
    assert!(tree.focused());
    tree.opened(true);
    assert!(!tree.focused());
}

#[test]
fn collapse_gives_back_what_expand_changed() {
    let mut tree = tree();
    run(&mut tree, FileTreeAction::CursorDown);
    let before = (names(&tree), tree.expanded.to_vec(), tree.rows[tree.cursor].path.clone());
    run(&mut tree, FileTreeAction::Expand);
    refreshed(&mut tree);
    assert_eq!(names(&tree), vec!["d", "e", "z", "f1", "f2", "f3", "f4"]);
    assert_eq!(tree.rows[tree.cursor].path, path("/w/e"));
    run(&mut tree, FileTreeAction::Collapse);
    refreshed(&mut tree);
    let after = (names(&tree), tree.expanded.to_vec(), tree.rows[tree.cursor].path.clone());
    assert_eq!(after, before);
}

#[test]
fn hidden_files_come_and_go() {
    let mut tree = tree();
    let before = names(&tree);
    let mut with_hidden = PathMap::new();
    let mut entries = vec![entry(".git", EntryKind::Directory)];
    for name in ["f1", "f2"] {
        entries.push(entry(name, EntryKind::Other));
    }
    with_hidden.insert(path("/w"), entries);
    run(&mut tree, FileTreeAction::ToggleHidden);
    assert!(tree.show_hidden);
    tree.refresh(path("/w"), &with_hidden, &PathSet::new(), &config());
    assert_eq!(names(&tree), vec![".git", "f1", "f2"]);
    run(&mut tree, FileTreeAction::ToggleHidden);
    assert!(!tree.show_hidden);
    refreshed(&mut tree);
    assert_eq!(names(&tree), before);
}

#[test]
fn a_click_has_a_column() {
    let mut tree = tree();
    tree.last_height = 6;
    tree.last_area = Some(area(70, 1, 30, 8));
    tree.rows[1].depth = 32766;
    tree.rows[2].depth = 32767;
    assert!(tree.click_has_a_column(mouse(MouseKind::DownLeft, 80, 2)));
    assert!(!tree.click_has_a_column(mouse(MouseKind::DownLeft, 80, 3)));
    assert!(tree.click_has_a_column(mouse(MouseKind::ScrollUp, 80, 3)));
    assert!(tree.click_has_a_column(mouse(MouseKind::DownLeft, 20, 3)));
    tree.toggle();
    assert!(tree.click_has_a_column(mouse(MouseKind::DownLeft, 80, 3)));
}
