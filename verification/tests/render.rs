use helix_files::collections::PathMap;
use helix_files::geometry::Rect;
use helix_files::listing::Row;
use helix_files::metadata::GitState;
use helix_files::path::{Component, TreePath};
use helix_files::render::{border, Badge, BadgeStyle, RowStyle, BORDER};
use helix_files::tree::{FileTree, TreeConfig};

fn path(text: &str) -> TreePath {
    let mut parts = Vec::new();
    if text.starts_with('/') {
        parts.push(Component::RootDir);
    }
    for name in text.split('/') {
        if !name.is_empty() {
            parts.push(Component::Normal(name.as_bytes().to_vec()));
        }
    }
    TreePath::new(parts)
}

fn tree() -> FileTree {
    let config = TreeConfig {
        visible: true,
        hidden: true,
        width: 30,
        min_width: 10,
        max_width: 60,
        width_step: 5,
        auto_reveal: true,
        git_status: true,
        diagnostics: true,
        follow_symlinks: false,
        flatten_dirs: false,
    };
    let mut tree = FileTree::new(&config, path("/w"));
    let row = |text: &str, depth: usize, is_dir: bool| Row {
        path: path(text),
        name: text.rsplit('/').next().unwrap().to_owned(),
        depth,
        is_dir,
    };
    tree.rows = vec![
        row("/w/d", 0, true),
        row("/w/d/x", 1, false),
        row("/w/e", 0, true),
        row("/w/f", 0, false),
    ];
    tree.expanded.insert(path("/w/d"));
    tree
}

fn area(height: u16) -> Rect {
    Rect { x: 70, y: 1, width: 30, height }
}

#[test]
fn rows_are_drawn_with_marks_and_indentation() {
    let mut tree = tree();
    tree.marked.insert(path("/w/d/x"));
    tree.focused = true;
    tree.cursor = 0;
    let rows = tree.render(area(10), &Some(path("/w/f")), None);
    let texts: Vec<&str> = rows.iter().map(|row| row.text.as_str()).collect();
    assert_eq!(texts, vec!["  ▾ d", "●     x", "  ▸ e", "    f"]);
    let lines: Vec<(u16, u16, u16)> = rows.iter().map(|row| (row.x, row.y, row.width)).collect();
    assert_eq!(lines, vec![(71, 1, 28), (71, 2, 28), (71, 3, 28), (71, 4, 28)]);
    assert_eq!(rows[0].style, RowStyle { directory: true, active: false, selected: true });
    assert_eq!(rows[1].style, RowStyle { directory: false, active: false, selected: false });
    assert_eq!(rows[3].style, RowStyle { directory: false, active: true, selected: false });
    assert!(rows.iter().all(|row| row.badge.is_none()));
    assert_eq!(tree.last_height, 10);
}

#[test]
fn an_unfocused_tree_shows_no_cursor() {
    let mut tree = tree();
    let rows = tree.render(area(10), &None, None);
    assert!(rows.iter().all(|row| !row.style.selected && !row.style.active));
}

#[test]
fn the_drawn_rows_hold_the_cursor() {
    let mut tree = tree();
    tree.cursor = 3;
    tree.scroll = 3;
    let rows = tree.render(area(2), &None, None);
    assert_eq!(rows.len(), 1);
    tree.scroll = 0;
    tree.cursor = 3;
    tree.last_height = 4;
    let rows = tree.render(area(2), &None, None);
    assert_eq!((tree.cursor, tree.scroll), (3, 2));
    assert_eq!(rows.len(), 2);
    assert_eq!((rows[1].y, rows[1].text.as_str()), (2, "    f"));
    assert_eq!(tree.render(area(0), &None, None).len(), 1);
    assert_eq!(tree.last_height, 1);
}

#[test]
fn badges_stand_at_the_right_edge() {
    let mut tree = tree();
    tree.git_status.insert(path("/w/d/x"), GitState::Modified);
    tree.git_status.insert(path("/w/f"), GitState::Untracked);
    tree.git_status.insert(path("/w/e"), GitState::Deleted);
    let mut counts = PathMap::new();
    counts.insert(path("/w/d/x"), (2, 1));
    let rows = tree.render(area(10), &None, Some(counts));
    let badge = |x: u16, text: &str, style: BadgeStyle| {
        Some(Badge { x, width: text.chars().count() as u16, text: text.to_owned(), style })
    };
    assert_eq!(rows[0].badge, badge(91, " M E2 W1", BadgeStyle::Error));
    assert_eq!(rows[1].badge, badge(91, " M E2 W1", BadgeStyle::Error));
    assert_eq!(rows[2].badge, badge(97, " D", BadgeStyle::Minus));
    assert_eq!(rows[3].badge, badge(97, " ?", BadgeStyle::Plus));
}

#[test]
fn badges_are_styled_by_the_worst() {
    let style = |state: Option<GitState>, counts: Option<(usize, usize)>| {
        let mut tree = tree();
        if let Some(state) = state {
            tree.git_status.insert(path("/w/f"), state);
        }
        let direct = counts.map(|counts| {
            let mut direct = PathMap::new();
            direct.insert(path("/w/f"), counts);
            direct
        });
        let mut rows = tree.render(area(10), &None, direct);
        rows.remove(3).badge.map(|badge| badge.style)
    };
    assert_eq!(style(None, None), None);
    assert_eq!(style(None, Some((0, 0))), None);
    assert_eq!(style(Some(GitState::Renamed), Some((0, 2))), Some(BadgeStyle::Warning));
    assert_eq!(style(Some(GitState::Renamed), None), Some(BadgeStyle::Delta));
    assert_eq!(style(Some(GitState::Conflict), None), Some(BadgeStyle::Error));
    assert_eq!(style(Some(GitState::Untracked), Some((1, 1))), Some(BadgeStyle::Error));
}

#[test]
fn a_badge_needs_room() {
    let mut tree = tree();
    tree.git_status.insert(path("/w/f"), GitState::Modified);
    let narrow = |width: u16| Rect { x: 0, y: 0, width, height: 10 };
    assert!(tree.render(narrow(4), &None, None)[3].badge.is_none());
    let rows = tree.render(narrow(5), &None, None);
    assert_eq!(rows[3].badge.as_ref().unwrap().x, 2);
}

#[test]
fn drawing_begins_with_a_refresh_where_something_changed() {
    let mut tree = tree();
    assert!(!tree.begin_render(area(10), &path("/w")));
    assert_eq!(tree.last_area, Some(area(10)));
    assert!(tree.begin_render(area(10), &path("/elsewhere")));
    tree.mark_dirty();
    assert!(tree.begin_render(area(10), &path("/w")));
    assert!(!tree.begin_render(area(10), &path("/w")));
}

#[test]
fn rectangles_end_before_their_far_edges() {
    let rect = Rect { x: 2, y: 3, width: 4, height: 5 };
    assert_eq!((rect.right(), rect.bottom()), (6, 8));
    assert!(rect.contains(2, 3) && rect.contains(5, 7));
    assert!(!rect.contains(6, 3) && !rect.contains(2, 8));
    assert_eq!(rect.clip_right(3), Rect { width: 1, ..rect });
    assert_eq!(rect.clip_right(9), Rect { width: 0, ..rect });
    let wide = Rect { x: u16::MAX, y: 0, width: 9, height: 0 };
    assert_eq!(wide.right(), u16::MAX);
}

#[test]
fn a_revealed_file_is_drawn_in_the_middle() {
    let mut tree = tree();
    assert_eq!(tree.last_height, 1);
    tree.center_on(&path("/w/f"));
    tree.render(area(3), &None, None);
    assert_eq!((tree.cursor, tree.scroll), (3, 2));
    assert_eq!(tree.to_center, None);
    tree.render(area(2), &None, None);
    assert_eq!((tree.cursor, tree.scroll), (3, 2));

    let mut moved = self::tree();
    moved.center_on(&path("/w/f"));
    moved.move_cursor(-3);
    moved.render(area(3), &None, None);
    assert_eq!((moved.cursor, moved.scroll), (0, 0));
    assert_eq!(moved.to_center, None);
}

#[test]
fn the_border_is_the_first_column() {
    assert_eq!(BORDER, "│");
    assert_eq!(border(area(3)), vec![(70, 1), (70, 2), (70, 3)]);
    assert_eq!(border(area(0)), Vec::new());
    let low = Rect { x: 4, y: u16::MAX - 1, width: 2, height: 9 };
    assert_eq!(border(low), vec![(4, u16::MAX - 1)]);
}

#[test]
fn lines_have_numbers_on_the_screen() {
    let tree = tree();
    let low = |y: u16| Rect { x: 0, y, width: 30, height: 9 };
    assert!(tree.lines_have_numbers(low(u16::MAX - 3)));
    assert!(!tree.lines_have_numbers(low(u16::MAX - 2)));
}
