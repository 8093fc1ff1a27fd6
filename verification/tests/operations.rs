use helix_files::clipboard::{
    clipboard_message, copy_action, empty_clipboard_message, paste_message, CopyAction, PasteEnd,
    PasteJob, PasteRefusal, PasteStart,
};
use helix_files::events::{open_failure, Effect, FileTreeAction};
use helix_files::listing::Row;
use helix_files::path::{Component, TreePath};
use helix_files::prompts::{CreatePrompt, DeletePrompt, OpenDocument, RenameAction};
use helix_files::tree::{ClipboardKind, FileTree, TreeClipboard, TreeConfig};

fn path(text: &str) -> TreePath {
    let mut parts = Vec::new();
    if text.starts_with('/') {
        parts.push(Component::RootDir);
    }
    for name in text.split('/') {
        if !name.is_empty() {
            parts.push(Component::Normal(name.as_bytes().to_vec()));
        }
    }
    TreePath::new(parts)
}

fn config() -> TreeConfig {
    TreeConfig {
        visible: true,
        hidden: true,
        width: 30,
        min_width: 10,
        max_width: 60,
        width_step: 5,
        auto_reveal: true,
        git_status: false,
        diagnostics: false,
        follow_symlinks: false,
        flatten_dirs: false,
    }
}

/// `/w` with the directory `d`, which holds `x`, and the file `f`.
fn tree() -> FileTree {
    let mut tree = FileTree::new(&config(), path("/w"));
    let row = |text: &str, depth: usize, is_dir: bool| Row {
        path: path(text),
        name: text.rsplit('/').next().unwrap().to_owned(),
        depth,
        is_dir,
    };
    tree.rows = vec![row("/w/d", 0, true), row("/w/d/x", 1, false), row("/w/f", 0, false)];
    tree.last_height = 10;
    tree
}

fn run(tree: &mut FileTree, action: FileTreeAction) -> Effect {
    tree.execute(action, &config(), &Vec::new())
}

fn job(tree: &FileTree) -> PasteJob {
    match tree.paste() {
        PasteStart::Job(job) => job,
        other => panic!("{:?}", other),
    }
}

#[test]
fn the_clipboard_takes_the_operation_paths() {
    let mut tree = tree();
    tree.marked.insert(path("/w/f"));
    tree.marked.insert(path("/w/d/x"));
    assert_eq!(tree.set_clipboard(ClipboardKind::Cut), 2);
    let clipboard = tree.clipboard.as_ref().unwrap();
    assert_eq!(clipboard.kind, ClipboardKind::Cut);
    assert_eq!(clipboard.paths, vec![path("/w/d/x"), path("/w/f")]);
    match run(&mut tree, FileTreeAction::Copy) {
        Effect::Clipboard { kind, count } => {
            assert_eq!(clipboard_message(kind, count), "Copied 2 path(s)");
        }
        other => panic!("{:?}", other),
    }
    assert_eq!(clipboard_message(ClipboardKind::Cut, 13), "Cut 13 path(s)");
}

#[test]
fn without_rows_there_is_nothing_to_copy_or_paste() {
    let mut tree = FileTree::new(&config(), path("/w"));
    assert!(matches!(run(&mut tree, FileTreeAction::Cut), Effect::Nothing));
    assert!(tree.clipboard.is_none());
    assert!(matches!(tree.paste(), PasteStart::EmptyClipboard));
    tree.clipboard =
        Some(TreeClipboard { kind: ClipboardKind::Copy, paths: vec![path("/w/f")] });
    assert!(matches!(tree.paste(), PasteStart::NoRow));
    assert!(matches!(run(&mut tree, FileTreeAction::Paste), Effect::Paste(PasteStart::NoRow)));
}

#[test]
fn paths_are_pasted_into_the_selected_directory() {
    let mut tree = tree();
    run(&mut tree, FileTreeAction::CursorLast);
    run(&mut tree, FileTreeAction::Copy);
    assert_eq!(job(&tree).targets, vec![(path("/w/f"), path("/w/f"))]);
    run(&mut tree, FileTreeAction::CursorFirst);
    assert_eq!(job(&tree).targets, vec![(path("/w/f"), path("/w/d/f"))]);
    run(&mut tree, FileTreeAction::CursorDown);
    assert_eq!(job(&tree).targets, vec![(path("/w/f"), path("/w/d/f"))]);
}

#[test]
fn a_path_without_a_name_is_not_pasted() {
    let mut tree = tree();
    tree.clipboard =
        Some(TreeClipboard { kind: ClipboardKind::Copy, paths: vec![path("/"), path("/v/g")] });
    assert_eq!(job(&tree).targets, vec![(path("/v/g"), path("/w/d/g"))]);
}

#[test]
fn a_paste_overwrites_nothing_and_does_not_nest() {
    let mut tree = tree();
    tree.clipboard =
        Some(TreeClipboard { kind: ClipboardKind::Copy, paths: vec![path("/w/d"), path("/w/f")] });
    let job = job(&tree);
    assert_eq!(
        job.refusal(&vec![false, true]),
        Some(PasteRefusal::Exists { target: path("/w/d/f") })
    );
    assert_eq!(
        job.refusal(&vec![false, false]),
        Some(PasteRefusal::InsideItself { source: path("/w/d"), target: path("/w/d/d") })
    );
    tree.clipboard =
        Some(TreeClipboard { kind: ClipboardKind::Copy, paths: vec![path("/w/f")] });
    match tree.paste() {
        PasteStart::Job(job) => assert_eq!(job.refusal(&vec![false]), None),
        other => panic!("{:?}", other),
    }
}

#[test]
fn a_cut_is_pasted_once_and_a_copy_again() {
    for (kind, kept) in [(ClipboardKind::Cut, false), (ClipboardKind::Copy, true)] {
        let mut tree = tree();
        tree.marked.insert(path("/w/f"));
        tree.set_clipboard(kind);
        let mut job = job(&tree);
        assert_eq!(job.next(), Some((path("/w/f"), path("/w/d/f"))));
        assert!(!job.performed(true));
        assert_eq!(job.next(), None);
        let end = tree.finish_paste(&job);
        assert_eq!(end, PasteEnd::Pasted(1));
        assert_eq!(paste_message(end, ""), "Pasted 1 item(s)");
        assert_eq!(tree.clipboard.is_some(), kept);
        assert!(tree.marked.is_empty());
    }
}

#[test]
fn a_failure_ends_a_paste() {
    let mut tree = tree();
    tree.marked.insert(path("/w/f"));
    tree.clipboard = Some(TreeClipboard {
        kind: ClipboardKind::Cut,
        paths: vec![path("/v/a"), path("/v/b"), path("/v/c")],
    });
    let mut job = job(&tree);
    assert!(job.performed(true));
    assert_eq!(job.next(), Some((path("/v/b"), path("/w/d/b"))));
    assert!(!job.performed(false));
    assert_eq!(job.next(), None);
    let end = tree.finish_paste(&job);
    assert_eq!(end, PasteEnd::Stopped(1));
    assert_eq!(paste_message(end, "disk full"), "File operation stopped after 1 item(s): disk full");
    assert_eq!(tree.clipboard.as_ref().unwrap().paths.len(), 3);
    assert!(!tree.marked.is_empty());
}

#[test]
fn failures_are_worded_with_paths_and_errors() {
    let tree = tree();
    let exists = PasteRefusal::Exists { target: path("/w/d") };
    assert_eq!(exists.message("", "/w/d"), "Destination already exists: /w/d");
    let inside = PasteRefusal::InsideItself { source: path("/w/d"), target: path("/w/d/d") };
    assert_eq!(inside.message("/w/d", "/w/d/d"), "Cannot place /w/d inside itself (/w/d/d)");
    assert_eq!(empty_clipboard_message(), "File-tree clipboard is empty");
    assert_eq!(open_failure("/w/f", "denied"), "Could not open /w/f: denied");
    let create = tree.prompt_create(false);
    assert_eq!(create.failure("/w/f", "denied"), "Could not create /w/f: denied");
    let rename = tree.prompt_rename().unwrap();
    assert_eq!(rename.refusal("/w/e"), "Destination already exists: /w/e");
    assert_eq!(rename.failure("denied"), "Could not rename: denied");
    let delete = tree.prompt_delete(&Vec::new()).unwrap();
    assert_eq!(delete.failure("/w/d", "denied"), "Could not delete /w/d: denied");
}

#[test]
fn links_are_copied_as_links() {
    assert_eq!(copy_action(true, true), CopyAction::Link);
    assert_eq!(copy_action(true, false), CopyAction::Link);
    assert_eq!(copy_action(false, true), CopyAction::Directory);
    assert_eq!(copy_action(false, false), CopyAction::File);
}

#[test]
fn new_entries_go_where_the_cursor_is() {
    let mut tree = tree();
    assert_eq!(tree.prompt_create(false).parent, path("/w/d"));
    assert_eq!(tree.target_directory(), Some(path("/w/d")));
    run(&mut tree, FileTreeAction::CursorLast);
    match run(&mut tree, FileTreeAction::CreateDirectory) {
        Effect::Create(prompt) => {
            assert_eq!(prompt.parent, path("/w"));
            assert!(prompt.is_dir);
            assert_eq!(prompt.label(), "New directory: ");
            assert!(prompt.accepts(true, "a"));
            assert!(!prompt.accepts(true, ""));
            assert!(!prompt.accepts(false, "a"));
        }
        other => panic!("{:?}", other),
    }
    let empty = FileTree::new(&config(), path("/w"));
    let prompt: CreatePrompt = empty.prompt_create(false);
    assert_eq!(prompt.parent, path("/w"));
    assert_eq!(prompt.label(), "New file: ");
    assert_eq!(empty.target_directory(), None);
}

#[test]
fn renaming_does_not_overwrite() {
    let mut tree = tree();
    run(&mut tree, FileTreeAction::CursorDown);
    let prompt = match run(&mut tree, FileTreeAction::Rename) {
        Effect::Rename(prompt) => prompt,
        other => panic!("{:?}", other),
    };
    assert_eq!(prompt.source, path("/w/d/x"));
    assert_eq!(prompt.parent, path("/w/d"));
    assert_eq!(prompt.name, b"x".to_vec());
    assert_eq!((prompt.label(), prompt.line()), ("Rename: ".to_owned(), "x".to_owned()));
    assert_eq!(prompt.action(true, "y", false), RenameAction::Move);
    assert_eq!(prompt.action(true, "y", true), RenameAction::Refuse);
    assert_eq!(prompt.action(true, "", false), RenameAction::Ignore);
    assert_eq!(prompt.action(false, "y", true), RenameAction::Ignore);
    assert!(FileTree::new(&config(), path("/w")).prompt_rename().is_none());
}

#[test]
fn deletion_counts_the_endangered_documents() {
    let mut tree = tree();
    let document = |text: &str, modified: bool| OpenDocument { path: Some(path(text)), modified };
    let documents = vec![
        document("/w/d/x", true),
        document("/w/d/y", false),
        document("/w/f", true),
        OpenDocument { path: None, modified: true },
    ];
    let prompt = tree.prompt_delete(&documents).unwrap();
    assert_eq!(prompt.paths, vec![path("/w/d")]);
    assert_eq!(prompt.modified, 1);
    assert_eq!(
        prompt.label(),
        "Permanently delete 1 path(s) (1 modified buffer(s))? Type yes: "
    );
    tree.marked.insert(path("/w/f"));
    tree.marked.insert(path("/w/d"));
    let mut prompt: DeletePrompt = tree.prompt_delete(&Vec::new()).unwrap();
    assert_eq!(prompt.label(), "Permanently delete 2 path(s)? Type yes: ");
    assert!(prompt.confirmed(true, "yes"));
    assert!(!prompt.confirmed(true, "y"));
    assert!(!prompt.confirmed(true, "Yes"));
    assert!(!prompt.confirmed(false, "yes"));
    assert_eq!(prompt.next(), Some(path("/w/d")));
    assert!(prompt.deleted(&mut tree, true));
    assert!(tree.dirty);
    assert_eq!(prompt.next(), Some(path("/w/f")));
    assert!(!prompt.deleted(&mut tree, true));
    assert_eq!(prompt.next(), None);
    assert!(FileTree::new(&config(), path("/w")).prompt_delete(&documents).is_none());
    assert!(matches!(run(&mut tree, FileTreeAction::Delete), Effect::Delete(_)));
}

#[test]
fn a_deletion_ends_with_the_first_failure() {
    let mut tree = tree();
    tree.marked.insert(path("/w/f"));
    tree.marked.insert(path("/w/d"));
    let mut prompt = tree.prompt_delete(&Vec::new()).unwrap();
    assert!(!prompt.deleted(&mut tree, false));
    assert!(!tree.dirty);
    assert_eq!(prompt.completed, 0);
    assert!(prompt.deleted(&mut tree, true));
    assert!(!prompt.deleted(&mut tree, false));
    assert!(tree.dirty);
    assert_eq!(prompt.completed, 1);
}

#[test]
fn only_a_success_makes_the_tree_dirty() {
    let mut tree = tree();
    let create = tree.prompt_create(false);
    create.created(&mut tree, false);
    assert!(!tree.dirty);
    create.created(&mut tree, true);
    assert!(tree.dirty);
    tree.dirty = false;
    let rename = tree.prompt_rename().unwrap();
    rename.renamed(&mut tree, false);
    assert!(!tree.dirty);
    rename.renamed(&mut tree, true);
    assert!(tree.dirty);
}

#[test]
fn answers_are_relative_to_their_directory() {
    let tree = tree();
    let create = tree.prompt_create(false);
    assert_eq!(create.target(&path("n/m")), path("/w/d/n/m"));
    assert_eq!(create.target(&path("/abs")), path("/abs"));
    let rename = tree.prompt_rename().unwrap();
    assert_eq!(rename.target(&path("e")), path("/w/e"));
    assert_eq!(rename.target(&path("/abs")), path("/abs"));
}
