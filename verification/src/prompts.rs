//! Creating, renaming and deleting: what is asked, and what an answer leads to.

use vstd::prelude::*;
use vstd::string::*;

use crate::clipboard::directory_at;
use crate::collections::path_views;
use crate::navigate::operated;
use crate::path::{file_name_of, joined, parent_of, under, Part, TreePath};
use crate::progress::{
    after_outcomes, begun, progressed, work_ends_with_the_first_failure, Progress,
};
use crate::selection::under_any;
use crate::text::{
    decimal, decimal_text, failure_at, failure_text_at, lossy, lossy_text, text_is, two_texts,
};
use crate::tree::{selected, FileTree, TreeView};

verus! {

/// An input that was confirmed and says something.
pub open spec fn answered(validated: bool, input: Seq<char>) -> bool {
    validated && input.len() > 0
}

/// The tree after an operation on the disk: one that succeeded makes it dirty, so that it is
/// refreshed before it is drawn again.
pub open spec fn disk_changed(tree: TreeView, succeeded: bool) -> TreeView {
    if succeeded {
        TreeView { dirty: true, ..tree }
    } else {
        tree
    }
}

/// Something new is to be created in a directory.
#[derive(Debug)]
pub struct CreatePrompt {
    pub parent: TreePath,
    pub is_dir: bool,
}

impl CreatePrompt {
    /// What is asked.
    pub fn label(&self) -> (r: String)
        ensures
            r@ == if self.is_dir {
                "New directory: "@
            } else {
                "New file: "@
            },
    {
        if self.is_dir {
            "New directory: ".to_owned()
        } else {
            "New file: ".to_owned()
        }
    }

    /// Something is to be created: at the input, taken relative to the directory.
    pub fn accepts(&self, validated: bool, input: &str) -> (r: bool)
        ensures
            r == answered(validated, input@),
    {
        validated && !input.is_empty()
    }
    /// The path that an input names, taken relative to the directory.
    pub fn target(&self, input: &TreePath) -> (r: TreePath)
        ensures
            r@ == joined(self.parent@, input@),
    {
        self.parent.join(input)
    }

    /// What is said when nothing could be created, given how the path is shown.
    pub fn failure(&self, path: &str, error: &str) -> (r: String)
        ensures
            r@ == failure_at("Could not create "@, path@, error@),
    {
        failure_text_at("Could not create ", path, error)
    }

    /// Takes the outcome of creating something. Only a success changes the disk.
    pub fn created(&self, tree: &mut FileTree, succeeded: bool)
        requires
            old(tree).wf(),
        ensures
            final(tree).wf(),
            final(tree)@ == disk_changed(old(tree)@, succeeded),
    {
        if succeeded {
            tree.mark_dirty();
        }
    }
}

/// A path is to get another name.
#[derive(Debug)]
pub struct RenamePrompt {
    pub source: TreePath,
    /// The directory to which the new name is relative.
    pub parent: TreePath,
    /// The name it has.
    pub name: Vec<u8>,
}

/// What an answer to the question for a new name leads to.
#[derive(Debug, Clone, Copy, PartialEq, Eq, Structural)]
pub enum RenameAction {
    /// Nothing.
    Ignore,
    /// There is something at the target already.
    Refuse,
    /// The path is moved to the target.
    Move,
}

impl RenamePrompt {
    /// What is asked.
    pub fn label(&self) -> (r: String)
        ensures
            r@ == "Rename: "@,
    {
        "Rename: ".to_owned()
    }

    /// The answer that stands there at first: the name it has, as it is shown.
    pub fn line(&self) -> (r: String)
        ensures
            r@ == lossy(self.name@),
    {
        lossy_text(&self.name)
    }

    /// There is an answer, so that it matters whether something is at the target.
    pub fn accepts(&self, validated: bool, input: &str) -> (r: bool)
        ensures
            r == answered(validated, input@),
    {
        validated && !input.is_empty()
    }

    /// What an answer leads to.
    pub fn action(&self, validated: bool, input: &str, target_exists: bool) -> (r: RenameAction)
        ensures
            r == if !answered(validated, input@) {
                RenameAction::Ignore
            } else if target_exists {
                RenameAction::Refuse
            } else {
                RenameAction::Move
            },
    {
        if !self.accepts(validated, input) {
            RenameAction::Ignore
        } else if target_exists {
            RenameAction::Refuse
        } else {
            RenameAction::Move
        }
    }
    /// The path that an input names, taken relative to the directory.
    pub fn target(&self, input: &TreePath) -> (r: TreePath)
        ensures
            r@ == joined(self.parent@, input@),
    {
        self.parent.join(input)
    }

    /// What is said when there is something at the target already, given how that is shown.
    pub fn refusal(&self, target: &str) -> (r: String)
        ensures
            r@ == "Destination already exists: "@ + target@,
    {
        two_texts("Destination already exists: ", target)
    }

    /// What is said when the path could not be moved.
    pub fn failure(&self, error: &str) -> (r: String)
        ensures
            r@ == "Could not rename: "@ + error@,
    {
        two_texts("Could not rename: ", error)
    }

    /// Takes the outcome of moving the path. Only a success changes the disk.
    pub fn renamed(&self, tree: &mut FileTree, succeeded: bool)
        requires
            old(tree).wf(),
        ensures
            final(tree).wf(),
            final(tree)@ == disk_changed(old(tree)@, succeeded),
    {
        if succeeded {
            tree.mark_dirty();
        }
    }
}

/// A document of the editor.
#[derive(Debug)]
pub struct OpenDocument {
    pub path: Option<TreePath>,
    pub modified: bool,
}

/// The document has changes that are not on the disk, and its file lies under one of the paths.
pub open spec fn endangered(document: OpenDocument, paths: Seq<Seq<Part>>) -> bool {
    &&& document.modified
    &&& document.path matches Some(path)
    &&& exists|i: int| 0 <= i < paths.len() && under(path@, #[trigger] paths[i])
}

/// How many documents have changes that would lose their file.
pub open spec fn endangered_count(documents: Seq<OpenDocument>, paths: Seq<Seq<Part>>) -> nat
    decreases documents.len(),
{
    if documents.len() == 0 {
        0
    } else {
        endangered_count(documents.drop_last(), paths) + (if endangered(documents.last(), paths) {
            1nat
        } else {
            0
        })
    }
}

/// Some paths are to be deleted.
#[derive(Debug)]
pub struct DeletePrompt {
    pub paths: Vec<TreePath>,
    /// The documents with changes that would lose their file.
    pub modified: usize,
    /// How many of the paths have been deleted already.
    pub completed: usize,
}

/// What is asked before paths are deleted.
pub open spec fn delete_text(paths: nat, modified: nat) -> Seq<char> {
    "Permanently delete "@ + decimal(paths) + " path(s)"@ + (if modified == 0 {
        Seq::empty()
    } else {
        " ("@ + decimal(modified) + " modified buffer(s))"@
    }) + "? Type yes: "@
}

impl DeletePrompt {
    /// No more paths have been deleted than there are.
    pub open spec fn wf(&self) -> bool {
        self.completed <= self.paths.len()
    }

    /// What is asked.
    pub fn label(&self) -> (r: String)
        ensures
            r@ == delete_text(self.paths.len() as nat, self.modified as nat),
    {
        let mut r = "Permanently delete ".to_owned();
        r.append(decimal_text(self.paths.len()).as_str());
        r.append(" path(s)");
        let ghost head = r@;
        if self.modified != 0 {
            r.append(" (");
            r.append(decimal_text(self.modified).as_str());
            r.append(" modified buffer(s))");
            assert(r@ =~= head + (" ("@ + decimal(self.modified as nat)
                + " modified buffer(s))"@));
        } else {
            assert(r@ =~= head + Seq::<char>::empty());
        }
        r.append("? Type yes: ");
        r
    }

    /// The paths are to be deleted: nothing but a confirmed `yes` does that.
    pub fn confirmed(&self, validated: bool, input: &str) -> (r: bool)
        ensures
            r == (validated && input@ == "yes"@),
    {
        validated && text_is(&input.to_owned(), "yes")
    }

    /// The next path to delete, while there is one.
    pub fn next(&self) -> (r: Option<TreePath>)
        requires
            self.wf(),
        ensures
            match r {
                Some(path) => self.completed < self.paths.len() && path@ == path_views(
                    self.paths@,
                )[self.completed as int],
                None => self.completed == self.paths.len(),
            },
    {
        if self.completed < self.paths.len() {
            Some(self.paths[self.completed].clone())
        } else {
            None
        }
    }

    /// What is said when a path could not be deleted, given how it is shown.
    pub fn failure(&self, path: &str, error: &str) -> (r: String)
        ensures
            r@ == failure_at("Could not delete "@, path@, error@),
    {
        failure_text_at("Could not delete ", path, error)
    }

    /// Takes the outcome of the next deletion, and tells whether the deletion goes on: it ends with
    /// the first failure, and with the last path.
    pub fn deleted(&mut self, tree: &mut FileTree, succeeded: bool) -> (more: bool)
        requires
            old(self).wf(),
            old(self).completed < old(self).paths.len(),
            old(tree).wf(),
        ensures
            final(self).wf(),
            final(tree).wf(),
            (Progress { completed: final(self).completed as nat, more }) == progressed(
                Progress { completed: old(self).completed as nat, more: true },
                old(self).paths.len() as nat,
                succeeded,
            ),
            final(self).paths == old(self).paths,
            final(self).modified == old(self).modified,
            final(tree)@ == disk_changed(old(tree)@, succeeded),
            more == (succeeded && final(self).completed < final(self).paths.len()),
    {
        if succeeded {
            self.completed = self.completed + 1;
            tree.mark_dirty();
        }
        succeeded && self.completed < self.paths.len()
    }
}

/// A confirmed deletion and the tree whose paths it deletes.
pub struct DeletionView {
    pub progress: Progress,
    pub tree: TreeView,
}

/// A deletion of `total` paths after the given outcomes, one after the other, as long as it goes on.
pub open spec fn after_deletions(tree: TreeView, total: nat, outcomes: Seq<bool>) -> DeletionView
    decreases outcomes.len(),
{
    if outcomes.len() == 0 {
        DeletionView { progress: begun(total), tree }
    } else {
        let before = after_deletions(tree, total, outcomes.drop_last());
        if before.progress.more {
            DeletionView {
                progress: progressed(before.progress, total, outcomes.last()),
                tree: disk_changed(before.tree, outcomes.last()),
            }
        } else {
            before
        }
    }
}

/// Paths are deleted up to the first failure: those before it are, and nothing after it is tried.
/// The tree becomes dirty exactly if one of them has been deleted.
pub proof fn deletion_ends_with_the_first_failure(
    tree: TreeView,
    total: nat,
    outcomes: Seq<bool>,
)
    ensures
        ({
            let end = after_deletions(tree, total, outcomes);
            let completed = end.progress.completed;
            &&& completed <= total && completed <= outcomes.len()
            &&& forall|i: int| 0 <= i < completed ==> #[trigger] outcomes[i]
            &&& end.progress.more <==> completed == outcomes.len() && completed < total
            &&& !end.progress.more ==> completed == total || !outcomes[completed as int]
            &&& end.tree == disk_changed(tree, completed > 0)
        }),
{
    lemma_deletions(tree, total, outcomes);
    work_ends_with_the_first_failure(total, outcomes);
}

proof fn lemma_deletions(tree: TreeView, total: nat, outcomes: Seq<bool>)
    ensures
        ({
            let end = after_deletions(tree, total, outcomes);
            &&& end.progress == after_outcomes(total, outcomes)
            &&& end.tree == disk_changed(tree, end.progress.completed > 0)
        }),
    decreases outcomes.len(),
{
    if outcomes.len() > 0 {
        lemma_deletions(tree, total, outcomes.drop_last());
    }
}

fn count_endangered(documents: &Vec<OpenDocument>, paths: &Vec<TreePath>) -> (r: usize)
    ensures
        r == endangered_count(documents@, path_views(paths@)),
{
    let ghost views = path_views(paths@);
    let mut count: usize = 0;
    let mut i: usize = 0;
    assert(documents@.take(0) =~= Seq::empty());
    while i < documents.len()
        invariant
            i <= documents.len(),
            count <= i,
            views == path_views(paths@),
            count == endangered_count(documents@.take(i as int), views),
        decreases documents.len() - i,
    {
        assert(documents@.take(i + 1).drop_last() =~= documents@.take(i as int));
        let document = &documents[i];
        let lost = match &document.path {
            Some(path) => {
                let below = under_any(path, paths);
                proof {
                    if below {
                        let k = choose|k: int|
                            0 <= k < paths.len() && under(path@, #[trigger] paths@[k]@);
                        assert(under(path@, views[k]));
                    } else if exists|k: int| 0 <= k < views.len() && under(path@, #[trigger] views[k]) {
                        let k = choose|k: int| 0 <= k < views.len() && under(path@, #[trigger] views[k]);
                        assert(under(path@, paths@[k]@));
                    }
                }
                document.modified && below
            },
            None => false,
        };
        if lost {
            count = count + 1;
        }
        i = i + 1;
    }
    assert(documents@.take(i as int) =~= documents@);
    count
}

/// The directory in which something new is created: the one at the cursor, or the root where there
/// is no row.
pub open spec fn creation_directory(tree: TreeView) -> Seq<Part> {
    match directory_at(tree) {
        Some(dir) => dir,
        None => tree.root,
    }
}

impl FileTree {
    /// Asks for the name of something new.
    pub fn prompt_create(&self, is_dir: bool) -> (r: CreatePrompt)
        ensures
            r.parent@ == creation_directory(self@),
            r.is_dir == is_dir,
    {
        let parent = match self.target_directory() {
            Some(dir) => dir,
            None => self.root.clone(),
        };
        CreatePrompt { parent, is_dir }
    }

    /// Asks for another name of the selected path, where it has a name at all.
    pub fn prompt_rename(&self) -> (r: Option<RenamePrompt>)
        ensures
            match r {
                Some(prompt) => {
                    &&& selected(self@) is Some
                    &&& prompt.source@ == selected(self@)->0.path
                    &&& file_name_of(prompt.source@) == Some(prompt.name@)
                    &&& parent_of(prompt.source@) == Some(prompt.parent@)
                },
                None => selected(self@) is None || file_name_of(selected(self@)->0.path) is None,
            },
    {
        let row = match self.selected_row() {
            Some(row) => row,
            None => {
                return None;
            },
        };
        let name = match row.path.file_name() {
            Some(name) => name,
            None => {
                return None;
            },
        };
        match row.path.parent() {
            Some(parent) => Some(RenamePrompt { source: row.path.clone(), parent, name }),
            None => None,
        }
    }

    /// Asks whether the paths on which an operation works are to be deleted, where there are any.
    pub fn prompt_delete(&self, documents: &Vec<OpenDocument>) -> (r: Option<DeletePrompt>)
        requires
            self.wf(),
        ensures
            match r {
                Some(prompt) => {
                    &&& prompt.wf()
                    &&& prompt.completed == 0
                    &&& prompt.paths.len() > 0
                    &&& operated(self@, path_views(prompt.paths@))
                    &&& prompt.modified == endangered_count(documents@, path_views(prompt.paths@))
                },
                None => operated(self@, Seq::empty()),
            },
    {
        let paths = self.operation_paths();
        if paths.len() == 0 {
            assert(path_views(paths@) =~= Seq::empty());
            return None;
        }
        let modified = count_endangered(documents, &paths);
        Some(DeletePrompt { paths, modified, completed: 0 })
    }

    /// Notes that the disk has changed, so that the tree is refreshed before it is drawn again.
    pub fn mark_dirty(&mut self)
        requires
            old(self).wf(),
        ensures
            final(self).wf(),
            final(self)@ == (TreeView { dirty: true, ..old(self)@ }),
    {
        self.dirty = true;
    }
}

} // verus!
