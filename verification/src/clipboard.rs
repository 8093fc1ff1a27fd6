//! Copying, cutting and pasting paths of the tree.

use vstd::prelude::*;
use vstd::string::*;

use crate::collections::path_views;
use crate::navigate::operated;
use crate::path::{file_name_of, parent_of, under, Part, TreePath};
use crate::progress::{
    after_outcomes, begun, progressed, work_ends_with_the_first_failure, Progress,
};
use crate::text::{decimal, decimal_text, two_texts};
use crate::tree::{selected, ClipboardKind, ClipboardView, FileTree, TreeClipboard, TreeView};

verus! {

/// Where a path goes when it is put into a directory.
pub open spec fn target_in(destination: Seq<Part>, source: Seq<Part>) -> Option<Seq<Part>> {
    match file_name_of(source) {
        Some(name) => Some(destination.push(Part::Normal(name))),
        None => None,
    }
}

/// The paths that can be put into a directory, each with where it goes. A path without a name is
/// left out.
pub open spec fn paste_targets(sources: Seq<Seq<Part>>, destination: Seq<Part>) -> Seq<
    (Seq<Part>, Seq<Part>),
>
    decreases sources.len(),
{
    if sources.len() == 0 {
        Seq::empty()
    } else {
        let before = paste_targets(sources.drop_last(), destination);
        match target_in(destination, sources.last()) {
            Some(target) => before.push((sources.last(), target)),
            None => before,
        }
    }
}

/// The directory at the cursor: the selected directory, or the one in which the selected file lies.
pub open spec fn directory_at(tree: TreeView) -> Option<Seq<Part>> {
    match selected(tree) {
        Some(row) => if row.is_dir {
            Some(row.path)
        } else {
            match parent_of(row.path) {
                Some(parent) => Some(parent),
                None => Some(tree.root),
            }
        },
        None => None,
    }
}

/// The paths to be copied or moved, and how many of them have been already.
#[derive(Debug)]
pub struct PasteJob {
    pub kind: ClipboardKind,
    pub targets: Vec<(TreePath, TreePath)>,
    pub completed: usize,
    /// An operation has failed, which ends the job.
    pub failed: bool,
}

/// The sources and the targets of a job, by value.
pub open spec fn target_views(targets: Seq<(TreePath, TreePath)>) -> Seq<(Seq<Part>, Seq<Part>)> {
    targets.map_values(|t: (TreePath, TreePath)| (t.0@, t.1@))
}

/// What a paste begins with.
#[derive(Debug)]
pub enum PasteStart {
    /// There is nothing in the clipboard.
    EmptyClipboard,
    /// There is no row, and so no place to put anything.
    NoRow,
    /// The job, which still has to be checked.
    Job(PasteJob),
}

/// Why a job is refused.
#[derive(Debug, PartialEq, Eq)]
pub enum PasteRefusal {
    /// There is something at the target already.
    Exists { target: TreePath },
    /// The target lies in the source.
    InsideItself { source: TreePath, target: TreePath },
}

/// How a paste ended.
#[derive(Debug, Clone, Copy, PartialEq, Eq, Structural)]
pub enum PasteEnd {
    /// An operation failed after so many had succeeded.
    Stopped(usize),
    /// So many operations succeeded, and these were all.
    Pasted(usize),
}

/// There is something at the target at position `i`, and at none before it.
pub open spec fn first_existing(existing: Seq<bool>, i: int) -> bool {
    0 <= i < existing.len() && existing[i] && forall|j: int| 0 <= j < i ==> !#[trigger] existing[j]
}

/// The target at position `i` lies in its source, and none before it does.
pub open spec fn first_inside(targets: Seq<(Seq<Part>, Seq<Part>)>, i: int) -> bool {
    0 <= i < targets.len() && under(targets[i].1, targets[i].0) && forall|j: int|
        0 <= j < i ==> !under((#[trigger] targets[j]).1, targets[j].0)
}

impl PasteJob {
    /// No more operations have been completed than there are, and the one that failed is one of
    /// them.
    pub open spec fn wf(&self) -> bool {
        self.completed <= self.targets.len() && (self.failed ==> self.completed
            < self.targets.len())
    }

    /// How far the job has come.
    pub open spec fn progress(&self) -> Progress {
        Progress {
            completed: self.completed as nat,
            more: !self.failed && self.completed < self.targets.len(),
        }
    }

    /// Checks a job before anything is done. `existing` tells for each target whether there is
    /// something at it.
    pub fn refusal(&self, existing: &Vec<bool>) -> (r: Option<PasteRefusal>)
        requires
            existing.len() == self.targets.len(),
        ensures
            match r {
                Some(PasteRefusal::Exists { target }) => exists|i: int| #[trigger]
                    first_existing(existing@, i) && target@ == target_views(self.targets@)[i].1,
                Some(PasteRefusal::InsideItself { source, target }) => {
                    &&& forall|j: int| 0 <= j < existing.len() ==> !#[trigger] existing@[j]
                    &&& exists|i: int| #[trigger]
                        first_inside(target_views(self.targets@), i) && source@ == target_views(
                            self.targets@,
                        )[i].0 && target@ == target_views(self.targets@)[i].1
                },
                None => {
                    &&& forall|j: int| 0 <= j < existing.len() ==> !#[trigger] existing@[j]
                    &&& forall|j: int|
                        0 <= j < self.targets.len() ==> !under(
                            (#[trigger] target_views(self.targets@)[j]).1,
                            target_views(self.targets@)[j].0,
                        )
                },
            },
            existing@.contains(true) <==> r is Some && r->0 is Exists,
    {
        let ghost views = target_views(self.targets@);
        let mut i: usize = 0;
        while i < existing.len()
            invariant
                i <= existing.len(),
                existing.len() == self.targets.len(),
                views == target_views(self.targets@),
                forall|j: int| 0 <= j < i ==> !#[trigger] existing@[j],
            decreases existing.len() - i,
        {
            if existing[i] {
                assert(existing@[i as int] == true);
                assert(first_existing(existing@, i as int));
                assert(views[i as int].1 == self.targets@[i as int].1@);
                return Some(PasteRefusal::Exists { target: self.targets[i].1.clone() });
            }
            i = i + 1;
        }
        let mut n: usize = 0;
        while n < self.targets.len()
            invariant
                n <= self.targets.len(),
                views == target_views(self.targets@),
                forall|j: int| 0 <= j < existing.len() ==> !#[trigger] existing@[j],
                forall|j: int| 0 <= j < n ==> !under((#[trigger] views[j]).1, views[j].0),
            decreases self.targets.len() - n,
        {
            if self.targets[n].1.starts_with(&self.targets[n].0) {
                assert(views[n as int].0 == self.targets@[n as int].0@);
                assert(views[n as int].1 == self.targets@[n as int].1@);
                assert(first_inside(views, n as int));
                return Some(
                    PasteRefusal::InsideItself {
                        source: self.targets[n].0.clone(),
                        target: self.targets[n].1.clone(),
                    },
                );
            }
            n = n + 1;
        }
        None
    }

    /// The next source and target, as long as the job goes on.
    pub fn next(&self) -> (r: Option<(TreePath, TreePath)>)
        ensures
            match r {
                Some(step) => self.progress().more && (step.0@, step.1@) == target_views(
                    self.targets@,
                )[self.completed as int],
                None => !self.progress().more,
            },
    {
        if !self.failed && self.completed < self.targets.len() {
            let step = &self.targets[self.completed];
            Some((step.0.clone(), step.1.clone()))
        } else {
            None
        }
    }

    /// Takes the outcome of the next operation, and tells whether the job goes on: it ends with the
    /// first failure, and with the last operation.
    pub fn performed(&mut self, succeeded: bool) -> (more: bool)
        requires
            old(self).wf(),
            old(self).progress().more,
        ensures
            final(self).wf(),
            final(self).progress() == progressed(
                old(self).progress(),
                old(self).targets.len() as nat,
                succeeded,
            ),
            final(self).failed == !succeeded,
            final(self).targets == old(self).targets,
            final(self).kind == old(self).kind,
            more == (succeeded && final(self).completed < final(self).targets.len()),
    {
        if succeeded {
            self.completed = self.completed + 1;
        } else {
            self.failed = true;
        }
        succeeded && self.completed < self.targets.len()
    }
}

impl PasteRefusal {
    /// What is said of the refusal, given how the paths are shown.
    pub fn message(&self, source: &str, target: &str) -> (r: String)
        ensures
            r@ == match self {
                PasteRefusal::Exists { .. } => "Destination already exists: "@ + target@,
                PasteRefusal::InsideItself { .. } => "Cannot place "@ + source@ + " inside itself ("@
                    + target@ + ")"@,
            },
    {
        match self {
            PasteRefusal::Exists { .. } => two_texts("Destination already exists: ", target),
            PasteRefusal::InsideItself { .. } => {
                let mut r = two_texts("Cannot place ", source);
                r.append(" inside itself (");
                r.append(target);
                r.append(")");
                r
            },
        }
    }
}

/// What is said when there is nothing to paste.
pub fn empty_clipboard_message() -> (r: String)
    ensures
        r@ == "File-tree clipboard is empty"@,
{
    "File-tree clipboard is empty".to_owned()
}

/// The tree with some paths in its clipboard, if there are any.
pub open spec fn with_clipboard(
    tree: TreeView,
    kind: ClipboardKind,
    paths: Seq<Seq<Part>>,
) -> TreeView {
    if paths.len() == 0 {
        tree
    } else {
        TreeView { clipboard: Some(ClipboardView { kind, paths }), ..tree }
    }
}

/// The tree after a paste. Only when everything has been pasted are the marks taken away, and the
/// clipboard emptied if it was cut.
pub open spec fn pasted(tree: TreeView, kind: ClipboardKind, end: PasteEnd) -> TreeView {
    match end {
        PasteEnd::Stopped(_) => tree,
        PasteEnd::Pasted(_) => TreeView {
            clipboard: if kind == ClipboardKind::Cut {
                None
            } else {
                tree.clipboard
            },
            marked: Set::empty(),
            ..tree
        },
    }
}

impl FileTree {
    /// Puts the paths on which an operation works into the clipboard, and returns how many they are.
    pub fn set_clipboard(&mut self, kind: ClipboardKind) -> (count: usize)
        requires
            old(self).wf(),
        ensures
            final(self).wf(),
            exists|paths: Seq<Seq<Part>>| #[trigger]
                operated(old(self)@, paths) && count == paths.len() && final(self)@
                    == with_clipboard(old(self)@, kind, paths),
            count > 0 ==> {
                &&& final(self)@.clipboard is Some
                &&& final(self)@.clipboard->0.kind == kind
                &&& final(self)@.clipboard->0.paths.len() == count
                &&& operated(old(self)@, final(self)@.clipboard->0.paths)
            },
    {
        let paths = self.operation_paths();
        let ghost views = path_views(paths@);
        let count = paths.len();
        if count == 0 {
            return 0;
        }
        self.clipboard = Some(TreeClipboard { kind, paths });
        assert(operated(old(self)@, views));
        count
    }

    /// The directory at the cursor.
    pub fn target_directory(&self) -> (r: Option<TreePath>)
        ensures
            match r {
                Some(dir) => directory_at(self@) == Some(dir@),
                None => directory_at(self@) is None,
            },
    {
        match self.selected_row() {
            Some(row) => {
                if row.is_dir {
                    Some(row.path.clone())
                } else {
                    match row.path.parent() {
                        Some(parent) => Some(parent),
                        None => Some(self.root.clone()),
                    }
                }
            },
            None => None,
        }
    }

    /// Begins a paste into the directory at the cursor.
    pub fn paste(&self) -> (r: PasteStart)
        ensures
            match r {
                PasteStart::EmptyClipboard => self@.clipboard is None,
                PasteStart::NoRow => self@.clipboard is Some && directory_at(self@) is None,
                PasteStart::Job(job) => {
                    &&& self@.clipboard is Some
                    &&& directory_at(self@) is Some
                    &&& job.wf()
                    &&& job.progress() == begun(job.targets.len() as nat)
                    &&& job.kind == self@.clipboard->0.kind
                    &&& target_views(job.targets@) == paste_targets(
                        self@.clipboard->0.paths,
                        directory_at(self@)->0,
                    )
                },
            },
    {
        let clipboard = match &self.clipboard {
            Some(clipboard) => clipboard,
            None => {
                return PasteStart::EmptyClipboard;
            },
        };
        let destination = match self.target_directory() {
            Some(destination) => destination,
            None => {
                return PasteStart::NoRow;
            },
        };
        let mut targets: Vec<(TreePath, TreePath)> = Vec::new();
        let ghost sources = path_views(clipboard.paths@);
        assert(sources.take(0) =~= Seq::empty());
        assert(target_views(targets@) =~= Seq::empty());
        let mut i: usize = 0;
        while i < clipboard.paths.len()
            invariant
                i <= clipboard.paths.len(),
                sources == path_views(clipboard.paths@),
                target_views(targets@) == paste_targets(sources.take(i as int), destination@),
            decreases clipboard.paths.len() - i,
        {
            let ghost before = target_views(targets@);
            assert(sources.take(i + 1).drop_last() =~= sources.take(i as int));
            assert(sources.take(i + 1).last() == clipboard.paths@[i as int]@);
            if let Some(name) = clipboard.paths[i].file_name() {
                let target = destination.join_name(&name);
                let ghost pair = (clipboard.paths@[i as int]@, target@);
                targets.push((clipboard.paths[i].clone(), target));
                assert(target_views(targets@) =~= before.push(pair));
            }
            i = i + 1;
        }
        assert(sources.take(i as int) =~= sources);
        PasteStart::Job(PasteJob { kind: clipboard.kind, targets, completed: 0, failed: false })
    }

    /// Ends a paste that does not go on. The tree has to be refreshed.
    pub fn finish_paste(&mut self, job: &PasteJob) -> (r: PasteEnd)
        requires
            old(self).wf(),
            job.wf(),
            !job.progress().more,
        ensures
            final(self).wf(),
            r == if job.failed {
                PasteEnd::Stopped(job.completed)
            } else {
                PasteEnd::Pasted(job.targets.len())
            },
            final(self)@ == pasted(old(self)@, job.kind, r),
    {
        if job.failed {
            return PasteEnd::Stopped(job.completed);
        }
        if job.kind == ClipboardKind::Cut {
            self.clipboard = None;
        }
        self.marked.clear();
        PasteEnd::Pasted(job.completed)
    }
}

/// A paste is stopped by its first failure: the sources before it are done, and those after it are
/// not touched. The clipboard and the marks then stay as they are.
pub proof fn paste_ends_with_the_first_failure(
    tree: TreeView,
    kind: ClipboardKind,
    total: nat,
    outcomes: Seq<bool>,
    count: usize,
)
    ensures
        ({
            let end = after_outcomes(total, outcomes);
            &&& forall|i: int| 0 <= i < end.completed ==> #[trigger] outcomes[i]
            &&& end.more <==> end.completed == outcomes.len() && end.completed < total
            &&& !end.more ==> end.completed == total || !outcomes[end.completed as int]
        }),
        pasted(tree, kind, PasteEnd::Stopped(count)) == tree,
{
    work_ends_with_the_first_failure(total, outcomes);
}

/// Pasting into a directory puts each path under its own name directly into it.
pub proof fn targets_lie_in_the_destination(sources: Seq<Seq<Part>>, destination: Seq<Part>)
    ensures
        forall|i: int|
            0 <= i < paste_targets(sources, destination).len() ==> {
                let (source, target) = #[trigger] paste_targets(sources, destination)[i];
                &&& sources.contains(source)
                &&& parent_of(target) == Some(destination)
                &&& file_name_of(target) == file_name_of(source)
            },
    decreases sources.len(),
{
    if sources.len() > 0 {
        let rest = sources.drop_last();
        targets_lie_in_the_destination(rest, destination);
        let all = paste_targets(sources, destination);
        let before = paste_targets(rest, destination);
        assert forall|i: int| 0 <= i < all.len() implies {
            let (source, target) = #[trigger] all[i];
            &&& sources.contains(source)
            &&& parent_of(target) == Some(destination)
            &&& file_name_of(target) == file_name_of(source)
        } by {
            if i < before.len() {
                assert(all[i] == before[i]);
                let source = before[i].0;
                let k = choose|k: int| 0 <= k < rest.len() && rest[k] == source;
                assert(sources[k] == source);
            } else {
                assert(sources[sources.len() - 1] == sources.last());
                let name = file_name_of(sources.last())->0;
                crate::path::join_name_extends(destination, name);
            }
        }
    }
}

/// What is said when paths have been put into the clipboard.
pub open spec fn clipboard_text(kind: ClipboardKind, count: nat) -> Seq<char> {
    (match kind {
        ClipboardKind::Copy => "Copied "@,
        ClipboardKind::Cut => "Cut "@,
    }) + decimal(count) + " path(s)"@
}

/// What is said when paths have been put into the clipboard.
pub fn clipboard_message(kind: ClipboardKind, count: usize) -> (r: String)
    ensures
        r@ == clipboard_text(kind, count as nat),
{
    let verb = match kind {
        ClipboardKind::Copy => "Copied ",
        ClipboardKind::Cut => "Cut ",
    };
    let mut r = verb.to_owned();
    r.append(decimal_text(count).as_str());
    r.append(" path(s)");
    r
}

/// What is said at the end of a paste, with the error where an operation failed.
pub open spec fn paste_text(end: PasteEnd, error: Seq<char>) -> Seq<char> {
    match end {
        PasteEnd::Stopped(n) => "File operation stopped after "@ + decimal(n as nat)
            + " item(s): "@ + error,
        PasteEnd::Pasted(n) => "Pasted "@ + decimal(n as nat) + " item(s)"@,
    }
}

/// What is said at the end of a paste.
pub fn paste_message(end: PasteEnd, error: &str) -> (r: String)
    ensures
        r@ == paste_text(end, error@),
{
    match end {
        PasteEnd::Stopped(n) => {
            let mut r = "File operation stopped after ".to_owned();
            r.append(decimal_text(n).as_str());
            r.append(" item(s): ");
            r.append(error);
            r
        },
        PasteEnd::Pasted(n) => {
            let mut r = "Pasted ".to_owned();
            r.append(decimal_text(n).as_str());
            r.append(" item(s)");
            r
        },
    }
}

/// How something is copied.
#[derive(Debug, Clone, Copy, PartialEq, Eq, Structural)]
pub enum CopyAction {
    /// A link to the same place is made; what it leads to is not copied.
    Link,
    /// A directory with the same permissions is made, and each of its entries copied into it.
    Directory,
    /// The content is copied.
    File,
}

/// How something is copied, by what it is when links are not followed.
pub fn copy_action(is_symlink: bool, is_dir: bool) -> (r: CopyAction)
    ensures
        r == if is_symlink {
            CopyAction::Link
        } else if is_dir {
            CopyAction::Directory
        } else {
            CopyAction::File
        },
{
    if is_symlink {
        CopyAction::Link
    } else if is_dir {
        CopyAction::Directory
    } else {
        CopyAction::File
    }
}

} // verus!
