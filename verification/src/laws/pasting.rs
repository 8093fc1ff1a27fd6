//! What the clipboard holds, where it is put, and how such work goes on.

use crate::clipboard::{
    clipboard_text, directory_at, first_existing, first_inside, paste_targets, paste_text, pasted,
    with_clipboard, PasteEnd, PasteJob,
};
use crate::path::Part;
use crate::progress::{begun, progressed, Progress};
use crate::text::decimal;
use crate::tree::{ClipboardKind, TreeView};
use vstd::prelude::*;

verus! {

/// After a copy or a cut with something to operate on, the clipboard holds the kind that was asked
/// for and the operation paths, whatever it held before. Nothing else of the tree changes.
pub proof fn clipboard_holds_the_last_request(
    tree: TreeView,
    kind: ClipboardKind,
    paths: Seq<Seq<Part>>,
)
    requires
        paths.len() > 0,
    ensures
        with_clipboard(tree, kind, paths).clipboard is Some,
        with_clipboard(tree, kind, paths).clipboard->0.kind == kind,
        with_clipboard(tree, kind, paths).clipboard->0.paths == paths,
        with_clipboard(tree, kind, paths) == (TreeView {
            clipboard: with_clipboard(tree, kind, paths).clipboard,
            ..tree
        }),
{
}

/// What a clipboard was filled with before leaves no trace in what it is filled with next.
pub proof fn clipboard_forgets_earlier_requests(
    tree: TreeView,
    first: ClipboardKind,
    earlier: Seq<Seq<Part>>,
    kind: ClipboardKind,
    paths: Seq<Seq<Part>>,
)
    requires
        paths.len() > 0,
    ensures
        with_clipboard(with_clipboard(tree, first, earlier), kind, paths) == with_clipboard(
            tree,
            kind,
            paths,
        ),
{
}

/// With nothing to operate on, a copy or a cut leaves the clipboard, and everything else, as it was.
pub proof fn empty_requests_keep_the_clipboard(
    tree: TreeView,
    kind: ClipboardKind,
    paths: Seq<Seq<Part>>,
)
    requires
        paths.len() == 0,
    ensures
        with_clipboard(tree, kind, paths) == tree,
{
}

/// The sources are taken one behind the other. One with a name goes to that name in the
/// destination, and one without a name goes nowhere.
pub proof fn sources_go_to_their_names(
    sources: Seq<Seq<Part>>,
    more: Seq<Seq<Part>>,
    source: Seq<Part>,
    destination: Seq<Part>,
)
    ensures
        paste_targets(sources + more, destination) == paste_targets(sources, destination)
            + paste_targets(more, destination),
        source.len() > 0 && source.last() is Normal ==> paste_targets(seq![source], destination)
            == seq![(source, destination.push(source.last()))],
        source.len() == 0 || !(source.last() is Normal) ==> paste_targets(
            seq![source],
            destination,
        ).len() == 0,
    decreases more.len(),
{
    assert(seq![source].drop_last() =~= Seq::<Seq<Part>>::empty());
    reveal_with_fuel(paste_targets, 2);
    if source.len() > 0 && source.last() is Normal {
        assert(paste_targets(seq![source], destination) =~= seq![
            (source, destination.push(source.last())),
        ]);
    }
    if more.len() == 0 {
        assert(sources + more =~= sources);
        assert(paste_targets(sources, destination) =~= paste_targets(sources, destination)
            + paste_targets(more, destination));
    } else {
        sources_go_to_their_names(sources, more.drop_last(), source, destination);
        assert((sources + more).drop_last() =~= sources + more.drop_last());
        assert((sources + more).last() == more.last());
        assert(paste_targets(sources + more, destination) =~= paste_targets(sources, destination)
            + paste_targets(more, destination));
    }
}

/// There are no more targets than sources, and exactly as many if each source ends in a name.
pub proof fn targets_are_no_more_than_sources(sources: Seq<Seq<Part>>, destination: Seq<Part>)
    ensures
        paste_targets(sources, destination).len() <= sources.len(),
        (forall|i: int|
            0 <= i < sources.len() ==> (#[trigger] sources[i]).len() > 0 && sources[i].last() is Normal)
            ==> paste_targets(sources, destination).len() == sources.len(),
    decreases sources.len(),
{
    if sources.len() > 0 {
        targets_are_no_more_than_sources(sources.drop_last(), destination);
        assert(sources.last() == sources[sources.len() - 1]);
        assert forall|i: int| 0 <= i < sources.drop_last().len() implies sources.drop_last()[i]
            == #[trigger] sources[i] by {}
        if forall|i: int|
            0 <= i < sources.len() ==> (#[trigger] sources[i]).len() > 0 && sources[i].last() is Normal {
            assert forall|i: int| 0 <= i < sources.drop_last().len() implies (
            #[trigger] sources.drop_last()[i]).len() > 0 && sources.drop_last()[i].last() is Normal by {
                assert(sources[i].len() > 0);
            }
        }
    }
}

/// What is pasted goes into the directory under the cursor, open or not, or into the one that the
/// file under the cursor lies in. A file that lies in none goes by the root, and without a row
/// there is no destination.
pub proof fn pasting_goes_where_the_cursor_is(tree: TreeView)
    requires
        0 <= tree.cursor,
    ensures
        tree.rows.len() <= tree.cursor ==> directory_at(tree) is None,
        tree.cursor < tree.rows.len() && tree.rows[tree.cursor].is_dir ==> directory_at(tree)
            == Some(tree.rows[tree.cursor].path),
        tree.cursor < tree.rows.len() && !tree.rows[tree.cursor].is_dir
            && tree.rows[tree.cursor].path.len() > 0 && !(tree.rows[tree.cursor].path.last() is RootDir)
            && !(tree.rows[tree.cursor].path.last() is Prefix) ==> directory_at(tree) == Some(
            tree.rows[tree.cursor].path.take(tree.rows[tree.cursor].path.len() - 1),
        ),
        tree.cursor < tree.rows.len() && !tree.rows[tree.cursor].is_dir && (
        tree.rows[tree.cursor].path.len() == 0 || tree.rows[tree.cursor].path.last() is RootDir
            || tree.rows[tree.cursor].path.last() is Prefix) ==> directory_at(tree) == Some(
            tree.root,
        ),
{
    if tree.cursor < tree.rows.len() && tree.rows[tree.cursor].path.len() > 0 {
        let path = tree.rows[tree.cursor].path;
        assert(path.drop_last() =~= path.take(path.len() - 1));
    }
}

/// A paste that went through clears the marks. It empties the clipboard after a cut and keeps it
/// after a copy. A paste that was stopped changes nothing.
pub proof fn a_cut_is_pasted_once(tree: TreeView, n: usize)
    ensures
        pasted(tree, ClipboardKind::Cut, PasteEnd::Pasted(n)).clipboard is None,
        pasted(tree, ClipboardKind::Copy, PasteEnd::Pasted(n)).clipboard == tree.clipboard,
        forall|kind: ClipboardKind, p: Seq<Part>|
            !(#[trigger] pasted(tree, kind, PasteEnd::Pasted(n)).marked.contains(p)),
        forall|kind: ClipboardKind| #[trigger]
            pasted(tree, kind, PasteEnd::Pasted(n)) == (TreeView {
                clipboard: pasted(tree, kind, PasteEnd::Pasted(n)).clipboard,
                marked: Set::empty(),
                ..tree
            }),
        forall|kind: ClipboardKind| #[trigger] pasted(tree, kind, PasteEnd::Stopped(n)) == tree,
{
}

/// If any target exists, there is a first one that does, and it is the one that is told.
pub proof fn the_first_existing_target_is_told(existing: Seq<bool>, i: int, j: int)
    requires
        0 <= j < existing.len(),
        existing[j],
    ensures
        first_existing(existing, i) ==> 0 <= i <= j && existing[i],
        first_existing(existing, i) && i != j ==> !first_existing(existing, j),
        exists|k: int| #[trigger] first_existing(existing, k) && k <= j,
    decreases j,
{
    if first_existing(existing, j) {
    } else {
        let k = choose|k: int| 0 <= k < j && #[trigger] existing[k];
        the_first_existing_target_is_told(existing, i, k);
    }
}

/// If any target begins with its own source, there is a first one that does, and it is the one that
/// is told.
pub proof fn the_first_target_inside_itself_is_told(
    targets: Seq<(Seq<Part>, Seq<Part>)>,
    i: int,
    j: int,
)
    requires
        0 <= j < targets.len(),
        targets[j].0.len() <= targets[j].1.len(),
        targets[j].0 == targets[j].1.take(targets[j].0.len() as int),
    ensures
        first_inside(targets, i) ==> 0 <= i <= j && targets[i].0.len() <= targets[i].1.len()
            && targets[i].0 == targets[i].1.take(targets[i].0.len() as int),
        exists|k: int| #[trigger] first_inside(targets, k) && k <= j,
    decreases j,
{
    assert(crate::path::under(targets[j].1, targets[j].0));
    if first_inside(targets, i) {
        assert(targets[i].0 =~= targets[i].1.take(targets[i].0.len() as int));
    }
    if first_inside(targets, j) {
    } else {
        let k = choose|k: int|
            0 <= k < j && crate::path::under((#[trigger] targets[k]).1, targets[k].0);
        assert(targets[k].0 =~= targets[k].1.take(targets[k].0.len() as int));
        the_first_target_inside_itself_is_told(targets, i, k);
    }
}

/// Work on items starts with none done. A success does one more, a failure none, and there is more
/// to do only after a success and only while items are left.
pub proof fn work_goes_item_by_item(progress: Progress, total: nat)
    ensures
        begun(total).completed == 0,
        begun(total).more <==> total > 0,
        progressed(progress, total, true).completed == progress.completed + 1,
        progressed(progress, total, true).more <==> progress.completed + 1 < total,
        progressed(progress, total, false).completed == progress.completed,
        !progressed(progress, total, false).more,
{
}

/// A paste goes on exactly while targets are left and none has failed.
pub proof fn pastes_go_on_until_a_failure(job: PasteJob)
    ensures
        job.progress().completed == job.completed,
        job.failed ==> !job.progress().more,
        !job.failed ==> (job.progress().more <==> job.completed < job.targets@.len()),
{
}

/// What is told of a copy and of a cut differs in its first word alone, and tells the count.
pub proof fn requests_are_told_with_their_count(count: nat)
    ensures
        clipboard_text(ClipboardKind::Copy, count).take(7) == "Copied "@,
        clipboard_text(ClipboardKind::Cut, count).take(4) == "Cut "@,
        clipboard_text(ClipboardKind::Copy, count).skip(7) == decimal(count) + " path(s)"@,
        clipboard_text(ClipboardKind::Cut, count).skip(4) == clipboard_text(
            ClipboardKind::Copy,
            count,
        ).skip(7),
{
    reveal_strlit("Copied ");
    reveal_strlit("Cut ");
    assert(clipboard_text(ClipboardKind::Copy, count).take(7) =~= "Copied "@);
    assert(clipboard_text(ClipboardKind::Cut, count).take(4) =~= "Cut "@);
    assert(clipboard_text(ClipboardKind::Copy, count).skip(7) =~= decimal(count) + " path(s)"@);
    assert(clipboard_text(ClipboardKind::Cut, count).skip(4) =~= decimal(count) + " path(s)"@);
}

/// The end of a paste is told with the count of what was done; the error only where it was stopped,
/// and there it stands at the end.
pub proof fn pastes_are_told_with_their_count(n: usize, error: Seq<char>, other: Seq<char>)
    ensures
        paste_text(PasteEnd::Pasted(n), error) == "Pasted "@ + decimal(n as nat) + " item(s)"@,
        paste_text(PasteEnd::Pasted(n), error) == paste_text(PasteEnd::Pasted(n), other),
        paste_text(PasteEnd::Stopped(n), error) == paste_text(PasteEnd::Stopped(n), Seq::empty())
            + error,
        paste_text(PasteEnd::Stopped(n), Seq::empty()) == "File operation stopped after "@ + decimal(
            n as nat,
        ) + " item(s): "@,
{
    assert(paste_text(PasteEnd::Stopped(n), Seq::empty()) =~= "File operation stopped after "@
        + decimal(n as nat) + " item(s): "@);
}

} // verus!
