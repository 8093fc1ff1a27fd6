//! What an answer to a prompt takes, what is at risk, and what the disk tells of it.

use crate::path::Part;
use crate::prompts::{
    after_deletions, answered, delete_text, disk_changed, endangered_count, OpenDocument,
};
use crate::text::{decimal, failure_at};
use crate::tree::TreeView;
use vstd::prelude::*;

verus! {

/// An answer counts exactly if it was validated and is not empty.
pub proof fn only_validated_answers_count(input: Seq<char>)
    ensures
        !answered(false, input),
        answered(true, input) <==> input != Seq::<char>::empty(),
{
    if input.len() == 0 {
        assert(input =~= Seq::<char>::empty());
    }
}

/// A change of the disk asks for a refresh, and nothing else of the tree changes. One that failed
/// changes nothing, so a refresh that was asked for before stays asked for.
pub proof fn changes_of_the_disk_ask_for_a_refresh(tree: TreeView)
    ensures
        disk_changed(tree, true).dirty,
        disk_changed(tree, true) == (TreeView { dirty: true, ..tree }),
        disk_changed(tree, false) == tree,
{
}

/// The documents at risk are counted one by one. A document counts exactly if it is modified and
/// its path is one of the paths or begins with one of them.
pub proof fn modified_documents_are_at_risk(
    documents: Seq<OpenDocument>,
    more: Seq<OpenDocument>,
    document: OpenDocument,
    paths: Seq<Seq<Part>>,
)
    ensures
        endangered_count(documents + more, paths) == endangered_count(documents, paths)
            + endangered_count(more, paths),
        endangered_count(seq![document], paths) <= 1,
        endangered_count(seq![document], paths) == 1 <==> document.modified && document.path is Some
            && exists|i: int|
            0 <= i < paths.len() && (#[trigger] paths[i]).len() <= document.path->0@.len()
                && paths[i] == document.path->0@.take(paths[i].len() as int),
    decreases more.len(),
{
    assert(seq![document].drop_last() =~= Seq::<OpenDocument>::empty());
    reveal_with_fuel(endangered_count, 2);
    if document.path is Some {
        let path = document.path->0@;
        assert forall|i: int| 0 <= i < paths.len() implies (crate::path::under(
            path,
            #[trigger] paths[i],
        ) <==> paths[i].len() <= path.len() && paths[i] == path.take(paths[i].len() as int)) by {
            if crate::path::under(path, paths[i]) {
                assert(paths[i] =~= path.take(paths[i].len() as int));
            }
        }
    }
    if more.len() == 0 {
        assert(documents + more =~= documents);
    } else {
        modified_documents_are_at_risk(documents, more.drop_last(), document, paths);
        assert((documents + more).drop_last() =~= documents + more.drop_last());
        assert((documents + more).last() == more.last());
    }
}

/// A deletion is asked about with the count of its paths. Modified documents are mentioned only if
/// there are any, and with their count.
pub proof fn deletions_are_asked_about_with_their_counts(paths: nat, modified: nat)
    requires
        modified > 0,
    ensures
        delete_text(paths, 0) == "Permanently delete "@ + decimal(paths) + " path(s)? Type yes: "@,
        delete_text(paths, modified) == "Permanently delete "@ + decimal(paths) + " path(s) ("@
            + decimal(modified) + " modified buffer(s))? Type yes: "@,
{
    reveal_strlit(" path(s)");
    reveal_strlit("? Type yes: ");
    reveal_strlit(" path(s)? Type yes: ");
    reveal_strlit(" (");
    reveal_strlit(" path(s) (");
    reveal_strlit(" modified buffer(s))");
    reveal_strlit(" modified buffer(s))? Type yes: ");
    assert(" path(s)"@ + Seq::<char>::empty() + "? Type yes: "@ =~= " path(s)? Type yes: "@);
    assert(delete_text(paths, 0) =~= "Permanently delete "@ + decimal(paths) + (" path(s)"@ + Seq::<
        char,
    >::empty() + "? Type yes: "@));
    assert(" path(s)"@ + " ("@ =~= " path(s) ("@);
    assert(" modified buffer(s))"@ + "? Type yes: "@ =~= " modified buffer(s))? Type yes: "@);
    assert(delete_text(paths, modified) =~= "Permanently delete "@ + decimal(paths) + (" path(s)"@
        + " ("@) + decimal(modified) + (" modified buffer(s))"@ + "? Type yes: "@));
}

/// A failure names what was tried, the path and the error, with a colon and a blank before the
/// error.
pub proof fn failures_name_path_and_error(what: Seq<char>, path: Seq<char>, error: Seq<char>)
    ensures
        failure_at(what, path, error).len() == what.len() + path.len() + 2 + error.len(),
        failure_at(what, path, error).take(what.len() as int) == what,
        failure_at(what, path, error).subrange(
            what.len() as int,
            (what.len() + path.len()) as int,
        ) == path,
        failure_at(what, path, error)[(what.len() + path.len()) as int] == ':',
        failure_at(what, path, error)[(what.len() + path.len() + 1) as int] == ' ',
        failure_at(what, path, error).skip((what.len() + path.len() + 2) as int) == error,
{
    reveal_strlit(": ");
    let text = failure_at(what, path, error);
    assert(text.take(what.len() as int) =~= what);
    assert(text.subrange(what.len() as int, (what.len() + path.len()) as int) =~= path);
    assert(text.skip((what.len() + path.len() + 2) as int) =~= error);
}

/// Deleting goes through the paths in turn and ends at the first failure: as many paths are done as
/// succeeded before it, and the tree asks for a refresh as soon as one was deleted. Nothing else of
/// the tree changes.
pub proof fn deletions_go_path_by_path(tree: TreeView, total: nat, outcomes: Seq<bool>, n: nat)
    requires
        n <= outcomes.len(),
        n <= total,
        forall|i: int| 0 <= i < n ==> #[trigger] outcomes[i],
        n == total || n == outcomes.len() || !outcomes[n as int],
    ensures
        after_deletions(tree, total, outcomes).progress.completed == n,
        after_deletions(tree, total, outcomes).progress.more <==> n < total && n
            == outcomes.len(),
        after_deletions(tree, total, outcomes).tree == (TreeView {
            dirty: tree.dirty || n > 0,
            ..tree
        }),
    decreases outcomes.len(),
{
    if outcomes.len() > 0 {
        let before = outcomes.drop_last();
        if n == outcomes.len() {
            deletions_go_path_by_path(tree, total, before, (n - 1) as nat);
            assert(outcomes[n - 1]);
        } else {
            deletions_go_path_by_path(tree, total, before, n);
        }
    }
}

} // verus!
