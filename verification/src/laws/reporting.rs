//! What each line of a report on changed files tells.

use crate::jj::{
    change_of, report_of, report_view, reports_of, ChangedLine, ChangedPath, LineError, ReportView,
};
use crate::path::{joined, Part};
use crate::vcs::{ChangeView, FileChange};
use vstd::prelude::*;

verus! {

proof fn lemma_words()
    ensures
        "added"@ != "modified"@,
        "added"@ != "removed"@,
        "added"@ != "copied"@,
        "added"@ != "renamed"@,
        "modified"@ != "removed"@,
        "modified"@ != "copied"@,
        "modified"@ != "renamed"@,
        "removed"@ != "copied"@,
        "removed"@ != "renamed"@,
        "copied"@ != "renamed"@,
        "conflict"@ != "tree"@,
        "conflict"@ != "git-submodule"@,
        "tree"@ != "git-submodule"@,
{
    reveal_strlit("added");
    reveal_strlit("modified");
    reveal_strlit("removed");
    reveal_strlit("copied");
    reveal_strlit("renamed");
    reveal_strlit("conflict");
    reveal_strlit("tree");
    reveal_strlit("git-submodule");
    assert("removed"@[2] != "renamed"@[2]);
    assert("added"@.len() == 5);
    assert("modified"@.len() == 8);
    assert("removed"@.len() == 7);
    assert("copied"@.len() == 6);
    assert("renamed"@.len() == 7);
    assert("conflict"@.len() == 8);
    assert("tree"@.len() == 4);
    assert("git-submodule"@.len() == 13);
}

/// A reported change is a conflict exactly if its status is "modified" and the type of its target
/// is "conflict".
pub proof fn conflicts_are_modified_into_a_conflict(repository: Seq<Part>, changed: ChangedLine)
    ensures
        report_of(repository, changed) is Some && report_of(repository, changed)->0 is Change
            && report_of(repository, changed)->0->Change_0 is Conflict <==> {
            &&& changed.line.len() > 0
            &&& changed.record is Some
            &&& changed.record->0.status@ == "modified"@
            &&& changed.record->0.target_type@ == "conflict"@
        },
{
    lemma_words();
}

/// What a change is told as does not depend on the type of its source. Only whether a submodule is
/// told at all does: two changes that differ in that type alone and are both told are told alike.
pub proof fn the_source_type_does_not_count(
    repository: Seq<Part>,
    a: ChangedPath,
    b: ChangedPath,
    first: ChangedLine,
    second: ChangedLine,
)
    requires
        a.path@ == b.path@,
        a.status@ == b.status@,
        a.source_path@ == b.source_path@,
        a.target_type@ == b.target_type@,
        first.line.len() > 0,
        second.line.len() > 0,
        first.record == Some(a),
        second.record == Some(b),
    ensures
        change_of(repository, a) == change_of(repository, b),
        a.target_type@ != "git-submodule"@ ==> report_of(repository, first) == report_of(
            repository,
            second,
        ),
        report_of(repository, first) is Some && report_of(repository, second) is Some ==> report_of(
            repository,
            first,
        ) == report_of(repository, second),
{
}

/// Each status tells one kind of change at the path it names, under the repository: "added" an
/// untracked file, "removed" a deletion, "copied" and "renamed" a rename from the path of the
/// source, and "modified" a modification unless it is a conflict. No other status tells a change.
pub proof fn each_status_tells_one_change(repository: Seq<Part>, change: ChangedPath)
    ensures
        ({
            let path = joined(repository, change.path@);
            let told = change_of(repository, change);
            &&& change.status@ == "added"@ <==> told == Some(ChangeView::Untracked(path))
            &&& change.status@ == "removed"@ <==> told == Some(ChangeView::Deleted(path))
            &&& change.status@ == "modified"@ && change.target_type@ != "conflict"@ <==> told
                == Some(ChangeView::Modified(path))
            &&& change.status@ == "modified"@ && change.target_type@ == "conflict"@ <==> told
                == Some(ChangeView::Conflict(path))
            &&& change.status@ == "copied"@ || change.status@ == "renamed"@ <==> told == Some(
                ChangeView::Renamed(joined(repository, change.source_path@), path),
            )
            &&& told is None <==> change.status@ != "added"@ && change.status@ != "removed"@
                && change.status@ != "modified"@ && change.status@ != "copied"@ && change.status@
                != "renamed"@
        }),
{
    lemma_words();
}

/// A line tells nothing if it is empty. One that is no record is told as such, and so is one with a
/// status that is not known. Of the others, those whose target is a tree tell nothing, and those
/// whose target is a submodule do so only where there was no source; the rest tell their change.
pub proof fn each_line_tells_one_thing(repository: Seq<Part>, changed: ChangedLine)
    ensures
        changed.line.len() == 0 ==> report_of(repository, changed) is None,
        changed.line.len() > 0 && changed.record is None ==> report_of(repository, changed) == Some(
            ReportView::Unparsed,
        ),
        changed.line.len() > 0 && changed.record is Some ==> {
            let change = changed.record->0;
            let told = change_of(repository, change);
            let report = report_of(repository, changed);
            &&& told is None ==> report == Some(ReportView::Unsupported(change.status@))
            &&& told is Some && change.target_type@ == "tree"@ ==> report is None
            &&& told is Some && change.target_type@ == "git-submodule"@ && change.source_type@.len()
                > 0 ==> report is None
            &&& told is Some && change.target_type@ == "git-submodule"@ && change.source_type@.len()
                == 0 ==> report == Some(ReportView::Change(told->0))
            &&& told is Some && change.target_type@ != "tree"@ && change.target_type@
                != "git-submodule"@ ==> report == Some(ReportView::Change(told->0))
        },
{
    lemma_words();
    reveal_strlit("");
    if changed.record is Some {
        let source = changed.record->0.source_type@;
        if source.len() == 0 {
            assert(source =~= ""@);
        }
    }
}

/// A report on lines is the reports on each of them, one behind the other.
pub proof fn lines_are_told_in_turn(
    repository: Seq<Part>,
    lines: Seq<ChangedLine>,
    more: Seq<ChangedLine>,
    line: ChangedLine,
)
    ensures
        reports_of(repository, lines + more) == reports_of(repository, lines) + reports_of(
            repository,
            more,
        ),
        report_of(repository, line) is None ==> reports_of(repository, seq![line]).len() == 0,
        report_of(repository, line) is Some ==> reports_of(repository, seq![line]) == seq![
            report_of(repository, line)->0,
        ],
    decreases more.len(),
{
    assert(seq![line].drop_last() =~= Seq::<ChangedLine>::empty());
    reveal_with_fuel(reports_of, 2);
    if report_of(repository, line) is Some {
        assert(reports_of(repository, seq![line]) =~= seq![report_of(repository, line)->0]);
    }
    if more.len() == 0 {
        assert(lines + more =~= lines);
        assert(reports_of(repository, lines) =~= reports_of(repository, lines) + reports_of(
            repository,
            more,
        ));
    } else {
        lines_are_told_in_turn(repository, lines, more.drop_last(), line);
        assert((lines + more).drop_last() =~= lines + more.drop_last());
        assert((lines + more).last() == more.last());
        assert(reports_of(repository, lines + more) =~= reports_of(repository, lines) + reports_of(
            repository,
            more,
        ));
    }
}

/// A report is read as what it is.
pub proof fn reports_are_read_as_they_are(change: FileChange, status: String)
    ensures
        report_view(Ok(change)) == ReportView::Change(change@),
        report_view(Err(LineError::Unparsed)) == ReportView::Unparsed,
        report_view(Err(LineError::Unsupported(status))) == ReportView::Unsupported(status@),
        match change {
            FileChange::Untracked { path } => change@ == ChangeView::Untracked(path@),
            FileChange::Modified { path } => change@ == ChangeView::Modified(path@),
            FileChange::Conflict { path } => change@ == ChangeView::Conflict(path@),
            FileChange::Deleted { path } => change@ == ChangeView::Deleted(path@),
            FileChange::Renamed { from_path, to_path } => change@ == ChangeView::Renamed(
                from_path@,
                to_path@,
            ),
        },
{
}

} // verus!
