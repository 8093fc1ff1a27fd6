//! Work on the disk that is done item by item and ends with the first failure.

use vstd::prelude::*;

verus! {

/// How far some work has come.
pub struct Progress {
    /// How many items have been dealt with.
    pub completed: nat,
    /// The work goes on, with the item behind those.
    pub more: bool,
}

/// Work on `total` items of which none has been dealt with.
pub open spec fn begun(total: nat) -> Progress {
    Progress { completed: 0, more: total > 0 }
}

/// The work after the outcome of its next item: it goes on after a success, as long as there are
/// items.
pub open spec fn progressed(progress: Progress, total: nat, succeeded: bool) -> Progress {
    let completed = if succeeded {
        progress.completed + 1
    } else {
        progress.completed
    };
    Progress { completed, more: succeeded && completed < total }
}

/// The work after the given outcomes, one after the other, as long as it goes on.
pub open spec fn after_outcomes(total: nat, outcomes: Seq<bool>) -> Progress
    decreases outcomes.len(),
{
    if outcomes.len() == 0 {
        begun(total)
    } else {
        let before = after_outcomes(total, outcomes.drop_last());
        if before.more {
            progressed(before, total, outcomes.last())
        } else {
            before
        }
    }
}

/// The items are dealt with in turn up to the first failure: those before it are, and nothing after
/// it is touched.
pub proof fn work_ends_with_the_first_failure(total: nat, outcomes: Seq<bool>)
    ensures
        ({
            let end = after_outcomes(total, outcomes);
            &&& end.completed <= total && end.completed <= outcomes.len()
            &&& forall|i: int| 0 <= i < end.completed ==> #[trigger] outcomes[i]
            &&& end.more <==> end.completed == outcomes.len() && end.completed < total
            &&& !end.more ==> end.completed == total || !outcomes[end.completed as int]
        }),
    decreases outcomes.len(),
{
    if outcomes.len() > 0 {
        let rest = outcomes.drop_last();
        work_ends_with_the_first_failure(total, rest);
        let before = after_outcomes(total, rest);
        assert forall|i: int| 0 <= i < before.completed implies #[trigger] outcomes[i] by {
            assert(rest[i]);
        }
    }
}

} // verus!
