//! Which provider is asked next, what is done with its answer, and when an iteration ends.

use crate::collections::path_views;
use crate::path::{Part, TreePath};
use crate::vcs::{
    after_answer, after_answers, answers, change_step, iterates, next_step, nothing_known, offered,
    ChangeInquiry, DiffProvider, FileInfo, Iteration, StepView, VcsError,
};
use vstd::prelude::*;

verus! {

/// An answer ends the inquiry, whatever providers are left. Without one the next provider is asked,
/// the first to begin with, and once there is none left the outcome is what was said beforehand.
pub proof fn the_next_provider_is_asked_without_an_answer<T>(
    providers: Seq<DiffProvider>,
    asked: nat,
    answer: T,
    otherwise: T,
)
    ensures
        next_step(providers, asked, Some(answer), otherwise) == StepView::Done(answer),
        forall|i: int|
            0 <= i < providers.len() && i == asked ==> next_step(providers, asked, None, otherwise)
                == StepView::<T>::Ask(#[trigger] providers[i]),
        providers.len() <= asked ==> next_step(providers, asked, None, otherwise) == StepView::Done(
            otherwise,
        ),
        nothing_known().diff_base is None,
        nothing_known().head_name is None,
{
}

/// A provider that succeeds ends the iteration well. Otherwise the next one is asked about the very
/// paths that were given, and where none is left the end is told as an error.
pub proof fn changes_are_asked_of_each_provider(
    providers: Seq<DiffProvider>,
    paths: Seq<Seq<Part>>,
    asked: nat,
    succeeded: bool,
    r: ChangeInquiry,
)
    requires
        change_step(providers, paths, asked, succeeded, r),
    ensures
        succeeded ==> r == ChangeInquiry::Done(Ok(())),
        !succeeded && asked < providers.len() ==> {
            &&& r is Ask
            &&& r->provider == providers[asked as int]
            &&& path_views(r->paths@) == paths
        },
        !succeeded && providers.len() <= asked ==> r == ChangeInquiry::Done(
            Err(VcsError::NoProvider),
        ),
{
}

/// A listener that wants no more has no more offered, and cannot be brought back. As long as it
/// wants more, each report is offered as it is.
pub proof fn a_stop_is_final<T>(iteration: Iteration, more: bool, report: T)
    ensures
        iteration.stopped ==> offered(iteration, report) is None,
        !iteration.stopped ==> offered(iteration, report) == Some(report),
        after_answer(iteration, more).stopped <==> iteration.stopped || more == false,
{
}

/// After any run of answers the iteration is stopped exactly if it was, or one of them was no.
pub proof fn one_no_is_enough(iteration: Iteration, answers: Seq<bool>)
    ensures
        after_answers(iteration, answers).stopped <==> iteration.stopped || exists|i: int|
            0 <= i < answers.len() && !(#[trigger] answers[i]),
    decreases answers.len(),
{
    if answers.len() > 0 {
        let before = answers.drop_last();
        one_no_is_enough(iteration, before);
        assert forall|i: int| 0 <= i < before.len() implies #[trigger] before[i] == answers[i] by {}
        if exists|i: int| 0 <= i < before.len() && !(#[trigger] before[i]) {
            let i = choose|i: int| 0 <= i < before.len() && !(#[trigger] before[i]);
            assert(!answers[i]);
        }
        if !answers.last() {
            assert(!answers[answers.len() - 1]);
        }
        if exists|i: int| 0 <= i < answers.len() && !(#[trigger] answers[i]) {
            let i = choose|i: int| 0 <= i < answers.len() && !(#[trigger] answers[i]);
            if i < before.len() {
                assert(!before[i]);
            }
        }
    }
}

/// A provider that is not supported says so, whatever it is asked; Jujutsu answers what it answers.
pub proof fn unsupported_providers_say_so<
    F: FnOnce(&TreePath) -> Result<FileInfo, VcsError>,
    G: FnOnce(&TreePath, &Vec<TreePath>) -> Result<(), VcsError>,
>(
    file: &TreePath,
    paths: &Vec<TreePath>,
    known: F,
    changed: G,
    info: Result<FileInfo, VcsError>,
    end: Result<(), VcsError>,
)
    ensures
        answers(DiffProvider::Unsupported, file, known, info) <==> info == Err::<FileInfo, VcsError>(
            VcsError::NoDiffSupport,
        ),
        answers(DiffProvider::Jj, file, known, info) <==> call_ensures(known, (file,), info),
        iterates(DiffProvider::Unsupported, file, paths, changed, end) <==> end == Err::<
            (),
            VcsError,
        >(VcsError::NoDiffSupport),
        iterates(DiffProvider::Jj, file, paths, changed, end) <==> call_ensures(
            changed,
            (file, paths),
            end,
        ),
{
}

} // verus!
