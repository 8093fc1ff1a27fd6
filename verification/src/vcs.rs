//! Version-control metadata of files, and the providers that are asked for it.

use vstd::prelude::*;

use crate::collections::{copy_paths, lemma_push, path_views};
use crate::path::{Part, TreePath};

verus! {

/// A changed file.
#[derive(Debug, PartialEq, Eq)]
pub enum FileChange {
    Untracked { path: TreePath },
    Modified { path: TreePath },
    Conflict { path: TreePath },
    Deleted { path: TreePath },
    Renamed { from_path: TreePath, to_path: TreePath },
}

/// The mathematical value of a [`FileChange`].
pub enum ChangeView {
    Untracked(Seq<Part>),
    Modified(Seq<Part>),
    Conflict(Seq<Part>),
    Deleted(Seq<Part>),
    Renamed(Seq<Part>, Seq<Part>),
}

impl View for FileChange {
    type V = ChangeView;

    open spec fn view(&self) -> ChangeView {
        match self {
            FileChange::Untracked { path } => ChangeView::Untracked(path@),
            FileChange::Modified { path } => ChangeView::Modified(path@),
            FileChange::Conflict { path } => ChangeView::Conflict(path@),
            FileChange::Deleted { path } => ChangeView::Deleted(path@),
            FileChange::Renamed { from_path, to_path } => ChangeView::Renamed(from_path@, to_path@),
        }
    }
}

/// Version-control metadata resolved for one file at one consistent repository operation.
#[derive(Debug, PartialEq, Eq)]
pub struct FileInfo {
    /// Parent content used as the document diff base, when a single parent exists.
    pub diff_base: Option<Vec<u8>>,
    /// Short, stable label for the working-copy change.
    pub head_name: Option<String>,
}

/// The mathematical value of a [`FileInfo`].
pub struct InfoView {
    pub diff_base: Option<Seq<u8>>,
    pub head_name: Option<Seq<char>>,
}

impl View for FileInfo {
    type V = InfoView;

    open spec fn view(&self) -> InfoView {
        InfoView {
            diff_base: match self.diff_base {
                Some(bytes) => Some(bytes@),
                None => None,
            },
            head_name: match self.head_name {
                Some(text) => Some(text@),
                None => None,
            },
        }
    }
}

impl Default for FileInfo {
    fn default() -> (r: Self)
        ensures
            r == (FileInfo { diff_base: None, head_name: None }),
    {
        FileInfo { diff_base: None, head_name: None }
    }
}

/// Why a provider gave no answer.
#[derive(Debug, PartialEq, Eq)]
pub enum VcsError {
    /// The provider supports nothing.
    NoDiffSupport,
    /// None of the providers succeeded.
    NoProvider,
    /// What the provider itself reported.
    Provider(String),
}

/// One of the ways to ask for version-control metadata.
#[derive(Debug, Clone, Copy, PartialEq, Eq, Structural)]
pub enum DiffProvider {
    Jj,
    Unsupported,
}

impl VcsError {
    /// What is said of the error.
    pub fn message(&self) -> (r: String)
        ensures
            r@ == match self {
                VcsError::NoDiffSupport => "No diff support compiled in"@,
                VcsError::NoProvider => "no diff provider returns success"@,
                VcsError::Provider(text) => text@,
            },
    {
        match self {
            VcsError::NoDiffSupport => "No diff support compiled in".to_owned(),
            VcsError::NoProvider => "no diff provider returns success".to_owned(),
            VcsError::Provider(text) => text.clone(),
        }
    }
}

/// `r` can be what the provider answers about a file, `jj` being the way to ask Jujutsu.
pub open spec fn answers<F: FnOnce(&TreePath) -> Result<FileInfo, VcsError>>(
    provider: DiffProvider,
    file: &TreePath,
    jj: F,
    r: Result<FileInfo, VcsError>,
) -> bool {
    match provider {
        DiffProvider::Jj => call_ensures(jj, (file,), r),
        DiffProvider::Unsupported => r == Err::<FileInfo, VcsError>(VcsError::NoDiffSupport),
    }
}

/// `r` can be how the provider ends the iteration over the changed files.
pub open spec fn iterates<F: FnOnce(&TreePath, &Vec<TreePath>) -> Result<(), VcsError>>(
    provider: DiffProvider,
    cwd: &TreePath,
    paths: &Vec<TreePath>,
    jj: F,
    r: Result<(), VcsError>,
) -> bool {
    match provider {
        DiffProvider::Jj => call_ensures(jj, (cwd, paths), r),
        DiffProvider::Unsupported => r == Err::<(), VcsError>(VcsError::NoDiffSupport),
    }
}

impl DiffProvider {
    /// Asks the provider about a file, once.
    pub fn get_file_info<F: FnOnce(&TreePath) -> Result<FileInfo, VcsError>>(
        &self,
        file: &TreePath,
        jj: F,
    ) -> (r: Result<FileInfo, VcsError>)
        requires
            *self is Jj ==> call_requires(jj, (file,)),
        ensures
            answers(*self, file, jj, r),
    {
        match self {
            DiffProvider::Jj => jj(file),
            DiffProvider::Unsupported => Err(VcsError::NoDiffSupport),
        }
    }

    /// Lets the provider iterate over the changed files, once.
    pub fn for_each_changed_file<F: FnOnce(&TreePath, &Vec<TreePath>) -> Result<(), VcsError>>(
        &self,
        cwd: &TreePath,
        paths: &Vec<TreePath>,
        jj: F,
    ) -> (r: Result<(), VcsError>)
        requires
            *self is Jj ==> call_requires(jj, (cwd, paths)),
        ensures
            iterates(*self, cwd, paths, jj, r),
    {
        match self {
            DiffProvider::Jj => jj(cwd, paths),
            DiffProvider::Unsupported => Err(VcsError::NoDiffSupport),
        }
    }
}

/// An iteration over the changed files, as its listener steers it: it goes on until the listener
/// asks for no more.
#[derive(Debug, Clone, Copy, PartialEq, Eq, Structural)]
pub struct Iteration {
    /// The listener has asked for no more.
    pub stopped: bool,
}

impl Iteration {
    /// An iteration that has just begun.
    pub fn new() -> (r: Iteration)
        ensures
            !r.stopped,
    {
        Iteration { stopped: false }
    }

    /// What the listener is told of a report: everything until it has asked for no more, and nothing
    /// from then on.
    pub fn offer<T>(&self, report: T) -> (r: Option<T>)
        ensures
            r == offered(*self, report),
    {
        if self.stopped {
            None
        } else {
            Some(report)
        }
    }

    /// Takes the answer of the listener: whether it asks for more.
    pub fn answered(&mut self, more: bool)
        ensures
            *final(self) == after_answer(*old(self), more),
    {
        self.stopped = self.stopped || !more;
    }

    /// What the listener is told when the providers have come to an end: the error, where all of
    /// them failed and it has not asked for no more.
    pub fn closing(&self, result: Result<(), VcsError>) -> (r: Option<VcsError>)
        ensures
            r == match result {
                Err(e) => offered(*self, e),
                Ok(_) => None,
            },
    {
        match result {
            Err(e) => self.offer(e),
            Ok(_) => None,
        }
    }
}

/// What the listener of an iteration is told of a report.
pub open spec fn offered<T>(iteration: Iteration, report: T) -> Option<T> {
    if iteration.stopped {
        None
    } else {
        Some(report)
    }
}

/// The iteration after an answer of its listener.
pub open spec fn after_answer(iteration: Iteration, more: bool) -> Iteration {
    Iteration { stopped: iteration.stopped || !more }
}

/// The iteration after some answers of its listener, one after the other.
pub open spec fn after_answers(iteration: Iteration, answers: Seq<bool>) -> Iteration
    decreases answers.len(),
{
    if answers.len() == 0 {
        iteration
    } else {
        after_answer(after_answers(iteration, answers.drop_last()), answers.last())
    }
}

/// The iteration goes on until the listener answers that it wants no more: up to then it is told of
/// everything, and from then on of nothing, whatever there is to tell.
pub proof fn nothing_is_told_after_a_stop<T>(answers: Seq<bool>, report: T)
    ensures
        offered(after_answers(Iteration { stopped: false }, answers), report) == if answers.contains(
            false,
        ) {
            None
        } else {
            Some(report)
        },
    decreases answers.len(),
{
    if answers.len() > 0 {
        nothing_is_told_after_a_stop(answers.drop_last(), report);
        lemma_push(answers.drop_last(), answers.last());
        assert(answers =~= answers.drop_last().push(answers.last()));
    }
}

/// Contains all active diff providers.
#[derive(Debug)]
pub struct DiffProviderRegistry {
    pub providers: Vec<DiffProvider>,
}

/// The next step of asking the providers.
pub enum StepView<T> {
    /// A provider is asked.
    Ask(DiffProvider),
    /// This is the outcome.
    Done(T),
}

/// The next step when `asked` of the providers have been asked, in turn, and `last` is what the last
/// of them answered, where it succeeded. A success is the outcome; `otherwise` is the outcome where
/// all of them fail.
pub open spec fn next_step<T>(
    providers: Seq<DiffProvider>,
    asked: nat,
    last: Option<T>,
    otherwise: T,
) -> StepView<T> {
    match last {
        Some(answer) => StepView::Done(answer),
        None => if asked < providers.len() {
            StepView::Ask(providers[asked as int])
        } else {
            StepView::Done(otherwise)
        },
    }
}

/// Asks the providers as the steps say, from some step on: the positions of those that are asked,
/// and the outcome. `answers` holds what each of them would answer, where it would succeed.
pub open spec fn inquiry<T>(
    providers: Seq<DiffProvider>,
    answers: Seq<Option<T>>,
    asked: nat,
    last: Option<T>,
    otherwise: T,
) -> (Seq<int>, T)
    decreases providers.len() - asked,
{
    match next_step(providers, asked, last, otherwise) {
        StepView::Done(outcome) => (Seq::empty(), outcome),
        StepView::Ask(_) => {
            let rest = inquiry(providers, answers, asked + 1, answers[asked as int], otherwise);
            (seq![asked as int] + rest.0, rest.1)
        },
    }
}

/// Every provider is asked at most once, in turn, and none after the first that succeeds: what that
/// one answers is the outcome. Where all of them have been asked in vain, the outcome says so.
pub proof fn providers_are_asked_once<T>(
    providers: Seq<DiffProvider>,
    answers: Seq<Option<T>>,
    otherwise: T,
)
    requires
        answers.len() == providers.len(),
    ensures
        ({
            let (order, outcome) = inquiry(providers, answers, 0, None, otherwise);
            &&& order.len() <= providers.len()
            &&& forall|i: int| 0 <= i < order.len() ==> #[trigger] order[i] == i
            &&& forall|i: int| 0 <= i < order.len() - 1 ==> #[trigger] answers[i] is None
            &&& if order.len() > 0 && answers[order.len() - 1] is Some {
                answers[order.len() - 1] == Some(outcome)
            } else {
                order.len() == providers.len() && outcome == otherwise
            }
        }),
{
    lemma_inquiry(providers, answers, 0, otherwise);
}

proof fn lemma_inquiry<T>(
    providers: Seq<DiffProvider>,
    answers: Seq<Option<T>>,
    asked: nat,
    otherwise: T,
)
    requires
        answers.len() == providers.len(),
        asked <= providers.len(),
    ensures
        ({
            let (order, outcome) = inquiry(providers, answers, asked, None, otherwise);
            let n = asked + order.len();
            &&& n <= providers.len()
            &&& forall|i: int| 0 <= i < order.len() ==> #[trigger] order[i] == asked + i
            &&& forall|i: int| asked <= i < n - 1 ==> #[trigger] answers[i] is None
            &&& if n > asked && answers[n - 1] is Some {
                answers[n - 1] == Some(outcome)
            } else {
                n == providers.len() && outcome == otherwise
            }
        }),
    decreases providers.len() - asked,
{
    reveal_with_fuel(inquiry, 2);
    if asked < providers.len() {
        let answer = answers[asked as int];
        if answer is None {
            lemma_inquiry(providers, answers, asked + 1, otherwise);
            let rest = inquiry(providers, answers, asked + 1, None, otherwise);
            let order = inquiry(providers, answers, asked, None, otherwise).0;
            assert forall|i: int| 0 <= i < order.len() implies #[trigger] order[i] == asked + i by {
                if i > 0 {
                    assert(order[i] == rest.0[i - 1]);
                }
            }
        }
    }
}

/// The next step of asking about a file.
#[derive(Debug, PartialEq, Eq)]
pub enum FileInquiry {
    /// This provider is asked.
    Ask(DiffProvider),
    /// This is what is known of the file.
    Done(FileInfo),
}

/// The next step of iterating over the changed files.
#[derive(Debug, PartialEq, Eq)]
pub enum ChangeInquiry {
    /// This provider iterates over the changed files under the paths, or over those of the workspace
    /// where there are none.
    Ask { provider: DiffProvider, paths: Vec<TreePath> },
    /// This is how the iteration ends.
    Done(Result<(), VcsError>),
}

/// Nothing is known of a file.
pub open spec fn nothing_known() -> InfoView {
    InfoView { diff_base: None, head_name: None }
}

/// What the last provider answered, by value, where it succeeded.
pub open spec fn answer_view(answer: Option<FileInfo>) -> Option<InfoView> {
    match answer {
        Some(info) => Some(info@),
        None => None,
    }
}

/// How an iteration ends with a provider that succeeded.
pub open spec fn success(succeeded: bool) -> Option<Result<(), VcsError>> {
    if succeeded {
        Some(Ok(()))
    } else {
        None
    }
}

/// The step by value, with the paths that it names.
pub open spec fn change_step(
    providers: Seq<DiffProvider>,
    paths: Seq<Seq<Part>>,
    asked: nat,
    succeeded: bool,
    r: ChangeInquiry,
) -> bool {
    match next_step(
        providers,
        asked,
        success(succeeded),
        Err::<(), VcsError>(VcsError::NoProvider),
    ) {
        StepView::Ask(provider) => r matches ChangeInquiry::Ask { provider: p, paths: under } && p
            == provider && path_views(under@) == paths,
        StepView::Done(outcome) => r == ChangeInquiry::Done(outcome),
    }
}

impl DiffProviderRegistry {
    /// Resolve all VCS metadata for a file in one operation-consistent lookup: the next step when
    /// `asked` of the providers have been asked, in turn, and `answer` is what the last of them
    /// answered, where it succeeded.
    pub fn get_file_info(&self, asked: usize, answer: Option<FileInfo>) -> (r: FileInquiry)
        ensures
            match next_step(self.providers@, asked as nat, answer_view(answer), nothing_known()) {
                StepView::Ask(provider) => r == FileInquiry::Ask(provider),
                StepView::Done(info) => r matches FileInquiry::Done(known) && known@ == info,
            },
    {
        match answer {
            Some(info) => FileInquiry::Done(info),
            None => {
                if asked < self.providers.len() {
                    FileInquiry::Ask(self.providers[asked])
                } else {
                    FileInquiry::Done(FileInfo::default())
                }
            },
        }
    }

    /// Iterate the changed files of the workspace: the next step when `asked` of the providers have
    /// been asked, in turn, and `succeeded` tells whether the last of them succeeded.
    pub fn for_each_changed_file(&self, asked: usize, succeeded: bool) -> (r: ChangeInquiry)
        ensures
            change_step(self.providers@, Seq::empty(), asked as nat, succeeded, r),
    {
        let paths: Vec<TreePath> = Vec::new();
        assert(path_views(paths@) =~= Seq::empty());
        self.for_each_changed_file_in(&paths, asked, succeeded)
    }

    /// Iterate changed files under the supplied paths. An empty path list queries the workspace. The
    /// next step when `asked` of the providers have been asked, in turn, and `succeeded` tells
    /// whether the last of them succeeded.
    pub fn for_each_changed_file_in(
        &self,
        paths: &Vec<TreePath>,
        asked: usize,
        succeeded: bool,
    ) -> (r: ChangeInquiry)
        ensures
            change_step(self.providers@, path_views(paths@), asked as nat, succeeded, r),
    {
        if succeeded {
            ChangeInquiry::Done(Ok(()))
        } else if asked < self.providers.len() {
            ChangeInquiry::Ask { provider: self.providers[asked], paths: copy_paths(paths) }
        } else {
            ChangeInquiry::Done(Err(VcsError::NoProvider))
        }
    }
}

/// With the default providers, what is known of a file is what Jujutsu answered; where Jujutsu
/// failed, nothing is known of it.
pub proof fn default_registry_asks_jj(providers: Seq<DiffProvider>, jj: Option<InfoView>)
    requires
        providers == seq![DiffProvider::Jj, DiffProvider::Unsupported],
    ensures
        inquiry(providers, seq![jj, None], 0, None, nothing_known()).1 == match jj {
            Some(info) => info,
            None => nothing_known(),
        },
{
    reveal_with_fuel(inquiry, 3);
}

impl Clone for DiffProviderRegistry {
    fn clone(&self) -> (r: Self)
        ensures
            r.providers@ == self.providers@,
    {
        let mut providers: Vec<DiffProvider> = Vec::new();
        let mut i: usize = 0;
        while i < self.providers.len()
            invariant
                i <= self.providers.len(),
                providers@ == self.providers@.take(i as int),
            decreases self.providers.len() - i,
        {
            providers.push(self.providers[i]);
            i = i + 1;
            assert(providers@ =~= self.providers@.take(i as int));
        }
        assert(providers@ =~= self.providers@);
        DiffProviderRegistry { providers }
    }
}

impl Default for DiffProviderRegistry {
    fn default() -> (r: Self)
        ensures
            r.providers@ == seq![DiffProvider::Jj, DiffProvider::Unsupported],
    {
        let mut providers: Vec<DiffProvider> = Vec::new();
        providers.push(DiffProvider::Jj);
        providers.push(DiffProvider::Unsupported);
        assert(providers@ =~= seq![DiffProvider::Jj, DiffProvider::Unsupported]);
        DiffProviderRegistry { providers }
    }
}

} // verus!
