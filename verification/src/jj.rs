//! Jujutsu integration through the public command-line interface.
//!
//! Read commands are pinned to an operation and explicitly ignore the working copy. This keeps
//! querying the editor UI from creating surprise snapshots.

use vstd::prelude::*;
use vstd::string::*;
use vstd::utf8::{decode_utf8, valid_utf8};

use crate::collections::{lemma_push, path_views};
use crate::path::{joined, parent_of, under, Part, TreePath};
use crate::text::{lossy, lossy_text, text_is, trim_text, trimmed, two_texts};
use crate::vcs::{ChangeView, FileChange, FileInfo, InfoView};

verus! {

/// The form in which `jj diff` reports each changed path: one record a line. `jj status` has no
/// template interface; `jj diff --template` exposes changed-path metadata through structured
/// records without rendering file hunks.
pub const STATUS_TEMPLATE: &'static str = r#""{\"path\":" ++ stringify(self.path()).escape_json() ++ ",\"status\":" ++ self.status().escape_json() ++ ",\"source_path\":" ++ stringify(self.source().path()).escape_json() ++ ",\"source_type\":" ++ self.source().file_type().escape_json() ++ ",\"target_type\":" ++ self.target().file_type().escape_json() ++ "}\n""#;

/// An argument of a command.
#[derive(Debug, PartialEq, Eq)]
pub enum Arg {
    Text(String),
    Path(TreePath),
}

/// The mathematical value of an [`Arg`].
pub enum ArgView {
    Text(Seq<char>),
    Path(Seq<Part>),
}

impl View for Arg {
    type V = ArgView;

    open spec fn view(&self) -> ArgView {
        match self {
            Arg::Text(text) => ArgView::Text(text@),
            Arg::Path(path) => ArgView::Path(path@),
        }
    }
}

/// The arguments of a command, by value.
pub open spec fn arg_views(args: Seq<Arg>) -> Seq<ArgView> {
    args.map_values(|a: Arg| a@)
}

fn push_text(args: &mut Vec<Arg>, text: &str)
    ensures
        arg_views(final(args)@) == arg_views(old(args)@).push(ArgView::Text(text@)),
{
    let ghost before = arg_views(args@);
    args.push(Arg::Text(text.to_owned()));
    assert(arg_views(args@) =~= before.push(ArgView::Text(text@)));
}

fn push_path(args: &mut Vec<Arg>, path: &TreePath)
    ensures
        arg_views(final(args)@) == arg_views(old(args)@).push(ArgView::Path(path@)),
{
    let ghost before = arg_views(args@);
    args.push(Arg::Path(path.clone()));
    assert(arg_views(args@) =~= before.push(ArgView::Path(path@)));
}

/// The arguments with which every command on a known repository starts.
pub open spec fn read_prefix(repository: Seq<Part>, operation: Seq<char>) -> Seq<ArgView> {
    seq![
        ArgView::Text("--repository"@),
        ArgView::Path(repository),
        ArgView::Text("--at-op"@),
        ArgView::Text(operation),
        ArgView::Text("--ignore-working-copy"@),
        ArgView::Text("--quiet"@),
        ArgView::Text("--no-pager"@),
        ArgView::Text("--color=never"@),
    ]
}

/// The command's repository is read at `operation`, and its working copy is ignored.
pub open spec fn pinned(args: Seq<ArgView>, operation: Seq<char>) -> bool {
    &&& args.contains(ArgView::Text("--ignore-working-copy"@))
    &&& exists|i: int|
        0 <= i < args.len() - 1 && #[trigger] args[i] == ArgView::Text("--at-op"@) && args[i + 1]
            == ArgView::Text(operation)
}

/// Whatever follows the common arguments, the command stays pinned to its operation and ignores the
/// working copy.
pub proof fn reads_are_pinned(repository: Seq<Part>, operation: Seq<char>, rest: Seq<ArgView>)
    ensures
        pinned(read_prefix(repository, operation) + rest, operation),
{
    let args = read_prefix(repository, operation) + rest;
    assert(args[4] == ArgView::Text("--ignore-working-copy"@));
    assert(args[2] == ArgView::Text("--at-op"@) && args[3] == ArgView::Text(operation));
}

/// The arguments with which every command on a known repository starts.
pub fn command(repository: &TreePath, operation: &str) -> (args: Vec<Arg>)
    ensures
        arg_views(args@) == read_prefix(repository@, operation@),
{
    let mut args: Vec<Arg> = Vec::new();
    push_text(&mut args, "--repository");
    push_path(&mut args, repository);
    push_text(&mut args, "--at-op");
    push_text(&mut args, operation);
    push_text(&mut args, "--ignore-working-copy");
    push_text(&mut args, "--quiet");
    push_text(&mut args, "--no-pager");
    push_text(&mut args, "--color=never");
    assert(arg_views(args@) =~= read_prefix(repository@, operation@));
    args
}

/// The arguments that ask for the root of the workspace. No repository is known yet, so the
/// operation is the current one.
pub open spec fn root_request() -> Seq<ArgView> {
    seq![
        ArgView::Text("--at-op=@"@),
        ArgView::Text("--ignore-working-copy"@),
        ArgView::Text("--quiet"@),
        ArgView::Text("--no-pager"@),
        ArgView::Text("--color=never"@),
        ArgView::Text("workspace"@),
        ArgView::Text("root"@),
    ]
}

/// The arguments that ask for the root of the workspace.
pub fn workspace_root_args() -> (args: Vec<Arg>)
    ensures
        arg_views(args@) == root_request(),
{
    let mut args: Vec<Arg> = Vec::new();
    push_text(&mut args, "--at-op=@");
    push_text(&mut args, "--ignore-working-copy");
    push_text(&mut args, "--quiet");
    push_text(&mut args, "--no-pager");
    push_text(&mut args, "--color=never");
    push_text(&mut args, "workspace");
    push_text(&mut args, "root");
    assert(arg_views(args@) =~= root_request());
    args
}

/// The arguments that ask for the current operation.
pub open spec fn operation_request(repository: Seq<Part>) -> Seq<ArgView> {
    read_prefix(repository, "@"@) + seq![
        ArgView::Text("op"@),
        ArgView::Text("log"@),
        ArgView::Text("--no-graph"@),
        ArgView::Text("--limit"@),
        ArgView::Text("1"@),
        ArgView::Text("--template"@),
        ArgView::Text("self.id()"@),
    ]
}

/// The arguments that ask for the current operation.
pub fn operation_args(repository: &TreePath) -> (args: Vec<Arg>)
    ensures
        arg_views(args@) == operation_request(repository@),
{
    let mut args = command(repository, "@");
    push_text(&mut args, "op");
    push_text(&mut args, "log");
    push_text(&mut args, "--no-graph");
    push_text(&mut args, "--limit");
    push_text(&mut args, "1");
    push_text(&mut args, "--template");
    push_text(&mut args, "self.id()");
    assert(arg_views(args@) =~= operation_request(repository@));
    args
}

/// The arguments that ask for the record of the working-copy change.
pub open spec fn log_request(repository: Seq<Part>, operation: Seq<char>) -> Seq<ArgView> {
    read_prefix(repository, operation) + seq![
        ArgView::Text("log"@),
        ArgView::Text("--no-graph"@),
        ArgView::Text("--revision"@),
        ArgView::Text("@"@),
        ArgView::Text("--template"@),
        ArgView::Text("json(self)"@),
    ]
}

/// The arguments that ask for the record of the working-copy change.
pub fn log_args(repository: &TreePath, operation: &str) -> (args: Vec<Arg>)
    ensures
        arg_views(args@) == log_request(repository@, operation@),
{
    let mut args = command(repository, operation);
    push_text(&mut args, "log");
    push_text(&mut args, "--no-graph");
    push_text(&mut args, "--revision");
    push_text(&mut args, "@");
    push_text(&mut args, "--template");
    push_text(&mut args, "json(self)");
    assert(arg_views(args@) =~= log_request(repository@, operation@));
    args
}

/// The arguments that ask about one file in a revision.
pub open spec fn file_request(
    verb: Seq<char>,
    repository: Seq<Part>,
    operation: Seq<char>,
    revision: Seq<char>,
    path: Seq<Part>,
) -> Seq<ArgView> {
    read_prefix(repository, operation) + seq![
        ArgView::Text("file"@),
        ArgView::Text(verb),
        ArgView::Text("--revision"@),
        ArgView::Text(revision),
        ArgView::Text("--"@),
        ArgView::Path(path),
    ]
}

/// The arguments that ask about one file in a revision.
pub fn file_args(
    verb: &str,
    repository: &TreePath,
    operation: &str,
    revision: &str,
    path: &TreePath,
) -> (args: Vec<Arg>)
    ensures
        arg_views(args@) == file_request(verb@, repository@, operation@, revision@, path@),
{
    let mut args = command(repository, operation);
    push_text(&mut args, "file");
    push_text(&mut args, verb);
    push_text(&mut args, "--revision");
    push_text(&mut args, revision);
    push_text(&mut args, "--");
    push_path(&mut args, path);
    assert(arg_views(args@) =~= file_request(verb@, repository@, operation@, revision@, path@));
    args
}

/// The paths that lie in the repository, as seen from its root.
pub open spec fn paths_within(repository: Seq<Part>, paths: Seq<Seq<Part>>) -> Seq<ArgView>
    decreases paths.len(),
{
    if paths.len() == 0 {
        Seq::empty()
    } else {
        let before = paths_within(repository, paths.drop_last());
        if under(paths.last(), repository) {
            before.push(ArgView::Path(paths.last().skip(repository.len() as int)))
        } else {
            before
        }
    }
}

/// The arguments that ask for the changed files below some paths of the repository, or of the whole
/// workspace where no path is given.
pub open spec fn diff_request(repository: Seq<Part>, paths: Seq<Seq<Part>>) -> Seq<ArgView> {
    let query = read_prefix(repository, "@"@) + seq![
        ArgView::Text("diff"@),
        ArgView::Text("--revision"@),
        ArgView::Text("@"@),
        ArgView::Text("--template"@),
        ArgView::Text(STATUS_TEMPLATE@),
    ];
    if paths.len() == 0 {
        query
    } else {
        query.push(ArgView::Text("--"@)) + paths_within(repository, paths)
    }
}

/// The arguments that ask for the changed files. Where paths are given and none of them lies in the
/// repository, there is nothing to ask for: a request without a path would be one for the whole
/// workspace.
pub fn diff_args(repository: &TreePath, paths: &Vec<TreePath>) -> (r: Option<Vec<Arg>>)
    ensures
        match r {
            Some(args) => (paths.len() == 0 || paths_within(
                repository@,
                path_views(paths@),
            ).len() > 0) && arg_views(args@) == diff_request(repository@, path_views(paths@)),
            None => paths.len() > 0 && paths_within(repository@, path_views(paths@)).len() == 0,
        },
{
    let mut args = command(repository, "@");
    push_text(&mut args, "diff");
    push_text(&mut args, "--revision");
    push_text(&mut args, "@");
    push_text(&mut args, "--template");
    push_text(&mut args, STATUS_TEMPLATE);
    let ghost query = diff_request(repository@, Seq::empty());
    assert(arg_views(args@) =~= query);
    let ghost views = path_views(paths@);
    if paths.len() == 0 {
        return Some(args);
    }
    push_text(&mut args, "--");
    let ghost head = query.push(ArgView::Text("--"@));
    assert(views.take(0) =~= Seq::empty());
    assert(head + paths_within(repository@, views.take(0)) =~= head);
    let mut within = false;
    let mut i: usize = 0;
    while i < paths.len()
        invariant
            i <= paths.len(),
            views == path_views(paths@),
            arg_views(args@) == head + paths_within(repository@, views.take(i as int)),
            within == (paths_within(repository@, views.take(i as int)).len() > 0),
        decreases paths.len() - i,
    {
        assert(views.take(i + 1).drop_last() =~= views.take(i as int));
        assert(views.take(i + 1).last() == paths@[i as int]@);
        if let Some(path) = paths[i].strip_prefix(repository) {
            push_path(&mut args, &path);
            within = true;
            assert(arg_views(args@) =~= head + paths_within(
                repository@,
                views.take(i as int),
            ).push(ArgView::Path(path@)));
        }
        i = i + 1;
    }
    assert(views.take(i as int) =~= views);
    if within {
        Some(args)
    } else {
        None
    }
}

/// A request that is limited to paths names exactly those of the given paths that lie in the
/// repository, as seen from its root.
pub proof fn only_given_paths_are_queried(repository: Seq<Part>, paths: Seq<Seq<Part>>)
    ensures
        forall|arg: ArgView| #[trigger]
            paths_within(repository, paths).contains(arg) <==> exists|i: int|
                0 <= i < paths.len() && under(#[trigger] paths[i], repository) && arg
                    == ArgView::Path(paths[i].skip(repository.len() as int)),
    decreases paths.len(),
{
    let named = paths_within(repository, paths);
    if paths.len() > 0 {
        let rest = paths.drop_last();
        let before = paths_within(repository, rest);
        let last = ArgView::Path(paths.last().skip(repository.len() as int));
        only_given_paths_are_queried(repository, rest);
        lemma_push(before, last);
        assert forall|arg: ArgView| #[trigger] named.contains(arg) <==> exists|i: int|
            0 <= i < paths.len() && under(#[trigger] paths[i], repository) && arg == ArgView::Path(
                paths[i].skip(repository.len() as int),
            ) by {
            assert(paths[paths.len() - 1] == paths.last());
            if before.contains(arg) {
                let i = choose|i: int|
                    0 <= i < rest.len() && under(#[trigger] rest[i], repository) && arg
                        == ArgView::Path(rest[i].skip(repository.len() as int));
                assert(paths[i] == rest[i]);
            }
            if exists|i: int|
                0 <= i < paths.len() && under(#[trigger] paths[i], repository) && arg
                    == ArgView::Path(paths[i].skip(repository.len() as int)) {
                let i = choose|i: int|
                    0 <= i < paths.len() && under(#[trigger] paths[i], repository) && arg
                        == ArgView::Path(paths[i].skip(repository.len() as int));
                if i < rest.len() {
                    assert(rest[i] == paths[i]);
                    assert(before.contains(arg));
                }
            }
        }
    }
}

/// The request for the changed files reads the current operation and ignores the working copy.
pub proof fn diff_is_pinned(repository: Seq<Part>, paths: Seq<Seq<Part>>)
    ensures
        pinned(diff_request(repository, paths), "@"@),
{
    let prefix = read_prefix(repository, "@"@);
    let args = diff_request(repository, paths);
    let rest = args.skip(prefix.len() as int);
    reads_are_pinned(repository, "@"@, rest);
    assert(args =~= prefix + rest);
}

/// An empty list of paths asks for the whole workspace: no path but the repository's is named.
pub proof fn empty_path_list_queries_the_workspace(repository: Seq<Part>)
    ensures
        forall|path: Seq<Part>| #[trigger]
            diff_request(repository, Seq::empty()).contains(ArgView::Path(path)) ==> path
                == repository,
{
}

/// The request for the root of the workspace reads the current operation and ignores the working
/// copy too.
pub proof fn root_request_is_pinned()
    ensures
        root_request().contains(ArgView::Text("--ignore-working-copy"@)),
        root_request().contains(ArgView::Text("--at-op=@"@)),
{
    assert(root_request()[0] == ArgView::Text("--at-op=@"@));
    assert(root_request()[1] == ArgView::Text("--ignore-working-copy"@));
}

/// What a command left behind.
#[derive(Debug)]
pub struct CommandOutput {
    pub success: bool,
    pub stdout: Vec<u8>,
    pub stderr: Vec<u8>,
}

/// What went wrong while Jujutsu was asked.
#[derive(Debug, Clone, Copy, PartialEq, Eq, Structural)]
pub enum JjFailure {
    Unresolved,
    NotAFile,
    NoDirectory,
    NotStarted,
    RootNotStarted,
    RootFailed,
    RootNotUtf8,
    RootEmpty,
    OutsideWorkspace,
    OperationNotStarted,
    OperationFailed,
    OperationEmpty,
    OperationNotUtf8,
    ReadFailed,
    BadRecord,
}

/// An error, with what the command reported about it.
#[derive(Debug, PartialEq, Eq)]
pub struct JjError {
    pub failure: JjFailure,
    pub detail: String,
}

/// The mathematical value of a [`JjError`].
pub struct JjErrorView {
    pub failure: JjFailure,
    pub detail: Seq<char>,
}

impl View for JjError {
    type V = JjErrorView;

    open spec fn view(&self) -> JjErrorView {
        JjErrorView { failure: self.failure, detail: self.detail@ }
    }
}

/// An error of which there is nothing more to report.
pub open spec fn plain_error(failure: JjFailure) -> JjErrorView {
    JjErrorView { failure, detail: Seq::empty() }
}

/// The error of a command that failed: what it wrote to its error stream.
pub open spec fn command_error(failure: JjFailure, stderr: Seq<u8>) -> JjErrorView {
    JjErrorView { failure, detail: trimmed(lossy(stderr)) }
}

fn make_error(failure: JjFailure) -> (r: JjError)
    ensures
        r@ == plain_error(failure),
{
    JjError { failure, detail: String::new() }
}

fn make_command_error(failure: JjFailure, stderr: &Vec<u8>) -> (r: JjError)
    ensures
        r@ == command_error(failure, stderr@),
{
    JjError { failure, detail: trim_text(&lossy_text(stderr)) }
}

/// What is said of a failure.
pub open spec fn failure_text(failure: JjFailure) -> Seq<char> {
    match failure {
        JjFailure::Unresolved => "resolve symlinks"@,
        JjFailure::NotAFile => " is not a regular file"@,
        JjFailure::NoDirectory => "file has no parent directory"@,
        JjFailure::NotStarted => "failed to invoke jj"@,
        JjFailure::RootNotStarted => "failed to invoke jj workspace root"@,
        JjFailure::RootFailed => "jj workspace root failed: "@,
        JjFailure::RootNotUtf8 => "jj workspace root returned non-UTF-8 path"@,
        JjFailure::RootEmpty => "jj workspace root returned an empty path"@,
        JjFailure::OutsideWorkspace => "file is outside jj workspace"@,
        JjFailure::OperationNotStarted => "failed to resolve jj operation"@,
        JjFailure::OperationFailed => "jj op log failed: "@,
        JjFailure::OperationEmpty => "jj op log returned an empty operation ID"@,
        JjFailure::OperationNotUtf8 => "jj operation ID is not UTF-8"@,
        JjFailure::ReadFailed => "jj command failed: "@,
        JjFailure::BadRecord => "parse jj log template"@,
    }
}

impl JjError {
    /// What is said of the error. What the command reported follows; the path of something that is
    /// no file goes in front.
    pub fn message(&self) -> (r: String)
        ensures
            r@ == if self.failure is NotAFile {
                self.detail@ + failure_text(self.failure)
            } else {
                failure_text(self.failure) + self.detail@
            },
    {
        let text = match self.failure {
            JjFailure::Unresolved => "resolve symlinks",
            JjFailure::NotAFile => " is not a regular file",
            JjFailure::NoDirectory => "file has no parent directory",
            JjFailure::NotStarted => "failed to invoke jj",
            JjFailure::RootNotStarted => "failed to invoke jj workspace root",
            JjFailure::RootFailed => "jj workspace root failed: ",
            JjFailure::RootNotUtf8 => "jj workspace root returned non-UTF-8 path",
            JjFailure::RootEmpty => "jj workspace root returned an empty path",
            JjFailure::OutsideWorkspace => "file is outside jj workspace",
            JjFailure::OperationNotStarted => "failed to resolve jj operation",
            JjFailure::OperationFailed => "jj op log failed: ",
            JjFailure::OperationEmpty => "jj op log returned an empty operation ID",
            JjFailure::OperationNotUtf8 => "jj operation ID is not UTF-8",
            JjFailure::ReadFailed => "jj command failed: ",
            JjFailure::BadRecord => "parse jj log template",
        };
        match self.failure {
            JjFailure::NotAFile => two_texts(self.detail.as_str(), text),
            _ => two_texts(text, self.detail.as_str()),
        }
    }
}

/// The root of the workspace as the command printed it, without the white space around it.
pub open spec fn root_result(reply: Option<CommandOutput>) -> Result<Seq<char>, JjErrorView> {
    match reply {
        None => Err(plain_error(JjFailure::RootNotStarted)),
        Some(output) => if !output.success {
            Err(command_error(JjFailure::RootFailed, output.stderr@))
        } else if !valid_utf8(output.stdout@) {
            Err(plain_error(JjFailure::RootNotUtf8))
        } else if trimmed(decode_utf8(output.stdout@)).len() == 0 {
            Err(plain_error(JjFailure::RootEmpty))
        } else {
            Ok(trimmed(decode_utf8(output.stdout@)))
        },
    }
}

/// The root of the workspace as the command printed it.
pub fn workspace_root(reply: Option<CommandOutput>) -> (r: Result<String, JjError>)
    ensures
        match r {
            Ok(root) => root_result(reply) == Ok::<Seq<char>, JjErrorView>(root@),
            Err(e) => root_result(reply) == Err::<Seq<char>, JjErrorView>(e@),
        },
{
    let output = match reply {
        Some(output) => output,
        None => {
            return Err(make_error(JjFailure::RootNotStarted));
        },
    };
    if !output.success {
        return Err(make_command_error(JjFailure::RootFailed, &output.stderr));
    }
    match String::from_utf8(output.stdout) {
        Ok(text) => {
            let root = trim_text(&text);
            if root.as_str().is_empty() {
                Err(make_error(JjFailure::RootEmpty))
            } else {
                Ok(root)
            }
        },
        Err(_) => Err(make_error(JjFailure::RootNotUtf8)),
    }
}

/// What a read gives: the output of the command, where it succeeded.
pub open spec fn read_result(reply: Option<CommandOutput>) -> Result<Seq<u8>, JjErrorView> {
    match reply {
        None => Err(plain_error(JjFailure::NotStarted)),
        Some(output) => if output.success {
            Ok(output.stdout@)
        } else {
            Err(command_error(JjFailure::ReadFailed, output.stderr@))
        },
    }
}

/// What a read gives. The command may not even have started.
pub fn run_read(reply: Option<CommandOutput>) -> (r: Result<Vec<u8>, JjError>)
    ensures
        match r {
            Ok(bytes) => read_result(reply) == Ok::<Seq<u8>, JjErrorView>(bytes@),
            Err(e) => read_result(reply) == Err::<Seq<u8>, JjErrorView>(e@),
        },
{
    match reply {
        None => Err(make_error(JjFailure::NotStarted)),
        Some(output) => {
            if output.success {
                Ok(output.stdout)
            } else {
                Err(make_command_error(JjFailure::ReadFailed, &output.stderr))
            }
        },
    }
}

/// The current operation, as the command printed it.
pub open spec fn operation_result(reply: Option<CommandOutput>) -> Result<Seq<u8>, JjErrorView> {
    match reply {
        None => Err(plain_error(JjFailure::OperationNotStarted)),
        Some(output) => if !output.success {
            Err(command_error(JjFailure::OperationFailed, output.stderr@))
        } else if output.stdout@.len() == 0 {
            Err(plain_error(JjFailure::OperationEmpty))
        } else {
            Ok(output.stdout@)
        },
    }
}

/// The current operation, as the command printed it.
pub fn operation_id(reply: Option<CommandOutput>) -> (r: Result<Vec<u8>, JjError>)
    ensures
        match r {
            Ok(id) => operation_result(reply) == Ok::<Seq<u8>, JjErrorView>(id@),
            Err(e) => operation_result(reply) == Err::<Seq<u8>, JjErrorView>(e@),
        },
{
    match reply {
        None => Err(make_error(JjFailure::OperationNotStarted)),
        Some(output) => {
            if !output.success {
                return Err(make_command_error(JjFailure::OperationFailed, &output.stderr));
            }
            if output.stdout.len() == 0 {
                return Err(make_error(JjFailure::OperationEmpty));
            }
            Ok(output.stdout)
        },
    }
}

/// The file that is asked about, links resolved: it must have been found, and be a regular file.
/// `shown` is how its path is shown.
pub fn canonical_file(resolved: Option<TreePath>, is_file: bool, shown: &str) -> (r: Result<
    TreePath,
    JjError,
>)
    ensures
        match r {
            Ok(file) => resolved is Some && is_file && file@ == resolved->0@,
            Err(e) => if resolved is None {
                e@ == plain_error(JjFailure::Unresolved)
            } else {
                !is_file && e@ == (JjErrorView { failure: JjFailure::NotAFile, detail: shown@ })
            },
        },
{
    match resolved {
        None => Err(make_error(JjFailure::Unresolved)),
        Some(file) => {
            if is_file {
                Ok(file)
            } else {
                Err(JjError { failure: JjFailure::NotAFile, detail: shown.to_owned() })
            }
        },
    }
}

/// What is read of the working-copy change.
#[derive(Debug)]
pub struct WorkingCopy {
    pub change_id: String,
    pub parents: Vec<String>,
}

/// The label of a change: the first eight characters of its identifier.
pub open spec fn short_label(change_id: Seq<char>) -> Seq<char> {
    if change_id.len() <= 8 {
        change_id
    } else {
        change_id.take(8)
    }
}

fn label_text(change_id: &String) -> (r: String)
    ensures
        r@ == short_label(change_id@),
{
    let n: usize = change_id.as_str().unicode_len();
    if n <= 8 {
        change_id.clone()
    } else {
        change_id.as_str().substring_char(0, 8).to_owned()
    }
}

/// How far the lookup of a file's metadata has come, and what it waits for.
#[derive(Debug)]
pub enum Lookup {
    /// The root of the workspace that holds the file.
    Root { file: TreePath },
    /// The current operation of the repository.
    Operation { repository: TreePath, path: TreePath },
    /// The record of the working-copy change.
    Log { repository: TreePath, path: TreePath, operation: String },
    /// The parsed form of that record.
    Record { repository: TreePath, path: TreePath, operation: String, log: Vec<u8> },
    /// Whether the only parent has the file.
    Listed {
        repository: TreePath,
        path: TreePath,
        operation: String,
        parent: String,
        head_name: String,
    },
    /// What the file holds in the only parent.
    Shown {
        repository: TreePath,
        path: TreePath,
        operation: String,
        parent: String,
        head_name: String,
    },
    /// Nothing: this is the outcome.
    Done(Result<FileInfo, JjError>),
}

/// The mathematical value of a [`Lookup`].
pub enum LookupView {
    Root { file: Seq<Part> },
    Operation { repository: Seq<Part>, path: Seq<Part> },
    Log { repository: Seq<Part>, path: Seq<Part>, operation: Seq<char> },
    Record { repository: Seq<Part>, path: Seq<Part>, operation: Seq<char>, log: Seq<u8> },
    Listed {
        repository: Seq<Part>,
        path: Seq<Part>,
        operation: Seq<char>,
        parent: Seq<char>,
        head_name: Seq<char>,
    },
    Shown {
        repository: Seq<Part>,
        path: Seq<Part>,
        operation: Seq<char>,
        parent: Seq<char>,
        head_name: Seq<char>,
    },
    Done(Result<InfoView, JjErrorView>),
}

impl View for Lookup {
    type V = LookupView;

    open spec fn view(&self) -> LookupView {
        match self {
            Lookup::Root { file } => LookupView::Root { file: file@ },
            Lookup::Operation { repository, path } => LookupView::Operation {
                repository: repository@,
                path: path@,
            },
            Lookup::Log { repository, path, operation } => LookupView::Log {
                repository: repository@,
                path: path@,
                operation: operation@,
            },
            Lookup::Record { repository, path, operation, log } => LookupView::Record {
                repository: repository@,
                path: path@,
                operation: operation@,
                log: log@,
            },
            Lookup::Listed { repository, path, operation, parent, head_name } => LookupView::Listed {
                repository: repository@,
                path: path@,
                operation: operation@,
                parent: parent@,
                head_name: head_name@,
            },
            Lookup::Shown { repository, path, operation, parent, head_name } => LookupView::Shown {
                repository: repository@,
                path: path@,
                operation: operation@,
                parent: parent@,
                head_name: head_name@,
            },
            Lookup::Done(Ok(info)) => LookupView::Done(Ok(info@)),
            Lookup::Done(Err(e)) => LookupView::Done(Err(e@)),
        }
    }
}

/// A lookup that failed.
pub open spec fn failed(e: JjErrorView) -> LookupView {
    LookupView::Done(Err(e))
}

/// A lookup that succeeded.
pub open spec fn found(diff_base: Option<Seq<u8>>, head_name: Seq<char>) -> LookupView {
    LookupView::Done(Ok(InfoView { diff_base, head_name: Some(head_name) }))
}

/// The arguments of the command that the lookup waits for, where it waits for one.
pub open spec fn request_of(lookup: LookupView) -> Option<Seq<ArgView>> {
    match lookup {
        LookupView::Root { .. } => Some(root_request()),
        LookupView::Operation { repository, .. } => Some(operation_request(repository)),
        LookupView::Log { repository, operation, .. } => Some(log_request(repository, operation)),
        LookupView::Listed { repository, path, operation, parent, .. } => Some(
            file_request("list"@, repository, operation, parent, path),
        ),
        LookupView::Shown { repository, path, operation, parent, .. } => Some(
            file_request("show"@, repository, operation, parent, path),
        ),
        LookupView::Record { .. } => None,
        LookupView::Done(_) => None,
    }
}

/// The directory in which that command runs: that of the file as long as the repository is not
/// known, and the repository from then on.
pub open spec fn directory_of(lookup: LookupView) -> Option<Seq<Part>> {
    match lookup {
        LookupView::Root { file } => parent_of(file),
        LookupView::Operation { repository, .. } => Some(repository),
        LookupView::Log { repository, .. } => Some(repository),
        LookupView::Listed { repository, .. } => Some(repository),
        LookupView::Shown { repository, .. } => Some(repository),
        LookupView::Record { .. } => None,
        LookupView::Done(_) => None,
    }
}

/// The root of the workspace, by value.
pub open spec fn root_view(root: Result<TreePath, JjError>) -> Result<Seq<Part>, JjErrorView> {
    match root {
        Ok(repository) => Ok(repository@),
        Err(e) => Err(e@),
    }
}

/// The lookup after the root of the workspace has become known. The file must lie in it.
pub open spec fn after_root(
    lookup: LookupView,
    root: Result<Seq<Part>, JjErrorView>,
) -> LookupView {
    match (lookup, root) {
        (LookupView::Root { file }, Ok(repository)) => if under(file, repository) {
            LookupView::Operation { repository, path: file.skip(repository.len() as int) }
        } else {
            failed(plain_error(JjFailure::OutsideWorkspace))
        },
        (LookupView::Root { .. }, Err(e)) => failed(e),
        (other, _) => other,
    }
}

/// The lookup after the command that it waited for has replied. What the parent commit does not
/// tell is no failure of the lookup: the file then has no diff base.
pub open spec fn after_output(lookup: LookupView, reply: Option<CommandOutput>) -> LookupView {
    match lookup {
        LookupView::Operation { repository, path } => match operation_result(reply) {
            Err(e) => failed(e),
            Ok(id) => if valid_utf8(id) {
                LookupView::Log { repository, path, operation: decode_utf8(id) }
            } else {
                failed(plain_error(JjFailure::OperationNotUtf8))
            },
        },
        LookupView::Log { repository, path, operation } => match read_result(reply) {
            Err(e) => failed(e),
            Ok(log) => LookupView::Record { repository, path, operation, log },
        },
        LookupView::Listed { repository, path, operation, parent, head_name } => match read_result(
            reply,
        ) {
            Err(_) => found(None, head_name),
            Ok(listed) => if listed.len() == 0 {
                found(Some(Seq::empty()), head_name)
            } else {
                LookupView::Shown { repository, path, operation, parent, head_name }
            },
        },
        LookupView::Shown { head_name, .. } => match read_result(reply) {
            Err(_) => found(None, head_name),
            Ok(content) => found(Some(content), head_name),
        },
        other => other,
    }
}

/// The lookup after the record of the working-copy change has been parsed. Only a change with
/// exactly one parent has a diff base.
pub open spec fn after_record(lookup: LookupView, record: Option<WorkingCopy>) -> LookupView {
    match (lookup, record) {
        (LookupView::Record { .. }, None) => failed(plain_error(JjFailure::BadRecord)),
        (LookupView::Record { repository, path, operation, .. }, Some(change)) =>
            if change.parents.len() == 1 {
            LookupView::Listed {
                repository,
                path,
                operation,
                parent: change.parents@[0]@,
                head_name: short_label(change.change_id@),
            }
        } else {
            found(None, short_label(change.change_id@))
        },
        (other, _) => other,
    }
}

/// The operation to which the lookup is bound, once it has been resolved.
pub open spec fn operation_of(lookup: LookupView) -> Option<Seq<char>> {
    match lookup {
        LookupView::Log { operation, .. } => Some(operation),
        LookupView::Record { operation, .. } => Some(operation),
        LookupView::Listed { operation, .. } => Some(operation),
        LookupView::Shown { operation, .. } => Some(operation),
        _ => None,
    }
}

impl Lookup {
    /// Starts the lookup of a file, which must lie in a directory.
    pub fn start(file: TreePath) -> (r: Lookup)
        ensures
            r@ == match parent_of(file@) {
                Some(_) => LookupView::Root { file: file@ },
                None => failed(plain_error(JjFailure::NoDirectory)),
            },
    {
        match file.parent() {
            Some(_) => Lookup::Root { file },
            None => Lookup::Done(Err(make_error(JjFailure::NoDirectory))),
        }
    }

    /// The directory in which the command runs that the lookup waits for, where it waits for one.
    pub fn directory(&self) -> (r: Option<TreePath>)
        ensures
            match r {
                Some(dir) => directory_of(self@) == Some(dir@),
                None => directory_of(self@) is None,
            },
    {
        match self {
            Lookup::Root { file } => file.parent(),
            Lookup::Operation { repository, .. } => Some(repository.clone()),
            Lookup::Log { repository, .. } => Some(repository.clone()),
            Lookup::Listed { repository, .. } => Some(repository.clone()),
            Lookup::Shown { repository, .. } => Some(repository.clone()),
            Lookup::Record { .. } => None,
            Lookup::Done(_) => None,
        }
    }

    /// The arguments of the command that the lookup waits for, where it waits for one.
    pub fn request(&self) -> (r: Option<Vec<Arg>>)
        ensures
            match r {
                Some(args) => request_of(self@) == Some(arg_views(args@)),
                None => request_of(self@) is None,
            },
    {
        match self {
            Lookup::Root { .. } => Some(workspace_root_args()),
            Lookup::Operation { repository, .. } => Some(operation_args(repository)),
            Lookup::Log { repository, operation, .. } => Some(
                log_args(repository, operation.as_str()),
            ),
            Lookup::Listed { repository, path, operation, parent, .. } => Some(
                file_args("list", repository, operation.as_str(), parent.as_str(), path),
            ),
            Lookup::Shown { repository, path, operation, parent, .. } => Some(
                file_args("show", repository, operation.as_str(), parent.as_str(), path),
            ),
            Lookup::Record { .. } => None,
            Lookup::Done(_) => None,
        }
    }

    /// Goes on with the root of the workspace. The file must lie in it.
    pub fn with_root(self, root: Result<TreePath, JjError>) -> (r: Lookup)
        requires
            self is Root,
        ensures
            r@ == after_root(self@, root_view(root)),
    {
        match (self, root) {
            (Lookup::Root { file }, Ok(repository)) => match file.strip_prefix(&repository) {
                Some(path) => Lookup::Operation { repository, path },
                None => Lookup::Done(Err(make_error(JjFailure::OutsideWorkspace))),
            },
            (_, Err(e)) => Lookup::Done(Err(e)),
            (lookup, Ok(_)) => lookup,
        }
    }

    /// Goes on with the output of the command that the lookup waited for. What the parent commit
    /// does not tell is no failure of the lookup: the file then has no diff base.
    pub fn with_output(self, reply: Option<CommandOutput>) -> (r: Lookup)
        requires
            self is Operation || self is Log || self is Listed || self is Shown,
        ensures
            r@ == after_output(self@, reply),
            operation_of(self@) is Some ==> r is Done || operation_of(r@) == operation_of(self@),
    {
        match self {
            Lookup::Operation { repository, path } => match operation_id(reply) {
                Err(e) => Lookup::Done(Err(e)),
                Ok(id) => match String::from_utf8(id) {
                    Ok(operation) => Lookup::Log { repository, path, operation },
                    Err(_) => Lookup::Done(Err(make_error(JjFailure::OperationNotUtf8))),
                },
            },
            Lookup::Log { repository, path, operation } => match run_read(reply) {
                Err(e) => Lookup::Done(Err(e)),
                Ok(log) => Lookup::Record { repository, path, operation, log },
            },
            Lookup::Listed { repository, path, operation, parent, head_name } => match run_read(
                reply,
            ) {
                Err(_) => Lookup::Done(
                    Ok(FileInfo { diff_base: None, head_name: Some(head_name) }),
                ),
                Ok(listed) => {
                    if listed.len() == 0 {
                        let empty: Vec<u8> = Vec::new();
                        assert(empty@ =~= Seq::<u8>::empty());
                        Lookup::Done(
                            Ok(FileInfo { diff_base: Some(empty), head_name: Some(head_name) }),
                        )
                    } else {
                        Lookup::Shown { repository, path, operation, parent, head_name }
                    }
                },
            },
            Lookup::Shown { head_name, .. } => match run_read(reply) {
                Err(_) => Lookup::Done(
                    Ok(FileInfo { diff_base: None, head_name: Some(head_name) }),
                ),
                Ok(content) => Lookup::Done(
                    Ok(FileInfo { diff_base: Some(content), head_name: Some(head_name) }),
                ),
            },
            other => other,
        }
    }

    /// Goes on with the parsed record of the working-copy change. Only a change with exactly one
    /// parent has a diff base.
    pub fn with_record(self, record: Option<WorkingCopy>) -> (r: Lookup)
        requires
            self is Record,
        ensures
            r@ == after_record(self@, record),
            r is Done || operation_of(r@) == operation_of(self@),
    {
        match (self, record) {
            (Lookup::Record { repository, path, operation, .. }, Some(change)) => {
                let head_name = label_text(&change.change_id);
                if change.parents.len() == 1 {
                    let parent = change.parents[0].clone();
                    Lookup::Listed { repository, path, operation, parent, head_name }
                } else {
                    Lookup::Done(Ok(FileInfo { diff_base: None, head_name: Some(head_name) }))
                }
            },
            (_, None) => Lookup::Done(Err(make_error(JjFailure::BadRecord))),
            (lookup, Some(_)) => lookup,
        }
    }
}

/// Every command of a lookup ignores the working copy, and once the operation has been resolved,
/// every command is pinned to it.
pub proof fn lookup_reads_one_operation(lookup: LookupView)
    ensures
        request_of(lookup) matches Some(args) ==> args.contains(
            ArgView::Text("--ignore-working-copy"@),
        ),
        request_of(lookup) matches Some(args) ==> (operation_of(lookup) matches Some(operation)
            ==> pinned(args, operation)),
{
    root_request_is_pinned();
    match lookup {
        LookupView::Operation { repository, .. } => {
            reads_are_pinned(
                repository,
                "@"@,
                operation_request(repository).skip(read_prefix(repository, "@"@).len() as int),
            );
            assert(operation_request(repository) =~= read_prefix(repository, "@"@)
                + operation_request(repository).skip(read_prefix(repository, "@"@).len() as int));
        },
        LookupView::Log { repository, operation, .. } => {
            let prefix = read_prefix(repository, operation);
            let args = log_request(repository, operation);
            reads_are_pinned(repository, operation, args.skip(prefix.len() as int));
            assert(args =~= prefix + args.skip(prefix.len() as int));
        },
        LookupView::Listed { repository, path, operation, parent, .. } => {
            let prefix = read_prefix(repository, operation);
            let args = file_request("list"@, repository, operation, parent, path);
            reads_are_pinned(repository, operation, args.skip(prefix.len() as int));
            assert(args =~= prefix + args.skip(prefix.len() as int));
        },
        LookupView::Shown { repository, path, operation, parent, .. } => {
            let prefix = read_prefix(repository, operation);
            let args = file_request("show"@, repository, operation, parent, path);
            reads_are_pinned(repository, operation, args.skip(prefix.len() as int));
            assert(args =~= prefix + args.skip(prefix.len() as int));
        },
        _ => {},
    }
}

/// A changed path, as the repository reports it.
#[derive(Debug)]
pub struct ChangedPath {
    pub path: TreePath,
    pub status: String,
    pub source_path: TreePath,
    pub source_type: String,
    pub target_type: String,
}

/// Why a line of the report tells nothing.
#[derive(Debug, PartialEq, Eq)]
pub enum LineError {
    /// It could not be parsed.
    Unparsed,
    /// It has a status that is not known.
    Unsupported(String),
}

impl LineError {
    /// What is said of the error.
    pub fn message(&self) -> (r: String)
        ensures
            r@ == match self {
                LineError::Unparsed => "parse jj diff template"@,
                LineError::Unsupported(status) => "unsupported jj diff status "@ + status@,
            },
    {
        match self {
            LineError::Unparsed => "parse jj diff template".to_owned(),
            LineError::Unsupported(status) => two_texts(
                "unsupported jj diff status ",
                status.as_str(),
            ),
        }
    }
}

/// The mathematical value of what a line of the report tells.
pub enum ReportView {
    Change(ChangeView),
    Unparsed,
    Unsupported(Seq<char>),
}

/// What a line of the report tells, by value.
pub open spec fn report_view(report: Result<FileChange, LineError>) -> ReportView {
    match report {
        Ok(change) => ReportView::Change(change@),
        Err(LineError::Unparsed) => ReportView::Unparsed,
        Err(LineError::Unsupported(status)) => ReportView::Unsupported(status@),
    }
}

/// What the status of a reported path says, where it is known.
pub open spec fn change_of(repository: Seq<Part>, change: ChangedPath) -> Option<ChangeView> {
    let path = joined(repository, change.path@);
    if change.status@ == "added"@ {
        Some(ChangeView::Untracked(path))
    } else if change.status@ == "modified"@ {
        if change.target_type@ == "conflict"@ {
            Some(ChangeView::Conflict(path))
        } else {
            Some(ChangeView::Modified(path))
        }
    } else if change.status@ == "removed"@ {
        Some(ChangeView::Deleted(path))
    } else if change.status@ == "copied"@ || change.status@ == "renamed"@ {
        Some(ChangeView::Renamed(joined(repository, change.source_path@), path))
    } else {
        None
    }
}

/// The change leads to a directory, or to a submodule where something was before. Neither can
/// provide a document diff base.
pub open spec fn no_document(change: ChangedPath) -> bool {
    change.target_type@ == "tree"@ || (change.target_type@ == "git-submodule"@
        && change.source_type@ != ""@)
}

/// The content of a file in the only parent, by the commands that list and show it there: empty
/// where the parent does not have the file, and unknown where a command fails.
pub open spec fn parent_content(
    listed: Option<CommandOutput>,
    shown: Option<CommandOutput>,
) -> Option<Seq<u8>> {
    match read_result(listed) {
        Err(_) => None,
        Ok(list) => if list.len() == 0 {
            Some(Seq::empty())
        } else {
            match read_result(shown) {
                Err(_) => None,
                Ok(content) => Some(content),
            }
        },
    }
}

/// A lookup whose commands up to the record succeed ends with the short label of the working-copy
/// change, and with the content of the file in the parent as the diff base where there is exactly
/// one parent.
pub proof fn lookup_finds_label_and_base(
    file: Seq<Part>,
    repository: Seq<Part>,
    operation: Option<CommandOutput>,
    log: Option<CommandOutput>,
    change: WorkingCopy,
    listed: Option<CommandOutput>,
    shown: Option<CommandOutput>,
)
    requires
        under(file, repository),
        operation_result(operation) is Ok,
        valid_utf8(operation_result(operation)->Ok_0),
        read_result(log) is Ok,
    ensures
        ({
            let resolved = after_output(
                after_root(LookupView::Root { file }, Ok(repository)),
                operation,
            );
            let recorded = after_record(after_output(resolved, log), Some(change));
            let label = short_label(change.change_id@);
            if change.parents.len() == 1 {
                after_output(after_output(recorded, listed), shown) == found(
                    parent_content(listed, shown),
                    label,
                )
            } else {
                recorded == found(None, label)
            }
        }),
{
}

/// A line of the report, and the record that it holds, where it can be parsed.
#[derive(Debug)]
pub struct ChangedLine {
    pub line: Vec<u8>,
    pub record: Option<ChangedPath>,
}

/// What one line of the report tells about files, where it tells something. An empty line tells
/// nothing, and neither does one about something that cannot be a document.
pub open spec fn report_of(repository: Seq<Part>, changed: ChangedLine) -> Option<ReportView> {
    if changed.line@.len() == 0 {
        None
    } else {
        match changed.record {
            None => Some(ReportView::Unparsed),
            Some(change) => match change_of(repository, change) {
                None => Some(ReportView::Unsupported(change.status@)),
                Some(view) => if no_document(change) {
                    None
                } else {
                    Some(ReportView::Change(view))
                },
            },
        }
    }
}

/// What one line of the report tells about files, where it tells something.
pub fn changed_line(repository: &TreePath, changed: ChangedLine) -> (r: Option<
    Result<FileChange, LineError>,
>)
    ensures
        match r {
            Some(report) => report_of(repository@, changed) == Some(report_view(report)),
            None => report_of(repository@, changed) is None,
        },
{
    if changed.line.len() == 0 {
        return None;
    }
    let change = match changed.record {
        Some(change) => change,
        None => {
            return Some(Err(LineError::Unparsed));
        },
    };
    let path = repository.join(&change.path);
    let result = if text_is(&change.status, "added") {
        FileChange::Untracked { path }
    } else if text_is(&change.status, "modified") {
        if text_is(&change.target_type, "conflict") {
            FileChange::Conflict { path }
        } else {
            FileChange::Modified { path }
        }
    } else if text_is(&change.status, "removed") {
        FileChange::Deleted { path }
    } else if text_is(&change.status, "copied") || text_is(&change.status, "renamed") {
        FileChange::Renamed { from_path: repository.join(&change.source_path), to_path: path }
    } else {
        return Some(Err(LineError::Unsupported(change.status)));
    };
    if text_is(&change.target_type, "tree") || (text_is(&change.target_type, "git-submodule")
        && !text_is(&change.source_type, "")) {
        return None;
    }
    Some(Ok(result))
}

/// What the reports tell, by value.
pub open spec fn report_views(reports: Seq<Result<FileChange, LineError>>) -> Seq<ReportView> {
    reports.map_values(|report: Result<FileChange, LineError>| report_view(report))
}

/// What the lines of the report tell about files, one after the other.
pub open spec fn reports_of(repository: Seq<Part>, lines: Seq<ChangedLine>) -> Seq<ReportView>
    decreases lines.len(),
{
    if lines.len() == 0 {
        Seq::empty()
    } else {
        let before = reports_of(repository, lines.drop_last());
        match report_of(repository, lines.last()) {
            Some(view) => before.push(view),
            None => before,
        }
    }
}

/// What the lines of the report tell about files, one after the other.
pub fn for_each_changed_file(repository: &TreePath, lines: Vec<ChangedLine>) -> (reports: Vec<
    Result<FileChange, LineError>,
>)
    ensures
        report_views(reports@) == reports_of(repository@, lines@),
{
    let ghost all = lines@;
    let mut reports: Vec<Result<FileChange, LineError>> = Vec::new();
    assert(all.take(0) =~= Seq::empty());
    assert(report_views(reports@) =~= Seq::empty());
    for changed in it: lines
        invariant
            it.seq() == all,
            report_views(reports@) == reports_of(repository@, all.take(it.index())),
    {
        let ghost n = it.index();
        let ghost before = report_views(reports@);
        assert(all.take(n + 1).drop_last() =~= all.take(n));
        assert(all.take(n + 1).last() == changed);
        if let Some(report) = changed_line(repository, changed) {
            let ghost view = report_view(report);
            reports.push(report);
            assert(report_views(reports@) =~= before.push(view));
        }
    }
    assert(all.take(all.len() as int) =~= all);
    reports
}

/// The lines can be taken in any portions: what they tell together is what the portions tell, one
/// after the other.
pub proof fn portions_tell_the_whole(
    repository: Seq<Part>,
    first: Seq<ChangedLine>,
    second: Seq<ChangedLine>,
)
    ensures
        reports_of(repository, first + second) == reports_of(repository, first) + reports_of(
            repository,
            second,
        ),
    decreases second.len(),
{
    let both = first + second;
    if second.len() == 0 {
        assert(both =~= first);
        assert(reports_of(repository, first) + Seq::<ReportView>::empty() =~= reports_of(
            repository,
            first,
        ));
    } else {
        portions_tell_the_whole(repository, first, second.drop_last());
        assert(both.drop_last() =~= first + second.drop_last());
        assert(both.last() == second.last());
        assert(reports_of(repository, both) =~= reports_of(repository, first) + reports_of(
            repository,
            second,
        ));
    }
}

/// Of the lines that hold a record with a known status, exactly those are passed over whose change
/// leads to a directory, or to a submodule where something was before.
pub proof fn changes_without_a_document_are_passed_over(
    repository: Seq<Part>,
    changed: ChangedLine,
)
    requires
        changed.line@.len() > 0,
        changed.record is Some,
        change_of(repository, changed.record->0) is Some,
    ensures
        report_of(repository, changed) is None <==> no_document(changed.record->0),
{
}

} // verus!
