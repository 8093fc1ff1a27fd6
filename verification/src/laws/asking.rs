//! What is asked of Jujutsu, argument by argument, and what its answers give.

use crate::jj::{
    after_output, after_record, after_root, command_error, diff_request, directory_of, failure_text,
    file_request, log_request, operation_request, operation_result, parent_content, paths_within,
    read_prefix, read_result, request_of, root_request, root_result, short_label, ArgView,
    CommandOutput, JjErrorView, JjFailure, LookupView, WorkingCopy,
};
use crate::path::Part;
use crate::text::{is_whitespace, lossy, trimmed, trims_to};
use crate::vcs::InfoView;
use vstd::math::min;
use vstd::prelude::*;
use vstd::utf8::{decode_utf8, valid_utf8};

verus! {

/// Every read of a repository names it and the operation at which it is read, leaves the working
/// copy alone, and asks for plain output.
pub proof fn reads_begin_alike(repository: Seq<Part>, operation: Seq<char>)
    ensures
        ({
            let args = read_prefix(repository, operation);
            &&& args.len() == 8
            &&& args[0] == ArgView::Text("--repository"@) && args[1] == ArgView::Path(repository)
            &&& args[2] == ArgView::Text("--at-op"@) && args[3] == ArgView::Text(operation)
            &&& args[4] == ArgView::Text("--ignore-working-copy"@)
            &&& args[5] == ArgView::Text("--quiet"@)
            &&& args[6] == ArgView::Text("--no-pager"@)
            &&& args[7] == ArgView::Text("--color=never"@)
        }),
{
}

/// The root of a workspace is asked for at the current operation, with the same care and without a
/// repository, which is not known yet.
pub proof fn the_root_is_asked_for_without_a_repository()
    ensures
        ({
            let args = root_request();
            &&& args.len() == 7
            &&& args[0] == ArgView::Text("--at-op=@"@)
            &&& args.subrange(1, 5) == read_prefix(Seq::empty(), Seq::empty()).skip(4)
            &&& args[5] == ArgView::Text("workspace"@) && args[6] == ArgView::Text("root"@)
        }),
{
    assert(root_request().subrange(1, 5) =~= read_prefix(Seq::empty(), Seq::empty()).skip(4));
}

/// The operation is asked for at the current operation: the last one, its identifier alone.
pub proof fn the_operation_is_the_last_one(repository: Seq<Part>)
    ensures
        ({
            let args = operation_request(repository);
            &&& args.take(8) == read_prefix(repository, "@"@)
            &&& args.len() == 15
            &&& args[8] == ArgView::Text("op"@) && args[9] == ArgView::Text("log"@)
            &&& args[10] == ArgView::Text("--no-graph"@)
            &&& args[11] == ArgView::Text("--limit"@) && args[12] == ArgView::Text("1"@)
            &&& args[13] == ArgView::Text("--template"@) && args[14] == ArgView::Text(
                "self.id()"@,
            )
        }),
{
    assert(operation_request(repository).take(8) =~= read_prefix(repository, "@"@));
}

/// The record of the working copy is asked for at the operation that was found.
pub proof fn the_record_is_read_at_the_operation(repository: Seq<Part>, operation: Seq<char>)
    ensures
        ({
            let args = log_request(repository, operation);
            &&& args.take(8) == read_prefix(repository, operation)
            &&& args.len() == 14
            &&& args[8] == ArgView::Text("log"@) && args[9] == ArgView::Text("--no-graph"@)
            &&& args[10] == ArgView::Text("--revision"@) && args[11] == ArgView::Text("@"@)
            &&& args[12] == ArgView::Text("--template"@) && args[13] == ArgView::Text(
                "json(self)"@,
            )
        }),
{
    assert(log_request(repository, operation).take(8) =~= read_prefix(repository, operation));
}

/// A file is asked for at the operation and the revision that were found, and its path stands
/// alone behind two dashes at the end.
pub proof fn files_are_read_at_the_revision(
    verb: Seq<char>,
    repository: Seq<Part>,
    operation: Seq<char>,
    revision: Seq<char>,
    path: Seq<Part>,
)
    ensures
        ({
            let args = file_request(verb, repository, operation, revision, path);
            &&& args.take(8) == read_prefix(repository, operation)
            &&& args.len() == 14
            &&& args[8] == ArgView::Text("file"@) && args[9] == ArgView::Text(verb)
            &&& args[10] == ArgView::Text("--revision"@) && args[11] == ArgView::Text(revision)
            &&& args[12] == ArgView::Text("--"@) && args[13] == ArgView::Path(path)
        }),
{
    assert(file_request(verb, repository, operation, revision, path).take(8) =~= read_prefix(
        repository,
        operation,
    ));
}

/// Changes are asked for at the current operation, with a template that writes the path, the
/// status, the path and the type of the source, and the type of the target, one record to a line.
/// Without paths that is all; paths stand behind two dashes, as many as lie in the repository.
pub proof fn changes_are_asked_for_under_the_paths(repository: Seq<Part>, paths: Seq<Seq<Part>>)
    requires
        paths.len() > 0,
    ensures
        ({
            let all = diff_request(repository, Seq::empty());
            let some = diff_request(repository, paths);
            &&& all.take(8) == read_prefix(repository, "@"@)
            &&& all.len() == 13
            &&& all[8] == ArgView::Text("diff"@)
            &&& all[9] == ArgView::Text("--revision"@) && all[10] == ArgView::Text("@"@)
            &&& all[11] == ArgView::Text("--template"@)
            &&& all[12] == ArgView::Text(
                r#""{\"path\":" ++ stringify(self.path()).escape_json() ++ ",\"status\":" ++ self.status().escape_json() ++ ",\"source_path\":" ++ stringify(self.source().path()).escape_json() ++ ",\"source_type\":" ++ self.source().file_type().escape_json() ++ ",\"target_type\":" ++ self.target().file_type().escape_json() ++ "}\n""#@,
            )
            &&& some.take(13) == all
            &&& some[13] == ArgView::Text("--"@)
            &&& some.skip(14) == paths_within(repository, paths)
        }),
{
    let all = diff_request(repository, Seq::empty());
    let some = diff_request(repository, paths);
    assert(all.take(8) =~= read_prefix(repository, "@"@));
    assert(some.take(13) =~= all);
    assert(some.skip(14) =~= paths_within(repository, paths));
}

/// The paths are taken one behind the other. One that begins with the repository's components is
/// given by the components behind those, and any other is left out.
pub proof fn paths_are_given_within_the_repository(
    repository: Seq<Part>,
    paths: Seq<Seq<Part>>,
    more: Seq<Seq<Part>>,
    path: Seq<Part>,
)
    ensures
        paths_within(repository, paths + more) == paths_within(repository, paths) + paths_within(
            repository,
            more,
        ),
        repository.len() <= path.len() && repository == path.take(repository.len() as int)
            ==> paths_within(repository, seq![path]) == seq![
            ArgView::Path(path.skip(repository.len() as int)),
        ],
        !(repository.len() <= path.len() && repository == path.take(repository.len() as int))
            ==> paths_within(repository, seq![path]).len() == 0,
    decreases more.len(),
{
    assert(seq![path].drop_last() =~= Seq::<Seq<Part>>::empty());
    reveal_with_fuel(paths_within, 2);
    if crate::path::under(path, repository) {
        assert(repository =~= path.take(repository.len() as int));
        assert(paths_within(repository, seq![path]) =~= seq![
            ArgView::Path(path.skip(repository.len() as int)),
        ]);
    }
    if more.len() == 0 {
        assert(paths + more =~= paths);
        assert(paths_within(repository, paths) =~= paths_within(repository, paths) + paths_within(
            repository,
            more,
        ));
    } else {
        paths_are_given_within_the_repository(repository, paths, more.drop_last(), path);
        assert((paths + more).drop_last() =~= paths + more.drop_last());
        assert((paths + more).last() == more.last());
        assert(paths_within(repository, paths + more) =~= paths_within(repository, paths)
            + paths_within(repository, more));
    }
}

/// What stands around a text is taken away: the rest is what stood between, it begins and ends with
/// no white space, and only white space is gone.
pub proof fn trimming_takes_the_white_space_around(text: Seq<char>, inner: Seq<char>)
    requires
        trims_to(text, inner),
    ensures
        trimmed(text) == inner,
        inner.len() > 0 ==> !is_whitespace(inner[0]) && !is_whitespace(inner[inner.len() - 1]),
        exists|i: int|
            0 <= i <= text.len() - inner.len() && inner == #[trigger] text.subrange(
                i,
                i + inner.len(),
            ) && (forall|k: int|
                0 <= k < text.len() && !(i <= k < i + inner.len()) ==> is_whitespace(
                    #[trigger] text[k],
                )),
{
    assert(trims_to(text, trimmed(text)));
    crate::text::trim_unique(text, trimmed(text), inner);
    let (i, j) = choose|i: int, j: int| crate::text::trims_at(text, inner, i, j);
    assert(j == i + inner.len());
    assert(inner == text.subrange(i, i + inner.len()));
}

/// The characters that count as white space.
pub proof fn white_space_is_a_fixed_set(c: char)
    ensures
        is_whitespace(c) <==> c == ' ' || c == '\t' || c == '\n' || c == '\r' || c as u32 == 11
            || c as u32 == 12 || c as u32 == 133 || c as u32 == 160 || c as u32 == 5760 || 8192
            <= c as u32 <= 8202 || c as u32 == 8232 || c as u32 == 8233 || c as u32 == 8239
            || c as u32 == 8287 || c as u32 == 12288,
{
}

/// A command that ran gives its output. One that failed gives what it wrote on its error output,
/// without the white space around it, and one that did not start gives that alone.
pub proof fn replies_give_output_or_error(output: CommandOutput)
    ensures
        read_result(None) == Err::<Seq<u8>, JjErrorView>(
            JjErrorView { failure: JjFailure::NotStarted, detail: Seq::empty() },
        ),
        output.success ==> read_result(Some(output)) == Ok::<Seq<u8>, JjErrorView>(output.stdout@),
        !output.success ==> read_result(Some(output)) == Err::<Seq<u8>, JjErrorView>(
            JjErrorView { failure: JjFailure::ReadFailed, detail: trimmed(lossy(output.stderr@)) },
        ),
{
}

/// An operation is found only where the command ran and wrote something.
pub proof fn operations_are_not_empty(output: CommandOutput)
    ensures
        operation_result(None) == Err::<Seq<u8>, JjErrorView>(
            JjErrorView { failure: JjFailure::OperationNotStarted, detail: Seq::empty() },
        ),
        output.success && output.stdout.len() > 0 ==> operation_result(Some(output)) == Ok::<
            Seq<u8>,
            JjErrorView,
        >(output.stdout@),
        output.success && output.stdout.len() == 0 ==> operation_result(Some(output)) == Err::<
            Seq<u8>,
            JjErrorView,
        >(JjErrorView { failure: JjFailure::OperationEmpty, detail: Seq::empty() }),
        !output.success ==> operation_result(Some(output)) == Err::<Seq<u8>, JjErrorView>(
            JjErrorView {
                failure: JjFailure::OperationFailed,
                detail: trimmed(lossy(output.stderr@)),
            },
        ),
{
}

/// A root is found only where the command ran and wrote a text that is more than white space; it is
/// that text without the white space around it.
pub proof fn roots_are_trimmed_texts(output: CommandOutput)
    ensures
        root_result(None) == Err::<Seq<char>, JjErrorView>(
            JjErrorView { failure: JjFailure::RootNotStarted, detail: Seq::empty() },
        ),
        root_result(Some(output)) is Ok <==> output.success && valid_utf8(output.stdout@) && trimmed(
            decode_utf8(output.stdout@),
        ).len() > 0,
        root_result(Some(output)) is Ok ==> root_result(Some(output))->Ok_0 == trimmed(
            decode_utf8(output.stdout@),
        ),
        !output.success ==> root_result(Some(output)) == Err::<Seq<char>, JjErrorView>(
            JjErrorView { failure: JjFailure::RootFailed, detail: trimmed(lossy(output.stderr@)) },
        ),
        output.success && !valid_utf8(output.stdout@) ==> root_result(Some(output)) == Err::<
            Seq<char>,
            JjErrorView,
        >(JjErrorView { failure: JjFailure::RootNotUtf8, detail: Seq::empty() }),
        output.success && valid_utf8(output.stdout@) && trimmed(
            decode_utf8(output.stdout@),
        ).len() == 0 ==> root_result(Some(output)) == Err::<Seq<char>, JjErrorView>(
            JjErrorView { failure: JjFailure::RootEmpty, detail: Seq::empty() },
        ),
{
}

/// The label of a change is the beginning of its identifier, eight characters at most.
pub proof fn labels_have_eight_characters_at_most(change_id: Seq<char>)
    ensures
        short_label(change_id).len() == min(change_id.len() as int, 8),
        forall|i: int|
            0 <= i < short_label(change_id).len() ==> #[trigger] short_label(change_id)[i]
                == change_id[i],
{
}

/// The root is asked for where the file is, everything after it in the repository.
pub proof fn lookups_ask_in_the_repository(lookup: LookupView)
    ensures
        match lookup {
            LookupView::Root { file } => {
                &&& request_of(lookup) == Some(root_request())
                &&& file.len() > 0 && file.last() is Normal ==> directory_of(lookup) == Some(
                    file.take(file.len() - 1),
                )
            },
            LookupView::Operation { repository, .. } => directory_of(lookup) == Some(repository)
                && request_of(lookup) == Some(operation_request(repository)),
            LookupView::Log { repository, operation, .. } => directory_of(lookup) == Some(
                repository,
            ) && request_of(lookup) == Some(log_request(repository, operation)),
            LookupView::Listed { repository, path, operation, parent, .. } => directory_of(lookup)
                == Some(repository) && request_of(lookup) == Some(
                file_request("list"@, repository, operation, parent, path),
            ),
            LookupView::Shown { repository, path, operation, parent, .. } => directory_of(lookup)
                == Some(repository) && request_of(lookup) == Some(
                file_request("show"@, repository, operation, parent, path),
            ),
            LookupView::Record { .. } => request_of(lookup) is None && directory_of(lookup) is None,
            LookupView::Done(_) => request_of(lookup) is None && directory_of(lookup) is None,
        },
{
    if let LookupView::Root { file } = lookup {
        if file.len() > 0 {
            assert(file.drop_last() =~= file.take(file.len() - 1));
        }
    }
}

/// A file is looked up in a workspace exactly if its path begins with the components of the root;
/// the rest of its path is where it is in there.
pub proof fn files_are_looked_up_inside_the_root(
    file: Seq<Part>,
    repository: Seq<Part>,
    e: JjErrorView,
)
    ensures
        after_root(LookupView::Root { file }, Err(e)) == LookupView::Done(Err(e)),
        repository.len() <= file.len() && repository == file.take(repository.len() as int)
            ==> after_root(LookupView::Root { file }, Ok(repository)) == (LookupView::Operation {
            repository,
            path: file.skip(repository.len() as int),
        }),
        !(repository.len() <= file.len() && repository == file.take(repository.len() as int))
            ==> after_root(LookupView::Root { file }, Ok(repository)) == LookupView::Done(
            Err(JjErrorView { failure: JjFailure::OutsideWorkspace, detail: Seq::empty() }),
        ),
{
    if crate::path::under(file, repository) {
        assert(repository =~= file.take(repository.len() as int));
    }
}

/// A lookup goes from the operation to the record, and from the content of the parent to its end. A
/// failure on the way to the record ends it with that error; a failure behind the record leaves the
/// base out and keeps the label. A file that the parent does not list has an empty base.
pub proof fn lookups_go_step_by_step(
    repository: Seq<Part>,
    path: Seq<Part>,
    operation: Seq<char>,
    parent: Seq<char>,
    head_name: Seq<char>,
    reply: Option<CommandOutput>,
)
    ensures
        ({
            let next = after_output(LookupView::Operation { repository, path }, reply);
            match operation_result(reply) {
                Err(e) => next == LookupView::Done(Err(e)),
                Ok(id) => if valid_utf8(id) {
                    next == (LookupView::Log { repository, path, operation: decode_utf8(id) })
                } else {
                    next is Done && next->Done_0 is Err && next->Done_0->Err_0.failure
                        == JjFailure::OperationNotUtf8
                },
            }
        }),
        ({
            let next = after_output(LookupView::Log { repository, path, operation }, reply);
            match read_result(reply) {
                Err(e) => next == LookupView::Done(Err(e)),
                Ok(log) => next == (LookupView::Record { repository, path, operation, log }),
            }
        }),
        ({
            let listed = after_output(
                LookupView::Listed { repository, path, operation, parent, head_name },
                reply,
            );
            let shown = after_output(
                LookupView::Shown { repository, path, operation, parent, head_name },
                reply,
            );
            match read_result(reply) {
                Err(_) => listed == shown && shown == LookupView::Done(
                    Ok(InfoView { diff_base: None, head_name: Some(head_name) }),
                ),
                Ok(bytes) => {
                    &&& shown == LookupView::Done(
                        Ok(InfoView { diff_base: Some(bytes), head_name: Some(head_name) }),
                    )
                    &&& bytes.len() == 0 ==> listed == shown
                    &&& bytes.len() > 0 ==> listed == (LookupView::Shown {
                        repository,
                        path,
                        operation,
                        parent,
                        head_name,
                    })
                },
            }
        }),
{
    if let Ok(bytes) = read_result(reply) {
        if bytes.len() == 0 {
            assert(bytes =~= Seq::<u8>::empty());
        }
    }
}

/// A change with exactly one parent has a base, which is looked up in that parent at the same
/// operation. One with none or several has its label alone, and without a record nothing is known.
pub proof fn only_a_single_parent_is_a_base(
    repository: Seq<Part>,
    path: Seq<Part>,
    operation: Seq<char>,
    log: Seq<u8>,
    change: WorkingCopy,
)
    ensures
        ({
            let lookup = LookupView::Record { repository, path, operation, log };
            let label = short_label(change.change_id@);
            &&& change.parents.len() == 1 ==> after_record(lookup, Some(change)) == (
            LookupView::Listed {
                repository,
                path,
                operation,
                parent: change.parents@[0]@,
                head_name: label,
            })
            &&& change.parents.len() != 1 ==> after_record(lookup, Some(change))
                == LookupView::Done(Ok(InfoView { diff_base: None, head_name: Some(label) }))
            &&& after_record(lookup, None) == LookupView::Done(
                Err(JjErrorView { failure: JjFailure::BadRecord, detail: Seq::empty() }),
            )
        }),
{
}

/// The content of the parent is what was shown of the file where it is listed, nothing at all where
/// it is not, and unknown where one of the two commands failed.
pub proof fn parents_content_is_listed_then_shown(
    listed: CommandOutput,
    shown: CommandOutput,
    reply: Option<CommandOutput>,
)
    ensures
        parent_content(None, reply) is None,
        !listed.success ==> parent_content(Some(listed), reply) is None,
        listed.success && listed.stdout.len() == 0 ==> parent_content(Some(listed), reply) is Some
            && parent_content(Some(listed), reply)->0.len() == 0,
        listed.success && listed.stdout.len() > 0 ==> {
            &&& parent_content(Some(listed), None) is None
            &&& !shown.success ==> parent_content(Some(listed), Some(shown)) is None
            &&& shown.success ==> parent_content(Some(listed), Some(shown)) == Some(shown.stdout@)
        },
{
}

/// What each failure is told as.
pub proof fn failures_are_told(stderr: Seq<u8>, failure: JjFailure)
    ensures
        failure_text(JjFailure::Unresolved) == "resolve symlinks"@,
        failure_text(JjFailure::NotAFile) == " is not a regular file"@,
        failure_text(JjFailure::NoDirectory) == "file has no parent directory"@,
        failure_text(JjFailure::NotStarted) == "failed to invoke jj"@,
        failure_text(JjFailure::RootNotStarted) == "failed to invoke jj workspace root"@,
        failure_text(JjFailure::RootFailed) == "jj workspace root failed: "@,
        failure_text(JjFailure::RootNotUtf8) == "jj workspace root returned non-UTF-8 path"@,
        failure_text(JjFailure::RootEmpty) == "jj workspace root returned an empty path"@,
        failure_text(JjFailure::OutsideWorkspace) == "file is outside jj workspace"@,
        failure_text(JjFailure::OperationNotStarted) == "failed to resolve jj operation"@,
        failure_text(JjFailure::OperationFailed) == "jj op log failed: "@,
        failure_text(JjFailure::OperationEmpty) == "jj op log returned an empty operation ID"@,
        failure_text(JjFailure::OperationNotUtf8) == "jj operation ID is not UTF-8"@,
        failure_text(JjFailure::ReadFailed) == "jj command failed: "@,
        failure_text(JjFailure::BadRecord) == "parse jj log template"@,
        command_error(failure, stderr).failure == failure,
        command_error(failure, stderr).detail == trimmed(lossy(stderr)),
{
}

} // verus!
