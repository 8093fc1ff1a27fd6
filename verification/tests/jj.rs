use helix_files::jj::{
    canonical_file, changed_line, command, diff_args, for_each_changed_file, operation_id,
    run_read, workspace_root, Arg, ChangedLine, ChangedPath, CommandOutput, JjError, JjFailure,
    LineError, Lookup, WorkingCopy, STATUS_TEMPLATE,
};
use helix_files::path::{Component, TreePath};
use helix_files::vcs::{FileChange, FileInfo};

fn path(text: &str) -> TreePath {
    let mut parts = Vec::new();
    if text.starts_with('/') {
        parts.push(Component::RootDir);
    }
    for name in text.split('/') {
        if !name.is_empty() {
            parts.push(Component::Normal(name.as_bytes().to_vec()));
        }
    }
    TreePath::new(parts)
}

fn text(text: &str) -> Arg {
    Arg::Text(text.to_owned())
}

fn succeeded(stdout: &[u8]) -> Option<CommandOutput> {
    Some(CommandOutput { success: true, stdout: stdout.to_vec(), stderr: Vec::new() })
}

fn failed(stderr: &[u8]) -> Option<CommandOutput> {
    Some(CommandOutput { success: false, stdout: b"ignored".to_vec(), stderr: stderr.to_vec() })
}

fn error(failure: JjFailure, detail: &str) -> JjError {
    JjError { failure, detail: detail.to_owned() }
}

fn change(status: &str, source_type: &str, target_type: &str) -> ChangedPath {
    ChangedPath {
        path: path("src/new.rs"),
        status: status.to_owned(),
        source_path: path("src/old.rs"),
        source_type: source_type.to_owned(),
        target_type: target_type.to_owned(),
    }
}

fn line(record: Option<ChangedPath>) -> ChangedLine {
    ChangedLine { line: b"{..}".to_vec(), record }
}

/// A lookup that has got as far as the record of the working-copy change.
fn at_record() -> Lookup {
    Lookup::start(path("/repo/src/a.rs"))
        .with_root(Ok(path("/repo")))
        .with_output(succeeded(b"0f1e"))
        .with_output(succeeded(b"{}"))
}

fn copy_with_parents(parents: Vec<&str>) -> Option<WorkingCopy> {
    Some(WorkingCopy {
        change_id: "abcdefghijkl".to_owned(),
        parents: parents.into_iter().map(str::to_owned).collect(),
    })
}

fn outcome(lookup: Lookup) -> Result<FileInfo, JjError> {
    match lookup {
        Lookup::Done(outcome) => outcome,
        other => panic!("{:?} is not done", other),
    }
}

#[test]
fn commands_are_pinned_and_ignore_the_working_copy() {
    assert_eq!(
        command(&path("/repo"), "0f1e"),
        vec![
            text("--repository"),
            Arg::Path(path("/repo")),
            text("--at-op"),
            text("0f1e"),
            text("--ignore-working-copy"),
            text("--quiet"),
            text("--no-pager"),
            text("--color=never"),
        ]
    );
}

#[test]
fn the_diff_is_limited_to_paths_in_the_repository() {
    let mut expected = command(&path("/repo"), "@");
    for argument in ["diff", "--revision", "@", "--template", STATUS_TEMPLATE] {
        expected.push(text(argument));
    }
    assert_eq!(diff_args(&path("/repo"), &Vec::new()).as_ref(), Some(&expected));

    expected.push(text("--"));
    expected.push(Arg::Path(path("src/a.rs")));
    assert_eq!(
        diff_args(&path("/repo"), &vec![path("/elsewhere"), path("/repo/src/a.rs")]),
        Some(expected)
    );
}

#[test]
fn paths_outside_the_repository_ask_for_nothing() {
    assert_eq!(diff_args(&path("/w"), &vec![path("/x")]), None);
    assert_eq!(diff_args(&path("/w"), &vec![path("/x"), path("/"), path("/wide/a")]), None);
}

#[test]
fn the_workspace_root_is_trimmed() {
    assert_eq!(workspace_root(succeeded(b" /repo \n")), Ok("/repo".to_owned()));
    // U+2003 is white space too.
    assert_eq!(workspace_root(succeeded("\u{2003}/a b\u{2003}".as_bytes())), Ok("/a b".to_owned()));
    // U+200B and U+180E are not.
    assert_eq!(
        workspace_root(succeeded("\u{200b}/a\u{180e}\u{3000}\u{85}".as_bytes())),
        Ok("\u{200b}/a\u{180e}".to_owned())
    );
    for space in [
        "\t", "\u{b}", "\r", " ", "\u{85}", "\u{a0}", "\u{1680}", "\u{2000}", "\u{200a}",
        "\u{2028}", "\u{2029}", "\u{202f}", "\u{205f}", "\u{3000}",
    ] {
        let reply = succeeded(format!("{}/a{}", space, space).as_bytes());
        assert_eq!(workspace_root(reply), Ok("/a".to_owned()));
    }
    assert_eq!(workspace_root(None), Err(error(JjFailure::RootNotStarted, "")));
    assert_eq!(
        workspace_root(failed(b"no repo here\n")),
        Err(error(JjFailure::RootFailed, "no repo here"))
    );
    assert_eq!(
        workspace_root(succeeded(b"/\xff")),
        Err(error(JjFailure::RootNotUtf8, ""))
    );
    assert_eq!(workspace_root(succeeded(b" \n")), Err(error(JjFailure::RootEmpty, "")));
}

#[test]
fn failing_commands_report_their_error_stream() {
    assert_eq!(run_read(succeeded(b" raw \n")), Ok(b" raw \n".to_vec()));
    assert_eq!(run_read(None), Err(error(JjFailure::NotStarted, "")));
    // What is no UTF-8 is shown as U+FFFD.
    let failure = run_read(failed(b"\tbad \xff byte\n")).unwrap_err();
    assert_eq!(failure, error(JjFailure::ReadFailed, "bad \u{fffd} byte"));
    assert_eq!(failure.message(), "jj command failed: bad \u{fffd} byte");
}

#[test]
fn an_operation_has_an_id() {
    assert_eq!(operation_id(succeeded(b"0f1e")), Ok(b"0f1e".to_vec()));
    assert_eq!(operation_id(None), Err(error(JjFailure::OperationNotStarted, "")));
    assert_eq!(operation_id(failed(b"oops")), Err(error(JjFailure::OperationFailed, "oops")));
    assert_eq!(operation_id(succeeded(b"")), Err(error(JjFailure::OperationEmpty, "")));
}

#[test]
fn only_regular_files_are_looked_up() {
    assert_eq!(canonical_file(Some(path("/repo/a")), true, "/repo/a"), Ok(path("/repo/a")));
    let failure = canonical_file(Some(path("/repo/a")), false, "/repo/a").unwrap_err();
    assert_eq!(failure, error(JjFailure::NotAFile, "/repo/a"));
    assert_eq!(failure.message(), "/repo/a is not a regular file");
    assert_eq!(canonical_file(None, false, ""), Err(error(JjFailure::Unresolved, "")));
}

#[test]
fn a_lookup_reads_base_and_label_at_one_operation() {
    let lookup = Lookup::start(path("/repo/src/a.rs"));
    assert_eq!(lookup.directory(), Some(path("/repo/src")));
    assert_eq!(
        lookup.request(),
        Some(vec![
            text("--at-op=@"),
            text("--ignore-working-copy"),
            text("--quiet"),
            text("--no-pager"),
            text("--color=never"),
            text("workspace"),
            text("root"),
        ])
    );

    let lookup = lookup.with_root(Ok(path("/repo")));
    assert_eq!(lookup.directory(), Some(path("/repo")));
    let mut expected = command(&path("/repo"), "@");
    for argument in ["op", "log", "--no-graph", "--limit", "1", "--template", "self.id()"] {
        expected.push(text(argument));
    }
    assert_eq!(lookup.request(), Some(expected));

    let lookup = lookup.with_output(succeeded(b"0f1e"));
    let mut expected = command(&path("/repo"), "0f1e");
    for argument in ["log", "--no-graph", "--revision", "@", "--template", "json(self)"] {
        expected.push(text(argument));
    }
    assert_eq!(lookup.request(), Some(expected));

    let lookup = lookup.with_output(succeeded(b"{}"));
    assert_eq!(lookup.request(), None);
    assert_eq!(lookup.directory(), None);

    let mut lookup = lookup.with_record(copy_with_parents(vec!["parent"]));
    for verb in ["list", "show"] {
        let mut expected = command(&path("/repo"), "0f1e");
        for argument in ["file", verb, "--revision", "parent", "--"] {
            expected.push(text(argument));
        }
        expected.push(Arg::Path(path("src/a.rs")));
        assert_eq!(lookup.request(), Some(expected));
        lookup = lookup.with_output(succeeded(b"base\n"));
    }
    assert_eq!(
        outcome(lookup),
        Ok(FileInfo {
            diff_base: Some(b"base\n".to_vec()),
            head_name: Some("abcdefgh".to_owned()),
        })
    );
}

#[test]
fn a_file_that_the_parent_lacks_has_an_empty_base() {
    let lookup = at_record().with_record(copy_with_parents(vec!["parent"]));
    assert_eq!(outcome(lookup.with_output(succeeded(b""))).unwrap().diff_base, Some(Vec::new()));
}

#[test]
fn a_merge_has_a_label_but_no_base() {
    for parents in [vec![], vec!["left", "right"]] {
        let info = outcome(at_record().with_record(copy_with_parents(parents))).unwrap();
        assert_eq!(info.diff_base, None);
        assert_eq!(info.head_name, Some("abcdefgh".to_owned()));
    }
}

#[test]
fn a_short_change_id_is_its_own_label() {
    let record = Some(WorkingCopy { change_id: "äb".to_owned(), parents: Vec::new() });
    let info = outcome(at_record().with_record(record)).unwrap();
    assert_eq!(info.head_name, Some("äb".to_owned()));
}

#[test]
fn a_base_that_cannot_be_read_is_no_failure() {
    let listed = at_record().with_record(copy_with_parents(vec!["parent"]));
    let info = outcome(listed.with_output(failed(b"gone"))).unwrap();
    assert_eq!(info.diff_base, None);
    let shown = at_record()
        .with_record(copy_with_parents(vec!["parent"]))
        .with_output(succeeded(b"src/a.rs\n"));
    let info = outcome(shown.with_output(None)).unwrap();
    assert_eq!(info.diff_base, None);
    assert_eq!(info.head_name, Some("abcdefgh".to_owned()));
}

#[test]
fn a_lookup_fails_where_nothing_can_be_found() {
    let start = || Lookup::start(path("/repo/a"));
    assert_eq!(
        outcome(Lookup::start(path("/"))),
        Err(error(JjFailure::NoDirectory, ""))
    );
    assert_eq!(
        outcome(start().with_root(Err(error(JjFailure::RootEmpty, "")))),
        Err(error(JjFailure::RootEmpty, ""))
    );
    assert_eq!(
        outcome(start().with_root(Ok(path("/other")))),
        Err(error(JjFailure::OutsideWorkspace, ""))
    );
    let operation = || start().with_root(Ok(path("/repo")));
    assert_eq!(
        outcome(operation().with_output(succeeded(b"\xfe"))),
        Err(error(JjFailure::OperationNotUtf8, ""))
    );
    assert_eq!(
        outcome(operation().with_output(None)),
        Err(error(JjFailure::OperationNotStarted, ""))
    );
    let log = || operation().with_output(succeeded(b"0f1e"));
    assert_eq!(
        outcome(log().with_output(failed(b"broken"))),
        Err(error(JjFailure::ReadFailed, "broken"))
    );
    assert_eq!(
        outcome(at_record().with_record(None)),
        Err(error(JjFailure::BadRecord, ""))
    );
}

#[test]
fn failures_are_worded() {
    let message = |failure: JjFailure| error(failure, "x").message();
    assert_eq!(message(JjFailure::Unresolved), "resolve symlinksx");
    assert_eq!(message(JjFailure::NotAFile), "x is not a regular file");
    assert_eq!(message(JjFailure::NoDirectory), "file has no parent directoryx");
    assert_eq!(message(JjFailure::NotStarted), "failed to invoke jjx");
    assert_eq!(message(JjFailure::RootNotStarted), "failed to invoke jj workspace rootx");
    assert_eq!(message(JjFailure::RootFailed), "jj workspace root failed: x");
    assert_eq!(message(JjFailure::RootNotUtf8), "jj workspace root returned non-UTF-8 pathx");
    assert_eq!(message(JjFailure::RootEmpty), "jj workspace root returned an empty pathx");
    assert_eq!(message(JjFailure::OutsideWorkspace), "file is outside jj workspacex");
    assert_eq!(message(JjFailure::OperationNotStarted), "failed to resolve jj operationx");
    assert_eq!(message(JjFailure::OperationFailed), "jj op log failed: x");
    assert_eq!(message(JjFailure::OperationEmpty), "jj op log returned an empty operation IDx");
    assert_eq!(message(JjFailure::OperationNotUtf8), "jj operation ID is not UTF-8x");
    assert_eq!(message(JjFailure::BadRecord), "parse jj log templatex");
}

#[test]
fn reported_changes_follow_their_status() {
    let repository = path("/repo");
    let report = |status: &str, source_type: &str, target_type: &str| {
        changed_line(&repository, line(Some(change(status, source_type, target_type))))
    };
    let new = || path("/repo/src/new.rs");
    assert_eq!(report("added", "", "file"), Some(Ok(FileChange::Untracked { path: new() })));
    assert_eq!(report("modified", "file", "file"), Some(Ok(FileChange::Modified { path: new() })));
    assert_eq!(
        report("modified", "file", "conflict"),
        Some(Ok(FileChange::Conflict { path: new() }))
    );
    assert_eq!(report("removed", "file", ""), Some(Ok(FileChange::Deleted { path: new() })));
    for status in ["copied", "renamed"] {
        assert_eq!(
            report(status, "file", "file"),
            Some(Ok(FileChange::Renamed {
                from_path: path("/repo/src/old.rs"),
                to_path: new(),
            }))
        );
    }
    assert_eq!(
        report("vanished", "file", "tree"),
        Some(Err(LineError::Unsupported("vanished".to_owned())))
    );
}

#[test]
fn changes_to_directories_and_submodules_are_not_reported() {
    let repository = path("/repo");
    let report = |source_type: &str, target_type: &str| {
        changed_line(&repository, line(Some(change("modified", source_type, target_type))))
    };
    assert_eq!(report("file", "tree"), None);
    assert_eq!(report("file", "git-submodule"), None);
    assert!(report("", "git-submodule").is_some());
}

#[test]
fn empty_and_broken_lines() {
    let repository = path("/repo");
    let empty = ChangedLine { line: Vec::new(), record: Some(change("added", "", "file")) };
    assert_eq!(changed_line(&repository, empty), None);
    assert_eq!(changed_line(&repository, line(None)), Some(Err(LineError::Unparsed)));
}

#[test]
fn line_errors_are_worded() {
    assert_eq!(LineError::Unparsed.message(), "parse jj diff template");
    let error = LineError::Unsupported("vanished".to_owned());
    assert_eq!(error.message(), "unsupported jj diff status vanished");
}

#[test]
fn lines_are_told_in_order() {
    let lines = || {
        vec![
            line(Some(change("added", "", "file"))),
            ChangedLine { line: Vec::new(), record: None },
            line(None),
            line(Some(change("modified", "file", "tree"))),
            line(Some(change("removed", "file", ""))),
        ]
    };
    let expected = vec![
        Ok(FileChange::Untracked { path: path("/repo/src/new.rs") }),
        Err(LineError::Unparsed),
        Ok(FileChange::Deleted { path: path("/repo/src/new.rs") }),
    ];
    assert_eq!(for_each_changed_file(&path("/repo"), lines()), expected);
    let mut portions = Vec::new();
    for single in lines() {
        portions.extend(for_each_changed_file(&path("/repo"), vec![single]));
    }
    assert_eq!(portions, expected);
    assert_eq!(for_each_changed_file(&path("/repo"), Vec::new()), Vec::new());
}
