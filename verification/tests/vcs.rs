use helix_files::path::{Component, TreePath};
use helix_files::vcs::{
    ChangeInquiry, DiffProvider, DiffProviderRegistry, FileInfo, FileInquiry, Iteration, VcsError,
};

fn file() -> TreePath {
    TreePath::new(vec![Component::RootDir, Component::Normal(b"a".to_vec())])
}

fn info() -> FileInfo {
    FileInfo { diff_base: Some(b"base".to_vec()), head_name: Some("abcdefgh".to_owned()) }
}

fn broken() -> VcsError {
    VcsError::Provider("broken".to_owned())
}

#[test]
fn the_default_registry_asks_jj() {
    let registry = DiffProviderRegistry::default();
    assert_eq!(registry.providers, vec![DiffProvider::Jj, DiffProvider::Unsupported]);
    assert_eq!(registry.get_file_info(0, None), FileInquiry::Ask(DiffProvider::Jj));
    assert_eq!(registry.get_file_info(1, Some(info())), FileInquiry::Done(info()));
    assert_eq!(registry.clone().providers, registry.providers);
}

#[test]
fn without_an_answer_nothing_is_known() {
    let registry = DiffProviderRegistry::default();
    assert_eq!(registry.get_file_info(1, None), FileInquiry::Ask(DiffProvider::Unsupported));
    assert_eq!(registry.get_file_info(2, None), FileInquiry::Done(FileInfo::default()));
    assert_eq!(FileInfo::default(), FileInfo { diff_base: None, head_name: None });
    let empty = DiffProviderRegistry { providers: Vec::new() };
    assert_eq!(empty.get_file_info(0, None), FileInquiry::Done(FileInfo::default()));
}

#[test]
fn providers_are_asked_in_order() {
    let registry =
        DiffProviderRegistry { providers: vec![DiffProvider::Unsupported, DiffProvider::Jj] };
    let mut order = Vec::new();
    let mut answer = None;
    let known = loop {
        match registry.get_file_info(order.len(), answer.take()) {
            FileInquiry::Done(known) => break known,
            FileInquiry::Ask(provider) => {
                order.push(provider);
                answer = provider.get_file_info(&file(), |_: &TreePath| Ok(info())).ok();
            }
        }
    };
    assert_eq!(known, info());
    assert_eq!(order, registry.providers);
    assert_eq!(
        DiffProvider::Unsupported.get_file_info(&file(), |_: &TreePath| Ok(info())),
        Err(VcsError::NoDiffSupport)
    );
    assert_eq!(
        DiffProvider::Jj.get_file_info(&file(), |_: &TreePath| Err(broken())),
        Err(broken())
    );
}

#[test]
fn iteration_ends_with_the_first_success() {
    let registry = DiffProviderRegistry::default();
    let paths = vec![file()];
    assert_eq!(
        registry.for_each_changed_file_in(&paths, 0, false),
        ChangeInquiry::Ask { provider: DiffProvider::Jj, paths: vec![file()] }
    );
    assert_eq!(registry.for_each_changed_file_in(&paths, 1, true), ChangeInquiry::Done(Ok(())));
    assert_eq!(
        registry.for_each_changed_file_in(&paths, 1, false),
        ChangeInquiry::Ask { provider: DiffProvider::Unsupported, paths: vec![file()] }
    );
    assert_eq!(
        registry.for_each_changed_file_in(&paths, 2, false),
        ChangeInquiry::Done(Err(VcsError::NoProvider))
    );
    let accepted = |_: &TreePath, _: &Vec<TreePath>| Ok(());
    assert_eq!(
        DiffProvider::Unsupported.for_each_changed_file(&file(), &paths, accepted),
        Err(VcsError::NoDiffSupport)
    );
    let refused = |_: &TreePath, _: &Vec<TreePath>| Err(broken());
    assert_eq!(DiffProvider::Jj.for_each_changed_file(&file(), &paths, refused), Err(broken()));
}

#[test]
fn the_whole_workspace_is_asked_for_with_no_paths() {
    let registry = DiffProviderRegistry::default();
    assert_eq!(
        registry.for_each_changed_file(0, false),
        ChangeInquiry::Ask { provider: DiffProvider::Jj, paths: Vec::new() }
    );
    assert_eq!(registry.for_each_changed_file(1, true), ChangeInquiry::Done(Ok(())));
    assert_eq!(
        registry.for_each_changed_file(2, false),
        ChangeInquiry::Done(Err(VcsError::NoProvider))
    );
}

#[test]
fn provider_errors_are_worded() {
    assert_eq!(VcsError::NoDiffSupport.message(), "No diff support compiled in");
    assert_eq!(VcsError::NoProvider.message(), "no diff provider returns success");
    assert_eq!(broken().message(), "broken");
}

#[test]
fn a_listener_that_wants_no_more_is_told_nothing() {
    let mut iteration = Iteration::new();
    assert_eq!(iteration.offer(1u8), Some(1u8));
    iteration.answered(true);
    assert_eq!(iteration.offer(2u8), Some(2u8));
    assert_eq!(iteration.closing(Err(VcsError::NoProvider)), Some(VcsError::NoProvider));
    assert_eq!(iteration.closing(Ok(())), None);
    iteration.answered(false);
    assert_eq!(iteration.offer(3u8), None);
    assert_eq!(iteration.closing(Err(VcsError::NoProvider)), None);
    iteration.answered(true);
    assert!(iteration.stopped);
}
