use file_deduplication::actions::{
    perform_action, ActionResult, ActionRun, FileOperation, FsReply, FsRequest,
};
use file_deduplication::dedup::perform_deduplication;
use file_deduplication::{DedupAction, DedupResult, FileInfo};
use std::cell::RefCell;
use std::collections::{BTreeMap, BTreeSet};

fn record(path: &str, size: u64, hash: &str) -> FileInfo {
    FileInfo { path: path.to_string(), size, hash: hash.to_string(), modified: 0 }
}

/// A file system in memory: files with their sizes, directories, links,
/// the requests that are to fail, and every request that was made.
#[derive(Clone, Debug, PartialEq)]
struct State {
    files: BTreeMap<String, u64>,
    dirs: BTreeSet<String>,
    links: BTreeMap<String, String>,
}

struct FakeFs {
    state: RefCell<State>,
    failing: Vec<FsRequest>,
    log: RefCell<Vec<FsRequest>>,
}

impl FakeFs {
    fn new(files: &[(&str, u64)]) -> FakeFs {
        let mut map = BTreeMap::new();
        for (path, size) in files {
            map.insert(path.to_string(), *size);
        }
        FakeFs {
            state: RefCell::new(State { files: map, dirs: BTreeSet::new(), links: BTreeMap::new() }),
            failing: Vec::new(),
            log: RefCell::new(Vec::new()),
        }
    }

    fn snapshot(&self) -> State {
        self.state.borrow().clone()
    }

    fn has(&self, path: &str) -> bool {
        self.state.borrow().files.contains_key(path)
    }

    fn answer(&self, request: FsRequest) -> FsReply {
        self.log.borrow_mut().push(request.clone());
        if self.failing.contains(&request) {
            return FsReply::Failed("refused".to_string());
        }
        let mut state = self.state.borrow_mut();
        match request {
            FsRequest::FileSize { path } => match state.files.get(&path) {
                Some(size) => FsReply::Size(*size),
                None => FsReply::Failed("no such file".to_string()),
            },
            FsRequest::CreateDirAll { path } => {
                state.dirs.insert(path);
                FsReply::Done
            }
            FsRequest::Exists { path } => FsReply::Exists(
                state.files.contains_key(&path)
                    || state.dirs.contains(&path)
                    || state.links.contains_key(&path),
            ),
            FsRequest::RemoveFile { path } => match state.files.remove(&path) {
                Some(_) => FsReply::Done,
                None => FsReply::Failed("no such file".to_string()),
            },
            FsRequest::Rename { from, to } => match state.files.remove(&from) {
                Some(size) => {
                    state.files.insert(to, size);
                    FsReply::Done
                }
                None => FsReply::Failed("no such file".to_string()),
            },
            FsRequest::HardLink { original, link } => {
                state.links.insert(link, original);
                FsReply::Done
            }
            FsRequest::Symlink { original, link } => {
                state.links.insert(link, original);
                FsReply::Done
            }
        }
    }
}

fn changes(request: &FsRequest) -> bool {
    !matches!(request, FsRequest::FileSize { .. } | FsRequest::Exists { .. })
}

fn done(path: &str, action: &str, size: u64) -> FileOperation {
    FileOperation {
        path: path.to_string(),
        action: action.to_string(),
        success: true,
        error: None,
        space_saved: size,
    }
}

fn failed(path: &str, action: &str, message: &str) -> FileOperation {
    FileOperation {
        path: path.to_string(),
        action: action.to_string(),
        success: false,
        error: Some(message.to_string()),
        space_saved: 0,
    }
}

fn three_copies() -> Vec<FileInfo> {
    vec![record("one/a", 100, "h"), record("one/b", 100, "h"), record("two/c", 100, "h")]
}

#[test]
fn test_delete_removes_every_copy_but_the_keeper() {
    let fs = FakeFs::new(&[("one/a", 100), ("one/b", 100), ("two/c", 100), ("two/d", 50)]);
    let result = perform_action(&three_copies(), &DedupAction::Delete, false, &|r| fs.answer(r));
    assert_eq!(result.total_files_processed(), 2);
    assert_eq!(result.total_space_saved(), 200);
    assert_eq!(result.success_count(), 2);
    assert_eq!(result.error_count(), 0);
    assert_eq!(
        result.operations(),
        &vec![done("one/b", "delete", 100), done("two/c", "delete", 100)]
    );
    assert!(fs.has("one/a"));
    assert!(!fs.has("one/b"));
    assert!(!fs.has("two/c"));
    assert!(fs.has("two/d"));
    assert_eq!(
        fs.log.borrow().clone(),
        vec![
            FsRequest::FileSize { path: "one/b".to_string() },
            FsRequest::RemoveFile { path: "one/b".to_string() },
            FsRequest::FileSize { path: "two/c".to_string() },
            FsRequest::RemoveFile { path: "two/c".to_string() },
        ]
    );
}

#[test]
fn test_dry_run_reports_the_same_and_changes_nothing() {
    let files = [("one/a", 100), ("one/b", 100), ("two/c", 100), ("t/b", 1)];
    let actions = [
        DedupAction::Delete,
        DedupAction::Move("t".to_string()),
        DedupAction::Hardlink,
        DedupAction::Symlink,
    ];
    for action in actions {
        let dry_fs = FakeFs::new(&files);
        let before = dry_fs.snapshot();
        let dry = perform_action(&three_copies(), &action, true, &|r| dry_fs.answer(r));
        assert_eq!(dry_fs.snapshot(), before);
        assert!(dry_fs.log.borrow().iter().all(|r| !changes(r)));

        let live_fs = FakeFs::new(&files);
        let live = perform_action(&three_copies(), &action, false, &|r| live_fs.answer(r));
        assert_ne!(live_fs.snapshot(), before);

        assert_eq!(dry.operations(), live.operations());
        assert_eq!(dry.total_space_saved(), live.total_space_saved());
        assert_eq!(dry.total_files_processed(), live.total_files_processed());
        assert_eq!(dry.success_count(), live.success_count());
        assert_eq!(dry.error_count(), live.error_count());
        assert_eq!(dry.total_space_saved(), 200);
    }
}

#[test]
fn test_move_numbers_a_name_that_is_taken() {
    let group = vec![record("keep/a.txt", 5, "h"), record("x/a.txt", 5, "h"), record("y/a.txt", 5, "h")];
    let fs = FakeFs::new(&[("keep/a.txt", 5), ("x/a.txt", 5), ("y/a.txt", 5), ("target/a.txt", 9)]);
    let action = DedupAction::Move("target".to_string());
    let result = perform_action(&group, &action, false, &|r| fs.answer(r));
    assert_eq!(
        result.operations(),
        &vec![done("x/a.txt", "move", 5), done("y/a.txt", "move", 5)]
    );
    assert!(fs.has("target/a.txt"));
    assert!(fs.has("target/a_1.txt"));
    assert!(fs.has("target/a_2.txt"));
    assert!(fs.has("keep/a.txt"));
    assert!(!fs.has("x/a.txt"));
    assert!(!fs.has("y/a.txt"));
    assert_eq!(
        fs.log.borrow().clone(),
        vec![
            FsRequest::FileSize { path: "x/a.txt".to_string() },
            FsRequest::CreateDirAll { path: "target".to_string() },
            FsRequest::Exists { path: "target/a.txt".to_string() },
            FsRequest::Exists { path: "target/a_1.txt".to_string() },
            FsRequest::Rename { from: "x/a.txt".to_string(), to: "target/a_1.txt".to_string() },
            FsRequest::FileSize { path: "y/a.txt".to_string() },
            FsRequest::CreateDirAll { path: "target".to_string() },
            FsRequest::Exists { path: "target/a.txt".to_string() },
            FsRequest::Exists { path: "target/a_1.txt".to_string() },
            FsRequest::Exists { path: "target/a_2.txt".to_string() },
            FsRequest::Rename { from: "y/a.txt".to_string(), to: "target/a_2.txt".to_string() },
        ]
    );
}

#[test]
fn test_move_keeps_a_free_name_and_handles_names_without_extension() {
    let group = vec![record("k/notes", 1, "h"), record("x/notes", 1, "h"), record("y/.env", 1, "h")];
    let fs = FakeFs::new(&[("k/notes", 1), ("x/notes", 1), ("y/.env", 1), ("t/.env", 1)]);
    let result =
        perform_action(&group, &DedupAction::Move("t/".to_string()), false, &|r| fs.answer(r));
    assert_eq!(result.success_count(), 2);
    assert!(fs.has("t/notes"));
    assert!(fs.has("t/.env_1"));
}

#[test]
fn test_dry_run_move_creates_no_directory() {
    let group = vec![record("k/a.txt", 5, "h"), record("x/a.txt", 5, "h")];
    let fs = FakeFs::new(&[("k/a.txt", 5), ("x/a.txt", 5)]);
    let result =
        perform_action(&group, &DedupAction::Move("target".to_string()), true, &|r| fs.answer(r));
    assert_eq!(result.operations(), &vec![done("x/a.txt", "move", 5)]);
    assert!(fs.state.borrow().dirs.is_empty());
    assert_eq!(
        fs.log.borrow().clone(),
        vec![
            FsRequest::FileSize { path: "x/a.txt".to_string() },
            FsRequest::Exists { path: "target/a.txt".to_string() },
        ]
    );
}

#[test]
fn test_move_of_a_path_without_file_name_fails() {
    let group = vec![record("k/a", 5, "h"), record("x/", 5, "h"), record("y/a", 5, "h")];
    let fs = FakeFs::new(&[("k/a", 5), ("x/", 5), ("y/a", 5)]);
    let result =
        perform_action(&group, &DedupAction::Move("t".to_string()), false, &|r| fs.answer(r));
    assert_eq!(
        result.operations(),
        &vec![
            failed("x/", "move", "Failed to move: path has no file name"),
            done("y/a", "move", 5),
        ]
    );
}

#[test]
fn test_failed_directory_creation_is_recorded() {
    let group = vec![record("k/a", 5, "h"), record("x/a", 5, "h")];
    let mut fs = FakeFs::new(&[("k/a", 5), ("x/a", 5)]);
    fs.failing.push(FsRequest::CreateDirAll { path: "t".to_string() });
    let result =
        perform_action(&group, &DedupAction::Move("t".to_string()), false, &|r| fs.answer(r));
    assert_eq!(
        result.operations(),
        &vec![failed("x/a", "move", "Failed to create target directory: refused")]
    );
    assert!(fs.has("x/a"));
}

#[test]
fn test_failed_rename_is_recorded() {
    let group = vec![record("k/a", 5, "h"), record("x/a", 5, "h")];
    let mut fs = FakeFs::new(&[("k/a", 5), ("x/a", 5)]);
    fs.failing.push(FsRequest::Rename { from: "x/a".to_string(), to: "t/a".to_string() });
    let result =
        perform_action(&group, &DedupAction::Move("t".to_string()), false, &|r| fs.answer(r));
    assert_eq!(result.operations(), &vec![failed("x/a", "move", "Failed to move: refused")]);
}

#[test]
fn test_hardlink_removes_then_links() {
    let fs = FakeFs::new(&[("one/a", 100), ("one/b", 100), ("two/c", 100)]);
    let result = perform_action(&three_copies(), &DedupAction::Hardlink, false, &|r| fs.answer(r));
    assert_eq!(
        result.operations(),
        &vec![done("one/b", "hardlink", 100), done("two/c", "hardlink", 100)]
    );
    assert_eq!(fs.state.borrow().links.get("one/b"), Some(&"one/a".to_string()));
    assert_eq!(fs.state.borrow().links.get("two/c"), Some(&"one/a".to_string()));
    assert_eq!(
        fs.log.borrow()[..3].to_vec(),
        vec![
            FsRequest::FileSize { path: "one/b".to_string() },
            FsRequest::RemoveFile { path: "one/b".to_string() },
            FsRequest::HardLink { original: "one/a".to_string(), link: "one/b".to_string() },
        ]
    );
}

#[test]
fn test_symlink_removes_then_links() {
    let fs = FakeFs::new(&[("one/a", 100), ("one/b", 100), ("two/c", 100)]);
    let result = perform_action(&three_copies(), &DedupAction::Symlink, false, &|r| fs.answer(r));
    assert_eq!(
        result.operations(),
        &vec![done("one/b", "symlink", 100), done("two/c", "symlink", 100)]
    );
    assert_eq!(
        fs.log.borrow()[2],
        FsRequest::Symlink { original: "one/a".to_string(), link: "one/b".to_string() }
    );
}

#[test]
fn test_failed_link_leaves_the_copy_removed_and_goes_on() {
    let mut fs = FakeFs::new(&[("one/a", 100), ("one/b", 100), ("two/c", 100)]);
    fs.failing.push(FsRequest::HardLink { original: "one/a".to_string(), link: "one/b".to_string() });
    let result = perform_action(&three_copies(), &DedupAction::Hardlink, false, &|r| fs.answer(r));
    assert_eq!(
        result.operations(),
        &vec![
            failed("one/b", "hardlink", "Failed to create hardlink: refused"),
            done("two/c", "hardlink", 100),
        ]
    );
    assert!(!fs.has("one/b"));
    assert_eq!(fs.state.borrow().links.get("one/b"), None);
    assert_eq!(result.success_count(), 1);
    assert_eq!(result.error_count(), 1);
    assert_eq!(result.total_space_saved(), 100);
}

#[test]
fn test_failed_removal_before_linking_is_told_apart() {
    let mut fs = FakeFs::new(&[("one/a", 100), ("one/b", 100), ("two/c", 100)]);
    fs.failing.push(FsRequest::RemoveFile { path: "one/b".to_string() });
    let hard = perform_action(&three_copies(), &DedupAction::Hardlink, false, &|r| fs.answer(r));
    assert_eq!(
        hard.operations()[0],
        failed("one/b", "hardlink", "Failed to remove duplicate before hardlinking: refused")
    );
    assert!(fs.has("one/b"));
    let sym = perform_action(&three_copies()[..2], &DedupAction::Symlink, false, &|r| fs.answer(r));
    assert_eq!(
        sym.operations(),
        &vec![failed("one/b", "symlink", "Failed to remove duplicate before symlinking: refused")]
    );
    let mut fs = FakeFs::new(&[("one/a", 100), ("one/b", 100)]);
    fs.failing.push(FsRequest::Symlink { original: "one/a".to_string(), link: "one/b".to_string() });
    let sym = perform_action(&three_copies()[..2], &DedupAction::Symlink, false, &|r| fs.answer(r));
    assert_eq!(
        sym.operations(),
        &vec![failed("one/b", "symlink", "Failed to create symlink: refused")]
    );
}

#[test]
fn test_failed_delete_does_not_stop_the_others() {
    let mut fs = FakeFs::new(&[("one/a", 100), ("one/b", 100), ("two/c", 100)]);
    fs.failing.push(FsRequest::RemoveFile { path: "one/b".to_string() });
    let result = perform_action(&three_copies(), &DedupAction::Delete, false, &|r| fs.answer(r));
    assert_eq!(
        result.operations(),
        &vec![failed("one/b", "delete", "Failed to delete: refused"), done("two/c", "delete", 100)]
    );
    assert!(fs.has("one/b"));
    assert!(!fs.has("two/c"));
    assert_eq!(result.total_space_saved(), 100);
    assert_eq!(result.total_files_processed(), 2);
}

#[test]
fn test_unknown_size_is_a_failure_of_that_copy() {
    let fs = FakeFs::new(&[("one/a", 100), ("two/c", 100)]);
    let result = perform_action(&three_copies(), &DedupAction::Delete, true, &|r| fs.answer(r));
    assert_eq!(
        result.operations(),
        &vec![
            failed("one/b", "delete", "Failed to get metadata: no such file"),
            done("two/c", "delete", 100),
        ]
    );
}

#[test]
fn test_answer_of_the_wrong_kind_is_a_failure() {
    let result = perform_action(&three_copies(), &DedupAction::Delete, false, &|_| FsReply::Done);
    assert_eq!(
        result.operations(),
        &vec![
            failed("one/b", "delete", "Failed to get metadata: unexpected reply"),
            failed("two/c", "delete", "Failed to get metadata: unexpected reply"),
        ]
    );
}

#[test]
fn test_reported_size_is_the_one_reclaimed() {
    let fs = FakeFs::new(&[("one/a", 100), ("one/b", 70), ("two/c", u64::MAX)]);
    let result = perform_action(&three_copies(), &DedupAction::Delete, false, &|r| fs.answer(r));
    assert_eq!(result.total_space_saved(), 70 + u64::MAX as u128);
    let fs = FakeFs::new(&[("one/a", 100), ("one/b", u64::MAX), ("two/c", u64::MAX)]);
    let result = perform_action(&three_copies(), &DedupAction::Delete, true, &|r| fs.answer(r));
    assert_eq!(result.total_space_saved(), 2 * (u64::MAX as u128));
}

#[test]
fn test_list_does_nothing() {
    let fs = FakeFs::new(&[("one/a", 100), ("one/b", 100), ("two/c", 100)]);
    let before = fs.snapshot();
    let result = perform_action(&three_copies(), &DedupAction::List, false, &|r| fs.answer(r));
    assert!(result.operations().is_empty());
    assert_eq!(result.total_files_processed(), 0);
    assert!(fs.log.borrow().is_empty());
    assert_eq!(fs.snapshot(), before);
}

#[test]
fn test_groups_without_copies_need_nothing() {
    let fs = FakeFs::new(&[("one/a", 100)]);
    let single = perform_action(&three_copies()[..1], &DedupAction::Delete, false, &|r| fs.answer(r));
    assert!(single.operations().is_empty());
    let none = perform_action(&[], &DedupAction::Delete, false, &|r| fs.answer(r));
    assert!(none.operations().is_empty());
    assert!(fs.log.borrow().is_empty());
    assert!(fs.has("one/a"));
}

#[test]
fn test_run_step_by_step() {
    let group = three_copies();
    let action = DedupAction::Hardlink;
    let mut run = ActionRun::new(&group, &action, false);
    assert!(!run.is_finished());
    assert_eq!(run.pending(), Some(FsRequest::FileSize { path: "one/b".to_string() }));
    run.advance(FsReply::Size(100));
    assert_eq!(run.pending(), Some(FsRequest::RemoveFile { path: "one/b".to_string() }));
    run.advance(FsReply::Done);
    assert_eq!(
        run.pending(),
        Some(FsRequest::HardLink { original: "one/a".to_string(), link: "one/b".to_string() })
    );
    assert!(run.result().operations().is_empty());
    run.advance(FsReply::Failed("no space".to_string()));
    assert_eq!(
        run.result().operations(),
        &vec![failed("one/b", "hardlink", "Failed to create hardlink: no space")]
    );
    assert_eq!(run.pending(), Some(FsRequest::FileSize { path: "two/c".to_string() }));
    run.advance(FsReply::Size(100));
    run.advance(FsReply::Done);
    assert!(!run.is_finished());
    run.advance(FsReply::Done);
    assert!(run.is_finished());
    assert_eq!(run.pending(), None);
    run.advance(FsReply::Done);
    let result = run.into_result();
    assert_eq!(result.total_files_processed(), 2);
    assert_eq!(result.total_space_saved(), 100);
}

#[test]
fn test_probing_gives_up_at_the_last_number() {
    let group = vec![record("k/a", 5, "h"), record("x/a", 5, "h")];
    let action = DedupAction::Move("t".to_string());
    let mut run = ActionRun::new(&group, &action, true);
    run.advance(FsReply::Size(5));
    assert_eq!(run.pending(), Some(FsRequest::Exists { path: "t/a".to_string() }));
    run.advance(FsReply::Exists(true));
    assert_eq!(run.pending(), Some(FsRequest::Exists { path: "t/a_1".to_string() }));
    run.advance(FsReply::Exists(false));
    assert!(run.is_finished());
    assert_eq!(run.result().operations(), &vec![done("x/a", "move", 5)]);
}

#[test]
fn test_action_result_totals() {
    let mut result = ActionResult::new();
    assert_eq!(result.total_files_processed(), 0);
    assert_eq!(result.total_space_saved(), 0);
    assert_eq!(result.success_count(), 0);
    assert_eq!(result.error_count(), 0);
    result.add_operation(done("a", "delete", 10));
    result.add_operation(failed("b", "delete", "Failed to delete: x"));
    result.add_operation(done("c", "delete", 5));
    assert_eq!(result.total_files_processed(), 3);
    assert_eq!(result.total_space_saved(), 15);
    assert_eq!(result.success_count(), 2);
    assert_eq!(result.error_count(), 1);
    assert_eq!(result.operations()[1].error, Some("Failed to delete: x".to_string()));

    let mut other = ActionResult::new();
    other.add_operation(done("d", "move", 7));
    result.merge(other);
    assert_eq!(result.total_files_processed(), 4);
    assert_eq!(result.total_space_saved(), 22);
    assert_eq!(result.operations()[3], done("d", "move", 7));
}

#[test]
fn test_perform_deduplication_over_all_groups() {
    let mut scan = DedupResult::new();
    for (path, size, hash) in
        [("a1", 10, "a"), ("b1", 20, "b"), ("a2", 10, "a"), ("c1", 30, "c"), ("b2", 20, "b"), ("a3", 10, "a")]
    {
        scan.add_file(record(path, size, hash)).unwrap();
    }
    let mut fs = FakeFs::new(&[("a1", 10), ("a2", 10), ("a3", 10), ("b1", 20), ("b2", 20), ("c1", 30)]);
    fs.failing.push(FsRequest::RemoveFile { path: "a2".to_string() });
    let result = perform_deduplication(&scan, &DedupAction::Delete, false, &|r| fs.answer(r));
    assert_eq!(
        result.operations(),
        &vec![
            failed("a2", "delete", "Failed to delete: refused"),
            done("a3", "delete", 10),
            done("b2", "delete", 20),
        ]
    );
    assert_eq!(result.total_files_processed(), scan.get_duplicate_count());
    assert_eq!(result.total_space_saved(), 30);
    assert!(fs.has("a1") && fs.has("b1") && fs.has("c1") && fs.has("a2"));
    assert!(!fs.has("a3") && !fs.has("b2"));

    let listed = perform_deduplication(&scan, &DedupAction::List, false, &|r| fs.answer(r));
    assert!(listed.operations().is_empty());
}

#[test]
fn test_scan_then_delete_reclaims_wasted_space() {
    let scanner = file_deduplication::scanner::Scanner::new();
    let files = vec![
        record("one/a", 100, "same"),
        record("one/b", 100, "same"),
        record("two/c", 100, "same"),
        record("two/d", 50, "other"),
    ];
    let scan = scanner.scan_directories(files).unwrap();
    let fs = FakeFs::new(&[("one/a", 100), ("one/b", 100), ("two/c", 100), ("two/d", 50)]);
    let result = perform_deduplication(&scan, &DedupAction::Delete, false, &|r| fs.answer(r));
    assert_eq!(result.total_space_saved(), scan.get_wasted_space() as u128);
    assert_eq!(result.total_space_saved(), 200);
    assert_eq!(result.success_count(), 2);
    assert_eq!(fs.state.borrow().files.len(), 2);
    assert!(fs.has("one/a"));
    assert!(fs.has("two/d"));
}

#[test]
fn test_action_result_clone() {
    let mut result = ActionResult::new();
    result.add_operation(done("a", "delete", 10));
    result.add_operation(failed("b", "delete", "Failed to delete: x"));
    let copy = result.clone();
    result.add_operation(done("c", "delete", 1));
    assert_eq!(copy.total_files_processed(), 2);
    assert_eq!(copy.total_space_saved(), 10);
    assert_eq!(copy.operations(), &vec![done("a", "delete", 10), failed("b", "delete", "Failed to delete: x")]);
    assert_eq!(result.total_files_processed(), 3);
}

#[test]
fn test_failures_are_listed_with_their_messages() {
    let mut result = ActionResult::new();
    result.add_operation(done("a", "delete", 10));
    result.add_operation(failed("b", "delete", "Failed to delete: x"));
    result.add_operation(done("c", "delete", 1));
    result.add_operation(failed("d", "move", "Failed to move: y"));
    assert_eq!(
        result.failures(),
        vec![failed("b", "delete", "Failed to delete: x"), failed("d", "move", "Failed to move: y")]
    );
    assert!(ActionResult::new().failures().is_empty());
}
