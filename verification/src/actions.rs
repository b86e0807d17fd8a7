//! The action engine: what happens to each redundant copy of a group.
//!
//! The engine never touches the file system. It names the next request, is
//! told how the request went, and moves on; the outcome of every copy is
//! recorded, and a failure on one copy never stops the work on the others.

use crate::utils::{
    extension_of, file_name_of, joined, numbered, stem_of, extension, file_name, file_stem,
    join_path, numbered_name,
};
use crate::{DedupAction, DedupActionView, FileInfo, FileInfoView, records_view};
use vstd::prelude::*;

verus! {

/// Represents a single file operation
#[derive(Debug, Clone, PartialEq, Eq)]
pub struct FileOperation {
    pub path: String,
    pub action: String,
    pub success: bool,
    pub error: Option<String>,
    pub space_saved: u64,
}

/// The mathematical value of a [`FileOperation`].
pub struct FileOperationView {
    pub path: Seq<char>,
    pub action: Seq<char>,
    pub success: bool,
    pub error: Option<Seq<char>>,
    pub space_saved: u64,
}

impl View for FileOperation {
    type V = FileOperationView;

    open spec fn view(&self) -> FileOperationView {
        FileOperationView {
            path: self.path@,
            action: self.action@,
            success: self.success,
            error: match self.error {
                Some(e) => Some(e@),
                None => None,
            },
            space_saved: self.space_saved,
        }
    }
}

/// The values of a sequence of operations, in their order.
pub open spec fn operations_view(ops: Seq<FileOperation>) -> Seq<FileOperationView> {
    ops.map_values(|op: FileOperation| op@)
}

/// The bytes that a sequence of operations reclaimed, all together.
pub open spec fn total_saved(ops: Seq<FileOperationView>) -> nat
    decreases ops.len(),
{
    if ops.len() == 0 {
        0
    } else {
        total_saved(ops.drop_last()) + ops.last().space_saved as nat
    }
}

/// How many of the operations succeeded.
pub open spec fn count_succeeded(ops: Seq<FileOperationView>) -> nat
    decreases ops.len(),
{
    if ops.len() == 0 {
        0
    } else {
        count_succeeded(ops.drop_last()) + if ops.last().success {
            1nat
        } else {
            0nat
        }
    }
}

/// Whether an operation failed.
pub open spec fn has_failed() -> spec_fn(FileOperationView) -> bool {
    |op: FileOperationView| !op.success
}

/// The total of a sequence of operations is at most as many times the
/// largest size as there are operations.
pub proof fn lemma_total_saved_bound(ops: Seq<FileOperationView>)
    ensures
        total_saved(ops) <= ops.len() * 0xffff_ffff_ffff_ffff,
    decreases ops.len(),
{
    if ops.len() > 0 {
        lemma_total_saved_bound(ops.drop_last());
        assert((ops.len() - 1) * 0xffff_ffff_ffff_ffff + 0xffff_ffff_ffff_ffff == ops.len()
            * 0xffff_ffff_ffff_ffff) by (nonlinear_arith);
    }
}

/// No more operations succeeded than there are.
pub proof fn lemma_count_succeeded_bound(ops: Seq<FileOperationView>)
    ensures
        count_succeeded(ops) <= ops.len(),
    decreases ops.len(),
{
    if ops.len() > 0 {
        lemma_count_succeeded_bound(ops.drop_last());
    }
}

/// Result of performing actions on files: every outcome in the order in
/// which it was recorded, with the running totals.
#[derive(Debug)]
pub struct ActionResult {
    operations: Vec<FileOperation>,
    total_space_saved: u128,
    total_files_processed: usize,
}

impl View for ActionResult {
    type V = Seq<FileOperationView>;

    closed spec fn view(&self) -> Seq<FileOperationView> {
        operations_view(self.operations@)
    }
}

/// Makes a copy of an outcome.
fn copy_operation(operation: &FileOperation) -> (res: FileOperation)
    ensures
        res@ == operation@,
{
    FileOperation {
        path: operation.path.clone(),
        action: operation.action.clone(),
        success: operation.success,
        error: match &operation.error {
            Some(e) => Some(e.clone()),
            None => None,
        },
        space_saved: operation.space_saved,
    }
}

impl Clone for ActionResult {
    fn clone(&self) -> (res: Self)
        ensures
            res@ == self@,
    {
        let mut res = ActionResult::new();
        let mut i: usize = 0;
        proof {
            assert(self@.take(0) =~= Seq::<FileOperationView>::empty());
        }
        while i < self.operations.len()
            invariant
                i <= self.operations@.len(),
                res@ == self@.take(i as int),
            decreases self.operations@.len() - i,
        {
            proof {
                assert(self@.take(i + 1) =~= self@.take(i as int).push(self.operations@[i as int]@));
            }
            res.add_operation(copy_operation(&self.operations[i]));
            i = i + 1;
        }
        assert(self@.take(i as int) =~= self@);
        res
    }
}

impl ActionResult {
    /// The totals are those of the recorded outcomes.
    #[verifier::type_invariant]
    spec fn totals_agree(self) -> bool {
        &&& self.total_space_saved == total_saved(operations_view(self.operations@))
        &&& self.total_files_processed == self.operations@.len()
    }

    /// An aggregate without outcomes.
    pub fn new() -> (res: Self)
        ensures
            res@ == Seq::<FileOperationView>::empty(),
    {
        let operations: Vec<FileOperation> = Vec::new();
        assert(operations_view(operations@) =~= Seq::<FileOperationView>::empty());
        Self { operations, total_space_saved: 0, total_files_processed: 0 }
    }

    /// Folds one outcome into the aggregate.
    pub fn add_operation(&mut self, operation: FileOperation)
        ensures
            final(self)@ == old(self)@.push(operation@),
    {
        let mut taken = Self::new();
        core::mem::swap(self, &mut taken);
        proof {
            use_type_invariant(&taken);
            lemma_total_saved_bound(operations_view(taken.operations@));
            assert(taken.operations@.len() * 0xffff_ffff_ffff_ffff + 0xffff_ffff_ffff_ffff
                <= 0xffff_ffff_ffff_ffff * 0xffff_ffff_ffff_ffff + 0xffff_ffff_ffff_ffff)
                by (nonlinear_arith)
                requires
                    taken.operations@.len() <= 0xffff_ffff_ffff_ffff,
            ;
        }
        let ghost before = taken.operations@;
        let total = taken.total_space_saved + operation.space_saved as u128;
        let mut operations = taken.operations;
        operations.push(operation);
        let count = operations.len();
        proof {
            assert(operations_view(operations@) =~= operations_view(before).push(operation@));
            assert(operations_view(operations@).drop_last() =~= operations_view(before));
        }
        *self = Self { operations, total_space_saved: total, total_files_processed: count };
    }

    /// Folds the outcomes of another aggregate into this one, after its
    /// own.
    pub fn merge(&mut self, other: ActionResult)
        ensures
            final(self)@ == old(self)@ + other@,
    {
        let ghost all = other@;
        let mut rest = other.operations;
        let mut i: usize = 0;
        proof {
            assert(all.take(0) =~= Seq::<FileOperationView>::empty());
            assert(self@ + all.take(0) =~= self@);
        }
        while i < rest.len()
            invariant
                i <= rest@.len(),
                rest@.len() == all.len(),
                forall|k: int| i <= k < rest@.len() ==> (#[trigger] rest@[k])@ == all[k],
                self@ == old(self)@ + all.take(i as int),
            decreases rest@.len() - i,
        {
            let mut operation = FileOperation {
                path: String::new(),
                action: String::new(),
                success: false,
                error: None,
                space_saved: 0,
            };
            core::mem::swap(&mut operation, &mut rest[i]);
            proof {
                assert(operation@ == all[i as int]);
                assert((old(self)@ + all.take(i as int)).push(all[i as int]) =~= old(self)@
                    + all.take(i + 1));
            }
            self.add_operation(operation);
            i = i + 1;
        }
        assert(all.take(i as int) =~= all);
    }

    /// The outcomes that failed, each with its message, in the order in
    /// which they were recorded.
    pub fn failures(&self) -> (res: Vec<FileOperation>)
        ensures
            operations_view(res@) == self@.filter(has_failed()),
    {
        let ghost all = self@;
        let mut res: Vec<FileOperation> = Vec::new();
        let mut i: usize = 0;
        proof {
            reveal(Seq::filter);
            assert(all.take(0) =~= Seq::<FileOperationView>::empty());
            assert(operations_view(res@) =~= all.take(0).filter(has_failed()));
        }
        while i < self.operations.len()
            invariant
                i <= self.operations@.len(),
                all == self@,
                operations_view(res@) == all.take(i as int).filter(has_failed()),
            decreases self.operations@.len() - i,
        {
            proof {
                assert(all.take(i + 1) =~= all.take(i as int).push(all[i as int]));
                all.take(i as int).lemma_filter_push(all[i as int], has_failed());
            }
            if !self.operations[i].success {
                let ghost before = operations_view(res@);
                res.push(copy_operation(&self.operations[i]));
                assert(operations_view(res@) =~= before.push(all[i as int]));
            }
            i = i + 1;
        }
        assert(all.take(i as int) =~= all);
        res
    }

    /// The outcomes, in the order in which they were recorded.
    pub fn operations(&self) -> (res: &Vec<FileOperation>)
        ensures
            operations_view(res@) == self@,
    {
        &self.operations
    }

    /// The bytes reclaimed by all the recorded outcomes.
    pub fn total_space_saved(&self) -> (res: u128)
        ensures
            res == total_saved(self@),
    {
        proof {
            use_type_invariant(self);
        }
        self.total_space_saved
    }

    /// The number of recorded outcomes.
    pub fn total_files_processed(&self) -> (res: usize)
        ensures
            res == self@.len(),
    {
        proof {
            use_type_invariant(self);
        }
        self.total_files_processed
    }

    /// The number of recorded outcomes that succeeded.
    pub fn success_count(&self) -> (res: usize)
        ensures
            res == count_succeeded(self@),
    {
        let mut count: usize = 0;
        let mut i: usize = 0;
        assert(self@.take(0) =~= Seq::<FileOperationView>::empty());
        while i < self.operations.len()
            invariant
                i <= self.operations@.len(),
                count == count_succeeded(self@.take(i as int)),
                count <= i,
            decreases self.operations@.len() - i,
        {
            assert(self@.take(i + 1).drop_last() =~= self@.take(i as int));
            assert(self@.take(i + 1).last() == self.operations@[i as int]@);
            if self.operations[i].success {
                count = count + 1;
            }
            i = i + 1;
        }
        assert(self@.take(i as int) =~= self@);
        count
    }

    /// The number of recorded outcomes that failed.
    pub fn error_count(&self) -> (res: usize)
        ensures
            res == self@.len() - count_succeeded(self@),
    {
        proof {
            lemma_count_succeeded_bound(self@);
        }
        self.operations.len() - self.success_count()
    }
}


/// What the engine asks of the file system.
#[derive(Debug, Clone, PartialEq, Eq)]
pub enum FsRequest {
    /// The size in bytes of the file at `path`.
    FileSize { path: String },
    /// Create the directory at `path`, with its parents, unless it exists.
    CreateDirAll { path: String },
    /// Whether anything exists at `path`.
    Exists { path: String },
    /// Remove the file at `path`.
    RemoveFile { path: String },
    /// Rename the file at `from` to `to`.
    Rename { from: String, to: String },
    /// Create at `link` a hard link to `original`.
    HardLink { original: String, link: String },
    /// Create at `link` a symbolic link to `original`.
    Symlink { original: String, link: String },
}

/// The mathematical value of an [`FsRequest`].
pub enum FsRequestView {
    FileSize { path: Seq<char> },
    CreateDirAll { path: Seq<char> },
    Exists { path: Seq<char> },
    RemoveFile { path: Seq<char> },
    Rename { from: Seq<char>, to: Seq<char> },
    HardLink { original: Seq<char>, link: Seq<char> },
    Symlink { original: Seq<char>, link: Seq<char> },
}

impl View for FsRequest {
    type V = FsRequestView;

    open spec fn view(&self) -> FsRequestView {
        match self {
            FsRequest::FileSize { path } => FsRequestView::FileSize { path: path@ },
            FsRequest::CreateDirAll { path } => FsRequestView::CreateDirAll { path: path@ },
            FsRequest::Exists { path } => FsRequestView::Exists { path: path@ },
            FsRequest::RemoveFile { path } => FsRequestView::RemoveFile { path: path@ },
            FsRequest::Rename { from, to } => FsRequestView::Rename { from: from@, to: to@ },
            FsRequest::HardLink { original, link } => FsRequestView::HardLink {
                original: original@,
                link: link@,
            },
            FsRequest::Symlink { original, link } => FsRequestView::Symlink {
                original: original@,
                link: link@,
            },
        }
    }
}

/// How a request went. A request for a size is answered by `Size`, one for
/// existence by `Exists`, every other by `Done`; `Failed` carries the
/// system's message. An answer of a kind that the request does not call for
/// counts as a failure.
#[derive(Debug, Clone, PartialEq, Eq)]
pub enum FsReply {
    Size(u64),
    Exists(bool),
    Done,
    Failed(String),
}

/// The mathematical value of an [`FsReply`].
pub enum FsReplyView {
    Size(u64),
    Exists(bool),
    Done,
    Failed(Seq<char>),
}

impl View for FsReply {
    type V = FsReplyView;

    open spec fn view(&self) -> FsReplyView {
        match self {
            FsReply::Size(n) => FsReplyView::Size(*n),
            FsReply::Exists(b) => FsReplyView::Exists(*b),
            FsReply::Done => FsReplyView::Done,
            FsReply::Failed(e) => FsReplyView::Failed(e@),
        }
    }
}

/// How far the work on one copy has come. Each stage waits for the answer
/// to one request; `size` is the size that the file system reported for the
/// copy, `counter` the number of the destination name under trial.
#[derive(Debug, Clone, Copy, PartialEq, Eq)]
pub enum Stage {
    /// Waiting for the copy's size.
    Size,
    /// Waiting for the target directory to be created.
    Dir { size: u64 },
    /// Waiting to learn whether the destination name is taken.
    Probe { size: u64, counter: u64 },
    /// Waiting for the copy to be renamed to its destination.
    Rename { size: u64, counter: u64 },
    /// Waiting for the copy to be removed.
    Remove { size: u64 },
    /// Waiting for the link to be created where the copy was.
    Link { size: u64 },
}

/// The word under which an action's outcomes are recorded.
pub open spec fn action_label(action: DedupActionView) -> Seq<char> {
    match action {
        DedupActionView::List => "list"@,
        DedupActionView::Delete => "delete"@,
        DedupActionView::Move(_) => "move"@,
        DedupActionView::Hardlink => "hardlink"@,
        DedupActionView::Symlink => "symlink"@,
    }
}

/// The directory that a move goes to; empty for every other action.
pub open spec fn target_dir(action: DedupActionView) -> Seq<char> {
    match action {
        DedupActionView::Move(dir) => dir,
        _ => Seq::<char>::empty(),
    }
}

/// The `counter`-th destination tried for a file moved into `dir`: first
/// the file's own name, then the name with `_1`, `_2`, ... before its
/// extension.
pub open spec fn move_target(dir: Seq<char>, path: Seq<char>, counter: nat) -> Seq<char> {
    let name = match file_name_of(path) {
        Some(name) => name,
        None => Seq::<char>::empty(),
    };
    if counter == 0 {
        joined(dir, name)
    } else {
        let ext = match extension_of(name) {
            Some(ext) => ext,
            None => Seq::<char>::empty(),
        };
        joined(dir, numbered(stem_of(name), ext, counter))
    }
}

/// The message of a failed request: the system's own where it gave one.
pub open spec fn reply_error(reply: FsReplyView) -> Seq<char> {
    match reply {
        FsReplyView::Failed(e) => e,
        _ => "unexpected reply"@,
    }
}

/// The outcome of a copy whose action went through; `size` bytes are
/// reclaimed.
pub open spec fn completed(path: Seq<char>, action: DedupActionView, size: u64)
    -> FileOperationView {
    FileOperationView {
        path,
        action: action_label(action),
        success: true,
        error: None,
        space_saved: size,
    }
}

/// The outcome of a copy whose action failed; nothing is reclaimed.
pub open spec fn failed(path: Seq<char>, action: DedupActionView, message: Seq<char>)
    -> FileOperationView {
    FileOperationView {
        path,
        action: action_label(action),
        success: false,
        error: Some(message),
        space_saved: 0,
    }
}

/// What is said before the system's message when a copy cannot be removed.
pub open spec fn removal_failure(action: DedupActionView) -> Seq<char> {
    match action {
        DedupActionView::Hardlink => "Failed to remove duplicate before hardlinking: "@,
        DedupActionView::Symlink => "Failed to remove duplicate before symlinking: "@,
        _ => "Failed to delete: "@,
    }
}

/// What is said before the system's message when a link cannot be made.
pub open spec fn link_failure(action: DedupActionView) -> Seq<char> {
    match action {
        DedupActionView::Symlink => "Failed to create symlink: "@,
        _ => "Failed to create hardlink: "@,
    }
}

/// Where the work on one copy stands after an answer: at a further stage,
/// or at its outcome.
pub enum ProgressView {
    Next(Stage),
    Finished(FileOperationView),
}

/// The request that a stage of the work on the copy at `path` waits for.
/// `keeper` is the path of the group's first member.
pub open spec fn request_for(
    keeper: Seq<char>,
    path: Seq<char>,
    action: DedupActionView,
    stage: Stage,
) -> FsRequestView {
    match stage {
        Stage::Size => FsRequestView::FileSize { path },
        Stage::Dir { size } => FsRequestView::CreateDirAll { path: target_dir(action) },
        Stage::Probe { size, counter } => FsRequestView::Exists {
            path: move_target(target_dir(action), path, counter as nat),
        },
        Stage::Rename { size, counter } => FsRequestView::Rename {
            from: path,
            to: move_target(target_dir(action), path, counter as nat),
        },
        Stage::Remove { size } => FsRequestView::RemoveFile { path },
        Stage::Link { size } => match action {
            DedupActionView::Symlink => FsRequestView::Symlink { original: keeper, link: path },
            _ => FsRequestView::HardLink { original: keeper, link: path },
        },
    }
}

/// The rules of every action, one answer at a time.
///
/// - Every action first asks for the copy's size; where that fails, the
///   copy's outcome is a failure.
/// - Delete removes the copy. Hardlink and Symlink remove it and then make
///   the link; a link that cannot be made is reported as such, and the
///   removal stays.
/// - Move creates the target directory, tries destination names until one
///   is free, and renames the copy to it.
/// - In a dry run nothing is created, removed or renamed: the outcome is
///   reported as soon as it is known what would be done.
pub open spec fn member_step(
    path: Seq<char>,
    action: DedupActionView,
    dry_run: bool,
    stage: Stage,
    reply: FsReplyView,
) -> ProgressView {
    match stage {
        Stage::Size => match reply {
            FsReplyView::Size(size) => match action {
                DedupActionView::List => ProgressView::Finished(completed(path, action, 0)),
                DedupActionView::Move(_) => if file_name_of(path) is None {
                    ProgressView::Finished(
                        failed(path, action, "Failed to move: path has no file name"@),
                    )
                } else if dry_run {
                    ProgressView::Next(Stage::Probe { size, counter: 0 })
                } else {
                    ProgressView::Next(Stage::Dir { size })
                },
                _ => if dry_run {
                    ProgressView::Finished(completed(path, action, size))
                } else {
                    ProgressView::Next(Stage::Remove { size })
                },
            },
            _ => ProgressView::Finished(
                failed(path, action, "Failed to get metadata: "@ + reply_error(reply)),
            ),
        },
        Stage::Dir { size } => match reply {
            FsReplyView::Done => ProgressView::Next(Stage::Probe { size, counter: 0 }),
            _ => ProgressView::Finished(
                failed(path, action, "Failed to create target directory: "@ + reply_error(reply)),
            ),
        },
        Stage::Probe { size, counter } => match reply {
            FsReplyView::Exists(true) => if counter == u64::MAX {
                ProgressView::Finished(
                    failed(path, action, "Failed to move: no free name in the target directory"@),
                )
            } else {
                ProgressView::Next(Stage::Probe { size, counter: (counter + 1) as u64 })
            },
            _ => if dry_run {
                ProgressView::Finished(completed(path, action, size))
            } else {
                ProgressView::Next(Stage::Rename { size, counter })
            },
        },
        Stage::Rename { size, counter } => match reply {
            FsReplyView::Done => ProgressView::Finished(completed(path, action, size)),
            _ => ProgressView::Finished(
                failed(path, action, "Failed to move: "@ + reply_error(reply)),
            ),
        },
        Stage::Remove { size } => match reply {
            FsReplyView::Done => match action {
                DedupActionView::Hardlink => ProgressView::Next(Stage::Link { size }),
                DedupActionView::Symlink => ProgressView::Next(Stage::Link { size }),
                _ => ProgressView::Finished(completed(path, action, size)),
            },
            _ => ProgressView::Finished(
                failed(path, action, removal_failure(action) + reply_error(reply)),
            ),
        },
        Stage::Link { size } => match reply {
            FsReplyView::Done => ProgressView::Finished(completed(path, action, size)),
            _ => ProgressView::Finished(
                failed(path, action, link_failure(action) + reply_error(reply)),
            ),
        },
    }
}

/// The state of a run over one group: the group and what is done to it,
/// the member that is worked on, the stage of that work, and the outcomes
/// of the members before it. Member 0 is the keeper; the work starts at
/// member 1.
pub struct RunView {
    pub group: Seq<FileInfoView>,
    pub action: DedupActionView,
    pub dry_run: bool,
    pub position: nat,
    pub stage: Stage,
    pub operations: Seq<FileOperationView>,
}

/// The state in which a run starts.
pub open spec fn run_start(group: Seq<FileInfoView>, action: DedupActionView, dry_run: bool)
    -> RunView {
    RunView {
        group,
        action,
        dry_run,
        position: 1,
        stage: Stage::Size,
        operations: Seq::<FileOperationView>::empty(),
    }
}

/// A run is over when every member after the keeper has its outcome.
/// Listing is over at once: it does nothing to any member.
pub open spec fn run_finished(s: RunView) -> bool {
    s.action is List || s.position >= s.group.len()
}

/// The request that a run waits for, unless it is over.
pub open spec fn run_request(s: RunView) -> Option<FsRequestView> {
    if run_finished(s) {
        None
    } else {
        Some(request_for(s.group[0].path, s.group[s.position as int].path, s.action, s.stage))
    }
}

/// The state of a run after the answer to its request. A run that is over
/// stays as it is.
pub open spec fn run_step(s: RunView, reply: FsReplyView) -> RunView {
    if run_finished(s) {
        s
    } else {
        match member_step(s.group[s.position as int].path, s.action, s.dry_run, s.stage, reply) {
            ProgressView::Next(stage) => RunView { stage, ..s },
            ProgressView::Finished(op) => RunView {
                position: s.position + 1,
                stage: Stage::Size,
                operations: s.operations.push(op),
                ..s
            },
        }
    }
}

/// The state of a run after a sequence of answers, each to the request of
/// the state that the answers before it led to.
pub open spec fn run_replay(s: RunView, replies: Seq<FsReplyView>) -> RunView
    decreases replies.len(),
{
    if replies.len() == 0 {
        s
    } else {
        run_step(run_replay(s, replies.drop_last()), replies.last())
    }
}


/// Where the work on one copy stands after an answer.
enum Progress {
    Next(Stage),
    Finished(FileOperation),
}

impl View for Progress {
    type V = ProgressView;

    closed spec fn view(&self) -> ProgressView {
        match self {
            Progress::Next(stage) => ProgressView::Next(*stage),
            Progress::Finished(op) => ProgressView::Finished(op@),
        }
    }
}

/// The word under which an action's outcomes are recorded.
fn action_name(action: &DedupAction) -> (res: String)
    ensures
        res@ == action_label(action@),
{
    match action {
        DedupAction::List => String::from_str("list"),
        DedupAction::Delete => String::from_str("delete"),
        DedupAction::Move(_) => String::from_str("move"),
        DedupAction::Hardlink => String::from_str("hardlink"),
        DedupAction::Symlink => String::from_str("symlink"),
    }
}

/// The outcome of a copy whose action went through.
fn completed_operation(path: &str, action: &DedupAction, size: u64) -> (res: FileOperation)
    ensures
        res@ == completed(path@, action@, size),
{
    FileOperation {
        path: String::from_str(path),
        action: action_name(action),
        success: true,
        error: None,
        space_saved: size,
    }
}

/// The outcome of a copy whose action failed.
fn failed_operation(path: &str, action: &DedupAction, message: String) -> (res: FileOperation)
    ensures
        res@ == failed(path@, action@, message@),
{
    FileOperation {
        path: String::from_str(path),
        action: action_name(action),
        success: false,
        error: Some(message),
        space_saved: 0,
    }
}

/// A failure's message: what went wrong, then the system's message.
fn failure_message(prefix: &str, reply: &FsReply) -> (res: String)
    ensures
        res@ == prefix@ + reply_error(reply@),
{
    let mut message = String::from_str(prefix);
    match reply {
        FsReply::Failed(e) => message.append(e.as_str()),
        _ => message.append("unexpected reply"),
    }
    message
}

/// The directory that a move goes to; empty for every other action.
fn target_of<'a>(action: &'a DedupAction) -> (res: &'a str)
    ensures
        res@ == target_dir(action@),
{
    match action {
        DedupAction::Move(dir) => dir.as_str(),
        _ => {
            proof {
                reveal_strlit("");
            }
            let res = "";
            assert(res@ =~= Seq::<char>::empty());
            res
        },
    }
}

/// The `counter`-th destination tried for a file moved into `dir`.
fn move_destination(dir: &str, path: &str, counter: u64) -> (res: String)
    ensures
        res@ == move_target(dir@, path@, counter as nat),
{
    let name = match file_name(path) {
        Some(name) => name,
        None => String::new(),
    };
    if counter == 0 {
        join_path(dir, name.as_str())
    } else {
        let ext = match extension(name.as_str()) {
            Some(ext) => ext,
            None => String::new(),
        };
        let stem = file_stem(name.as_str());
        let numbered = numbered_name(stem.as_str(), ext.as_str(), counter);
        join_path(dir, numbered.as_str())
    }
}

/// The request that a stage of the work on a copy waits for.
fn request_member(keeper: &str, path: &str, action: &DedupAction, stage: Stage) -> (res:
    FsRequest)
    ensures
        res@ == request_for(keeper@, path@, action@, stage),
{
    match stage {
        Stage::Size => FsRequest::FileSize { path: String::from_str(path) },
        Stage::Dir { size } => FsRequest::CreateDirAll {
            path: String::from_str(target_of(action)),
        },
        Stage::Probe { size, counter } => FsRequest::Exists {
            path: move_destination(target_of(action), path, counter),
        },
        Stage::Rename { size, counter } => FsRequest::Rename {
            from: String::from_str(path),
            to: move_destination(target_of(action), path, counter),
        },
        Stage::Remove { size } => FsRequest::RemoveFile { path: String::from_str(path) },
        Stage::Link { size } => match action {
            DedupAction::Symlink => FsRequest::Symlink {
                original: String::from_str(keeper),
                link: String::from_str(path),
            },
            _ => FsRequest::HardLink {
                original: String::from_str(keeper),
                link: String::from_str(path),
            },
        },
    }
}

/// What is said before the system's message when a copy cannot be removed.
fn removal_prefix(action: &DedupAction) -> (res: &'static str)
    ensures
        res@ == removal_failure(action@),
{
    match action {
        DedupAction::Hardlink => "Failed to remove duplicate before hardlinking: ",
        DedupAction::Symlink => "Failed to remove duplicate before symlinking: ",
        _ => "Failed to delete: ",
    }
}

/// What is said before the system's message when a link cannot be made.
fn link_prefix(action: &DedupAction) -> (res: &'static str)
    ensures
        res@ == link_failure(action@),
{
    match action {
        DedupAction::Symlink => "Failed to create symlink: ",
        _ => "Failed to create hardlink: ",
    }
}

/// Applies the rules of the action to one answer.
fn step_member(path: &str, action: &DedupAction, dry_run: bool, stage: Stage, reply: FsReply)
    -> (res: Progress)
    ensures
        res@ == member_step(path@, action@, dry_run, stage, reply@),
{
    match stage {
        Stage::Size => match reply {
            FsReply::Size(size) => match action {
                DedupAction::List => Progress::Finished(completed_operation(path, action, 0)),
                DedupAction::Move(_) => {
                    if file_name(path).is_none() {
                        Progress::Finished(
                            failed_operation(
                                path,
                                action,
                                String::from_str("Failed to move: path has no file name"),
                            ),
                        )
                    } else if dry_run {
                        Progress::Next(Stage::Probe { size, counter: 0 })
                    } else {
                        Progress::Next(Stage::Dir { size })
                    }
                },
                _ => {
                    if dry_run {
                        Progress::Finished(completed_operation(path, action, size))
                    } else {
                        Progress::Next(Stage::Remove { size })
                    }
                },
            },
            _ => Progress::Finished(
                failed_operation(
                    path,
                    action,
                    failure_message("Failed to get metadata: ", &reply),
                ),
            ),
        },
        Stage::Dir { size } => match reply {
            FsReply::Done => Progress::Next(Stage::Probe { size, counter: 0 }),
            _ => Progress::Finished(
                failed_operation(
                    path,
                    action,
                    failure_message("Failed to create target directory: ", &reply),
                ),
            ),
        },
        Stage::Probe { size, counter } => match reply {
            FsReply::Exists(true) => {
                if counter == u64::MAX {
                    Progress::Finished(
                        failed_operation(
                            path,
                            action,
                            String::from_str(
                                "Failed to move: no free name in the target directory",
                            ),
                        ),
                    )
                } else {
                    Progress::Next(Stage::Probe { size, counter: counter + 1 })
                }
            },
            _ => {
                if dry_run {
                    Progress::Finished(completed_operation(path, action, size))
                } else {
                    Progress::Next(Stage::Rename { size, counter })
                }
            },
        },
        Stage::Rename { size, counter } => match reply {
            FsReply::Done => Progress::Finished(completed_operation(path, action, size)),
            _ => Progress::Finished(
                failed_operation(path, action, failure_message("Failed to move: ", &reply)),
            ),
        },
        Stage::Remove { size } => match reply {
            FsReply::Done => match action {
                DedupAction::Hardlink => Progress::Next(Stage::Link { size }),
                DedupAction::Symlink => Progress::Next(Stage::Link { size }),
                _ => Progress::Finished(completed_operation(path, action, size)),
            },
            _ => Progress::Finished(
                failed_operation(path, action, failure_message(removal_prefix(action), &reply)),
            ),
        },
        Stage::Link { size } => match reply {
            FsReply::Done => Progress::Finished(completed_operation(path, action, size)),
            _ => Progress::Finished(
                failed_operation(path, action, failure_message(link_prefix(action), &reply)),
            ),
        },
    }
}

/// A run of one action over one group, driven from outside: ask it for its
/// request, carry the request out, and tell it how that went, until it is
/// finished.
#[derive(Debug)]
pub struct ActionRun<'a> {
    duplicates: &'a [FileInfo],
    action: &'a DedupAction,
    dry_run: bool,
    position: usize,
    stage: Stage,
    result: ActionResult,
}

impl<'a> View for ActionRun<'a> {
    type V = RunView;

    closed spec fn view(&self) -> RunView {
        RunView {
            group: records_view(self.duplicates@),
            action: self.action@,
            dry_run: self.dry_run,
            position: self.position as nat,
            stage: self.stage,
            operations: self.result@,
        }
    }
}

impl<'a> ActionRun<'a> {
    /// Starts a run over a group whose first member is kept.
    pub fn new(duplicates: &'a [FileInfo], action: &'a DedupAction, dry_run: bool) -> (res: Self)
        ensures
            res@ == run_start(records_view(duplicates@), action@, dry_run),
    {
        ActionRun {
            duplicates,
            action,
            dry_run,
            position: 1,
            stage: Stage::Size,
            result: ActionResult::new(),
        }
    }

    /// Whether every copy has its outcome.
    pub fn is_finished(&self) -> (res: bool)
        ensures
            res == run_finished(self@),
    {
        match self.action {
            DedupAction::List => true,
            _ => self.position >= self.duplicates.len(),
        }
    }

    /// The request that the run waits for; none once it is finished.
    pub fn pending(&self) -> (res: Option<FsRequest>)
        ensures
            match res {
                Some(request) => run_request(self@) == Some(request@),
                None => run_request(self@) is None,
            },
    {
        if self.is_finished() {
            None
        } else {
            let keeper = &self.duplicates[0];
            let member = &self.duplicates[self.position];
            Some(
                request_member(
                    keeper.path.as_str(),
                    member.path.as_str(),
                    self.action,
                    self.stage,
                ),
            )
        }
    }

    /// Takes the answer to the pending request.
    pub fn advance(&mut self, reply: FsReply)
        ensures
            final(self)@ == run_step(old(self)@, reply@),
    {
        if !self.is_finished() {
            let member = &self.duplicates[self.position];
            match step_member(
                member.path.as_str(),
                self.action,
                self.dry_run,
                self.stage,
                reply,
            ) {
                Progress::Next(stage) => {
                    self.stage = stage;
                },
                Progress::Finished(op) => {
                    self.result.add_operation(op);
                    self.position = self.position + 1;
                    self.stage = Stage::Size;
                },
            }
        }
    }

    /// The outcomes recorded so far.
    pub fn result(&self) -> (res: &ActionResult)
        ensures
            res@ == self@.operations,
    {
        &self.result
    }

    /// Ends the run and hands out its outcomes.
    pub fn into_result(self) -> (res: ActionResult)
        ensures
            res@ == self@.operations,
    {
        self.result
    }
}


/// The values of a sequence of answers, in their order.
pub open spec fn replies_view(replies: Seq<FsReply>) -> Seq<FsReplyView> {
    replies.map_values(|r: FsReply| r@)
}

/// How many kinds of request the work on a copy may still have to make
/// from a stage on.
pub open spec fn stage_rank(stage: Stage) -> nat {
    match stage {
        Stage::Size => 5,
        Stage::Dir { size } => 4,
        Stage::Probe { size, counter } => 3,
        Stage::Rename { size, counter } => 2,
        Stage::Remove { size } => 2,
        Stage::Link { size } => 1,
    }
}

/// How many further destination names a stage may still try.
pub open spec fn stage_slack(stage: Stage) -> nat {
    match stage {
        Stage::Probe { size, counter } => (u64::MAX - counter) as nat,
        _ => 0,
    }
}

/// Every answer brings a run that is not over nearer to its end: the work
/// moves to the next member, or to a later stage on the same member, or to
/// the next destination name. Nothing else of the run changes.
pub proof fn lemma_step_progress(s: RunView, reply: FsReplyView)
    requires
        !run_finished(s),
    ensures
        run_step(s, reply).group == s.group,
        run_step(s, reply).action == s.action,
        run_step(s, reply).dry_run == s.dry_run,
        run_step(s, reply).position == s.position + 1 || (run_step(s, reply).position
            == s.position && (stage_rank(run_step(s, reply).stage) < stage_rank(s.stage) || (
        stage_rank(run_step(s, reply).stage) == stage_rank(s.stage) && stage_slack(
            run_step(s, reply).stage,
        ) < stage_slack(s.stage)))),
{
}

/// `asked` and `told` are the requests of a run from `start` and the
/// answers that `fs` gave to them: each request is the one that the run
/// waited for after the answers before it.
pub open spec fn answered<F: Fn(FsRequest) -> FsReply>(
    fs: F,
    start: RunView,
    asked: Seq<FsRequest>,
    told: Seq<FsReply>,
) -> bool {
    &&& asked.len() == told.len()
    &&& forall|i: int|
        0 <= i < told.len() ==> {
            &&& run_request(run_replay(start, replies_view(told.take(i)))) == Some(
                (#[trigger] asked[i])@,
            )
            &&& call_ensures(fs, (asked[i],), told[i])
        }
}

/// `ops` are the outcomes of a finished run over `group` in which `fs`
/// answered every request.
pub open spec fn possible_outcome<F: Fn(FsRequest) -> FsReply>(
    fs: F,
    group: Seq<FileInfoView>,
    action: DedupActionView,
    dry_run: bool,
    ops: Seq<FileOperationView>,
) -> bool {
    exists|asked: Seq<FsRequest>, told: Seq<FsReply>|
        {
            &&& #[trigger] answered(fs, run_start(group, action, dry_run), asked, told)
            &&& considerate(group, dry_run, asked)
            &&& run_finished(run_replay(run_start(group, action, dry_run), replies_view(told)))
            &&& ops == run_replay(
                run_start(group, action, dry_run),
                replies_view(told),
            ).operations
        }
}

/// The requests spare what is to be spared: each that changes the file
/// system at the place of a file does so at the path of a member other
/// than the keeper, and in a dry run every request only reads.
pub open spec fn considerate(group: Seq<FileInfoView>, dry_run: bool, asked: Seq<FsRequest>)
    -> bool {
    forall|i: int|
        0 <= i < asked.len() ==> {
            &&& dry_run ==> reads_only((#[trigger] asked[i])@)
            &&& changed_path(asked[i]@) is Some ==> exists|m: int|
                1 <= m < group.len() && changed_path(asked[i]@) == Some(#[trigger] group[m].path)
        }
}

/// Performs the specified action on the redundant copies of one group.
///
/// `duplicates` is the group, its keeper first; `fs` carries out each
/// request and says how it went. No request removes, renames or replaces
/// anything but a copy at its own path, and in a dry run every request
/// only reads. Every member but the keeper gets exactly one outcome,
/// whatever happened to the members before it. The result is that of the
/// run over the answers that `fs` gave.
pub fn perform_action<F: Fn(FsRequest) -> FsReply>(
    duplicates: &[FileInfo],
    action: &DedupAction,
    dry_run: bool,
    fs: &F,
) -> (res: ActionResult)
    requires
        forall|request: FsRequest| call_requires(*fs, (request,)),
    ensures
        possible_outcome(*fs, records_view(duplicates@), action@, dry_run, res@),
        res@.len() == if action@ is List || duplicates@.len() == 0 {
            0
        } else {
            duplicates@.len() - 1
        },
        forall|i: int|
            0 <= i < res@.len() ==> {
                &&& (#[trigger] res@[i]).path == duplicates@[i + 1].path@
                &&& res@[i].action == action_label(action@)
                &&& (res@[i].success <==> res@[i].error is None)
                &&& (!res@[i].success ==> res@[i].space_saved == 0)
            },
{
    let ghost start = run_start(records_view(duplicates@), action@, dry_run);
    let ghost mut asked = Seq::<FsRequest>::empty();
    let ghost mut told = Seq::<FsReply>::empty();
    let mut run = ActionRun::new(duplicates, action, dry_run);
    proof {
        assert(replies_view(told) =~= Seq::<FsReplyView>::empty());
    }
    while !run.is_finished()
        invariant
            forall|request: FsRequest| call_requires(*fs, (request,)),
            start == run_start(records_view(duplicates@), action@, dry_run),
            answered(*fs, start, asked, told),
            run@ == run_replay(start, replies_view(told)),
            run@.group == start.group,
        decreases
            run@.group.len() - run@.position,
            stage_rank(run@.stage),
            stage_slack(run@.stage),
    {
        let ghost before = run@;
        match run.pending() {
            Some(request) => {
                let ghost request_value = request;
                let reply = fs(request);
                let ghost reply_value = reply;
                run.advance(reply);
                proof {
                    lemma_step_progress(before, reply_value@);
                    let further = told.push(reply_value);
                    assert(replies_view(further).drop_last() =~= replies_view(told));
                    assert(replies_view(further).last() == reply_value@);
                    assert forall|i: int| 0 <= i < further.len() implies {
                        &&& run_request(run_replay(start, replies_view(further.take(i))))
                            == Some((#[trigger] asked.push(request_value)[i])@)
                        &&& call_ensures(*fs, (asked.push(request_value)[i],), further[i])
                    } by {
                        if i < told.len() {
                            assert(further.take(i) =~= told.take(i));
                        } else {
                            assert(further.take(i) =~= told);
                        }
                    }
                    asked = asked.push(request_value);
                    told = further;
                }
            },
            None => {},
        }
    }
    proof {
        let group = records_view(duplicates@);
        lemma_replay_orderly(group, action@, dry_run, replies_view(told));
        lemma_finished_run(group, action@, dry_run, replies_view(told));
        assert forall|i: int| 0 <= i < asked.len() implies {
            &&& dry_run ==> reads_only((#[trigger] asked[i])@)
            &&& changed_path(asked[i]@) is Some ==> exists|m: int|
                1 <= m < group.len() && changed_path(asked[i]@) == Some(#[trigger] group[m].path)
        } by {
            let before = replies_view(told.take(i));
            lemma_keeper_untouched(group, action@, dry_run, before);
            if dry_run {
                lemma_dry_run_reads_only(group, action@, before);
            }
            let s = run_replay(start, before);
            assert(run_request(s) == Some(asked[i]@));
            if changed_path(asked[i]@) is Some {
                assert(changed_path(asked[i]@) == Some(group[s.position as int].path));
            }
        }
    }
    run.into_result()
}

/// The path at which a request changes the file system, if it changes it
/// at the place of a file: the file removed or renamed, or the place where
/// a link is made.
pub open spec fn changed_path(request: FsRequestView) -> Option<Seq<char>> {
    match request {
        FsRequestView::RemoveFile { path } => Some(path),
        FsRequestView::Rename { from, to } => Some(from),
        FsRequestView::HardLink { original, link } => Some(link),
        FsRequestView::Symlink { original, link } => Some(link),
        _ => None,
    }
}

/// A request that changes nothing: it asks for a size, or whether a path
/// exists.
pub open spec fn reads_only(request: FsRequestView) -> bool {
    request is FileSize || request is Exists
}

/// What holds of a run at every moment.
///
/// - The members before the one worked on have their outcomes, one each
///   and in the group's order; the keeper has none.
/// - Every outcome names its member's path and the action; it carries a
///   message exactly where it failed, and then reclaims nothing.
/// - A dry run is only ever at a stage that reads.
/// - A finished run waits for nothing.
pub open spec fn run_orderly(s: RunView) -> bool {
    &&& s.position >= 1
    &&& s.operations.len() == s.position - 1
    &&& (s.position <= s.group.len() || s.position == 1)
    &&& forall|i: int|
        0 <= i < s.operations.len() ==> {
            &&& (#[trigger] s.operations[i]).path == s.group[i + 1].path
            &&& s.operations[i].action == action_label(s.action)
            &&& (s.operations[i].success <==> s.operations[i].error is None)
            &&& (!s.operations[i].success ==> s.operations[i].space_saved == 0)
        }
    &&& (s.dry_run ==> s.stage is Size || s.stage is Probe)
    &&& (run_finished(s) ==> s.stage is Size)
}

/// An answer keeps an orderly run orderly.
pub proof fn lemma_step_orderly(s: RunView, reply: FsReplyView)
    requires
        run_orderly(s),
    ensures
        run_orderly(run_step(s, reply)),
        run_step(s, reply).group == s.group,
        run_step(s, reply).action == s.action,
        run_step(s, reply).dry_run == s.dry_run,
{
    if !run_finished(s) {
        let t = run_step(s, reply);
        let path = s.group[s.position as int].path;
        match member_step(path, s.action, s.dry_run, s.stage, reply) {
            ProgressView::Next(stage) => {},
            ProgressView::Finished(op) => {
                assert forall|i: int| 0 <= i < t.operations.len() implies {
                    &&& (#[trigger] t.operations[i]).path == t.group[i + 1].path
                    &&& t.operations[i].action == action_label(t.action)
                    &&& (t.operations[i].success <==> t.operations[i].error is None)
                    &&& (!t.operations[i].success ==> t.operations[i].space_saved == 0)
                } by {
                    if i < s.operations.len() {
                        assert(t.operations[i] == s.operations[i]);
                    }
                }
            },
        }
    }
}

/// Whatever the file system answers, a run stays orderly from its start on,
/// over the same group and with the same action.
pub proof fn lemma_replay_orderly(
    group: Seq<FileInfoView>,
    action: DedupActionView,
    dry_run: bool,
    replies: Seq<FsReplyView>,
)
    ensures
        run_orderly(run_replay(run_start(group, action, dry_run), replies)),
        run_replay(run_start(group, action, dry_run), replies).group == group,
        run_replay(run_start(group, action, dry_run), replies).action == action,
        run_replay(run_start(group, action, dry_run), replies).dry_run == dry_run,
    decreases replies.len(),
{
    if replies.len() > 0 {
        lemma_replay_orderly(group, action, dry_run, replies.drop_last());
        lemma_step_orderly(
            run_replay(run_start(group, action, dry_run), replies.drop_last()),
            replies.last(),
        );
    }
}

/// The keeper is left alone, and so is every member that already has its
/// outcome: whatever was answered before, a request that changes the file
/// system at the place of a file does so at the path of the member that is
/// worked on, which is never the first.
pub proof fn lemma_keeper_untouched(
    group: Seq<FileInfoView>,
    action: DedupActionView,
    dry_run: bool,
    replies: Seq<FsReplyView>,
)
    ensures
        ({
            let s = run_replay(run_start(group, action, dry_run), replies);
            match run_request(s) {
                Some(request) => {
                    &&& 1 <= s.position < group.len()
                    &&& changed_path(request) is Some ==> changed_path(request)
                        == Some(group[s.position as int].path)
                },
                None => true,
            }
        }),
{
    lemma_replay_orderly(group, action, dry_run, replies);
}

/// A dry run changes nothing: whatever was answered before, its request
/// only reads.
pub proof fn lemma_dry_run_reads_only(
    group: Seq<FileInfoView>,
    action: DedupActionView,
    replies: Seq<FsReplyView>,
)
    ensures
        match run_request(run_replay(run_start(group, action, true), replies)) {
            Some(request) => reads_only(request),
            None => true,
        },
{
    lemma_replay_orderly(group, action, true, replies);
}

/// A finished run has one outcome for every member but the keeper, unless
/// it only lists: then it has none.
pub proof fn lemma_finished_run(
    group: Seq<FileInfoView>,
    action: DedupActionView,
    dry_run: bool,
    replies: Seq<FsReplyView>,
)
    requires
        run_finished(run_replay(run_start(group, action, dry_run), replies)),
    ensures
        ({
            let s = run_replay(run_start(group, action, dry_run), replies);
            s.operations.len() == if action is List || group.len() == 0 {
                0
            } else {
                group.len() - 1
            }
        }),
    decreases replies.len(),
{
    lemma_replay_orderly(group, action, dry_run, replies);
    if action is List && replies.len() > 0 {
        lemma_finished_run(group, action, dry_run, replies.drop_last());
    }
}


/// The answers of a live run that a dry run on the same files gets too:
/// those to the requests that only read.
pub open spec fn dry_replies(start: RunView, told: Seq<FsReplyView>) -> Seq<FsReplyView>
    decreases told.len(),
{
    if told.len() == 0 {
        Seq::<FsReplyView>::empty()
    } else {
        let kept = dry_replies(start, told.drop_last());
        match run_request(run_replay(start, told.drop_last())) {
            Some(request) => if reads_only(request) {
                kept.push(told.last())
            } else {
                kept
            },
            None => kept,
        }
    }
}

/// Every request of the run that changes the file system went through.
pub open spec fn changes_went_through(start: RunView, told: Seq<FsReplyView>) -> bool {
    forall|i: int|
        0 <= i < told.len() ==> match run_request(run_replay(start, told.take(i))) {
            Some(request) => reads_only(request) || #[trigger] told[i] is Done,
            None => true,
        }
}

/// How a dry run stands to the live run whose reading requests it shares:
/// it is where the live run is, or, where the live run is about to change
/// the file system, where the live run will be once that has gone through.
pub open spec fn dry_ahead_of(live: RunView, dry: RunView) -> bool {
    match live.stage {
        Stage::Size => dry == RunView { dry_run: true, ..live },
        Stage::Probe { size, counter } => dry == RunView { dry_run: true, ..live },
        Stage::Dir { size } => dry == RunView {
            dry_run: true,
            stage: Stage::Probe { size, counter: 0 },
            ..live
        },
        Stage::Rename { size, counter } => dry == dry_past(live, size),
        Stage::Remove { size } => dry == dry_past(live, size),
        Stage::Link { size } => dry == dry_past(live, size),
    }
}

/// The dry run that has already reported the member that `live` works on
/// as done, with `size` bytes reclaimed.
pub open spec fn dry_past(live: RunView, size: u64) -> RunView {
    RunView {
        dry_run: true,
        position: live.position + 1,
        stage: Stage::Size,
        operations: live.operations.push(
            completed(live.group[live.position as int].path, live.action, size),
        ),
        ..live
    }
}

/// A dry run reports what a live run does. Take a live run in which every
/// change went through, and a dry run that is given the same answers to the
/// requests that read: at every moment the dry run is where the live run
/// is or will be, and when the live run is finished, the dry run is
/// finished with the same outcomes.
pub proof fn lemma_dry_run_agrees(
    group: Seq<FileInfoView>,
    action: DedupActionView,
    told: Seq<FsReplyView>,
)
    requires
        changes_went_through(run_start(group, action, false), told),
    ensures
        dry_ahead_of(
            run_replay(run_start(group, action, false), told),
            run_replay(
                run_start(group, action, true),
                dry_replies(run_start(group, action, false), told),
            ),
        ),
        run_finished(run_replay(run_start(group, action, false), told)) ==> {
            &&& run_finished(
                run_replay(
                    run_start(group, action, true),
                    dry_replies(run_start(group, action, false), told),
                ),
            )
            &&& run_replay(
                run_start(group, action, true),
                dry_replies(run_start(group, action, false), told),
            ).operations == run_replay(run_start(group, action, false), told).operations
        },
    decreases told.len(),
{
    let live_start = run_start(group, action, false);
    let dry_start = run_start(group, action, true);
    lemma_replay_orderly(group, action, false, told);
    if told.len() > 0 {
        let before = told.drop_last();
        assert forall|i: int| 0 <= i < before.len() implies match run_request(
            run_replay(live_start, before.take(i)),
        ) {
            Some(request) => reads_only(request) || #[trigger] before[i] is Done,
            None => true,
        } by {
            assert(before.take(i) =~= told.take(i));
            assert(before[i] == told[i]);
        }
        lemma_dry_run_agrees(group, action, before);
        lemma_replay_orderly(group, action, false, before);
        let live = run_replay(live_start, before);
        let kept = dry_replies(live_start, before);
        let dry = run_replay(dry_start, kept);
        let reply = told.last();
        assert(told.take(told.len() - 1) =~= before);
        assert(reply == told[told.len() - 1]);
        match run_request(live) {
            Some(request) => {
                if reads_only(request) {
                    let further = kept.push(reply);
                    assert(further.drop_last() =~= kept);
                    assert(further.last() == reply);
                    assert(run_replay(dry_start, further) == run_step(dry, reply));
                } else {
                    assert(reply is Done);
                }
            },
            None => {},
        }
    }
}


/// What the file system answers to a live deletion of `copies` copies of
/// `size` bytes each when nothing fails: for each copy its size, then that
/// the removal is done.
pub open spec fn delete_script(copies: nat, size: u64) -> Seq<FsReplyView>
    decreases copies,
{
    if copies == 0 {
        Seq::<FsReplyView>::empty()
    } else {
        delete_script((copies - 1) as nat, size).push(FsReplyView::Size(size)).push(
            FsReplyView::Done,
        )
    }
}

/// Deleting the copies of a group, as far as `copies` of them: each copy
/// is reported as deleted with its `size` bytes reclaimed, in the group's
/// order, and the bytes reclaimed are `size` times `copies`. With every
/// copy of the group deleted the run is finished.
pub proof fn lemma_delete_reclaims(group: Seq<FileInfoView>, size: u64, copies: nat)
    requires
        copies < group.len(),
    ensures
        ({
            let s = run_replay(
                run_start(group, DedupActionView::Delete, false),
                delete_script(copies, size),
            );
            &&& s.position == copies + 1
            &&& s.stage is Size
            &&& s.operations.len() == copies
            &&& forall|i: int|
                0 <= i < copies ==> #[trigger] s.operations[i] == completed(
                    group[i + 1].path,
                    DedupActionView::Delete,
                    size,
                )
            &&& total_saved(s.operations) == size * copies
            &&& (copies == group.len() - 1 ==> run_finished(s))
        }),
    decreases copies,
{
    let start = run_start(group, DedupActionView::Delete, false);
    lemma_replay_orderly(group, DedupActionView::Delete, false, delete_script(copies, size));
    if copies > 0 {
        let fewer = delete_script((copies - 1) as nat, size);
        lemma_delete_reclaims(group, size, (copies - 1) as nat);
        let asked = fewer.push(FsReplyView::Size(size));
        let all = asked.push(FsReplyView::Done);
        assert(asked.drop_last() =~= fewer);
        assert(all.drop_last() =~= asked);
        let before = run_replay(start, fewer);
        let sized = run_step(before, FsReplyView::Size(size));
        assert(run_replay(start, asked) == sized);
        let s = run_step(sized, FsReplyView::Done);
        assert(run_replay(start, all) == s);
        assert(s.operations.drop_last() =~= before.operations);
        assert(size * (copies - 1) + size == size * copies) by (nonlinear_arith);
        assert forall|i: int| 0 <= i < copies implies #[trigger] s.operations[i] == completed(
            group[i + 1].path,
            DedupActionView::Delete,
            size,
        ) by {
            if i < copies - 1 {
                assert(s.operations[i] == before.operations[i]);
            }
        }
    } else {
        assert(size * 0 == 0) by (nonlinear_arith);
    }
}

/// Deleting the copies of a group removes exactly the copies: the `k`-th
/// copy is asked for its size and is then removed, and no other request is
/// made for it. The keeper is the subject of no request.
pub proof fn lemma_delete_requests(group: Seq<FileInfoView>, size: u64, k: nat)
    requires
        k + 1 < group.len(),
    ensures
        run_request(
            run_replay(run_start(group, DedupActionView::Delete, false), delete_script(k, size)),
        ) == Some(FsRequestView::FileSize { path: group[k as int + 1].path }),
        run_request(
            run_replay(
                run_start(group, DedupActionView::Delete, false),
                delete_script(k, size).push(FsReplyView::Size(size)),
            ),
        ) == Some(FsRequestView::RemoveFile { path: group[k as int + 1].path }),
{
    let start = run_start(group, DedupActionView::Delete, false);
    lemma_delete_reclaims(group, size, k);
    lemma_replay_orderly(group, DedupActionView::Delete, false, delete_script(k, size));
    let before = run_replay(start, delete_script(k, size));
    assert(before.stage == Stage::Size);
    assert(!run_finished(before));
    let asked = delete_script(k, size).push(FsReplyView::Size(size));
    assert(asked.drop_last() =~= delete_script(k, size));
    assert(run_replay(start, asked) == run_step(before, FsReplyView::Size(size)));
}

} // verus!
