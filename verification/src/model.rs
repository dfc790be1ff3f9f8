//! The persisted records of the engine: tasks, task attempts, executor
//! processes and their sidecar sessions, together with the small request and
//! response shapes of the integration surface.

use vstd::prelude::*;

verus! {

use crate::Id;

/// View of an optional string: the character sequence, if present.
pub open spec fn opt_view(o: Option<String>) -> Option<Seq<char>> {
    match o {
        Option::None => Option::None,
        Option::Some(s) => Option::Some(s@),
    }
}

/// The text of an optional string, reading absence as empty.
pub open spec fn text_of(o: Option<Seq<char>>) -> Seq<char> {
    match o {
        Option::None => Seq::empty(),
        Option::Some(s) => s,
    }
}

/// Clone an optional string; the view is preserved.
pub fn clone_opt_string(o: &Option<String>) -> (r: Option<String>)
    ensures
        opt_view(r) == opt_view(*o),
{
    match o {
        Option::None => Option::None,
        Option::Some(s) => Option::Some(s.clone()),
    }
}

/// Lifecycle status of a task.
#[derive(Clone, Copy, Debug, PartialEq, Eq, Structural)]
pub enum TaskStatus {
    Todo,
    InProgress,
    InReview,
    Done,
    Cancelled,
}

/// What kind of work an executor process performs for its attempt.
#[derive(Clone, Copy, Debug, PartialEq, Eq, Structural)]
pub enum ExecutionProcessType {
    SetupScript,
    CodingAgent,
    DevServer,
    Followup,
}

/// Status of an executor process. `Running` is the only non-terminal status;
/// a process reaches a terminal status exactly once.
#[derive(Clone, Copy, Debug, PartialEq, Eq, Structural)]
pub enum ExecutionProcessStatus {
    Running,
    Completed,
    Failed,
    Killed,
}

/// A status a process cannot leave.
pub open spec fn is_terminal(st: ExecutionProcessStatus) -> bool {
    st != ExecutionProcessStatus::Running
}

/// A task inside a project; the unit of work an attempt executes.
#[derive(Clone, Debug)]
pub struct Task {
    pub id: Id,
    pub project_id: Id,
    pub title: String,
    pub description: Option<String>,
    pub status: TaskStatus,
    /// For a task spawned by plan approval: the attempt whose plan it executes.
    pub parent_task_attempt: Option<Id>,
}

/// One isolated run of an executor against a task, with its own worktree and
/// branch.
#[derive(Clone, Debug)]
pub struct TaskAttempt {
    pub id: Id,
    pub task_id: Id,
    /// Executor identifier resolvable by the registry, if one was chosen.
    pub executor: Option<String>,
    pub base_branch: String,
    pub branch_name: String,
    pub worktree_path: String,
    /// The commit that merged this attempt into its base branch, once merged.
    pub merge_commit: Option<String>,
    /// For a follow-up forked off an attempt whose worktree was gone.
    pub parent_attempt_id: Option<Id>,
    pub created_at: String,
}

/// One child process spawned for an attempt, with its captured output.
#[derive(Clone, Debug)]
pub struct ExecutionProcess {
    pub id: Id,
    pub task_attempt_id: Id,
    pub process_type: ExecutionProcessType,
    /// Which registry adapter parses this process's logs, if any.
    pub executor_type: Option<String>,
    /// Display form of the command that was run.
    pub command: String,
    pub working_directory: String,
    pub status: ExecutionProcessStatus,
    pub exit_code: Option<i64>,
    pub stdout: Option<String>,
    pub stderr: Option<String>,
    pub started_at: String,
    pub ended_at: Option<String>,
}

/// Condensed row for process listings.
#[derive(Clone, Debug)]
pub struct ExecutionProcessSummary {
    pub id: Id,
    pub process_type: ExecutionProcessType,
    pub executor_type: Option<String>,
    pub command: String,
    pub status: ExecutionProcessStatus,
    pub exit_code: Option<i64>,
    pub started_at: String,
    pub ended_at: Option<String>,
}

/// Sidecar record per process: the prompt it was given and what the
/// normalizer learned.
#[derive(Clone, Debug)]
pub struct ExecutorSession {
    pub execution_process_id: Id,
    pub prompt: Option<String>,
    pub summary: Option<String>,
    pub session_id: Option<String>,
}

/// Request to create an attempt for a task.
#[derive(Clone, Debug)]
pub struct CreateTaskAttempt {
    pub executor: Option<String>,
    pub base_branch: Option<String>,
}

/// Request to send a further prompt into an existing attempt.
#[derive(Clone, Debug)]
pub struct CreateFollowUpAttempt {
    pub prompt: String,
}

/// Request to rebase an attempt's branch, optionally onto a new base.
#[derive(Clone, Debug)]
pub struct RebaseTaskAttemptRequest {
    pub new_base_branch: Option<String>,
}

/// Request to open a pull request for an attempt's branch.
#[derive(Clone, Debug)]
pub struct CreateGitHubPRRequest {
    pub title: String,
    pub body: Option<String>,
    pub base_branch: Option<String>,
}

/// Request to open the attempt's worktree in an editor.
#[derive(Clone, Debug)]
pub struct OpenEditorRequest {
    pub editor_type: Option<String>,
}

/// Which tracked file to remove from the attempt's worktree.
#[derive(Clone, Debug)]
pub struct DeleteFileQuery {
    pub file_path: String,
}

/// What a follow-up or plan approval actually did.
#[derive(Clone, Debug)]
pub struct FollowUpResponse {
    pub message: String,
    pub actual_attempt_id: Id,
    pub created_new_attempt: bool,
}

/// How an attempt's branch relates to its base branch.
#[derive(Clone, Copy, Debug, PartialEq, Eq, Structural)]
pub enum BranchStatusKind {
    UpToDate,
    Ahead,
    Behind,
    Diverged,
    BaseMissing,
}

/// Branch comparison result with commit counts.
#[derive(Clone, Copy, Debug)]
pub struct BranchStatus {
    pub kind: BranchStatusKind,
    pub commits_ahead: u64,
    pub commits_behind: u64,
}

/// Collapsed view of where an attempt stands, derived from its processes and
/// terminal markers.
#[derive(Clone, Copy, Debug, PartialEq, Eq, Structural)]
pub enum TaskAttemptState {
    Provisioning,
    SetupRunning,
    MainRunning,
    FollowupRunning,
    DevServerRunning,
    SetupFailed,
    MainFailed,
    Stopped,
    Merged,
    Idle,
}

/// Why an engine operation could not be performed.
#[derive(Clone, Copy, Debug, PartialEq, Eq, Structural)]
pub enum EngineError {
    /// The `(project, task, attempt)` triple does not name an existing,
    /// consistent record.
    NotFound,
    /// A supplied identifier collides with an existing record.
    IdTaken,
    /// Another attempt already occupies the requested worktree path.
    WorktreeInUse,
    /// No plan presentation exists anywhere in the attempt's processes.
    PlanNotFound,
}

/// Envelope for operations whose domain failures are reported to the caller
/// rather than raised: mirrors the `{success, message}` shape of the outer
/// surface.
#[derive(Clone, Debug)]
pub struct OpOutcome {
    pub success: bool,
    pub message: String,
}

/// Mathematical view of a [`Task`].
#[verifier::ext_equal]
pub struct TaskView {
    pub id: Id,
    pub project_id: Id,
    pub title: Seq<char>,
    pub description: Option<Seq<char>>,
    pub status: TaskStatus,
    pub parent_task_attempt: Option<Id>,
}

impl View for Task {
    type V = TaskView;

    open spec fn view(&self) -> TaskView {
        TaskView {
            id: self.id,
            project_id: self.project_id,
            title: self.title@,
            description: opt_view(self.description),
            status: self.status,
            parent_task_attempt: self.parent_task_attempt,
        }
    }
}

/// Mathematical view of a [`TaskAttempt`].
#[verifier::ext_equal]
pub struct TaskAttemptView {
    pub id: Id,
    pub task_id: Id,
    pub executor: Option<Seq<char>>,
    pub base_branch: Seq<char>,
    pub branch_name: Seq<char>,
    pub worktree_path: Seq<char>,
    pub merge_commit: Option<Seq<char>>,
    pub parent_attempt_id: Option<Id>,
    pub created_at: Seq<char>,
}

impl View for TaskAttempt {
    type V = TaskAttemptView;

    open spec fn view(&self) -> TaskAttemptView {
        TaskAttemptView {
            id: self.id,
            task_id: self.task_id,
            executor: opt_view(self.executor),
            base_branch: self.base_branch@,
            branch_name: self.branch_name@,
            worktree_path: self.worktree_path@,
            merge_commit: opt_view(self.merge_commit),
            parent_attempt_id: self.parent_attempt_id,
            created_at: self.created_at@,
        }
    }
}

/// Mathematical view of an [`ExecutionProcess`].
#[verifier::ext_equal]
pub struct ExecutionProcessView {
    pub id: Id,
    pub task_attempt_id: Id,
    pub process_type: ExecutionProcessType,
    pub executor_type: Option<Seq<char>>,
    pub command: Seq<char>,
    pub working_directory: Seq<char>,
    pub status: ExecutionProcessStatus,
    pub exit_code: Option<i64>,
    pub stdout: Option<Seq<char>>,
    pub stderr: Option<Seq<char>>,
    pub started_at: Seq<char>,
    pub ended_at: Option<Seq<char>>,
}

impl View for ExecutionProcess {
    type V = ExecutionProcessView;

    open spec fn view(&self) -> ExecutionProcessView {
        ExecutionProcessView {
            id: self.id,
            task_attempt_id: self.task_attempt_id,
            process_type: self.process_type,
            executor_type: opt_view(self.executor_type),
            command: self.command@,
            working_directory: self.working_directory@,
            status: self.status,
            exit_code: self.exit_code,
            stdout: opt_view(self.stdout),
            stderr: opt_view(self.stderr),
            started_at: self.started_at@,
            ended_at: opt_view(self.ended_at),
        }
    }
}

/// Mathematical view of an [`ExecutionProcessSummary`].
#[verifier::ext_equal]
pub struct ExecutionProcessSummaryView {
    pub id: Id,
    pub process_type: ExecutionProcessType,
    pub executor_type: Option<Seq<char>>,
    pub command: Seq<char>,
    pub status: ExecutionProcessStatus,
    pub exit_code: Option<i64>,
    pub started_at: Seq<char>,
    pub ended_at: Option<Seq<char>>,
}

impl View for ExecutionProcessSummary {
    type V = ExecutionProcessSummaryView;

    open spec fn view(&self) -> ExecutionProcessSummaryView {
        ExecutionProcessSummaryView {
            id: self.id,
            process_type: self.process_type,
            executor_type: opt_view(self.executor_type),
            command: self.command@,
            status: self.status,
            exit_code: self.exit_code,
            started_at: self.started_at@,
            ended_at: opt_view(self.ended_at),
        }
    }
}

/// The summary a process row condenses to.
pub open spec fn summary_of(p: ExecutionProcessView) -> ExecutionProcessSummaryView {
    ExecutionProcessSummaryView {
        id: p.id,
        process_type: p.process_type,
        executor_type: p.executor_type,
        command: p.command,
        status: p.status,
        exit_code: p.exit_code,
        started_at: p.started_at,
        ended_at: p.ended_at,
    }
}

/// Mathematical view of an [`ExecutorSession`].
#[verifier::ext_equal]
pub struct ExecutorSessionView {
    pub execution_process_id: Id,
    pub prompt: Option<Seq<char>>,
    pub summary: Option<Seq<char>>,
    pub session_id: Option<Seq<char>>,
}

impl View for ExecutorSession {
    type V = ExecutorSessionView;

    open spec fn view(&self) -> ExecutorSessionView {
        ExecutorSessionView {
            execution_process_id: self.execution_process_id,
            prompt: opt_view(self.prompt),
            summary: opt_view(self.summary),
            session_id: opt_view(self.session_id),
        }
    }
}

impl Task {
    /// An equal copy of the record.
    pub fn duplicate(&self) -> (r: Task)
        ensures
            r@ == self@,
    {
        let r = Task {
            id: self.id,
            project_id: self.project_id,
            title: self.title.clone(),
            description: clone_opt_string(&self.description),
            status: self.status,
            parent_task_attempt: self.parent_task_attempt,
        };
        proof {
            assert(r@ =~= self@);
        }
        r
    }
}

impl TaskAttempt {
    /// An equal copy of the record.
    pub fn duplicate(&self) -> (r: TaskAttempt)
        ensures
            r@ == self@,
    {
        let r = TaskAttempt {
            id: self.id,
            task_id: self.task_id,
            executor: clone_opt_string(&self.executor),
            base_branch: self.base_branch.clone(),
            branch_name: self.branch_name.clone(),
            worktree_path: self.worktree_path.clone(),
            merge_commit: clone_opt_string(&self.merge_commit),
            parent_attempt_id: self.parent_attempt_id,
            created_at: self.created_at.clone(),
        };
        proof {
            assert(r@ =~= self@);
        }
        r
    }
}

impl ExecutionProcess {
    /// An equal copy of the record.
    pub fn duplicate(&self) -> (r: ExecutionProcess)
        ensures
            r@ == self@,
    {
        let r = ExecutionProcess {
            id: self.id,
            task_attempt_id: self.task_attempt_id,
            process_type: self.process_type,
            executor_type: clone_opt_string(&self.executor_type),
            command: self.command.clone(),
            working_directory: self.working_directory.clone(),
            status: self.status,
            exit_code: self.exit_code,
            stdout: clone_opt_string(&self.stdout),
            stderr: clone_opt_string(&self.stderr),
            started_at: self.started_at.clone(),
            ended_at: clone_opt_string(&self.ended_at),
        };
        proof {
            assert(r@ =~= self@);
        }
        r
    }

    /// The condensed listing row for this process.
    pub fn summarize(&self) -> (r: ExecutionProcessSummary)
        ensures
            r@ == summary_of(self@),
    {
        let r = ExecutionProcessSummary {
            id: self.id,
            process_type: self.process_type,
            executor_type: clone_opt_string(&self.executor_type),
            command: self.command.clone(),
            status: self.status,
            exit_code: self.exit_code,
            started_at: self.started_at.clone(),
            ended_at: clone_opt_string(&self.ended_at),
        };
        proof {
            assert(r@ =~= summary_of(self@));
        }
        r
    }
}

} // verus!
