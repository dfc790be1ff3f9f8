//! The read-only integration surface: listing attempts and processes,
//! assembling normalized logs, deriving the collapsed execution state, and
//! the small parsers and message builders the outer layer displays.

use vstd::prelude::*;

verus! {

use crate::Id;
use crate::model::{
    Task, TaskAttempt, ExecutionProcess, ExecutionProcessView, ExecutionProcessSummary,
    ExecutionProcessStatus, ExecutionProcessType, ExecutorSessionView, TaskAttemptView,
    TaskAttemptState, EngineError, opt_view,
};
use crate::normalize::{NormalizedConversation, NormalizedConversationView, spec_normalize};
use crate::store::Store;

/// One process's logs as served to the caller: the row's display fields plus
/// its normalized conversation.
pub struct ProcessLogsResponse {
    pub id: Id,
    pub process_type: ExecutionProcessType,
    pub command: String,
    pub executor_type: Option<String>,
    pub status: ExecutionProcessStatus,
    pub normalized_conversation: NormalizedConversation,
}

/// Mathematical view of a [`ProcessLogsResponse`].
#[verifier::ext_equal]
pub struct ProcessLogsResponseView {
    pub id: Id,
    pub process_type: ExecutionProcessType,
    pub command: Seq<char>,
    pub executor_type: Option<Seq<char>>,
    pub status: ExecutionProcessStatus,
    pub normalized_conversation: NormalizedConversationView,
}

impl View for ProcessLogsResponse {
    type V = ProcessLogsResponseView;

    open spec fn view(&self) -> ProcessLogsResponseView {
        ProcessLogsResponseView {
            id: self.id,
            process_type: self.process_type,
            command: self.command@,
            executor_type: opt_view(self.executor_type),
            status: self.status,
            normalized_conversation: self.normalized_conversation@,
        }
    }
}

/// The prompt of an optional session view.
pub open spec fn view_prompt(o: Option<ExecutorSessionView>) -> Option<Seq<char>> {
    match o {
        Option::Some(s) => s.prompt,
        Option::None => Option::None,
    }
}

/// The summary of an optional session view.
pub open spec fn view_summary(o: Option<ExecutorSessionView>) -> Option<Seq<char>> {
    match o {
        Option::Some(s) => s.summary,
        Option::None => Option::None,
    }
}

/// What serving one process's logs yields, against the store's session table.
pub open spec fn spec_process_logs(s: Store, p: ExecutionProcessView, now: Seq<char>) -> ProcessLogsResponseView {
    ProcessLogsResponseView {
        id: p.id,
        process_type: p.process_type,
        command: p.command,
        executor_type: p.executor_type,
        status: p.status,
        normalized_conversation: spec_normalize(
            p.process_type,
            p.executor_type,
            p.stdout,
            p.stderr,
            p.working_directory,
            view_prompt(s.session_of(p.id)),
            view_summary(s.session_of(p.id)),
            now,
        ),
    }
}

/// Validate the `(project, task, attempt)` triple, as every surface call
/// does before touching anything else.
pub fn validate_attempt_context(
    store: &Store,
    project_id: Id,
    task_id: Id,
    attempt_id: Id,
) -> (r: Result<(), EngineError>)
    ensures
        match r {
            Result::Ok(()) => store.triple_ok(project_id, task_id, attempt_id),
            Result::Err(EngineError::NotFound) => !store.triple_ok(project_id, task_id, attempt_id),
            _ => false,
        },
{
    if store.exists_for_task(attempt_id, task_id, project_id) {
        Result::Ok(())
    } else {
        Result::Err(EngineError::NotFound)
    }
}

/// The attempts of a task, newest last, after validating the task belongs to
/// the project.
pub fn get_task_attempts(store: &Store, project_id: Id, task_id: Id) -> (r: Result<
    Vec<TaskAttempt>,
    EngineError,
>)
    ensures
        match r {
            Result::Ok(v) => store.task_in_project(task_id, project_id) && v@.map_values(
                |a: TaskAttempt| a@,
            ) == store.attempts_v().filter(|a: TaskAttemptView| a.task_id == task_id),
            Result::Err(EngineError::NotFound) => !store.task_in_project(task_id, project_id),
            _ => false,
        },
{
    if !store.task_exists(task_id, project_id) {
        return Result::Err(EngineError::NotFound);
    }
    Result::Ok(store.attempts_for_task(task_id))
}

/// One attempt by identifier.
pub fn get_task_attempt_details(store: &Store, attempt_id: Id) -> (r: Result<
    TaskAttempt,
    EngineError,
>)
    ensures
        match r {
            Result::Ok(a) => store.attempt_of(attempt_id) == Option::Some(a@),
            Result::Err(EngineError::NotFound) => store.attempt_of(attempt_id) is None,
            _ => false,
        },
{
    match store.find_attempt(attempt_id) {
        Option::Some(a) => Result::Ok(a.duplicate()),
        Option::None => Result::Err(EngineError::NotFound),
    }
}

/// A process is served only when its chain of ownership — process, attempt,
/// task — lands in the requested project.
pub open spec fn process_in_project(s: Store, process_id: Id, project_id: Id) -> bool {
    match s.process_of(process_id) {
        Option::Some(p) => s.attempt_project(p.task_attempt_id) == Option::Some(project_id),
        Option::None => false,
    }
}

/// One process by identifier, validated against the project that claims it.
pub fn get_execution_process(store: &Store, project_id: Id, process_id: Id) -> (r: Result<
    ExecutionProcess,
    EngineError,
>)
    ensures
        match r {
            Result::Ok(p) => process_in_project(*store, process_id, project_id)
                && store.process_of(process_id) == Option::Some(p@),
            Result::Err(EngineError::NotFound) => !process_in_project(
                *store,
                process_id,
                project_id,
            ),
            _ => false,
        },
{
    match store.find_process(process_id) {
        Option::Some(p) => {
            let owned = match store.find_attempt(p.task_attempt_id) {
                Option::Some(a) => match store.find_task(a.task_id) {
                    Option::Some(t) => t.project_id == project_id,
                    Option::None => false,
                },
                Option::None => false,
            };
            if owned {
                Result::Ok(p.duplicate())
            } else {
                Result::Err(EngineError::NotFound)
            }
        },
        Option::None => Result::Err(EngineError::NotFound),
    }
}

/// The condensed process rows of an attempt, in creation order.
pub fn get_task_attempt_execution_processes(
    store: &Store,
    project_id: Id,
    task_id: Id,
    attempt_id: Id,
) -> (r: Result<Vec<ExecutionProcessSummary>, EngineError>)
    ensures
        match r {
            Result::Ok(v) => store.triple_ok(project_id, task_id, attempt_id) && v@.map_values(
                |s: ExecutionProcessSummary| s@,
            ) == store.processes_v().filter(
                |p: ExecutionProcessView| p.task_attempt_id == attempt_id,
            ).map_values(|p: ExecutionProcessView| crate::model::summary_of(p)),
            Result::Err(EngineError::NotFound) => !store.triple_ok(project_id, task_id, attempt_id),
            _ => false,
        },
{
    if !store.exists_for_task(attempt_id, task_id, project_id) {
        return Result::Err(EngineError::NotFound);
    }
    Result::Ok(store.summaries_for_attempt(attempt_id))
}

/// The tasks spawned from an attempt by plan approval, in creation order.
pub fn get_task_attempt_children(
    store: &Store,
    project_id: Id,
    task_id: Id,
    attempt_id: Id,
) -> (r: Result<Vec<Task>, EngineError>)
    ensures
        match r {
            Result::Ok(v) => store.task_in_project(task_id, project_id) && v@.map_values(
                |t: Task| t@,
            ) == store.tasks_v().filter(
                |t: crate::model::TaskView| t.parent_task_attempt == Option::Some(attempt_id)
                    && t.project_id == project_id,
            ),
            Result::Err(EngineError::NotFound) => !store.task_in_project(task_id, project_id),
            _ => false,
        },
{
    if !store.task_exists(task_id, project_id) {
        return Result::Err(EngineError::NotFound);
    }
    Result::Ok(store.children_of_attempt(attempt_id, project_id))
}

/// Normalized logs for every process of an attempt, in creation order, each
/// process's stderr entries stamped `now`.
pub fn get_task_attempt_all_logs(
    store: &Store,
    project_id: Id,
    task_id: Id,
    attempt_id: Id,
    now: &str,
) -> (r: Result<Vec<ProcessLogsResponse>, EngineError>)
    ensures
        match r {
            Result::Ok(v) => store.triple_ok(project_id, task_id, attempt_id) && v@.map_values(
                |x: ProcessLogsResponse| x@,
            ) == store.processes_v().filter(
                |p: ExecutionProcessView| p.task_attempt_id == attempt_id,
            ).map_values(|p: ExecutionProcessView| spec_process_logs(*store, p, now@)),
            Result::Err(EngineError::NotFound) => !store.triple_ok(project_id, task_id, attempt_id),
            _ => false,
        },
{
    if !store.exists_for_task(attempt_id, task_id, project_id) {
        return Result::Err(EngineError::NotFound);
    }
    let procs = store.processes_for_attempt(attempt_id);
    let ghost fv = store.processes_v().filter(
        |p: ExecutionProcessView| p.task_attempt_id == attempt_id,
    );
    let n: usize = procs.len();
    let mut out: Vec<ProcessLogsResponse> = Vec::new();
    let mut i: usize = 0;
    proof {
        assert(out@.map_values(|x: ProcessLogsResponse| x@) =~= fv.take(0).map_values(
            |p: ExecutionProcessView| spec_process_logs(*store, p, now@),
        ));
    }
    while i < n
        invariant
            n == procs.len(),
            procs@.map_values(|p: ExecutionProcess| p@) == fv,
            0 <= i <= n,
            out@.map_values(|x: ProcessLogsResponse| x@) == fv.take(i as int).map_values(
                |p: ExecutionProcessView| spec_process_logs(*store, p, now@),
            ),
        decreases n - i,
    {
        let p = &procs[i];
        let session = store.find_session_by_process(p.id);
        let conversation = crate::normalize::normalize_process_logs(p, session, now);
        let ghost o0 = out@;
        out.push(
            ProcessLogsResponse {
                id: p.id,
                process_type: p.process_type,
                command: p.command.clone(),
                executor_type: crate::model::clone_opt_string(&p.executor_type),
                status: p.status,
                normalized_conversation: conversation,
            },
        );
        proof {
            assert(out@.last()@ =~= spec_process_logs(*store, fv[i as int], now@));
            assert(fv.take(i + 1) =~= fv.take(i as int).push(fv[i as int]));
            assert(fv.take(i + 1).map_values(
                |p: ExecutionProcessView| spec_process_logs(*store, p, now@),
            ) =~= fv.take(i as int).map_values(
                |p: ExecutionProcessView| spec_process_logs(*store, p, now@),
            ).push(spec_process_logs(*store, fv[i as int], now@)));
            assert(out@.map_values(|x: ProcessLogsResponse| x@) =~= o0.map_values(
                |x: ProcessLogsResponse| x@,
            ).push(out@.last()@));
        }
        i = i + 1;
    }
    proof {
        assert(fv.take(n as int) =~= fv);
    }
    Result::Ok(out)
}

/// The collapsed state of an attempt, derived from its newest process and
/// its terminal markers: no processes yet means provisioning; a running
/// process shows as its phase; otherwise a recorded merge shows as merged,
/// a killed newest process as stopped, a failed one as its phase's failure,
/// and anything else as idle.
pub open spec fn spec_execution_state(
    procs: Seq<ExecutionProcessView>,
    attempt: TaskAttemptView,
) -> TaskAttemptState {
    if procs.len() == 0 {
        if attempt.merge_commit is Some {
            TaskAttemptState::Merged
        } else {
            TaskAttemptState::Provisioning
        }
    } else {
        let last = procs.last();
        if last.status == ExecutionProcessStatus::Running {
            match last.process_type {
                ExecutionProcessType::SetupScript => TaskAttemptState::SetupRunning,
                ExecutionProcessType::CodingAgent => TaskAttemptState::MainRunning,
                ExecutionProcessType::DevServer => TaskAttemptState::DevServerRunning,
                ExecutionProcessType::Followup => TaskAttemptState::FollowupRunning,
            }
        } else if attempt.merge_commit is Some {
            TaskAttemptState::Merged
        } else if last.status == ExecutionProcessStatus::Killed {
            TaskAttemptState::Stopped
        } else if last.status == ExecutionProcessStatus::Failed {
            match last.process_type {
                ExecutionProcessType::SetupScript => TaskAttemptState::SetupFailed,
                ExecutionProcessType::DevServer => TaskAttemptState::Idle,
                _ => TaskAttemptState::MainFailed,
            }
        } else {
            TaskAttemptState::Idle
        }
    }
}

/// Derive the collapsed execution state of an attempt.
pub fn get_task_attempt_execution_state(
    store: &Store,
    project_id: Id,
    task_id: Id,
    attempt_id: Id,
) -> (r: Result<TaskAttemptState, EngineError>)
    ensures
        match r {
            Result::Ok(st) => store.triple_ok(project_id, task_id, attempt_id) && st
                == spec_execution_state(
                store.processes_v().filter(
                    |p: ExecutionProcessView| p.task_attempt_id == attempt_id,
                ),
                store.attempt_of(attempt_id)->Some_0,
            ),
            Result::Err(EngineError::NotFound) => !store.triple_ok(project_id, task_id, attempt_id),
            _ => false,
        },
{
    if !store.exists_for_task(attempt_id, task_id, project_id) {
        return Result::Err(EngineError::NotFound);
    }
    let merged = match store.find_attempt(attempt_id) {
        Option::Some(a) => a.merge_commit.is_some(),
        Option::None => false,
    };
    let procs = store.processes_for_attempt(attempt_id);
    let n: usize = procs.len();
    if n == 0 {
        if merged {
            return Result::Ok(TaskAttemptState::Merged);
        }
        return Result::Ok(TaskAttemptState::Provisioning);
    }
    let last = &procs[n - 1];
    proof {
        assert(procs@.map_values(|p: ExecutionProcess| p@)[n - 1] == last@);
    }
    let st = match last.status {
        ExecutionProcessStatus::Running => match last.process_type {
            ExecutionProcessType::SetupScript => TaskAttemptState::SetupRunning,
            ExecutionProcessType::CodingAgent => TaskAttemptState::MainRunning,
            ExecutionProcessType::DevServer => TaskAttemptState::DevServerRunning,
            ExecutionProcessType::Followup => TaskAttemptState::FollowupRunning,
        },
        _ => {
            if merged {
                TaskAttemptState::Merged
            } else {
                match last.status {
                    ExecutionProcessStatus::Killed => TaskAttemptState::Stopped,
                    ExecutionProcessStatus::Failed => match last.process_type {
                        ExecutionProcessType::SetupScript => TaskAttemptState::SetupFailed,
                        ExecutionProcessType::DevServer => TaskAttemptState::Idle,
                        _ => TaskAttemptState::MainFailed,
                    },
                    _ => TaskAttemptState::Idle,
                }
            }
        },
    };
    Result::Ok(st)
}

/// What `stop_all` tells the caller: how many processes were stopped, or
/// that none were running.
pub open spec fn spec_stop_all_message(count: int) -> Seq<char> {
    if count == 0 {
        "No running processes found to stop"@
    } else {
        "Successfully stopped "@ + crate::text::spec_dec(count) + " execution processes"@
    }
}

/// Build the message for a `stop_all` result.
pub fn stop_all_message(count: usize) -> (r: String)
    ensures
        r@ == spec_stop_all_message(count as int),
{
    if count == 0 {
        String::from_str("No running processes found to stop")
    } else {
        let dec = crate::text::dec_u128(count as u128);
        let m = String::from_str("Successfully stopped ").concat(dec.as_str()).concat(
            " execution processes",
        );
        proof {
            assert(m@ =~= spec_stop_all_message(count as int));
        }
        m
    }
}

/// The model names in a model-listing command's stdout: one per line,
/// trimmed, blank lines dropped.
pub open spec fn spec_model_lines(lines: Seq<Seq<char>>) -> Seq<Seq<char>>
    decreases lines.len(),
{
    if lines.len() == 0 {
        Seq::empty()
    } else {
        let rest = spec_model_lines(lines.skip(1));
        let t = crate::text::spec_trim(lines[0]);
        if t.len() > 0 {
            seq![t] + rest
        } else {
            rest
        }
    }
}

/// Model lines grow on the right, line by line.
proof fn lemma_model_lines_push(lines: Seq<Seq<char>>, l: Seq<char>)
    ensures
        spec_model_lines(lines.push(l)) == if crate::text::spec_trim(l).len() > 0 {
            spec_model_lines(lines).push(crate::text::spec_trim(l))
        } else {
            spec_model_lines(lines)
        },
    decreases lines.len(),
{
    let s = lines.push(l);
    if lines.len() == 0 {
        assert(s[0] == l);
        assert(s.skip(1) =~~= Seq::<Seq<char>>::empty());
        assert(spec_model_lines(s.skip(1)) =~= Seq::<Seq<char>>::empty());
        assert(spec_model_lines(lines) =~= Seq::<Seq<char>>::empty());
        if crate::text::spec_trim(l).len() > 0 {
            assert(spec_model_lines(s) =~= spec_model_lines(lines).push(crate::text::spec_trim(l)));
        }
    } else {
        assert(s.skip(1) =~~= lines.skip(1).push(l));
        lemma_model_lines_push(lines.skip(1), l);
        assert(s[0] == lines[0]);
        if crate::text::spec_trim(l).len() > 0 {
            assert(spec_model_lines(s) =~= spec_model_lines(lines).push(crate::text::spec_trim(l)));
        } else {
            assert(spec_model_lines(s) =~= spec_model_lines(lines));
        }
    }
}

/// Parse a model-listing command's stdout into model names: the trimmed
/// non-blank lines, in order.
pub fn parse_model_lines(stdout: &str) -> (r: Vec<String>)
    ensures
        r@.map_values(|x: String| x@) == spec_model_lines(crate::text::spec_split(stdout@, "\n"@)),
{
    proof {
        reveal_strlit("\n");
    }
    let lines = crate::text::split_on(stdout, "\n");
    let ghost lv = lines@.map_values(|x: String| x@);
    let n: usize = lines.len();
    let mut out: Vec<String> = Vec::new();
    let mut i: usize = 0;
    proof {
        assert(lv.take(0) =~~= Seq::<Seq<char>>::empty());
        assert(out@.map_values(|x: String| x@) =~= spec_model_lines(lv.take(0)));
    }
    while i < n
        invariant
            n == lines.len(),
            lv == lines@.map_values(|x: String| x@),
            0 <= i <= n,
            out@.map_values(|x: String| x@) == spec_model_lines(lv.take(i as int)),
        decreases n - i,
    {
        proof {
            assert(lv.take(i + 1) =~~= lv.take(i as int).push(lv[i as int]));
            lemma_model_lines_push(lv.take(i as int), lv[i as int]);
        }
        let t = crate::text::trim(lines[i].as_str());
        if t.as_str().unicode_len() > 0 {
            let ghost o0 = out@;
            out.push(t);
            proof {
                assert(out@.map_values(|x: String| x@) =~= o0.map_values(|x: String| x@).push(
                    out@.last()@,
                ));
            }
        }
        i = i + 1;
    }
    proof {
        assert(lv.take(n as int) =~~= lv);
    }
    out
}

} // verus!
