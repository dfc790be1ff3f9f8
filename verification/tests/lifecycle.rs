use attempt_engine::coordinator::Engine;
use attempt_engine::git::{MergeOutcome, RebaseOutcome};
use attempt_engine::model::{
    CreateTaskAttempt, ExecutionProcess, ExecutionProcessStatus, ExecutionProcessType, Task,
    TaskAttemptState, TaskStatus,
};
use attempt_engine::surface;

const NOW: &str = "2024-01-01T00:00:00+00:00";
const LATER: &str = "2024-01-01T00:05:00+00:00";

fn mk_task(id: u128, project_id: u128, title: &str) -> Task {
    Task {
        id,
        project_id,
        title: title.to_string(),
        description: None,
        status: TaskStatus::Todo,
        parent_task_attempt: None,
    }
}

fn mk_engine_with_attempt() -> Engine {
    let mut e = Engine::new();
    e.store.create_task(mk_task(1, 10, "T")).unwrap();
    let payload = CreateTaskAttempt {
        executor: Some("coding-agent".to_string()),
        base_branch: Some("main".to_string()),
    };
    let a = e
        .create_task_attempt(10, 1, &payload, 100, "/data/worktrees", NOW)
        .unwrap();
    assert_eq!(a.id, 100);
    e
}

fn agent_process(id: u128, attempt_id: u128) -> ExecutionProcess {
    ExecutionProcess {
        id,
        task_attempt_id: attempt_id,
        process_type: ExecutionProcessType::CodingAgent,
        executor_type: Some("coding-agent".to_string()),
        command: "agent --run".to_string(),
        working_directory: "/data/worktrees/100".to_string(),
        status: ExecutionProcessStatus::Running,
        exit_code: None,
        stdout: None,
        stderr: None,
        started_at: NOW.to_string(),
        ended_at: None,
    }
}

#[test]
fn happy_path_provision_run_merge() {
    let mut e = mk_engine_with_attempt();
    let a = e.store.find_attempt(100).unwrap();
    assert_eq!(a.branch_name, "attempt-100");
    assert_eq!(a.worktree_path, "/data/worktrees/100");
    assert_eq!(a.base_branch, "main");

    // No process yet: the attempt is provisioning.
    let st = surface::get_task_attempt_execution_state(&e.store, 10, 1, 100).unwrap();
    assert_eq!(st, TaskAttemptState::Provisioning);

    // The main agent starts.
    e.spawn_process(agent_process(1000, 100)).unwrap();
    let st = surface::get_task_attempt_execution_state(&e.store, 10, 1, 100).unwrap();
    assert_eq!(st, TaskAttemptState::MainRunning);

    // The agent writes a log line and exits cleanly.
    assert!(e
        .store
        .append_stdout(1000, "{\"type\": \"assistant\", \"content\": \"hi\"}\n"));
    let prior = e.complete_process(1000, ExecutionProcessStatus::Completed, Some(0), LATER);
    assert_eq!(prior, Some(ExecutionProcessStatus::Running));
    let st = surface::get_task_attempt_execution_state(&e.store, 10, 1, 100).unwrap();
    assert_eq!(st, TaskAttemptState::Idle);

    // Logs hold at least one normalized entry.
    let logs = surface::get_task_attempt_all_logs(&e.store, 10, 1, 100, LATER).unwrap();
    assert_eq!(logs.len(), 1);
    assert_eq!(logs[0].normalized_conversation.entries.len(), 1);
    assert_eq!(logs[0].normalized_conversation.entries[0].content, "hi");

    // Merge: the task is done and the commit recorded.
    let out = e
        .merge_task_attempt(
            10,
            1,
            100,
            MergeOutcome::Merged {
                merge_commit: "abc123".to_string(),
            },
        )
        .unwrap();
    assert!(out.success);
    assert_eq!(out.message, "Changes merged successfully");
    assert_eq!(e.store.find_task(1).unwrap().status, TaskStatus::Done);
    assert_eq!(
        e.store.find_attempt(100).unwrap().merge_commit.as_deref(),
        Some("abc123")
    );
    let st = surface::get_task_attempt_execution_state(&e.store, 10, 1, 100).unwrap();
    assert_eq!(st, TaskAttemptState::Merged);
}

#[test]
fn stop_mid_run_kills_and_counts() {
    let mut e = mk_engine_with_attempt();
    e.spawn_process(agent_process(1000, 100)).unwrap();

    let count = e.stop_all_execution_processes(10, 1, 100, LATER).unwrap();
    assert_eq!(count, 1);
    assert_eq!(
        surface::stop_all_message(count),
        "Successfully stopped 1 execution processes"
    );
    assert_eq!(
        e.store.find_process(1000).unwrap().status,
        ExecutionProcessStatus::Killed
    );
    let st = surface::get_task_attempt_execution_state(&e.store, 10, 1, 100).unwrap();
    assert_eq!(st, TaskAttemptState::Stopped);

    // A second stop finds nothing running.
    let count2 = e.stop_all_execution_processes(10, 1, 100, LATER).unwrap();
    assert_eq!(count2, 0);
    assert_eq!(
        surface::stop_all_message(count2),
        "No running processes found to stop"
    );
}

#[test]
fn completion_is_recorded_at_most_once() {
    let mut e = mk_engine_with_attempt();
    e.spawn_process(agent_process(1000, 100)).unwrap();

    let first = e.complete_process(1000, ExecutionProcessStatus::Completed, Some(0), LATER);
    assert_eq!(first, Some(ExecutionProcessStatus::Running));
    assert_eq!(
        e.store.find_process(1000).unwrap().status,
        ExecutionProcessStatus::Completed
    );
    assert_eq!(e.store.find_process(1000).unwrap().exit_code, Some(0));

    // A second completion is a no-op reporting the prior status.
    let second = e.complete_process(1000, ExecutionProcessStatus::Killed, Some(9), LATER);
    assert_eq!(second, Some(ExecutionProcessStatus::Completed));
    assert_eq!(
        e.store.find_process(1000).unwrap().status,
        ExecutionProcessStatus::Completed
    );
    assert_eq!(e.store.find_process(1000).unwrap().exit_code, Some(0));

    // Completing a process that does not exist reports nothing.
    assert_eq!(
        e.complete_process(9999, ExecutionProcessStatus::Failed, None, LATER),
        None
    );
}

#[test]
fn followup_on_missing_worktree_forks_new_attempt() {
    let mut e = mk_engine_with_attempt();
    let resp = e
        .create_followup_attempt(
            10,
            1,
            100,
            "continue",
            false,
            101,
            1001,
            "agent --continue".to_string(),
            "/data/worktrees",
            LATER,
        )
        .unwrap();
    assert!(resp.created_new_attempt);
    assert_eq!(resp.actual_attempt_id, 101);
    assert_ne!(resp.actual_attempt_id, 100);
    assert_eq!(
        resp.message,
        "Follow-up execution started on new attempt 101 (original worktree was deleted)"
    );
    let forked = e.store.find_attempt(101).unwrap();
    assert_eq!(forked.parent_attempt_id, Some(100));
    assert_eq!(forked.task_id, 1);
    assert_eq!(forked.worktree_path, "/data/worktrees/101");
    let p = e.store.find_process(1001).unwrap();
    assert_eq!(p.task_attempt_id, 101);
    assert_eq!(p.process_type, ExecutionProcessType::Followup);
    let s = e.store.find_session_by_process(1001).unwrap();
    assert_eq!(s.prompt.as_deref(), Some("continue"));
}

#[test]
fn followup_on_healthy_worktree_reuses_attempt() {
    let mut e = mk_engine_with_attempt();
    let resp = e
        .create_followup_attempt(
            10,
            1,
            100,
            "continue",
            true,
            101,
            1001,
            "agent --continue".to_string(),
            "/data/worktrees",
            LATER,
        )
        .unwrap();
    assert!(!resp.created_new_attempt);
    assert_eq!(resp.actual_attempt_id, 100);
    assert_eq!(resp.message, "Follow-up execution started successfully");
    assert!(e.store.find_attempt(101).is_none());
    let p = e.store.find_process(1001).unwrap();
    assert_eq!(p.task_attempt_id, 100);
    assert_eq!(p.working_directory, "/data/worktrees/100");
}

#[test]
fn plan_approval_creates_child_task_and_completes_original() {
    let mut e = mk_engine_with_attempt();
    let mut p = agent_process(1000, 100);
    p.executor_type = Some("plan-agent".to_string());
    e.spawn_process(p).unwrap();
    e.store.append_stdout(
        1000,
        "{\"type\": \"tool_use\", \"action\": \"plan_presentation\", \"plan\": \"step 1\\nstep 2\"}\n",
    );
    e.complete_process(1000, ExecutionProcessStatus::Completed, Some(0), LATER);

    let resp = e.approve_plan(10, 1, 100, 2).unwrap();
    assert!(resp.created_new_attempt);
    assert_eq!(resp.actual_attempt_id, 2);
    assert_eq!(resp.message, "Plan approved and new task created");

    let child = e.store.find_task(2).unwrap();
    assert_eq!(child.title, "Execute Plan: T");
    assert_eq!(child.description.as_deref(), Some("step 1\nstep 2"));
    assert_eq!(child.parent_task_attempt, Some(100));
    assert_eq!(child.status, TaskStatus::Todo);
    assert_eq!(e.store.find_task(1).unwrap().status, TaskStatus::Done);

    // The child shows up among the attempt's children.
    let children = surface::get_task_attempt_children(&e.store, 10, 1, 100).unwrap();
    assert_eq!(children.len(), 1);
    assert_eq!(children[0].id, 2);
}

#[test]
fn plan_approval_without_plan_fails() {
    let mut e = mk_engine_with_attempt();
    e.spawn_process(agent_process(1000, 100)).unwrap();
    e.store
        .append_stdout(1000, "{\"type\": \"assistant\", \"content\": \"no plan here\"}\n");
    let r = e.approve_plan(10, 1, 100, 2);
    assert_eq!(r.unwrap_err(), attempt_engine::model::EngineError::PlanNotFound);
    assert_eq!(e.store.find_task(1).unwrap().status, TaskStatus::Todo);
}

#[test]
fn rebase_conflict_leaves_everything_unchanged() {
    let mut e = mk_engine_with_attempt();
    e.spawn_process(agent_process(1000, 100)).unwrap();
    e.complete_process(1000, ExecutionProcessStatus::Completed, Some(0), LATER);

    let out = e
        .rebase_task_attempt(
            10,
            1,
            100,
            Some("develop".to_string()),
            RebaseOutcome::Conflict {
                message: "merge conflict in src/lib.rs".to_string(),
            },
        )
        .unwrap();
    assert!(!out.success);
    assert_eq!(out.message, "merge conflict in src/lib.rs");
    assert_eq!(e.store.find_attempt(100).unwrap().base_branch, "main");
    let st = surface::get_task_attempt_execution_state(&e.store, 10, 1, 100).unwrap();
    assert_eq!(st, TaskAttemptState::Idle);
}

#[test]
fn rebase_success_adopts_new_base() {
    let mut e = mk_engine_with_attempt();
    let out = e
        .rebase_task_attempt(10, 1, 100, Some("develop".to_string()), RebaseOutcome::Rebased)
        .unwrap();
    assert!(out.success);
    assert_eq!(out.message, "Branch rebased successfully");
    assert_eq!(e.store.find_attempt(100).unwrap().base_branch, "develop");
}

#[test]
fn dev_server_is_a_project_singleton() {
    let mut e = Engine::new();
    e.store.create_task(mk_task(1, 10, "T1")).unwrap();
    e.store.create_task(mk_task(2, 10, "T2")).unwrap();
    let payload = CreateTaskAttempt {
        executor: None,
        base_branch: None,
    };
    e.create_task_attempt(10, 1, &payload, 100, "/data/worktrees", NOW)
        .unwrap();
    e.create_task_attempt(10, 2, &payload, 200, "/data/worktrees", NOW)
        .unwrap();

    e.start_dev_server(10, 1, 100, 5000, "npm run dev".to_string(), NOW)
        .unwrap();
    assert_eq!(
        e.store.find_process(5000).unwrap().status,
        ExecutionProcessStatus::Running
    );

    // Starting a second dev server on the same project preempts the first.
    e.start_dev_server(10, 2, 200, 5001, "npm run dev".to_string(), LATER)
        .unwrap();
    assert_eq!(
        e.store.find_process(5000).unwrap().status,
        ExecutionProcessStatus::Killed
    );
    assert_eq!(
        e.store.find_process(5001).unwrap().status,
        ExecutionProcessStatus::Running
    );
    let running = e.store.running_dev_servers(10);
    assert_eq!(running.len(), 1);
    assert_eq!(running[0].id, 5001);
    assert_eq!(running[0].working_directory, "/data/worktrees/200");
}

#[test]
fn reconcile_startup_fails_orphaned_rows() {
    let mut e = mk_engine_with_attempt();
    e.spawn_process(agent_process(1000, 100)).unwrap();
    // Simulate a restart: the handle registry is fresh but the row runs on.
    e.sup = attempt_engine::supervisor::Supervisor::new();
    e.reconcile_startup(LATER);
    let p = e.store.find_process(1000).unwrap();
    assert_eq!(p.status, ExecutionProcessStatus::Failed);
    assert_eq!(p.stderr.as_deref(), Some("supervisor restart"));
}

#[test]
fn stderr_chunks_are_framed_and_stdout_is_verbatim() {
    let mut e = mk_engine_with_attempt();
    e.spawn_process(agent_process(1000, 100)).unwrap();
    assert!(e.store.append_stdout(1000, "hello "));
    assert!(e.store.append_stdout(1000, "world"));
    assert!(e.store.append_stderr_chunk(1000, "oops one"));
    assert!(e.store.append_stderr_chunk(1000, "oops two"));
    let p = e.store.find_process(1000).unwrap();
    assert_eq!(p.stdout.as_deref(), Some("hello world"));
    assert_eq!(
        p.stderr.as_deref(),
        Some("oops one---STDERR_CHUNK_BOUNDARY---oops two")
    );
}

#[test]
fn stopping_one_process_leaves_the_others_running() {
    let mut e = mk_engine_with_attempt();
    e.spawn_process(agent_process(1000, 100)).unwrap();
    e.spawn_process(agent_process(1001, 100)).unwrap();

    let stopped = e.stop_execution_process(10, 1, 100, 1000, LATER).unwrap();
    assert!(stopped);
    assert_eq!(
        e.store.find_process(1000).unwrap().status,
        ExecutionProcessStatus::Killed
    );
    assert_eq!(
        e.store.find_process(1001).unwrap().status,
        ExecutionProcessStatus::Running
    );

    // Stopping it again is a no-op success: it was not running.
    let again = e.stop_execution_process(10, 1, 100, 1000, LATER).unwrap();
    assert!(!again);

    // A process of another attempt is not found under this one.
    assert_eq!(
        e.stop_execution_process(10, 1, 100, 4242, LATER).unwrap_err(),
        attempt_engine::model::EngineError::NotFound
    );
}

#[test]
fn state_derivation_tracks_the_newest_process() {
    let mut e = mk_engine_with_attempt();
    let mut setup = agent_process(1000, 100);
    setup.process_type = ExecutionProcessType::SetupScript;
    e.spawn_process(setup).unwrap();
    assert_eq!(
        surface::get_task_attempt_execution_state(&e.store, 10, 1, 100).unwrap(),
        TaskAttemptState::SetupRunning
    );
    e.complete_process(1000, ExecutionProcessStatus::Failed, Some(1), LATER);
    assert_eq!(
        surface::get_task_attempt_execution_state(&e.store, 10, 1, 100).unwrap(),
        TaskAttemptState::SetupFailed
    );

    e.spawn_process(agent_process(1001, 100)).unwrap();
    e.complete_process(1001, ExecutionProcessStatus::Failed, Some(2), LATER);
    assert_eq!(
        surface::get_task_attempt_execution_state(&e.store, 10, 1, 100).unwrap(),
        TaskAttemptState::MainFailed
    );

    let mut follow = agent_process(1002, 100);
    follow.process_type = ExecutionProcessType::Followup;
    e.spawn_process(follow).unwrap();
    assert_eq!(
        surface::get_task_attempt_execution_state(&e.store, 10, 1, 100).unwrap(),
        TaskAttemptState::FollowupRunning
    );
}

#[test]
fn spawning_under_a_missing_attempt_is_refused() {
    let mut e = mk_engine_with_attempt();
    assert_eq!(
        e.spawn_process(agent_process(1000, 999)).unwrap_err(),
        attempt_engine::model::EngineError::NotFound
    );
}

#[test]
fn identifier_collisions_are_refused() {
    let mut e = mk_engine_with_attempt();
    let payload = CreateTaskAttempt {
        executor: None,
        base_branch: None,
    };
    // Reusing the attempt identifier collides.
    assert_eq!(
        e.create_task_attempt(10, 1, &payload, 100, "/data/worktrees", NOW)
            .unwrap_err(),
        attempt_engine::model::EngineError::IdTaken
    );
    // A fresh identifier under a different root collides on the worktree
    // path of an attempt that already occupies it.
    e.store.create_task(mk_task(2, 10, "T2")).unwrap();
    let clash = CreateTaskAttempt {
        executor: None,
        base_branch: None,
    };
    let mut e2 = mk_engine_with_attempt();
    e2.store.create_task(mk_task(2, 10, "T2")).unwrap();
    // Attempt 100 lives at /data/worktrees/100; forging the same path via a
    // crafted root reproduces the collision.
    assert_eq!(
        e2.create_task_attempt(10, 2, &clash, 100, "/other", NOW)
            .unwrap_err(),
        attempt_engine::model::EngineError::IdTaken
    );
    let taken_path = attempt_engine::model::TaskAttempt {
        id: 101,
        task_id: 2,
        executor: None,
        base_branch: "main".to_string(),
        branch_name: "attempt-101".to_string(),
        worktree_path: "/data/worktrees/100".to_string(),
        merge_commit: None,
        parent_attempt_id: None,
        created_at: NOW.to_string(),
    };
    assert_eq!(
        e2.store.create_attempt(taken_path).unwrap_err(),
        attempt_engine::model::EngineError::WorktreeInUse
    );
}

#[test]
fn fresh_ids_and_clock_drive_an_attempt() {
    // The host wrappers are the only nondeterministic inputs; the engine is
    // verified for every value they could hand back.
    let mut e = Engine::new();
    let task_id = attempt_engine::host::fresh_id();
    let attempt_id = attempt_engine::host::fresh_id();
    let now = attempt_engine::host::now_rfc3339();
    e.store.create_task(mk_task(task_id, 10, "T")).unwrap();
    let payload = CreateTaskAttempt {
        executor: None,
        base_branch: None,
    };
    let a = e
        .create_task_attempt(10, task_id, &payload, attempt_id, "/data/worktrees", now.as_str())
        .unwrap();
    assert_eq!(a.task_id, task_id);
    assert_eq!(a.created_at, now);
}
