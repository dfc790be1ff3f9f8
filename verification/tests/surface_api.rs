use attempt_engine::coordinator::Engine;
use attempt_engine::editor::{editor_command, editor_invocation, EditorConfig, EditorType};
use attempt_engine::git::derive_branch_status;
use attempt_engine::model::{
    BranchStatusKind, CreateGitHubPRRequest, CreateTaskAttempt, EngineError, ExecutionProcess,
    ExecutionProcessStatus, ExecutionProcessType, OpenEditorRequest, Task, TaskStatus,
};
use attempt_engine::pr::{classify_pr_failure, prepare_github_pr, GitHubConfig, PrFailure,
    PrPreparation};
use attempt_engine::surface;

const NOW: &str = "2024-01-01T00:00:00+00:00";

fn engine_with_two_projects() -> Engine {
    let mut e = Engine::new();
    e.store
        .create_task(Task {
            id: 1,
            project_id: 10,
            title: "T".to_string(),
            description: None,
            status: TaskStatus::Todo,
            parent_task_attempt: None,
        })
        .unwrap();
    let payload = CreateTaskAttempt {
        executor: Some("coding-agent".to_string()),
        base_branch: None,
    };
    e.create_task_attempt(10, 1, &payload, 100, "/w", NOW).unwrap();
    e
}

#[test]
fn attempts_listing_validates_the_project() {
    let e = engine_with_two_projects();
    let attempts = surface::get_task_attempts(&e.store, 10, 1).unwrap();
    assert_eq!(attempts.len(), 1);
    assert_eq!(attempts[0].id, 100);
    assert_eq!(attempts[0].base_branch, "main");
    assert_eq!(
        surface::get_task_attempts(&e.store, 11, 1).unwrap_err(),
        EngineError::NotFound
    );
}

#[test]
fn process_lookup_respects_project_ownership() {
    let mut e = engine_with_two_projects();
    e.spawn_process(ExecutionProcess {
        id: 1000,
        task_attempt_id: 100,
        process_type: ExecutionProcessType::CodingAgent,
        executor_type: Some("coding-agent".to_string()),
        command: "coding-agent".to_string(),
        working_directory: "/w/100".to_string(),
        status: ExecutionProcessStatus::Running,
        exit_code: None,
        stdout: None,
        stderr: None,
        started_at: NOW.to_string(),
        ended_at: None,
    })
    .unwrap();
    let p = surface::get_execution_process(&e.store, 10, 1000).unwrap();
    assert_eq!(p.id, 1000);
    assert_eq!(
        surface::get_execution_process(&e.store, 99, 1000).unwrap_err(),
        EngineError::NotFound
    );
    let summaries =
        surface::get_task_attempt_execution_processes(&e.store, 10, 1, 100).unwrap();
    assert_eq!(summaries.len(), 1);
    assert_eq!(summaries[0].id, 1000);
    assert_eq!(summaries[0].status, ExecutionProcessStatus::Running);
    let details = surface::get_task_attempt_details(&e.store, 100).unwrap();
    assert_eq!(details.id, 100);
    assert_eq!(
        surface::get_task_attempt_details(&e.store, 999).unwrap_err(),
        EngineError::NotFound
    );
}

#[test]
fn branch_status_kinds_cover_all_cases() {
    assert_eq!(derive_branch_status(0, 0, true).kind, BranchStatusKind::UpToDate);
    assert_eq!(derive_branch_status(3, 0, true).kind, BranchStatusKind::Ahead);
    assert_eq!(derive_branch_status(0, 2, true).kind, BranchStatusKind::Behind);
    assert_eq!(derive_branch_status(3, 2, true).kind, BranchStatusKind::Diverged);
    assert_eq!(derive_branch_status(3, 2, false).kind, BranchStatusKind::BaseMissing);
    let st = derive_branch_status(3, 2, true);
    assert_eq!(st.commits_ahead, 3);
    assert_eq!(st.commits_behind, 2);
}

#[test]
fn pr_base_branch_resolution_prefers_request_then_attempt_then_default() {
    let e = engine_with_two_projects();
    let config = GitHubConfig {
        token: Some("tok".to_string()),
        pat: None,
        default_pr_base: Some("develop".to_string()),
    };
    let req = CreateGitHubPRRequest {
        title: "My PR".to_string(),
        body: None,
        base_branch: Some("release".to_string()),
    };
    match prepare_github_pr(&e.store, 10, 1, 100, &req, &config).unwrap() {
        PrPreparation::Ready { token, base_branch } => {
            assert_eq!(token, "tok");
            assert_eq!(base_branch, "release");
        }
        _ => panic!("expected a ready preparation"),
    }
    // No requested base: the attempt's stored base wins.
    let req2 = CreateGitHubPRRequest {
        title: "My PR".to_string(),
        body: None,
        base_branch: None,
    };
    match prepare_github_pr(&e.store, 10, 1, 100, &req2, &config).unwrap() {
        PrPreparation::Ready { base_branch, .. } => assert_eq!(base_branch, "main"),
        _ => panic!("expected a ready preparation"),
    }
}

#[test]
fn pr_requires_a_configured_token_and_prefers_the_pat() {
    let e = engine_with_two_projects();
    let req = CreateGitHubPRRequest {
        title: "My PR".to_string(),
        body: None,
        base_branch: None,
    };
    let unauthenticated = GitHubConfig {
        token: None,
        pat: Some("pat".to_string()),
        default_pr_base: None,
    };
    match prepare_github_pr(&e.store, 10, 1, 100, &req, &unauthenticated).unwrap() {
        PrPreparation::AuthMissing { message } => assert_eq!(
            message,
            "GitHub authentication not configured. Please sign in with GitHub."
        ),
        _ => panic!("expected missing authentication"),
    }
    let with_pat = GitHubConfig {
        token: Some("tok".to_string()),
        pat: Some("pat".to_string()),
        default_pr_base: None,
    };
    match prepare_github_pr(&e.store, 10, 1, 100, &req, &with_pat).unwrap() {
        PrPreparation::Ready { token, .. } => assert_eq!(token, "pat"),
        _ => panic!("expected a ready preparation"),
    }
}

#[test]
fn pr_failures_map_to_structured_messages() {
    assert_eq!(classify_pr_failure(&PrFailure::TokenInvalid), "github_token_invalid");
    assert_eq!(
        classify_pr_failure(&PrFailure::GitMessage {
            message: "too many redirects or authentication replays hit".to_string()
        }),
        "insufficient_github_permissions"
    );
    assert_eq!(
        classify_pr_failure(&PrFailure::GitMessage {
            message: "request failed with status code: 403".to_string()
        }),
        "insufficient_github_permissions"
    );
    assert_eq!(
        classify_pr_failure(&PrFailure::GitMessage {
            message: "request failed with status code: 404".to_string()
        }),
        "github_repo_not_found_or_no_access"
    );
    assert_eq!(
        classify_pr_failure(&PrFailure::GitMessage {
            message: "remote hung up".to_string()
        }),
        "Failed to create PR: remote hung up"
    );
    assert_eq!(
        classify_pr_failure(&PrFailure::Other {
            message: "network down".to_string()
        }),
        "Failed to create PR: network down"
    );
}

#[test]
fn editor_commands_resolve_by_name_with_custom_fallback() {
    let config = EditorConfig {
        editor_type: EditorType::VSCode,
        custom_command: None,
    };
    assert_eq!(editor_command(&config), vec!["code"]);
    let custom = EditorConfig {
        editor_type: EditorType::Custom,
        custom_command: Some("emacsclient -n".to_string()),
    };
    assert_eq!(editor_command(&custom), vec!["emacsclient", "-n"]);
    let blank_custom = EditorConfig {
        editor_type: EditorType::Custom,
        custom_command: Some("   ".to_string()),
    };
    assert_eq!(editor_command(&blank_custom), vec!["code"]);

    let invocation = editor_invocation(
        &config,
        &Some(OpenEditorRequest {
            editor_type: Some("zed".to_string()),
        }),
        "/w/100",
    );
    assert_eq!(invocation, vec!["zed", "/w/100"]);
    let unrecognized = editor_invocation(
        &config,
        &Some(OpenEditorRequest {
            editor_type: Some("nano".to_string()),
        }),
        "/w/100",
    );
    assert_eq!(unrecognized, vec!["code", "/w/100"]);
}

#[test]
fn model_listing_lines_are_trimmed_and_filtered() {
    let models = surface::parse_model_lines("  gpt-large \n\nsmall-model\n \n");
    assert_eq!(models, vec!["gpt-large", "small-model"]);
    let none = surface::parse_model_lines("");
    assert_eq!(none.len(), 0);
}

#[test]
fn delete_file_outcome_maps_to_envelope() {
    let e = engine_with_two_projects();
    let out = e
        .delete_task_attempt_file(
            10,
            1,
            100,
            "notes.txt",
            attempt_engine::git::DeleteFileOutcome::Deleted {
                commit: "deadbeef".to_string(),
            },
        )
        .unwrap();
    assert!(out.success);
    assert_eq!(out.message, "File 'notes.txt' deleted successfully");
    let failed = e
        .delete_task_attempt_file(
            10,
            1,
            100,
            "notes.txt",
            attempt_engine::git::DeleteFileOutcome::Failed {
                message: "path is untracked".to_string(),
            },
        )
        .unwrap();
    assert!(!failed.success);
    assert_eq!(failed.message, "path is untracked");
}
