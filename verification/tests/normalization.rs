use attempt_engine::model::{
    ExecutionProcess, ExecutionProcessStatus, ExecutionProcessType, ExecutorSession,
};
use attempt_engine::normalize::{
    normalize_process_logs, sort_entries, NormalizedEntry, NormalizedEntryType, ActionType,
};

const NOW: &str = "2024-03-01T12:00:00+00:00";

fn proc(process_type: ExecutionProcessType, executor_type: Option<&str>) -> ExecutionProcess {
    ExecutionProcess {
        id: 1,
        task_attempt_id: 1,
        process_type,
        executor_type: executor_type.map(|s| s.to_string()),
        command: "cmd".to_string(),
        working_directory: "/work/1".to_string(),
        status: ExecutionProcessStatus::Completed,
        exit_code: Some(0),
        stdout: None,
        stderr: None,
        started_at: NOW.to_string(),
        ended_at: None,
    }
}

fn entry(ts: Option<&str>, content: &str) -> NormalizedEntry {
    NormalizedEntry {
        timestamp: ts.map(|s| s.to_string()),
        entry_type: NormalizedEntryType::SystemMessage,
        content: content.to_string(),
        metadata: None,
    }
}

#[test]
fn empty_output_normalizes_to_empty_conversation() {
    let mut p = proc(ExecutionProcessType::CodingAgent, Some("coding-agent"));
    p.stdout = Some("   \n  ".to_string());
    let conv = normalize_process_logs(&p, None, NOW);
    assert_eq!(conv.entries.len(), 0);
    assert_eq!(conv.executor_type, "coding-agent");
    assert!(conv.session_id.is_none());
}

#[test]
fn agent_dialect_parses_lines_and_skips_garbage() {
    let mut p = proc(ExecutionProcessType::CodingAgent, Some("coding-agent"));
    let mut lines = String::new();
    lines.push_str(
        "{\"type\": \"user\", \"content\": \"do it\", \"timestamp\": \"2024-03-01T11:00:00+00:00\"}\n",
    );
    lines.push_str("not json at all\n");
    lines.push_str(
        "{\"type\": \"assistant\", \"content\": \"done\", \"timestamp\": \"2024-03-01T11:01:00+00:00\"}\n",
    );
    p.stdout = Some(lines);
    let conv = normalize_process_logs(&p, None, NOW);
    assert_eq!(conv.entries.len(), 2);
    assert_eq!(conv.entries[0].content, "do it");
    assert!(matches!(
        conv.entries[0].entry_type,
        NormalizedEntryType::UserMessage
    ));
    assert_eq!(conv.entries[1].content, "done");
    assert!(matches!(
        conv.entries[1].entry_type,
        NormalizedEntryType::AssistantMessage
    ));
}

#[test]
fn tool_use_paths_are_rewritten_relative_to_worktree() {
    let mut p = proc(ExecutionProcessType::CodingAgent, Some("coding-agent"));
    p.stdout = Some(
        "{\"type\": \"tool_use\", \"action\": \"edit\", \"content\": \"/work/1/src/main.rs\"}\n"
            .to_string(),
    );
    let conv = normalize_process_logs(&p, None, NOW);
    assert_eq!(conv.entries.len(), 1);
    assert_eq!(conv.entries[0].content, "src/main.rs");
    match &conv.entries[0].entry_type {
        NormalizedEntryType::ToolUse { action_type } => match action_type {
            ActionType::Other { action } => assert_eq!(action, "edit"),
            _ => panic!("expected a plain tool action"),
        },
        _ => panic!("expected a tool-use entry"),
    }
}

#[test]
fn unknown_executor_yields_empty_normalization() {
    let mut p = proc(ExecutionProcessType::CodingAgent, Some("mystery"));
    p.stdout = Some("{\"type\": \"assistant\", \"content\": \"hi\"}\n".to_string());
    let conv = normalize_process_logs(&p, None, NOW);
    assert_eq!(conv.entries.len(), 0);
    assert_eq!(conv.executor_type, "mystery");
}

#[test]
fn setup_script_lines_become_system_messages() {
    let mut p = proc(ExecutionProcessType::SetupScript, None);
    p.stdout = Some("installing deps\n\n  build ok  \n".to_string());
    let session = ExecutorSession {
        execution_process_id: 1,
        prompt: Some("./setup.sh".to_string()),
        summary: None,
        session_id: None,
    };
    let conv = normalize_process_logs(&p, Some(&session), NOW);
    assert_eq!(conv.executor_type, "setup-script");
    assert_eq!(conv.prompt.as_deref(), Some("./setup.sh"));
    assert_eq!(conv.entries.len(), 2);
    assert_eq!(conv.entries[0].content, "installing deps");
    assert_eq!(conv.entries[1].content, "build ok");
    assert!(matches!(
        conv.entries[0].entry_type,
        NormalizedEntryType::SystemMessage
    ));
}

#[test]
fn stderr_chunks_become_stamped_error_entries() {
    let mut p = proc(ExecutionProcessType::CodingAgent, Some("coding-agent"));
    p.stderr = Some("first failure---STDERR_CHUNK_BOUNDARY---second failure".to_string());
    let conv = normalize_process_logs(&p, None, NOW);
    assert_eq!(conv.entries.len(), 2);
    assert_eq!(conv.entries[0].content, "first failure");
    assert_eq!(conv.entries[1].content, "second failure");
    assert_eq!(conv.entries[0].timestamp.as_deref(), Some(NOW));
    assert!(matches!(
        conv.entries[0].entry_type,
        NormalizedEntryType::ErrorMessage
    ));
}

#[test]
fn normalization_is_deterministic_on_equal_input() {
    let mut p = proc(ExecutionProcessType::CodingAgent, Some("coding-agent"));
    p.stdout = Some(
        "{\"type\": \"assistant\", \"content\": \"same\", \"timestamp\": \"2024-03-01T11:00:00+00:00\"}\n"
            .to_string(),
    );
    p.stderr = Some("warn".to_string());
    let a = normalize_process_logs(&p, None, NOW);
    let b = normalize_process_logs(&p, None, NOW);
    assert_eq!(a.entries.len(), b.entries.len());
    for (x, y) in a.entries.iter().zip(b.entries.iter()) {
        assert_eq!(x.content, y.content);
        assert_eq!(x.timestamp, y.timestamp);
    }
    assert_eq!(a.executor_type, b.executor_type);
}

#[test]
fn sort_puts_missing_timestamps_first_and_keeps_ties_stable() {
    let v = vec![
        entry(Some("2024-03-01T11:02:00+00:00"), "late"),
        entry(None, "first untimed"),
        entry(Some("2024-03-01T11:01:00+00:00"), "early a"),
        entry(Some("2024-03-01T11:01:00+00:00"), "early b"),
        entry(None, "second untimed"),
    ];
    let sorted = sort_entries(v);
    let contents: Vec<&str> = sorted.iter().map(|e| e.content.as_str()).collect();
    assert_eq!(
        contents,
        vec![
            "first untimed",
            "second untimed",
            "early a",
            "early b",
            "late"
        ]
    );
}

#[test]
fn merged_streams_are_sorted_by_timestamp() {
    let mut p = proc(ExecutionProcessType::CodingAgent, Some("coding-agent"));
    // A stdout entry dated after `NOW` sorts behind the stderr entry.
    p.stdout = Some(
        "{\"type\": \"assistant\", \"content\": \"after\", \"timestamp\": \"2024-03-01T13:00:00+00:00\"}\n"
            .to_string(),
    );
    p.stderr = Some("trouble".to_string());
    let conv = normalize_process_logs(&p, None, NOW);
    assert_eq!(conv.entries.len(), 2);
    assert_eq!(conv.entries[0].content, "trouble");
    assert_eq!(conv.entries[1].content, "after");
}
