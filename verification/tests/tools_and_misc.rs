use orga::models::{format_minute, Timestamp};
use orga::agent::tools::{
    created_sub_answer, dry_run_msg, error_answer, invalid_args_answer, is_terminal_tool, main_tools,
    plan_todos, search_answer, sleep_tool, ticket_tool, todos_scope_key, unknown_sleep_tool_message,
    unknown_tool_message, SleepTool, TicketTool, TodosItem,
};
use orga::artifact::{
    artifact_path, choose_credential, commit_email, commit_message, push_refspec, remote_ref,
    Credential, GitAuth,
};
use orga::error::{status_to_kind, LlmErrorKind};
use orga::metrics::{token_counts, TicketOutcome, TokenUsage, ToolOutcome, ToolScope};
use orga::paths::{expand_tilde, join_path, normalize_path, path_starts_with};
use orga::workspace::{to_slash, WorkspaceStore};

fn item(content: &str, status: &str, active: Option<&str>) -> TodosItem {
    TodosItem { content: content.into(), status: status.into(), active_form: active.map(String::from) }
}

#[test]
fn is_terminal_tool_includes_return() {
    assert!(is_terminal_tool("return"));
    assert!(is_terminal_tool("done"));
    assert!(is_terminal_tool("skip"));
    assert!(!is_terminal_tool("comment"));
}

#[test]
fn dispatch_todos_first_call_stores_list() {
    let (stored, answer) = plan_todos(&vec![
        item("Do A", "pending", Some("Doing A")),
        item("Do B", "in_progress", Some("Doing B")),
    ])
    .unwrap();
    assert!(answer.contains("Todo list updated successfully"));
    assert!(answer.contains("1 pending, 1 in progress, 0 completed"));
    assert_eq!(stored.len(), 2);
    assert_eq!(stored[1].active_form, "Doing B");
}

#[test]
fn dispatch_todos_invalid_status_returns_error() {
    let result = plan_todos(&vec![item("Task", "done", Some(""))]);
    let e = result.err().unwrap();
    assert!(e.starts_with("error:"));
    assert!(e.contains("invalid status"));
    assert_eq!(e, "error: invalid status \"done\" for todo \"Task\"");
}

#[test]
fn dispatch_todos_transition_tracking() {
    let (_, answer) = plan_todos(&vec![
        item("Task A", "completed", Some("Working")),
        item("Task B", "in_progress", Some("Doing B")),
    ])
    .unwrap();
    assert!(answer.contains("0 pending, 1 in progress, 1 completed"));
}

#[test]
fn todo_without_active_form_stores_empty_text() {
    let (stored, _) = plan_todos(&vec![item("Task", "pending", None)]).unwrap();
    assert_eq!(stored[0].active_form, "");
    assert_eq!(stored[0].status, "pending");
}

#[test]
fn dispatch_todos_scope_key_sanitization() {
    assert_eq!(todos_scope_key("my-sub agent!"), "my_sub_agent_");
    assert_eq!(todos_scope_key("main"), "main");
}

#[test]
fn tool_names_map_to_tools() {
    assert_eq!(ticket_tool("comment"), Some(TicketTool::Comment));
    assert_eq!(ticket_tool("create_sub"), Some(TicketTool::CreateSub));
    assert_eq!(ticket_tool("fly"), None);
    assert_eq!(sleep_tool("memory_delete"), Some(SleepTool::MemoryDelete));
    assert_eq!(sleep_tool("comment"), None);
    assert_eq!(main_tools().len(), 10);
}

#[test]
fn tool_answers() {
    assert_eq!(unknown_tool_message("fly"), "error: unknown tool 'fly'");
    assert_eq!(unknown_sleep_tool_message("fly"), "error: unknown sleep tool 'fly'");
    assert_eq!(dry_run_msg("comment"), "[dry-run] comment would have been executed");
    assert_eq!(error_answer("boom"), "error: boom");
    assert_eq!(invalid_args_answer("eof"), "error: invalid args: eof");
    assert_eq!(created_sub_answer("Fix", "https://x"), "created sub-ticket: Fix (https://x)");
    assert_eq!(search_answer(&vec![]), "(no matches)");
    assert_eq!(
        search_answer(&vec![("a.md".into(), 3, "hit".into()), ("b.md".into(), 12, "more".into())]),
        "a.md:3: hit\nb.md:12: more"
    );
}

#[test]
fn llm_status_kinds() {
    assert_eq!(status_to_kind(429), LlmErrorKind::RateLimited);
    assert_eq!(status_to_kind(401), LlmErrorKind::Auth);
    assert_eq!(status_to_kind(503), LlmErrorKind::Backend);
    assert_eq!(status_to_kind(200), LlmErrorKind::Other);
}

#[test]
fn metric_labels() {
    assert_eq!(ToolScope::Main.as_label(), "main");
    assert_eq!(ToolScope::Subagent.as_label(), "subagent");
    assert_eq!(ToolOutcome::of_result("error: bad input"), ToolOutcome::Error);
    assert_eq!(ToolOutcome::of_result("file contents"), ToolOutcome::Success);
    assert_eq!(ToolOutcome::Error.as_label(), "error");
    assert_eq!(ToolOutcome::Success.as_label(), "ok");
    assert_eq!(TicketOutcome::CapReached.as_label(), "cap_reached");
}

#[test]
fn record_tokens_aggregates_usage() {
    let usage = TokenUsage {
        input_tokens: 100,
        output_tokens: 50,
        total_tokens: 180,
        cached_input_tokens: 20,
        cache_creation_input_tokens: 5,
        reasoning_tokens: 10,
    };
    assert_eq!(
        token_counts(&usage),
        vec![("input", 100), ("output", 50), ("cached", 25), ("reasoning", 10), ("total", 180)]
    );
}

#[test]
fn artifact_texts() {
    assert_eq!(artifact_path("/repo", "T-1", "agent-1", "notes.md"), "/repo/artifacts/T-1/agent-1/notes.md");
    assert_eq!(commit_message("T-1", "agent-1", "notes.md"), "artifact(T-1/agent-1): notes.md");
    assert_eq!(commit_email("agent-1"), "agent-1@orga");
    assert_eq!(push_refspec("main"), "refs/heads/main:refs/heads/main");
    assert_eq!(remote_ref("origin", "main"), "refs/remotes/origin/main");
}

#[test]
fn credentials_by_what_the_remote_allows() {
    let auth = GitAuth { ssh_key: Some("/k".into()), ..GitAuth::default() };
    match choose_credential(&auth, None, true, true) {
        Credential::SshKey { username, key_path, passphrase } => {
            assert_eq!(username, "git");
            assert_eq!(key_path, "/k");
            assert!(passphrase.is_none());
        }
        _ => panic!("expected the ssh key"),
    }
    match choose_credential(&GitAuth::default(), Some("me"), true, false) {
        Credential::SshAgent { username } => assert_eq!(username, "me"),
        _ => panic!("expected the ssh agent"),
    }
    let http = GitAuth { http_username: Some("u".into()), ..GitAuth::default() };
    match choose_credential(&http, None, false, true) {
        Credential::UserPass { username, password } => {
            assert_eq!(username, "u");
            assert_eq!(password, "");
        }
        _ => panic!("expected user and password"),
    }
    assert!(matches!(choose_credential(&http, None, false, false), Credential::Unsupported));
}

#[test]
fn path_helpers() {
    assert_eq!(join_path("/a", "b"), "/a/b");
    assert_eq!(join_path("/a/", "b"), "/a/b");
    assert_eq!(join_path("/a", "/b"), "/b");
    assert_eq!(expand_tilde("~/x", "/home/u"), "/home/u/x");
    assert_eq!(expand_tilde("/x", "/home/u"), "/x");
    assert_eq!(normalize_path("/a/./b/../c"), "/a/c");
    assert_eq!(normalize_path("../x/./y"), "x/y");
    assert!(path_starts_with("/a/b/c", "/a/b"));
    assert!(!path_starts_with("/a/bc", "/a/b"));
}

#[test]
fn to_slash_uses_forward_separators_for_nested_paths() {
    assert_eq!(to_slash("a/b/c.txt"), "a/b/c.txt");
    assert_eq!(to_slash("a//b/./c"), "a/b/c");
}

#[test]
fn path_traversal_rejected() {
    let store = WorkspaceStore::new("/ws".into());
    let err = store.safe_path("T-1", "../../etc/passwd").err().unwrap();
    assert_eq!(err.message(), "backend error: path escapes workspace root");
    assert_eq!(store.safe_path("T-1", "src/../main.rs").unwrap(), "/ws/T-1/main.rs");
    assert!(store.safe_path("T-1", "/etc/passwd").is_err());
}

#[test]
fn workspace_paths_and_listing() {
    let store = WorkspaceStore::new("/ws".into());
    assert_eq!(store.ticket_root_path("org/T:1"), "/ws/org_T_1");
    assert_eq!(store.list(vec!["b.txt".into(), "a/c.txt".into(), "a.txt".into()]), "a.txt\na/c.txt\nb.txt");
    assert_eq!(store.list(vec![]), "");
}

#[test]
fn path_traversal_on_write_rejected() {
    let store = WorkspaceStore::new("/ws".into());
    let err = store.safe_path("T-1", "../../evil.txt").err().unwrap();
    assert!(err.message().contains("path escapes"));
}

#[test]
fn list_returns_flat_sorted_paths() {
    let store = WorkspaceStore::new("/ws".into());
    let listing = store.list(vec!["b.txt".into(), "a/c.txt".into(), "a.txt".into()]);
    let lines: Vec<&str> = listing.lines().collect();
    assert_eq!(lines, vec!["a.txt", "a/c.txt", "b.txt"]);
}

#[test]
fn list_empty_workspace_returns_empty_string() {
    let store = WorkspaceStore::new("/ws".into());
    assert_eq!(store.list(vec![]), "");
}

#[test]
fn record_tokens_zero_usage_is_noop() {
    let usage = TokenUsage {
        input_tokens: 0,
        output_tokens: 0,
        total_tokens: 0,
        cached_input_tokens: 0,
        cache_creation_input_tokens: 0,
        reasoning_tokens: 0,
    };
    for (kind, count) in token_counts(&usage) {
        assert_eq!(count, 0, "kind={kind} should be 0");
    }
}

#[test]
fn record_tool_call_and_debug_records_error_for_error_prefix() {
    assert_eq!(ToolOutcome::of_result("error: bad input").as_label(), "error");
    assert_eq!(ToolScope::Main.as_label(), "main");
}

#[test]
fn record_tool_call_and_debug_records_ok_for_non_error_result() {
    assert_eq!(ToolOutcome::of_result("file contents").as_label(), "ok");
    assert_eq!(ToolScope::Subagent.as_label(), "subagent");
}

#[test]
fn named_paths_stay_inside_the_ticket_directory() {
    let store = WorkspaceStore::new("/srv/ws".into());
    assert_eq!(store.safe_path("PROJ/7", "a/b/c/file.txt").unwrap(), "/srv/ws/PROJ_7/a/b/c/file.txt");
    assert_eq!(store.safe_path("T-1", "notes.md").unwrap(), "/srv/ws/T-1/notes.md");
    let relative_base = WorkspaceStore::new("./ws".into());
    assert!(relative_base.safe_path("T-1", "notes.md").is_err());
}

#[test]
fn instants_are_written_to_the_minute() {
    assert_eq!(format_minute(Timestamp { secs: 0, nanos: 0 }).unwrap(), "1970-01-01 00:00");
    assert_eq!(format_minute(Timestamp { secs: 1_700_000_059, nanos: 999 }).unwrap(), "2023-11-14 22:14");
    assert!(format_minute(Timestamp { secs: i64::MAX, nanos: 0 }).is_none());
}
