use orga::board::agent_tag::{append_agent_tag, parse_agent_tag};
use orga::error::{LlmErrorKind, OrgaError};
use orga::memory::context_repo::extract_significant_terms;
use orga::workspace::WorkspaceStore;

#[test]
fn agent_tag_append_agent_tag_adds_suffix() {
    let result = append_agent_tag("hello", "agent-1");
    assert_eq!(result, "hello\n\n_[orga:agent-1]_");
}

#[test]
fn agent_tag_append_agent_tag_empty_name_unchanged() {
    let result = append_agent_tag("hello", "");
    assert_eq!(result, "hello");
}

#[test]
fn agent_tag_parse_agent_tag_strips_and_extracts() {
    let text = "need more context\n\n_[orga:agent-1]_";
    let (content, agent_name) = parse_agent_tag(text);
    assert_eq!(content, "need more context");
    assert_eq!(agent_name, Some("agent-1".to_string()));
}

#[test]
fn agent_tag_parse_agent_tag_no_tag_unchanged() {
    let text = "just a normal comment";
    let (content, agent_name) = parse_agent_tag(text);
    assert_eq!(content, "just a normal comment");
    assert_eq!(agent_name, None);
}

#[test]
fn trello_append_agent_tag_adds_suffix() {
    let result = append_agent_tag("hello", "agent-1");
    assert_eq!(result, "hello\n\n_[orga:agent-1]_");
}

#[test]
fn trello_append_agent_tag_empty_name_unchanged() {
    let result = append_agent_tag("hello", "");
    assert_eq!(result, "hello");
}

#[test]
fn trello_parse_agent_tag_strips_and_extracts() {
    let text = "need more context\n\n_[orga:agent-1]_";
    let (content, agent_name) = parse_agent_tag(text);
    assert_eq!(content, "need more context");
    assert_eq!(agent_name, Some("agent-1".to_string()));
}

#[test]
fn trello_parse_agent_tag_no_tag_unchanged() {
    let text = "just a normal comment";
    let (content, agent_name) = parse_agent_tag(text);
    assert_eq!(content, "just a normal comment");
    assert_eq!(agent_name, None);
}

#[test]
fn parse_after_append_gives_back_text_and_name() {
    let tagged = append_agent_tag("line one\nline two", "planner");
    let (content, agent_name) = parse_agent_tag(&tagged);
    assert_eq!(content, "line one\nline two");
    assert_eq!(agent_name, Some("planner".to_string()));
}

#[test]
fn append_after_parse_gives_back_tagged_text() {
    let text = "done here\n\n_[orga:bot]_";
    let (content, agent_name) = parse_agent_tag(text);
    let again = append_agent_tag(&content, &agent_name.unwrap());
    assert_eq!(again, text);
}

#[test]
fn llm_error_display_contains_kind_and_message() {
    let e = OrgaError::LlmError {
        kind: LlmErrorKind::RateLimited,
        message: "rate limited".into(),
    };
    let s = e.message();
    assert!(s.contains("rate_limit"), "got: {s}");
    assert!(s.contains("rate limited"), "got: {s}");
}

#[test]
fn llm_error_kind_as_str_uses_snake_case_label() {
    assert_eq!(LlmErrorKind::Network.as_str(), "network");
    assert_eq!(LlmErrorKind::RateLimited.as_str(), "rate_limit");
    assert_eq!(LlmErrorKind::Auth.as_str(), "auth");
    assert_eq!(LlmErrorKind::Parse.as_str(), "parse");
    assert_eq!(LlmErrorKind::Backend.as_str(), "backend");
    assert_eq!(LlmErrorKind::Other.as_str(), "other");
}

#[test]
fn error_messages_name_their_kind() {
    assert_eq!(OrgaError::NotFound("x".into()).message(), "not found: x");
    assert_eq!(OrgaError::Unauthorized("bad token".into()).message(), "unauthorized: bad token");
    assert_eq!(OrgaError::RateLimited.message(), "rate limited by backend, try again later");
    assert_eq!(OrgaError::NetworkError("down".into()).message(), "network error: down");
    assert_eq!(OrgaError::BackendError("boom".into()).message(), "backend error: boom");
    assert_eq!(OrgaError::ConfigError("bad".into()).message(), "config error: bad");
    assert_eq!(OrgaError::SystemdNotLinux.message(), "systemd is only supported on Linux");
    assert_eq!(
        OrgaError::SystemdRootRequired.message(),
        "root privileges are required for system-level service installation"
    );
    assert_eq!(
        OrgaError::SystemdWriteFailed("denied".into()).message(),
        "failed to write systemd unit file: denied"
    );
    assert_eq!(
        OrgaError::LlmError { kind: LlmErrorKind::Auth, message: "no key".into() }.message(),
        "llm error (auth): no key"
    );
}

#[test]
fn terms_removes_stopwords() {
    let terms = extract_significant_terms("the quick and the fox");
    assert!(!terms.contains(&"the".to_string()));
    assert!(!terms.contains(&"and".to_string()));
    assert!(terms.contains(&"quick".to_string()));
    assert!(terms.contains(&"fox".to_string()));
}

#[test]
fn terms_removes_short_words() {
    let terms = extract_significant_terms("do it ok go");
    assert!(terms.is_empty());
}

#[test]
fn terms_strips_punctuation() {
    let terms = extract_significant_terms("auth, JWT! patterns.");
    assert!(terms.contains(&"auth".to_string()));
    assert!(terms.contains(&"jwt".to_string()));
    assert!(terms.contains(&"patterns".to_string()));
}

#[test]
fn terms_lowercases_and_deduplicates() {
    let terms = extract_significant_terms("Auth auth AUTH");
    assert_eq!(terms, vec!["auth".to_string()]);
}

#[test]
fn terms_empty_string_returns_empty() {
    assert!(extract_significant_terms("").is_empty());
}

#[test]
fn terms_are_sorted_and_count_bytes() {
    let terms = extract_significant_terms("zeta Alpha éé mid-way its");
    assert_eq!(
        terms,
        vec!["alpha".to_string(), "mid".to_string(), "way".to_string(), "zeta".to_string(), "éé".to_string()]
    );
}

#[test]
fn sanitize_ticket_id_replaces_unsafe_chars() {
    assert_eq!(WorkspaceStore::sanitize_ticket_id("PROJ-123/sub:task"), "PROJ-123_sub_task");
    assert_eq!(WorkspaceStore::sanitize_ticket_id("TICKET-1"), "TICKET-1");
}

#[test]
fn tag_with_line_break_in_name_parses_back() {
    let tagged = append_agent_tag("hello", "team\nbot");
    assert_eq!(parse_agent_tag(&tagged), ("hello".to_string(), Some("team\nbot".to_string())));
}

#[test]
fn significant_terms_ignore_ascii_case() {
    let d = "Auth JWT tokens, and the Patterns of 2FA";
    let lower = extract_significant_terms(d);
    assert_eq!(lower, vec!["2fa", "auth", "jwt", "patterns", "tokens"]);
    assert_eq!(extract_significant_terms(&d.to_ascii_uppercase()), lower);
}
