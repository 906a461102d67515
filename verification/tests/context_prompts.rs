use orga::agent::context::{
    build_context, build_context_repo_section, build_subagent_context, build_system_prompt, SkillContext,
};
use orga::config::{AgentConfig, AppConfig, BoardConfig, SubagentConfig};
use orga::memory::context_repo::{ContextRepository, MemoryFile};
use orga::models::{Comment, CommentCompaction, Member, Ticket, TicketSummary, Timestamp};

const MAIN_TEMPLATE: &str = "You are {agent_name}. Tools: {tools}.";
const DISPATCHER_TEMPLATE: &str = "You dispatch for {agent_name}. Tools: {tools}.";
const OVERVIEW: &str = "---\ndescription: Board overview and active context\n---\n\n# Overview\n";

fn make_ticket(description: &str) -> Ticket {
    Ticket {
        summary: TicketSummary {
            id: "T-1".to_string(),
            title: "Test Ticket".to_string(),
            description: description.to_string(),
            list_id: "col-1".to_string(),
            list_name: "In Progress".to_string(),
            url: "https://example.com/T-1".to_string(),
            completed: false,
            creator: Some(Member { id: "u1".to_string(), username: "alice".to_string(), full_name: "Alice".to_string() }),
            last_commenter_is_agent: false,
            labels: vec![],
        },
        assignees: vec![],
        sub_tickets: vec![],
        comments: vec![],
        comment_compaction: None,
        compaction_suggested: false,
    }
}

fn make_app_cfg() -> AppConfig {
    AppConfig {
        agent: AgentConfig { name: "bot-1".to_string() },
        board: BoardConfig { backend: "trello".to_string() },
        trello: None,
        linear: None,
        memory: None,
        logging: None,
        llm: None,
        comment_compaction_threshold: None,
        skills: None,
        workspace: None,
        subagents: vec![],
        metrics: None,
    }
}

fn open_repo() -> ContextRepository {
    ContextRepository::new(
        "/tmp/memory".into(),
        "bot-1".into(),
        vec![MemoryFile { path: "system/overview.md".into(), content: OVERVIEW.into() }],
    )
}

fn context(ticket: &Ticket, skills: Option<&SkillContext>) -> (String, String) {
    let repo = open_repo();
    let ctx = build_context(ticket, MAIN_TEMPLATE, DISPATCHER_TEMPLATE, &repo, &make_app_cfg(), skills, &vec![], None, "2024-05-01")
        .unwrap();
    (ctx.system, ctx.user)
}

#[test]
fn context_includes_ticket_title() {
    let (_, user) = context(&make_ticket("Fix the bug"), None);
    assert!(user.contains("Test Ticket"));
    assert!(user.contains("Fix the bug"));
}

#[test]
fn context_system_includes_agent_name() {
    let (system, _) = context(&make_ticket(""), None);
    assert!(system.contains("bot-1"));
    assert!(system.starts_with("You are bot-1. Tools: comment, dispatch, skip, done, compact, todos, memory_list, memory_read, memory_write, memory_search."));
}

#[test]
fn context_system_includes_repo_section() {
    let (system, _) = context(&make_ticket(""), None);
    assert!(system.contains("## Context Repository"));
}

#[test]
fn context_system_injects_system_files() {
    let (system, _) = context(&make_ticket(""), None);
    assert!(system.contains("## Context Repository (pinned)"));
    assert!(system.contains("system/overview.md"));
}

#[test]
fn context_includes_compaction_summary() {
    let mut ticket = make_ticket("");
    ticket.comment_compaction = Some(CommentCompaction {
        summary: "first 10 comments: auth work".to_string(),
        compacted_through: Timestamp { secs: 1_700_000_000, nanos: 0 },
        compacted_count: 10,
    });
    let (_, user) = context(&ticket, None);
    assert!(user.contains("first 10 comments: auth work"));
}

#[test]
fn system_prompt_includes_available_skills() {
    let skill_ctx = SkillContext {
        available: vec![
            ("code-review".to_string(), "Reviews code.".to_string()),
            ("security".to_string(), "Audits security.".to_string()),
        ],
        active: vec![],
    };
    let (system, _) = context(&make_ticket(""), Some(&skill_ctx));
    assert!(system.contains("## Available Skills"));
    assert!(system.contains("**code-review**"));
    assert!(system.contains("**security**"));
}

#[test]
fn system_prompt_includes_active_skills_body() {
    let skill_ctx = SkillContext {
        available: vec![("code-review".to_string(), "Reviews code.".to_string())],
        active: vec![("code-review".to_string(), "Follow these steps to review code.".to_string())],
    };
    let (system, _) = context(&make_ticket(""), Some(&skill_ctx));
    assert!(system.contains("## Active Skills"));
    assert!(system.contains("### code-review"));
    assert!(system.contains("Follow these steps to review code."));
}

#[test]
fn system_prompt_no_skills_sections_when_no_context() {
    let (system, _) = context(&make_ticket(""), None);
    assert!(!system.contains("## Available Skills"));
    assert!(!system.contains("## Active Skills"));
}

#[test]
fn system_prompt_no_active_section_when_none_matched() {
    let skill_ctx = SkillContext { available: vec![("s".to_string(), "desc".to_string())], active: vec![] };
    let (system, _) = context(&make_ticket(""), Some(&skill_ctx));
    assert!(system.contains("## Available Skills"));
    assert!(!system.contains("## Active Skills"));
}

#[test]
fn dispatcher_prompt_lists_subagents_and_agent_instructions() {
    let repo = open_repo();
    let subs = vec![("coder".to_string(), "Writes code".to_string())];
    let system = build_system_prompt(MAIN_TEMPLATE, DISPATCHER_TEMPLATE, &repo, &make_app_cfg(), None, &subs, Some("Be brief."));
    assert!(system.starts_with("You dispatch for bot-1."));
    assert!(system.contains("\n## Available Subagents\n- **coder**: Writes code"));
    assert!(system.contains("\n## Agent Instructions\nBe brief."));
}

#[test]
fn repo_section_lists_notes_with_descriptions() {
    let repo = ContextRepository::new(
        "/m".into(),
        "bot".into(),
        vec![MemoryFile { path: "a.md".into(), content: "plain".into() }, MemoryFile { path: "b.md".into(), content: "---\ndescription: Bee\n---\n".into() }],
    );
    assert_eq!(build_context_repo_section(&repo), "\n## Context Repository\n- a.md\n- b.md — Bee");
    let empty = ContextRepository::new("/m".into(), "bot".into(), vec![]);
    assert_eq!(build_context_repo_section(&empty), "\n## Context Repository\n*(empty — no memory files yet)*");
}

#[test]
fn user_message_lines() {
    let mut t = make_ticket("Details");
    t.assignees = vec![Member { id: "u2".into(), username: "bob".into(), full_name: "Bob".into() }];
    t.comments = vec![Comment {
        id: "c1".into(),
        at: Timestamp { secs: 1_704_067_200, nanos: 0 },
        who: Member { id: "u1".into(), username: "alice".into(), full_name: "Alice".into() },
        content: "hello".into(),
        agent_name: None,
    }];
    let (_, user) = context(&t, None);
    assert_eq!(
        user,
        "# Ticket: Test Ticket\n**ID:** T-1\n**Column:** In Progress\n**URL:** https://example.com/T-1\n**Today's date:** 2024-05-01\n**Creator:** @alice\n**Assignees:** bob\n\n## Description\nDetails\n\n## Comments\n**@alice** at 2024-01-01 00:00:\nhello"
    );
}

#[test]
fn subagent_context_adds_the_task() {
    let sub = SubagentConfig {
        name: "coder".into(),
        description: "Writes code".into(),
        tools: vec!["bash".into(), "comment".into()],
        skills: vec![],
        model: None,
        max_actions: None,
        system_prompt: Some("Be careful.".into()),
    };
    let repo = open_repo();
    let ctx = build_subagent_context(&sub, &make_ticket(""), "fix it", &repo, None, "2024-05-01").unwrap();
    assert!(ctx.user.ends_with("\n\n## Your Task\nfix it"));
    assert!(ctx.system.starts_with("Be careful.\nYou are a specialized subagent named 'coder'. Your role: Writes code\n\nAvailable tools: bash, comment, return."));
}
