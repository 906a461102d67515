use orga::agent::loop_runner::LoopOutcome;
use orga::agent::skills::SkillMeta;
use orga::agent::tools::DispatchArgs;
use orga::agent::work::{
    actionable_tickets, apply_compaction, count_actions_and_detect_done, defrag_due,
    dispatch_dry_run_answer, extract_return_value, find_subagent, no_subagent_answer,
    is_subagent_terminal_tool, reflection_due, reflection_prompt, skill_context_for, subagent_answer,
    subagent_loop_end, subagent_descriptions, subagent_max_actions,
    subagent_model, subagent_result, subagent_skill_context, subagent_tool_names, ticket_outcome,
    AssistantPart, HistoryMessage, ResultPart, UserPart,
};
use orga::agent::TicketProcessingOutcome;
use orga::config::{LlmConfig, SubagentConfig};
use orga::error::OrgaError;
use orga::memory::context_repo::RepoStats;
use orga::metrics::TicketOutcome;
use orga::models::{Comment, Member, Ticket, TicketSummary, Timestamp};

fn tool_result_message(text: &str) -> HistoryMessage {
    HistoryMessage::User(vec![UserPart::ToolResult(vec![ResultPart::Text(text.to_string())])])
}

fn tool_call(name: &str) -> HistoryMessage {
    HistoryMessage::Assistant(vec![AssistantPart::ToolCall(name.to_string())])
}

fn member(name: &str) -> Member {
    Member { id: format!("id-{name}"), username: name.into(), full_name: name.into() }
}

fn summary(id: &str, completed: bool, agent_last: bool) -> TicketSummary {
    TicketSummary {
        id: id.into(),
        title: format!("Ticket {id}"),
        description: "Some work".into(),
        list_id: "l1".into(),
        list_name: "Doing".into(),
        url: format!("https://example.com/{id}"),
        completed,
        creator: None,
        last_commenter_is_agent: agent_last,
        labels: vec![],
    }
}

fn comment(id: &str, secs: i64, who: &str, content: &str) -> Comment {
    Comment {
        id: id.into(),
        at: Timestamp { secs, nanos: 0 },
        who: member(who),
        content: content.into(),
        agent_name: None,
    }
}

fn ticket(comments: Vec<Comment>) -> Ticket {
    Ticket {
        summary: summary("T-1", false, false),
        assignees: vec![],
        sub_tickets: vec![],
        comments,
        comment_compaction: None,
        compaction_suggested: false,
    }
}

fn skill(name: &str, always: bool, column: Option<&str>) -> SkillMeta {
    SkillMeta {
        name: name.into(),
        description: format!("{name} skill"),
        body: format!("{name} body"),
        match_always: always,
        match_column: column.map(|c| c.to_string()),
        match_label: None,
    }
}

fn subagent(name: &str, tools: Vec<&str>, skills: Vec<&str>) -> SubagentConfig {
    SubagentConfig {
        name: name.into(),
        description: format!("{name} helper"),
        tools: tools.into_iter().map(String::from).collect(),
        skills: skills.into_iter().map(String::from).collect(),
        model: None,
        max_actions: None,
        system_prompt: None,
    }
}

fn llm() -> LlmConfig {
    LlmConfig {
        provider: "anthropic".into(),
        api_key: "k".into(),
        model: "big-model".into(),
        endpoint: None,
        poll_interval_secs: None,
        max_actions_per_ticket: None,
    }
}

#[test]
fn count_increments_for_tool_result() {
    let history = vec![tool_result_message("hi")];
    let (actions, _) = count_actions_and_detect_done(&history);
    assert_eq!(actions, 1);
}

#[test]
fn count_does_not_increment_for_text_user_message() {
    let history = vec![HistoryMessage::User(vec![UserPart::Text("hello".into())])];
    let (actions, _) = count_actions_and_detect_done(&history);
    assert_eq!(actions, 0);
}

#[test]
fn done_assistant_message_sets_did_done() {
    let history = vec![tool_call("done")];
    let (_, did_done) = count_actions_and_detect_done(&history);
    assert!(did_done);
}

#[test]
fn non_done_tool_call_does_not_set_did_done() {
    let history = vec![tool_call("comment")];
    let (_, did_done) = count_actions_and_detect_done(&history);
    assert!(!did_done);
}

#[test]
fn counts_every_tool_result_of_the_conversation() {
    let history = vec![
        tool_call("comment"),
        HistoryMessage::User(vec![
            UserPart::ToolResult(vec![]),
            UserPart::Text("x".into()),
            UserPart::ToolResult(vec![ResultPart::Other]),
        ]),
        HistoryMessage::Other,
        tool_result_message("ok"),
        HistoryMessage::Assistant(vec![AssistantPart::Text("bye".into()), AssistantPart::ToolCall("done".into())]),
    ];
    assert_eq!(count_actions_and_detect_done(&history), (3, true));
}

#[test]
fn extract_return_value_returns_text_from_tool_result() {
    let msg = tool_result_message("the answer");
    assert_eq!(extract_return_value(&msg), Some("the answer".to_string()));
}

#[test]
fn extract_return_value_returns_none_for_text_user_message() {
    let msg = HistoryMessage::User(vec![UserPart::Text("hello".into())]);
    assert_eq!(extract_return_value(&msg), None);
}

#[test]
fn processing_outcome_follows_loop_outcome() {
    assert_eq!(TicketProcessingOutcome::from_loop_outcome(LoopOutcome::Terminal), TicketProcessingOutcome::Success);
    assert_eq!(TicketProcessingOutcome::from_loop_outcome(LoopOutcome::NoToolCalls), TicketProcessingOutcome::Skipped);
    assert_eq!(
        TicketProcessingOutcome::from_loop_outcome(LoopOutcome::CapReached),
        TicketProcessingOutcome::CapReached
    );
    assert_eq!(ticket_outcome(&Ok(TicketProcessingOutcome::Skipped)), TicketOutcome::Skipped);
    assert_eq!(ticket_outcome(&Err(OrgaError::NotFound("x".into()))), TicketOutcome::Error);
}

#[test]
fn only_open_tickets_not_answered_by_the_agent_are_actionable() {
    let tickets = vec![summary("a", false, false), summary("b", true, false), summary("c", false, true), summary("d", false, false)];
    let ids: Vec<String> = actionable_tickets(tickets).into_iter().map(|t| t.id).collect();
    assert_eq!(ids, vec!["a".to_string(), "d".to_string()]);
}

#[test]
fn compaction_drops_comments_up_to_its_boundary() {
    let mut t = ticket(vec![comment("c1", 10, "amy", "one"), comment("c2", 20, "bob", "two"), comment("c3", 30, "amy", "three")]);
    apply_compaction(&mut t, "earlier talk".into(), Timestamp { secs: 20, nanos: 0 }, 2);
    let ids: Vec<&str> = t.comments.iter().map(|c| c.id.as_str()).collect();
    assert_eq!(ids, vec!["c3"]);
    let cc = t.comment_compaction.unwrap();
    assert_eq!(cc.summary, "earlier talk");
    assert_eq!(cc.compacted_count, 2);
}

#[test]
fn main_agent_skills_list_all_and_activate_matching() {
    let skills = vec![skill("always", true, None), skill("review", false, Some("Review")), skill("doing", false, Some("doing"))];
    let ctx = skill_context_for(&skills, &summary("T", false, false)).unwrap();
    assert_eq!(ctx.available.len(), 3);
    let active: Vec<&str> = ctx.active.iter().map(|(n, _)| n.as_str()).collect();
    assert_eq!(active, vec!["always", "doing"]);
    assert_eq!(ctx.active[1].1, "doing body");
    assert!(skill_context_for(&[], &summary("T", false, false)).is_none());
}

#[test]
fn subagent_skills_are_those_it_names() {
    let skills = vec![skill("always", true, None), skill("review", false, Some("Review"))];
    let sub = subagent("s", vec![], vec!["review"]);
    let ctx = subagent_skill_context(&skills, &sub, &summary("T", false, false)).unwrap();
    assert!(ctx.available.is_empty());
    let active: Vec<&str> = ctx.active.iter().map(|(n, _)| n.as_str()).collect();
    assert_eq!(active, vec!["review"]);
    let unnamed = subagent("s", vec![], vec![]);
    let ctx = subagent_skill_context(&skills, &unnamed, &summary("T", false, false)).unwrap();
    let active: Vec<&str> = ctx.active.iter().map(|(n, _)| n.as_str()).collect();
    assert_eq!(active, vec!["always"]);
}

#[test]
fn subagent_tools_get_the_required_ones_once() {
    let tools = vec!["bash".to_string(), "memory_read".to_string()];
    assert_eq!(
        subagent_tool_names(&tools),
        vec!["bash", "memory_read", "return", "todos", "memory_list", "memory_write", "memory_search"]
    );
}

#[test]
fn subagent_limits_and_model_fall_back_to_the_agent() {
    let mut sub = subagent("s", vec![], vec![]);
    let l = llm();
    assert_eq!(subagent_max_actions(&sub, &l), 10);
    assert_eq!(subagent_model(&sub, &l), "big-model");
    sub.max_actions = Some(3);
    sub.model = Some("small".into());
    assert_eq!(subagent_max_actions(&sub, &l), 3);
    assert_eq!(subagent_model(&sub, &l), "small");
}

#[test]
fn subagent_result_by_outcome() {
    assert_eq!(subagent_result(LoopOutcome::Terminal, Some("value".into()), "text".into()), "value");
    assert_eq!(subagent_result(LoopOutcome::Terminal, None, "text".into()), "text");
    assert_eq!(subagent_result(LoopOutcome::NoToolCalls, Some("value".into()), "text".into()), "text");
    assert_eq!(
        subagent_result(LoopOutcome::CapReached, None, "text".into()),
        "error: subagent hit action cap without returning a result"
    );
}

#[test]
fn dispatch_answers() {
    let subs = vec![subagent("coder", vec![], vec![]), subagent("writer", vec![], vec![])];
    assert_eq!(find_subagent(&subs, "writer").unwrap().name, "writer");
    assert!(find_subagent(&subs, "nobody").is_none());
    assert_eq!(no_subagent_answer("nobody"), "error: no subagent named 'nobody' is configured");
    let answer = dispatch_dry_run_answer(&DispatchArgs { subagent: "coder".into(), task: "fix it".into() });
    assert!(answer.contains("coder"));
    let descs = subagent_descriptions(&subs);
    assert_eq!(descs[0], ("coder".to_string(), "coder helper".to_string()));
}

#[test]
fn defrag_is_due_at_either_threshold() {
    assert!(defrag_due(&RepoStats { file_count: 20, total_size_kb: 0 }, 20, 50));
    assert!(defrag_due(&RepoStats { file_count: 1, total_size_kb: 50 }, 20, 50));
    assert!(!defrag_due(&RepoStats { file_count: 19, total_size_kb: 49 }, 20, 50));
}

#[test]
fn reflection_prompt_lists_the_comments() {
    let t = ticket(vec![comment("c1", 1, "amy", "first"), comment("c2", 2, "bob", "second")]);
    assert_eq!(
        reflection_prompt(&t),
        "Ticket just completed: Ticket T-1\n\nDescription: Some work\n\n## Comments\n@amy: first\n---\n@bob: second\n\nReflect and persist any valuable cross-ticket learnings."
    );
}

#[test]
fn reflection_follows_done_outside_dry_runs() {
    assert!(reflection_due(true, false));
    assert!(!reflection_due(true, true));
    assert!(!reflection_due(false, false));
}

#[test]
fn only_return_ends_a_subagent_loop() {
    assert!(is_subagent_terminal_tool("return"));
    assert!(!is_subagent_terminal_tool("done"));
    assert!(!is_subagent_terminal_tool("skip"));
}

#[test]
fn failed_subagent_loop_reports_its_error() {
    let (o, t) = subagent_loop_end(Err(OrgaError::NetworkError("timeout".into())));
    assert_eq!(o, LoopOutcome::NoToolCalls);
    assert_eq!(t, format!("error: {}", OrgaError::NetworkError("timeout".into()).message()));
    let (o, t) = subagent_loop_end(Ok((LoopOutcome::Terminal, "last".into())));
    assert_eq!(o, LoopOutcome::Terminal);
    assert_eq!(t, "last");
}

#[test]
fn subagent_answer_takes_the_returned_value_after_return() {
    let msg = HistoryMessage::User(vec![UserPart::ToolResult(vec![ResultPart::Text("42".into())])]);
    assert_eq!(subagent_answer(LoopOutcome::Terminal, Some(&msg), "text".into()), "42");
    assert_eq!(subagent_answer(LoopOutcome::Terminal, None, "text".into()), "text");
    assert_eq!(subagent_answer(LoopOutcome::NoToolCalls, Some(&msg), "text".into()), "text");
    assert_eq!(
        subagent_answer(LoopOutcome::CapReached, Some(&msg), "text".into()),
        "error: subagent hit action cap without returning a result"
    );
}
