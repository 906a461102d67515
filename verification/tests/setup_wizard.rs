use orga::config::{AgentConfig, AppConfig, BoardConfig, LlmConfig, SkillsConfig, TrelloConfig};
use orga::init::{
    board_id_for_name, default_backend_index, default_board_index, default_model, default_provider_index,
    default_team_index, secret_or_current, team_id_for_name, trello_setup_status, with_agent_settings,
    with_linear_settings, with_trello_settings, LinearTeamItem, TrelloBoardItem,
};

fn config() -> AppConfig {
    AppConfig {
        agent: AgentConfig { name: "agent-1".into() },
        board: BoardConfig { backend: "linear".into() },
        trello: None,
        linear: None,
        memory: None,
        logging: None,
        llm: Some(LlmConfig {
            provider: "openai".into(),
            api_key: "sk".into(),
            model: "gpt-4o-mini".into(),
            endpoint: Some("https://proxy".into()),
            poll_interval_secs: Some(30),
            max_actions_per_ticket: None,
        }),
        metrics: None,
        comment_compaction_threshold: Some(8),
        skills: Some(SkillsConfig { path: "/skills".into() }),
        workspace: None,
        subagents: vec![],
    }
}

#[test]
fn wizard_defaults_follow_the_existing_config() {
    let c = config();
    assert_eq!(default_backend_index(Some(&c)), 1);
    assert_eq!(default_backend_index(None), 0);
    assert_eq!(default_provider_index(Some(&c)), 1);
    assert_eq!(default_model(Some(&c), "anthropic", "big"), "gpt-4o-mini");
    assert_eq!(default_model(None, "openai", "big"), "gpt-4o");
    assert_eq!(default_model(None, "anthropic", "big"), "big");
    assert_eq!(secret_or_current(String::new(), "old"), "old");
    assert_eq!(secret_or_current("new".into(), "old"), "new");
}

#[test]
fn wizard_picks_teams_and_boards() {
    let teams = vec![
        LinearTeamItem { id: "t1".into(), name: "Core".into() },
        LinearTeamItem { id: "t2".into(), name: "Web".into() },
    ];
    assert_eq!(default_team_index(&teams, "t2"), 1);
    assert_eq!(default_team_index(&teams, "zz"), 0);
    assert_eq!(team_id_for_name(&teams, "Web"), "t2");
    assert_eq!(team_id_for_name(&teams, "Ops"), "");
    let boards = vec![TrelloBoardItem { id: "b1".into(), name: "Main".into() }];
    assert_eq!(default_board_index(&boards, "b1"), 0);
    assert_eq!(board_id_for_name(&boards, "Main"), "b1");
}

#[test]
fn trello_settings_replace_the_board_and_keep_the_rest() {
    let c = with_trello_settings(Some(config()), "bot".into(), "k".into(), "t".into(), "m".into(), "b".into());
    assert_eq!(c.agent.name, "bot");
    assert_eq!(c.board.backend, "trello");
    let t: TrelloConfig = c.trello.clone().unwrap();
    assert_eq!((t.api_key.as_str(), t.token.as_str(), t.member_id.as_str(), t.board_id.as_str()), ("k", "t", "m", "b"));
    assert!(c.linear.is_none());
    assert_eq!(c.comment_compaction_threshold, Some(8));
    let l = with_linear_settings(None, "bot".into(), "lin".into(), "team".into());
    assert_eq!(l.board.backend, "linear");
    assert_eq!(l.linear.unwrap().team_id, "team");
    assert!(l.llm.is_none());
}

#[test]
fn agent_settings_keep_limits_and_unset_paths() {
    let c = with_agent_settings(Some(config()), "anthropic", "key".into(), "big".into(), "/mem.db".into(), String::new(), String::new());
    let llm = c.llm.unwrap();
    assert_eq!(llm.provider, "anthropic");
    assert_eq!(llm.model, "big");
    assert_eq!(llm.endpoint.as_deref(), Some("https://proxy"));
    assert_eq!(llm.poll_interval_secs, Some(30));
    assert_eq!(c.memory.unwrap().path.as_deref(), Some("/mem.db"));
    assert_eq!(c.skills.unwrap().path, "/skills");
    assert!(c.workspace.is_none());
    let fresh = with_agent_settings(None, "openai", "k".into(), "m".into(), String::new(), "/w".into(), String::new());
    assert_eq!(fresh.board.backend, "trello");
    assert_eq!(fresh.agent.name, "");
    assert_eq!(fresh.workspace.unwrap().path, "/w");
}

#[test]
fn trello_setup_status_checks() {
    assert!(trello_setup_status(200).is_ok());
    assert_eq!(trello_setup_status(401).unwrap_err().message(), "unauthorized: invalid Trello API key or token");
    assert_eq!(trello_setup_status(403).unwrap_err().message(), "backend error: Trello returned HTTP 403 Forbidden");
}
