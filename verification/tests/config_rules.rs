use orga::config::{
    default_config_path, AgentConfig, AppConfig, BoardConfig, LinearConfig, LlmConfig, LoggingConfig,
    MemoryConfig, MetricsConfig, SkillsConfig, SubagentConfig, TrelloConfig, WorkspaceConfig,
};

fn trello() -> TrelloConfig {
    TrelloConfig {
        api_key: "key".into(),
        token: "tok".into(),
        member_id: "abc123".into(),
        board_id: "board-xyz".into(),
    }
}

fn valid_config() -> AppConfig {
    AppConfig {
        agent: AgentConfig { name: "agent-1".into() },
        board: BoardConfig { backend: "trello".into() },
        trello: Some(trello()),
        linear: None,
        memory: None,
        logging: None,
        llm: None,
        metrics: None,
        comment_compaction_threshold: None,
        skills: None,
        workspace: None,
        subagents: vec![],
    }
}

fn valid_llm() -> LlmConfig {
    LlmConfig {
        provider: "anthropic".into(),
        api_key: "sk-ant-test".into(),
        model: "opus".into(),
        endpoint: None,
        poll_interval_secs: None,
        max_actions_per_ticket: None,
    }
}

fn sub(name: &str, tools: &[&str]) -> SubagentConfig {
    SubagentConfig {
        name: name.into(),
        description: "a".into(),
        tools: tools.iter().map(|t| t.to_string()).collect(),
        skills: vec![],
        model: None,
        max_actions: None,
        system_prompt: None,
    }
}

fn load_err(cfg: AppConfig) -> String {
    AppConfig::finish_load(cfg, vec![]).err().unwrap().message()
}

#[test]
fn valid_config_loads() {
    let cfg = AppConfig::finish_load(valid_config(), vec![]).unwrap();
    assert_eq!(cfg.trello.unwrap().member_id, "abc123");
    assert_eq!(cfg.board.backend, "trello");
}

#[test]
fn unknown_backend_fails() {
    let mut cfg = valid_config();
    cfg.board.backend = "notion".into();
    let msg = load_err(cfg);
    assert!(msg.contains("unsupported backend"));
    assert_eq!(msg, "config error: unsupported backend 'notion'. Supported backends: trello, linear");
}

#[test]
fn missing_trello_section_fails() {
    let mut cfg = valid_config();
    cfg.trello = None;
    assert!(load_err(cfg).contains("[trello] section"));
}

#[test]
fn missing_linear_section_fails() {
    let mut cfg = valid_config();
    cfg.board.backend = "linear".into();
    assert!(load_err(cfg).contains("[linear] section"));
}

#[test]
fn empty_board_and_team_ids_fail() {
    let mut cfg = valid_config();
    cfg.trello.as_mut().unwrap().board_id = String::new();
    assert_eq!(load_err(cfg), "config error: [trello] board_id is required");
    let mut cfg = valid_config();
    cfg.board.backend = "linear".into();
    cfg.linear = Some(LinearConfig { api_key: "lin_api_abc123".into(), team_id: String::new() });
    assert_eq!(load_err(cfg), "config error: [linear] team_id is required");
}

#[test]
fn valid_linear_config_loads() {
    let mut cfg = valid_config();
    cfg.board.backend = "linear".into();
    cfg.trello = None;
    cfg.linear = Some(LinearConfig { api_key: "lin_api_abc123".into(), team_id: "team-xyz".into() });
    let cfg = AppConfig::finish_load(cfg, vec![]).unwrap();
    assert_eq!(cfg.linear.unwrap().api_key, "lin_api_abc123");
}

#[test]
fn metrics_section_default_listen_addr() {
    let mut cfg = valid_config();
    cfg.metrics = Some(MetricsConfig::with_default_listen_addr());
    let cfg = AppConfig::finish_load(cfg, vec![]).unwrap();
    assert_eq!(cfg.metrics_config().unwrap().listen_addr(), "127.0.0.1:9090");
}

#[test]
fn metrics_section_custom_listen_addr() {
    let mut cfg = valid_config();
    cfg.metrics = Some(MetricsConfig { listen_addr: Some("0.0.0.0:9100".into()) });
    let cfg = AppConfig::finish_load(cfg, vec![]).unwrap();
    assert_eq!(cfg.metrics_config().unwrap().listen_addr(), "0.0.0.0:9100");
}

#[test]
fn metrics_invalid_listen_addr_rejected() {
    let mut cfg = valid_config();
    cfg.metrics = Some(MetricsConfig { listen_addr: Some("not-a-socket-addr".into()) });
    let msg = load_err(cfg);
    assert!(msg.contains("listen_addr"));
    assert_eq!(msg, "config error: [metrics] listen_addr 'not-a-socket-addr' is not a valid host:port");
}

#[test]
fn metrics_section_absent_uses_none() {
    assert!(valid_config().metrics_config().is_none());
}

#[test]
fn llm_config_helper_returns_ok() {
    let mut cfg = valid_config();
    cfg.llm = Some(valid_llm());
    let cfg = AppConfig::finish_load(cfg, vec![]).unwrap();
    assert_eq!(cfg.llm_config().unwrap().provider, "anthropic");
}

#[test]
fn llm_config_helper_absent_section_returns_err() {
    let err = valid_config().llm_config().err().unwrap();
    assert!(err.message().contains("[llm]"));
}

#[test]
fn llm_unknown_provider_fails() {
    let mut cfg = valid_config();
    let mut llm = valid_llm();
    llm.provider = "unknown".into();
    cfg.llm = Some(llm);
    assert!(load_err(cfg).contains("unsupported provider"));
}

#[test]
fn llm_missing_api_key_fails() {
    let mut cfg = valid_config();
    let mut llm = valid_llm();
    llm.api_key = String::new();
    cfg.llm = Some(llm);
    assert!(load_err(cfg).contains("api_key is required"));
}

#[test]
fn llm_missing_model_fails() {
    let mut cfg = valid_config();
    let mut llm = valid_llm();
    llm.model = String::new();
    cfg.llm = Some(llm);
    assert!(load_err(cfg).contains("model is required"));
}

#[test]
fn llm_defaults() {
    let llm = valid_llm();
    assert_eq!(llm.poll_interval_secs(), 60);
    assert_eq!(llm.max_actions_per_ticket(), 10);
}

#[test]
fn llm_openai_provider_loads() {
    let mut cfg = valid_config();
    let mut llm = valid_llm();
    llm.provider = "openai".into();
    cfg.llm = Some(llm);
    assert_eq!(AppConfig::finish_load(cfg, vec![]).unwrap().llm.unwrap().provider, "openai");
}

#[test]
fn duplicate_subagent_name_fails_validation() {
    let mut cfg = valid_config();
    cfg.subagents = vec![sub("bot", &["done"]), sub("bot", &["done"])];
    assert!(load_err(cfg).contains("duplicate subagent name"));
}

#[test]
fn duplicate_name_from_markdown_agent_fails_validation() {
    let mut cfg = valid_config();
    cfg.subagents = vec![sub("bot", &["done"])];
    let err = AppConfig::finish_load(cfg, vec![sub("bot", &["comment"])]).err().unwrap();
    assert_eq!(err.message(), "config error: [subagents] duplicate subagent name 'bot'");
}

#[test]
fn unknown_tool_name_in_subagent_fails_validation() {
    let mut cfg = valid_config();
    cfg.subagents = vec![sub("bot", &["fly"])];
    let msg = load_err(cfg);
    assert!(msg.contains("unknown tool"));
    assert_eq!(msg, "config error: [subagents] subagent 'bot' references unknown tool 'fly'");
}

#[test]
fn no_subagents_config_loads_fine() {
    let cfg = AppConfig::finish_load(valid_config(), vec![]).unwrap();
    assert!(cfg.subagents.is_empty());
}

#[test]
fn markdown_agents_are_appended() {
    let mut cfg = valid_config();
    cfg.subagents = vec![sub("a", &["comment"])];
    let cfg = AppConfig::finish_load(cfg, vec![sub("b", &["bash"])]).unwrap();
    let names: Vec<&str> = cfg.subagents.iter().map(|s| s.name.as_str()).collect();
    assert_eq!(names, vec!["a", "b"]);
}

#[test]
fn memory_db_path_default() {
    let cfg = valid_config();
    assert_eq!(cfg.memory_db_path("/home/u"), "/home/u/.orga/memory.db");
    assert!(cfg.memory_db_path("/home/u").ends_with(".orga/memory.db"));
    assert_eq!(cfg.memory_repo_path("/home/u"), "/home/u/.orga/memory");
}

#[test]
fn memory_db_path_custom() {
    let mut cfg = valid_config();
    cfg.memory = Some(MemoryConfig { path: Some("/tmp/test.db".into()), defrag_file_threshold: None, defrag_size_threshold_kb: None });
    assert_eq!(cfg.memory_db_path("/home/u"), "/tmp/test.db");
}

#[test]
fn defrag_thresholds_default_and_custom() {
    let mut cfg = valid_config();
    assert_eq!(cfg.defrag_file_threshold(), 20);
    assert_eq!(cfg.defrag_size_threshold_kb(), 50);
    cfg.memory = Some(MemoryConfig { path: None, defrag_file_threshold: Some(3), defrag_size_threshold_kb: Some(7) });
    assert_eq!(cfg.defrag_file_threshold(), 3);
    assert_eq!(cfg.defrag_size_threshold_kb(), 7);
    assert_eq!(cfg.compaction_threshold(), 5);
}

#[test]
fn skills_section_absent_returns_none() {
    assert!(valid_config().skills_path("/home/u").is_none());
}

#[test]
fn skills_section_present_loads_path() {
    let mut cfg = valid_config();
    cfg.skills = Some(SkillsConfig { path: "/tmp/skills".into() });
    assert_eq!(cfg.skills_path("/home/u"), Some("/tmp/skills".to_string()));
}

#[test]
fn skills_path_tilde_expanded() {
    let mut cfg = valid_config();
    cfg.skills = Some(SkillsConfig { path: "~/.orga/skills".into() });
    let p = cfg.skills_path("/home/u").unwrap();
    assert!(!p.contains('~'));
    assert!(p.ends_with(".orga/skills"));
}

#[test]
fn workspace_and_agents_md_paths() {
    let mut cfg = valid_config();
    assert!(cfg.agents_md_path("/home/u").is_none());
    cfg.workspace = Some(WorkspaceConfig { path: "~/work".into() });
    assert_eq!(cfg.workspace_base_path("/home/u"), Some("/home/u/work".to_string()));
    assert_eq!(cfg.agents_md_path("/home/u"), Some("/home/u/work/AGENTS.md".to_string()));
}

#[test]
fn logging_section_absent_uses_defaults() {
    let cfg = valid_config();
    assert_eq!(cfg.log_file_path("/home/u"), "/home/u/.orga/orga.log");
    assert!(!cfg.debug_logging());
}

#[test]
fn logging_section_with_custom_file() {
    let mut cfg = valid_config();
    cfg.logging = Some(LoggingConfig { file: Some("/tmp/orga-test.log".into()), debug: Some(true) });
    assert_eq!(cfg.log_file_path("/home/u"), "/tmp/orga-test.log");
    assert!(cfg.debug_logging());
}

#[test]
fn config_path_resolution_order() {
    assert_eq!(AppConfig::resolve_path(Some("/a.toml"), Some("/b.toml"), "/h"), "/a.toml");
    assert_eq!(AppConfig::resolve_path(None, Some("/b.toml"), "/h"), "/b.toml");
    assert_eq!(AppConfig::resolve_path(None, None, "/h"), "/h/.orga/config.toml");
    assert_eq!(default_config_path("."), "./.orga/config.toml");
}
