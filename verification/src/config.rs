//! The configuration of an orga agent and the rules it must satisfy.

use vstd::prelude::*;

use crate::error::OrgaError;
use crate::paths::{expand_tilde, join_path, joined, tilde_expanded};
use crate::text::{push_str, str_eq, str_to_string};

verus! {

broadcast use vstd::string::group_string_axioms;

#[derive(Debug, Clone)]
pub struct AgentConfig {
    pub name: String,
}

#[derive(Debug, Clone)]
pub struct BoardConfig {
    pub backend: String,
}

#[derive(Debug, Clone)]
pub struct LinearConfig {
    pub api_key: String,
    pub team_id: String,
}

#[derive(Debug, Clone)]
pub struct TrelloConfig {
    pub api_key: String,
    pub token: String,
    pub member_id: String,
    pub board_id: String,
}

#[derive(Debug, Clone)]
pub struct MemoryConfig {
    pub path: Option<String>,
    pub defrag_file_threshold: Option<usize>,
    pub defrag_size_threshold_kb: Option<u64>,
}

#[derive(Debug, Clone)]
pub struct WorkspaceConfig {
    pub path: String,
}

#[derive(Debug, Clone)]
pub struct SkillsConfig {
    pub path: String,
}

#[derive(Debug, Clone)]
pub struct SubagentConfig {
    pub name: String,
    pub description: String,
    pub tools: Vec<String>,
    pub skills: Vec<String>,
    pub model: Option<String>,
    pub max_actions: Option<usize>,
    pub system_prompt: Option<String>,
}

#[derive(Debug, Clone)]
pub struct LoggingConfig {
    pub file: Option<String>,
    pub debug: Option<bool>,
}

#[derive(Debug, Clone)]
pub struct MetricsConfig {
    pub listen_addr: Option<String>,
}

/// The address the metrics endpoint listens on unless configured otherwise.
pub open spec fn default_listen_addr() -> Seq<char> {
    "127.0.0.1:9090"@
}

/// The listen address that a `[metrics]` section without one gets.
fn default_metrics_listen_addr() -> (r: Option<String>)
    ensures
        r.deep_view() == Some(default_listen_addr()),
{
    Some(str_to_string("127.0.0.1:9090"))
}

impl MetricsConfig {
    /// A `[metrics]` section as it reads when it names no address.
    pub fn with_default_listen_addr() -> (r: MetricsConfig)
        ensures
            r.listen_addr.deep_view() == Some(default_listen_addr()),
    {
        MetricsConfig { listen_addr: default_metrics_listen_addr() }
    }

    /// The address to serve metrics on; `127.0.0.1:9090` when none is set.
    pub fn listen_addr(&self) -> (r: &str)
        ensures
            r@ == match self.listen_addr {
                Some(a) => a@,
                None => default_listen_addr(),
            },
    {
        match &self.listen_addr {
            Some(a) => a.as_str(),
            None => "127.0.0.1:9090",
        }
    }
}

#[derive(Debug, Clone)]
pub struct LlmConfig {
    pub provider: String,
    pub api_key: String,
    pub model: String,
    pub endpoint: Option<String>,
    pub poll_interval_secs: Option<u64>,
    pub max_actions_per_ticket: Option<usize>,
}

impl LlmConfig {
    /// Seconds between two polls of the board; 60 unless configured.
    pub fn poll_interval_secs(&self) -> (r: u64)
        ensures
            r == match self.poll_interval_secs {
                Some(s) => s,
                None => 60,
            },
    {
        match self.poll_interval_secs {
            Some(s) => s,
            None => 60,
        }
    }

    /// The most tool calls the agent makes on one ticket; 10 unless configured.
    pub fn max_actions_per_ticket(&self) -> (r: usize)
        ensures
            r == match self.max_actions_per_ticket {
                Some(n) => n,
                None => 10,
            },
    {
        match self.max_actions_per_ticket {
            Some(n) => n,
            None => 10,
        }
    }
}

#[derive(Debug, Clone)]
pub struct AppConfig {
    pub agent: AgentConfig,
    pub board: BoardConfig,
    pub trello: Option<TrelloConfig>,
    pub linear: Option<LinearConfig>,
    pub memory: Option<MemoryConfig>,
    pub logging: Option<LoggingConfig>,
    pub llm: Option<LlmConfig>,
    pub metrics: Option<MetricsConfig>,
    pub comment_compaction_threshold: Option<usize>,
    pub skills: Option<SkillsConfig>,
    pub workspace: Option<WorkspaceConfig>,
    pub subagents: Vec<SubagentConfig>,
}

/// The memory path configured in `[memory]`, where there is one.
pub open spec fn configured_memory_path(cfg: AppConfig) -> Option<Seq<char>> {
    match cfg.memory {
        Some(m) => match m.path {
            Some(p) => Some(p@),
            None => None,
        },
        None => None,
    }
}

/// The names of the tools that a subagent may be given.
pub open spec fn valid_tool_names() -> Seq<Seq<char>> {
    seq![
        "comment"@,
        "assign"@,
        "create_sub"@,
        "compact"@,
        "done"@,
        "skip"@,
        "dispatch"@,
        "return"@,
        "bash"@,
        "todos"@,
        "memory_list"@,
        "memory_read"@,
        "memory_write"@,
        "memory_search"@,
    ]
}

/// Whether `t` names a tool that a subagent may be given.
pub fn is_valid_tool(t: &str) -> (r: bool)
    ensures
        r == valid_tool_names().contains(t@),
{
    let names: Vec<&str> = vec![
        "comment",
        "assign",
        "create_sub",
        "compact",
        "done",
        "skip",
        "dispatch",
        "return",
        "bash",
        "todos",
        "memory_list",
        "memory_read",
        "memory_write",
        "memory_search",
    ];
    let ghost views = Seq::new(names@.len(), |i: int| names@[i]@);
    assert(views =~= valid_tool_names());
    let mut i: usize = 0;
    while i < names.len()
        invariant
            i <= names@.len(),
            views == Seq::new(names@.len(), |k: int| names@[k]@),
            views == valid_tool_names(),
            forall|k: int| 0 <= k < i ==> views[k] != t@,
        decreases names@.len() - i,
    {
        if str_eq(names[i], t) {
            assert(views[i as int] == t@);
            return true;
        }
        i = i + 1;
    }
    assert(!views.contains(t@));
    false
}

/// The message that a configuration failing its rules is rejected with, or
/// `None` where it satisfies them. The rules are checked in this order: the
/// board backend is supported, its section is present, its board or team id
/// is set; the `[llm]` provider is supported and its key and model are set;
/// the metrics address is a host and port; no two subagents share a name and
/// no subagent names an unknown tool.
pub open spec fn config_problem(cfg: AppConfig) -> Option<Seq<char>> {
    config_problem_with(cfg, cfg.subagents@)
}

/// `config_problem` of `cfg` with `subs` in place of its subagents.
pub open spec fn config_problem_with(cfg: AppConfig, subs: Seq<SubagentConfig>) -> Option<
    Seq<char>,
> {
    if section_problem(cfg) is Some {
        section_problem(cfg)
    } else {
        subagent_problem(subs, 0)
    }
}

/// The first problem with the board, `[llm]` and `[metrics]` sections.
pub open spec fn section_problem(cfg: AppConfig) -> Option<Seq<char>> {
    let backend = cfg.board.backend@;
    if backend != "trello"@ && backend != "linear"@ {
        Some("unsupported backend '"@ + backend + "'. Supported backends: trello, linear"@)
    } else if backend == "trello"@ && cfg.trello is None {
        Some("backend is 'trello' but [trello] section is missing from config"@)
    } else if backend == "linear"@ && cfg.linear is None {
        Some("backend is 'linear' but [linear] section is missing from config"@)
    } else if backend == "trello"@ && cfg.trello->0.board_id@.len() == 0 {
        Some("[trello] board_id is required"@)
    } else if backend == "linear"@ && cfg.linear->0.team_id@.len() == 0 {
        Some("[linear] team_id is required"@)
    } else if cfg.llm is Some && cfg.llm->0.provider@ != "anthropic"@ && cfg.llm->0.provider@
        != "openai"@ {
        Some(
            "[llm] unsupported provider '"@ + cfg.llm->0.provider@
                + "'. Supported providers: anthropic, openai"@,
        )
    } else if cfg.llm is Some && cfg.llm->0.api_key@.len() == 0 {
        Some("[llm] api_key is required"@)
    } else if cfg.llm is Some && cfg.llm->0.model@.len() == 0 {
        Some("[llm] model is required"@)
    } else if cfg.metrics is Some && !parses_as_socket_addr(metrics_addr(cfg.metrics->0)) {
        Some(
            "[metrics] listen_addr '"@ + metrics_addr(cfg.metrics->0)
                + "' is not a valid host:port"@,
        )
    } else {
        None
    }
}

/// The listen address of a `[metrics]` section, its default included.
pub open spec fn metrics_addr(m: MetricsConfig) -> Seq<char> {
    match m.listen_addr {
        Some(a) => a@,
        None => default_listen_addr(),
    }
}

/// The first problem among the subagents from index `i` on: a name that an
/// earlier subagent already has, or else a tool that is not known.
pub open spec fn subagent_problem(subs: Seq<SubagentConfig>, i: int) -> Option<Seq<char>>
    decreases subs.len() - i,
{
    if i < 0 || i >= subs.len() {
        None
    } else if exists|j: int| 0 <= j < i && #[trigger] subs[j].name@ == subs[i].name@ {
        Some("[subagents] duplicate subagent name '"@ + subs[i].name@ + "'"@)
    } else if exists|k: int|
        0 <= k < subs[i].tools@.len() && !valid_tool_names().contains(
            #[trigger] subs[i].tools@[k]@,
        ) {
        let k = choose|k: int|
            0 <= k < subs[i].tools@.len() && !valid_tool_names().contains(
                #[trigger] subs[i].tools@[k]@,
            ) && forall|m: int|
                0 <= m < k ==> valid_tool_names().contains(#[trigger] subs[i].tools@[m]@);
        Some(
            "[subagents] subagent '"@ + subs[i].name@ + "' references unknown tool '"@
                + subs[i].tools@[k]@ + "'"@,
        )
    } else {
        subagent_problem(subs, i + 1)
    }
}

/// Whether `s` parses as a socket address (`host:port`), by the standard
/// library's `SocketAddr` parser.
pub uninterp spec fn parses_as_socket_addr(s: Seq<char>) -> bool;

/// `str::parse::<SocketAddr>` (core::net): whether the text is an IPv4 or
/// IPv6 socket address. The contract names the outcome and says that it is
/// a function of the text alone.
#[verifier::external_body]
fn is_socket_addr(s: &str) -> (r: bool)
    ensures
        r == parses_as_socket_addr(s@),
{
    s.parse::<core::net::SocketAddr>().is_ok()
}

/// Checks that no two subagents share a name and that every subagent names
/// known tools only (see `subagent_problem`).
fn validate_subagents(subs: &Vec<SubagentConfig>) -> (r: Result<(), OrgaError>)
    ensures
        match r {
            Ok(()) => subagent_problem(subs@, 0) is None,
            Err(e) => subagent_problem(subs@, 0) is Some && is_config_error(
                e,
                subagent_problem(subs@, 0)->0,
            ),
        },
{
        let mut i: usize = 0;
        while i < subs.len()
            invariant
                i <= subs@.len(),
                subagent_problem(subs@, 0) == subagent_problem(subs@, i as int),
            decreases subs@.len() - i,
        {
            let sub = &subs[i];
            let mut j: usize = 0;
            while j < i
                invariant
                    j <= i < subs@.len(),
                    sub == subs@[i as int],
                    subagent_problem(subs@, 0) == subagent_problem(subs@, i as int),
                    forall|q: int| 0 <= q < j ==> subs@[q].name@ != sub.name@,
                decreases i - j,
            {
                if str_eq(subs[j].name.as_str(), sub.name.as_str()) {
                    let mut m = String::new();
                    push_str(&mut m, "[subagents] duplicate subagent name '");
                    push_str(&mut m, sub.name.as_str());
                    push_str(&mut m, "'");
                    return Err(config_error(m));
                }
                j = j + 1;
            }
            let tools = &sub.tools;
            let mut k: usize = 0;
            while k < tools.len()
                invariant
                    k <= tools@.len(),
                    i < subs@.len(),
                    sub == subs@[i as int],
                    tools == sub.tools,
                    subagent_problem(subs@, 0) == subagent_problem(subs@, i as int),
                    forall|q: int| 0 <= q < i ==> subs@[q].name@ != sub.name@,
                    forall|q: int| 0 <= q < k ==> valid_tool_names().contains(#[trigger] tools@[q]@),
                decreases tools@.len() - k,
            {
                if !is_valid_tool(tools[k].as_str()) {
                    let mut m = String::new();
                    push_str(&mut m, "[subagents] subagent '");
                    push_str(&mut m, sub.name.as_str());
                    push_str(&mut m, "' references unknown tool '");
                    push_str(&mut m, tools[k].as_str());
                    push_str(&mut m, "'");
                    proof {
                        let kk = choose|kk: int|
                            0 <= kk < subs@[i as int].tools@.len() && !valid_tool_names().contains(
                                #[trigger] subs@[i as int].tools@[kk]@,
                            ) && forall|mm: int|
                                0 <= mm < kk ==> valid_tool_names().contains(
                                    #[trigger] subs@[i as int].tools@[mm]@,
                                );
                        assert(kk == k as int) by {
                            if kk < k {
                            } else if kk > k {
                            }
                        }
                    }
                    return Err(config_error(m));
                }
                k = k + 1;
            }
            i = i + 1;
        }
    Ok(())
}

/// `e` is a configuration error with the message `msg`.
pub open spec fn is_config_error(e: OrgaError, msg: Seq<char>) -> bool {
    match e {
        OrgaError::ConfigError(m) => m@ == msg,
        _ => false,
    }
}

fn config_error(msg: String) -> (e: OrgaError)
    ensures
        is_config_error(e, msg@),
{
    OrgaError::ConfigError(msg)
}

/// The default configuration file: `.orga/config.toml` below `home`.
pub open spec fn default_config_file(home: Seq<char>) -> Seq<char> {
    joined(joined(home, ".orga"@), "config.toml"@)
}

/// The default configuration file (see `default_config_file`).
pub fn default_config_path(home: &str) -> (r: String)
    ensures
        r@ == default_config_file(home@),
{
    let dir = join_path(home, ".orga");
    join_path(dir.as_str(), "config.toml")
}

impl AppConfig {
    /// The configuration as loaded: the parsed file with the subagents that
    /// markdown agent files define appended, once it satisfies the rules of
    /// `validate`; otherwise the configuration error.
    pub fn finish_load(parsed: AppConfig, markdown_agents: Vec<SubagentConfig>) -> (r: Result<
        AppConfig,
        OrgaError,
    >)
        ensures
            ({
                let subs = parsed.subagents@ + markdown_agents@;
                match r {
                    Ok(c) => c.subagents@ == subs && config_problem_with(parsed, subs) is None && c
                        == AppConfig { subagents: c.subagents, ..parsed },
                    Err(e) => config_problem_with(parsed, subs) is Some && is_config_error(
                        e,
                        config_problem_with(parsed, subs)->0,
                    ),
                }
            }),
    {
        let mut cfg = parsed;
        let mut extra = markdown_agents;
        cfg.subagents.append(&mut extra);
        match cfg.validate() {
            Ok(()) => Ok(cfg),
            Err(e) => Err(e),
        }
    }

    /// Checks the rules of a configuration (see `config_problem`); the first
    /// one that fails is reported as a configuration error.
    pub fn validate(&self) -> (r: Result<(), OrgaError>)
        ensures
            match r {
                Ok(()) => config_problem(*self) is None,
                Err(e) => config_problem(*self) is Some && is_config_error(
                    e,
                    config_problem(*self)->0,
                ),
            },
    {
        match self.validate_sections() {
            Err(e) => Err(e),
            Ok(()) => validate_subagents(&self.subagents),
        }
    }

    fn validate_sections(&self) -> (r: Result<(), OrgaError>)
        ensures
            match r {
                Ok(()) => section_problem(*self) is None,
                Err(e) => section_problem(*self) is Some && is_config_error(
                    e,
                    section_problem(*self)->0,
                ),
            },
    {
        let backend = self.board.backend.as_str();
        let is_trello = str_eq(backend, "trello");
        let is_linear = str_eq(backend, "linear");
        if !is_trello && !is_linear {
            let mut m = String::new();
            push_str(&mut m, "unsupported backend '");
            push_str(&mut m, backend);
            push_str(&mut m, "'. Supported backends: trello, linear");
            return Err(config_error(m));
        }
        if is_trello && self.trello.is_none() {
            return Err(
                config_error(
                    str_to_string("backend is 'trello' but [trello] section is missing from config"),
                ),
            );
        }
        if is_linear && self.linear.is_none() {
            return Err(
                config_error(
                    str_to_string("backend is 'linear' but [linear] section is missing from config"),
                ),
            );
        }
        if is_trello {
            if let Some(t) = &self.trello {
                if t.board_id.as_str().is_empty() {
                    return Err(config_error(str_to_string("[trello] board_id is required")));
                }
            }
        }
        if is_linear {
            if let Some(l) = &self.linear {
                if l.team_id.as_str().is_empty() {
                    return Err(config_error(str_to_string("[linear] team_id is required")));
                }
            }
        }
        if let Some(llm) = &self.llm {
            let provider = llm.provider.as_str();
            if !str_eq(provider, "anthropic") && !str_eq(provider, "openai") {
                let mut m = String::new();
                push_str(&mut m, "[llm] unsupported provider '");
                push_str(&mut m, provider);
                push_str(&mut m, "'. Supported providers: anthropic, openai");
                return Err(config_error(m));
            }
            if llm.api_key.as_str().is_empty() {
                return Err(config_error(str_to_string("[llm] api_key is required")));
            }
            if llm.model.as_str().is_empty() {
                return Err(config_error(str_to_string("[llm] model is required")));
            }
        }
        if let Some(m) = &self.metrics {
            let addr = m.listen_addr();
            if !is_socket_addr(addr) {
                let mut msg = String::new();
                push_str(&mut msg, "[metrics] listen_addr '");
                push_str(&mut msg, addr);
                push_str(&mut msg, "' is not a valid host:port");
                return Err(config_error(msg));
            }
        }
        Ok(())
    }

    /// The path of the database of the agent's stores; `~/.orga/memory.db`
    /// unless `[memory] path` is set. A leading `~/` is expanded to `home`.
    pub fn memory_db_path(&self, home: &str) -> (r: String)
        ensures
            r@ == tilde_expanded(
                match configured_memory_path(*self) {
                    Some(p) => p,
                    None => "~/.orga/memory.db"@,
                },
                home@,
            ),
    {
        let raw: &str = match &self.memory {
            Some(m) => match &m.path {
                Some(p) => p.as_str(),
                None => "~/.orga/memory.db",
            },
            None => "~/.orga/memory.db",
        };
        expand_tilde(raw, home)
    }

    /// The path of the context repository; `~/.orga/memory` unless
    /// `[memory] path` is set. A leading `~/` is expanded to `home`.
    pub fn memory_repo_path(&self, home: &str) -> (r: String)
        ensures
            r@ == tilde_expanded(
                match configured_memory_path(*self) {
                    Some(p) => p,
                    None => "~/.orga/memory"@,
                },
                home@,
            ),
    {
        let raw: &str = match &self.memory {
            Some(m) => match &m.path {
                Some(p) => p.as_str(),
                None => "~/.orga/memory",
            },
            None => "~/.orga/memory",
        };
        expand_tilde(raw, home)
    }

    /// The file count at which the context repository is defragmented; 20
    /// unless configured.
    pub fn defrag_file_threshold(&self) -> (r: usize)
        ensures
            r == match self.memory {
                Some(m) => match m.defrag_file_threshold {
                    Some(n) => n,
                    None => 20,
                },
                None => 20,
            },
    {
        match &self.memory {
            Some(m) => match m.defrag_file_threshold {
                Some(n) => n,
                None => 20,
            },
            None => 20,
        }
    }

    /// The size in KiB at which the context repository is defragmented; 50
    /// unless configured.
    pub fn defrag_size_threshold_kb(&self) -> (r: u64)
        ensures
            r == match self.memory {
                Some(m) => match m.defrag_size_threshold_kb {
                    Some(n) => n,
                    None => 50,
                },
                None => 50,
            },
    {
        match &self.memory {
            Some(m) => match m.defrag_size_threshold_kb {
                Some(n) => n,
                None => 50,
            },
            None => 50,
        }
    }

    /// The path of `AGENTS.md` in the workspace base, where a workspace is
    /// configured.
    pub fn agents_md_path(&self, home: &str) -> (r: Option<String>)
        ensures
            r.deep_view() == match self.workspace {
                Some(w) => Some(joined(tilde_expanded(w.path@, home@), "AGENTS.md"@)),
                None => None,
            },
    {
        match self.workspace_base_path(home) {
            Some(p) => Some(join_path(p.as_str(), "AGENTS.md")),
            None => None,
        }
    }

    /// The number of comments above which a compaction is suggested; 5
    /// unless configured.
    pub fn compaction_threshold(&self) -> (r: usize)
        ensures
            r == match self.comment_compaction_threshold {
                Some(n) => n,
                None => 5,
            },
    {
        match self.comment_compaction_threshold {
            Some(n) => n,
            None => 5,
        }
    }

    /// The `[llm]` section, which the agent command needs.
    pub fn llm_config(&self) -> (r: Result<&LlmConfig, OrgaError>)
        ensures
            match self.llm {
                Some(l) => r == Ok::<&LlmConfig, OrgaError>(&l),
                None => r is Err && is_config_error(
                    r->Err_0,
                    "[llm] section is required for `orga agent` but is missing from config"@,
                ),
            },
    {
        match &self.llm {
            Some(l) => Ok(l),
            None => Err(
                config_error(
                    str_to_string(
                        "[llm] section is required for `orga agent` but is missing from config",
                    ),
                ),
            ),
        }
    }

    /// The `[metrics]` section, where there is one.
    pub fn metrics_config(&self) -> (r: Option<&MetricsConfig>)
        ensures
            match self.metrics {
                Some(m) => r == Some(&m),
                None => r is None,
            },
    {
        match &self.metrics {
            Some(m) => Some(m),
            None => None,
        }
    }

    /// The skills folder, with a leading `~/` expanded to `home`.
    pub fn skills_path(&self, home: &str) -> (r: Option<String>)
        ensures
            r.deep_view() == match self.skills {
                Some(s) => Some(tilde_expanded(s.path@, home@)),
                None => None,
            },
    {
        match &self.skills {
            Some(s) => Some(expand_tilde(s.path.as_str(), home)),
            None => None,
        }
    }

    /// The path of the configuration file: the explicit one where given,
    /// else the one that `ORGA_CONFIG` names (`from_env`), else
    /// `.orga/config.toml` below the home directory.
    pub fn resolve_path(explicit: Option<&str>, from_env: Option<&str>, home: &str) -> (r: String)
        ensures
            r@ == match explicit {
                Some(p) => p@,
                None => match from_env {
                    Some(p) => p@,
                    None => default_config_file(home@),
                },
            },
    {
        match explicit {
            Some(p) => str_to_string(p),
            None => match from_env {
                Some(p) => str_to_string(p),
                None => default_config_path(home),
            },
        }
    }

    /// The log file, `~/.orga/orga.log` unless `[logging] file` is set, with
    /// a leading `~/` expanded to `home`.
    pub fn log_file_path(&self, home: &str) -> (r: String)
        ensures
            r@ == tilde_expanded(
                match self.logging {
                    Some(l) => match l.file {
                        Some(f) => f@,
                        None => "~/.orga/orga.log"@,
                    },
                    None => "~/.orga/orga.log"@,
                },
                home@,
            ),
    {
        let raw: &str = match &self.logging {
            Some(l) => match &l.file {
                Some(f) => f.as_str(),
                None => "~/.orga/orga.log",
            },
            None => "~/.orga/orga.log",
        };
        expand_tilde(raw, home)
    }

    /// Whether debug lines are logged; off unless `[logging] debug` is set.
    pub fn debug_logging(&self) -> (r: bool)
        ensures
            r == match self.logging {
                Some(l) => match l.debug {
                    Some(d) => d,
                    None => false,
                },
                None => false,
            },
    {
        match &self.logging {
            Some(l) => match l.debug {
                Some(d) => d,
                None => false,
            },
            None => false,
        }
    }

    /// The workspace base folder, with a leading `~/` expanded to `home`.
    pub fn workspace_base_path(&self, home: &str) -> (r: Option<String>)
        ensures
            r.deep_view() == match self.workspace {
                Some(w) => Some(tilde_expanded(w.path@, home@)),
                None => None,
            },
    {
        match &self.workspace {
            Some(w) => Some(expand_tilde(w.path.as_str(), home)),
            None => None,
        }
    }
}

} // verus!
