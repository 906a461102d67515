//! The decisions of the setup wizard: what it offers first, which item a
//! chosen name stands for, and the configuration it writes.

use vstd::prelude::*;

use crate::board::status::{status_display, status_text};
use crate::config::{
    AgentConfig, AppConfig, BoardConfig, LinearConfig, LlmConfig, MemoryConfig, SkillsConfig,
    TrelloConfig, WorkspaceConfig,
};
use crate::error::{is_backend_error, is_unauthorized_error, OrgaError};
use crate::text::{push_str, str_eq, str_to_string};

verus! {

broadcast use vstd::string::group_string_axioms;

/// A Linear team the wizard offers.
pub struct LinearTeamItem {
    pub id: String,
    pub name: String,
}

/// A Trello board the wizard offers.
pub struct TrelloBoardItem {
    pub id: String,
    pub name: String,
}

/// The index of the first of the ids equal to `id`, or 0 where none is.
pub open spec fn index_or_first(ids: Seq<Seq<char>>, id: Seq<char>) -> int {
    if exists|i: int| 0 <= i < ids.len() && ids[i] == id {
        choose|i: int| 0 <= i < ids.len() && ids[i] == id && forall|j: int| 0 <= j < i ==> ids[j] != id
    } else {
        0
    }
}

proof fn lemma_index_or_first(ids: Seq<Seq<char>>, id: Seq<char>, k: int)
    requires
        0 <= k < ids.len(),
        ids[k] == id,
        forall|j: int| 0 <= j < k ==> ids[j] != id,
    ensures
        index_or_first(ids, id) == k,
{
    let c = choose|i: int| 0 <= i < ids.len() && ids[i] == id && forall|j: int| 0 <= j < i ==> ids[j] != id;
    assert(0 <= k < ids.len() && ids[k] == id && forall|j: int| 0 <= j < k ==> ids[j] != id);
    if c < k {
        assert(ids[c] != id);
    }
    if c > k {
        assert(ids[k] != id);
    }
}

/// The ids of the teams.
pub open spec fn team_ids(teams: Seq<LinearTeamItem>) -> Seq<Seq<char>> {
    Seq::new(teams.len(), |i: int| teams[i].id@)
}

/// The ids of the boards.
pub open spec fn board_ids(boards: Seq<TrelloBoardItem>) -> Seq<Seq<char>> {
    Seq::new(boards.len(), |i: int| boards[i].id@)
}

fn first_index_of(ids: &Vec<&String>, id: &str) -> (r: usize)
    ensures
        r == index_or_first(Seq::new(ids@.len(), |i: int| ids@[i]@), id@),
{
    let ghost v = Seq::new(ids@.len(), |i: int| ids@[i]@);
    let mut i: usize = 0;
    while i < ids.len()
        invariant
            i <= ids@.len(),
            v == Seq::new(ids@.len(), |i: int| ids@[i]@),
            forall|j: int| 0 <= j < i ==> v[j] != id@,
        decreases ids@.len() - i,
    {
        if str_eq(ids[i].as_str(), id) {
            proof {
                lemma_index_or_first(v, id@, i as int);
            }
            return i;
        }
        i = i + 1;
    }
    0
}

/// The team the wizard offers first: the one configured before, or the
/// first.
pub fn default_team_index(teams: &Vec<LinearTeamItem>, existing_id: &str) -> (r: usize)
    ensures
        r == index_or_first(team_ids(teams@), existing_id@),
{
    let mut ids: Vec<&String> = Vec::new();
    let mut i: usize = 0;
    while i < teams.len()
        invariant
            i <= teams@.len(),
            ids@.len() == i,
            forall|j: int| 0 <= j < i ==> (#[trigger] ids@[j])@ == teams@[j].id@,
        decreases teams@.len() - i,
    {
        ids.push(&teams[i].id);
        i = i + 1;
    }
    let r = first_index_of(&ids, existing_id);
    assert(Seq::new(ids@.len(), |k: int| ids@[k]@) =~= team_ids(teams@));
    r
}

/// The board the wizard offers first: the one configured before, or the
/// first.
pub fn default_board_index(boards: &Vec<TrelloBoardItem>, existing_id: &str) -> (r: usize)
    ensures
        r == index_or_first(board_ids(boards@), existing_id@),
{
    let mut ids: Vec<&String> = Vec::new();
    let mut i: usize = 0;
    while i < boards.len()
        invariant
            i <= boards@.len(),
            ids@.len() == i,
            forall|j: int| 0 <= j < i ==> (#[trigger] ids@[j])@ == boards@[j].id@,
        decreases boards@.len() - i,
    {
        ids.push(&boards[i].id);
        i = i + 1;
    }
    let r = first_index_of(&ids, existing_id);
    assert(Seq::new(ids@.len(), |k: int| ids@[k]@) =~= board_ids(boards@));
    r
}

/// The id of the first team with the chosen name, or the empty text.
pub fn team_id_for_name(teams: &Vec<LinearTeamItem>, name: &str) -> (r: String)
    ensures
        (exists|i: int|
            0 <= i < teams@.len() && teams@[i].name@ == name@ && r@ == teams@[i].id@ && forall|j: int|
                0 <= j < i ==> (#[trigger] teams@[j]).name@ != name@) || ((forall|j: int|
            0 <= j < teams@.len() ==> (#[trigger] teams@[j]).name@ != name@) && r@.len() == 0),
{
    let mut i: usize = 0;
    while i < teams.len()
        invariant
            i <= teams@.len(),
            forall|j: int| 0 <= j < i ==> (#[trigger] teams@[j]).name@ != name@,
        decreases teams@.len() - i,
    {
        if str_eq(teams[i].name.as_str(), name) {
            return teams[i].id.clone();
        }
        i = i + 1;
    }
    String::new()
}

/// The id of the first board with the chosen name, or the empty text.
pub fn board_id_for_name(boards: &Vec<TrelloBoardItem>, name: &str) -> (r: String)
    ensures
        (exists|i: int|
            0 <= i < boards@.len() && boards@[i].name@ == name@ && r@ == boards@[i].id@ && forall|j: int|
                0 <= j < i ==> (#[trigger] boards@[j]).name@ != name@) || ((forall|j: int|
            0 <= j < boards@.len() ==> (#[trigger] boards@[j]).name@ != name@) && r@.len() == 0),
{
    let mut i: usize = 0;
    while i < boards.len()
        invariant
            i <= boards@.len(),
            forall|j: int| 0 <= j < i ==> (#[trigger] boards@[j]).name@ != name@,
        decreases boards@.len() - i,
    {
        if str_eq(boards[i].name.as_str(), name) {
            return boards[i].id.clone();
        }
        i = i + 1;
    }
    String::new()
}

/// A secret as the wizard takes it: what was typed, or the current value
/// where nothing was typed.
pub fn secret_or_current(entered: String, current: &str) -> (r: String)
    ensures
        r@ == if entered@.len() == 0 {
            current@
        } else {
            entered@
        },
{
    if entered.as_str().is_empty() {
        str_to_string(current)
    } else {
        entered
    }
}

/// The backend the wizard offers first: the configured one where it is
/// `linear`, else `trello` (index 0 of `trello`, `linear`).
pub fn default_backend_index(existing: Option<&AppConfig>) -> (r: usize)
    ensures
        r == match existing {
            Some(c) => if c.board.backend@ == "linear"@ {
                1usize
            } else {
                0usize
            },
            None => 0usize,
        },
{
    match existing {
        Some(c) => if str_eq(c.board.backend.as_str(), "linear") {
            1
        } else {
            0
        },
        None => 0,
    }
}

/// The provider the wizard offers first: the configured one where it is
/// `openai`, else `anthropic` (index 0 of `anthropic`, `openai`).
pub fn default_provider_index(existing: Option<&AppConfig>) -> (r: usize)
    ensures
        r == match existing {
            Some(c) => match c.llm {
                Some(l) => if l.provider@ == "openai"@ {
                    1usize
                } else {
                    0usize
                },
                None => 0usize,
            },
            None => 0usize,
        },
{
    match existing {
        Some(c) => match &c.llm {
            Some(l) => if str_eq(l.provider.as_str(), "openai") {
                1
            } else {
                0
            },
            None => 0,
        },
        None => 0,
    }
}

/// The model the wizard offers: the configured one, or else the provider's
/// usual model: `gpt-4o` for `openai`, and `anthropic_default` for the
/// other provider.
pub fn default_model(existing: Option<&AppConfig>, provider: &str, anthropic_default: &str) -> (r: String)
    ensures
        r@ == match existing {
            Some(c) => match c.llm {
                Some(l) => l.model@,
                None => if provider@ == "openai"@ {
                    "gpt-4o"@
                } else {
                    anthropic_default@
                },
            },
            None => if provider@ == "openai"@ {
                "gpt-4o"@
            } else {
                anthropic_default@
            },
        },
{
    match existing {
        Some(c) => match &c.llm {
            Some(l) => {
                return l.model.clone();
            },
            None => {},
        },
        None => {},
    }
    if str_eq(provider, "openai") {
        str_to_string("gpt-4o")
    } else {
        str_to_string(anthropic_default)
    }
}

/// A configuration with nothing but the agent's name and the board backend.
pub open spec fn bare_config(c: AppConfig) -> bool {
    c.trello is None && c.linear is None && c.memory is None && c.logging is None && c.llm is None
        && c.metrics is None && c.comment_compaction_threshold is None && c.skills is None
        && c.workspace is None && c.subagents@.len() == 0
}

fn bare(name: String, backend: &str) -> (r: AppConfig)
    ensures
        r.agent.name@ == name@,
        r.board.backend@ == backend@,
        bare_config(r),
{
    AppConfig {
        agent: AgentConfig { name },
        board: BoardConfig { backend: str_to_string(backend) },
        trello: None,
        linear: None,
        memory: None,
        logging: None,
        llm: None,
        metrics: None,
        comment_compaction_threshold: None,
        skills: None,
        workspace: None,
        subagents: Vec::new(),
    }
}

/// The configuration the Trello setup writes: the one there was (or a bare
/// one), with the agent's name, the Trello backend and credentials, and no
/// Linear section.
pub fn with_trello_settings(
    existing: Option<AppConfig>,
    agent_name: String,
    api_key: String,
    token: String,
    member_id: String,
    board_id: String,
) -> (r: AppConfig)
    ensures
        r.agent.name@ == agent_name@,
        r.board.backend@ == "trello"@,
        r.trello matches Some(t) && t.api_key@ == api_key@ && t.token@ == token@ && t.member_id@
            == member_id@ && t.board_id@ == board_id@,
        r.linear is None,
        match existing {
            Some(c) => r.memory == c.memory && r.logging == c.logging && r.llm == c.llm && r.metrics
                == c.metrics && r.comment_compaction_threshold == c.comment_compaction_threshold
                && r.skills == c.skills && r.workspace == c.workspace && r.subagents == c.subagents,
            None => r.memory is None && r.logging is None && r.llm is None && r.metrics is None
                && r.comment_compaction_threshold is None && r.skills is None && r.workspace is None
                && r.subagents@.len() == 0,
        },
{
    let mut config = match existing {
        Some(c) => c,
        None => bare(str_to_string(agent_name.as_str()), "trello"),
    };
    config.agent.name = agent_name;
    config.board.backend = str_to_string("trello");
    config.trello = Some(TrelloConfig { api_key, token, member_id, board_id });
    config.linear = None;
    config
}

/// The configuration the Linear setup writes: the one there was (or a bare
/// one), with the agent's name, the Linear backend and credentials, and no
/// Trello section.
pub fn with_linear_settings(
    existing: Option<AppConfig>,
    agent_name: String,
    api_key: String,
    team_id: String,
) -> (r: AppConfig)
    ensures
        r.agent.name@ == agent_name@,
        r.board.backend@ == "linear"@,
        r.linear matches Some(l) && l.api_key@ == api_key@ && l.team_id@ == team_id@,
        r.trello is None,
        match existing {
            Some(c) => r.memory == c.memory && r.logging == c.logging && r.llm == c.llm && r.metrics
                == c.metrics && r.comment_compaction_threshold == c.comment_compaction_threshold
                && r.skills == c.skills && r.workspace == c.workspace && r.subagents == c.subagents,
            None => r.memory is None && r.logging is None && r.llm is None && r.metrics is None
                && r.comment_compaction_threshold is None && r.skills is None && r.workspace is None
                && r.subagents@.len() == 0,
        },
{
    let mut config = match existing {
        Some(c) => c,
        None => bare(str_to_string(agent_name.as_str()), "linear"),
    };
    config.agent.name = agent_name;
    config.board.backend = str_to_string("linear");
    config.linear = Some(LinearConfig { api_key, team_id });
    config.trello = None;
    config
}

/// The configuration the LLM setup writes: the one there was (or a bare
/// one for the agent without a name on Trello), with the provider, key and
/// model (keeping the endpoint and limits there were), and with the memory,
/// workspace and skills paths that were typed; an empty path keeps what was
/// there.
pub fn with_agent_settings(
    existing: Option<AppConfig>,
    provider: &str,
    api_key: String,
    model: String,
    memory_path: String,
    workspace_path: String,
    skills_path: String,
) -> (r: AppConfig)
    ensures
        r.llm matches Some(l) && l.provider@ == provider@ && l.api_key@ == api_key@ && l.model@
            == model@ && match existing {
            Some(c) => match c.llm {
                Some(old) => l.endpoint == old.endpoint && l.poll_interval_secs
                    == old.poll_interval_secs && l.max_actions_per_ticket
                    == old.max_actions_per_ticket,
                None => l.endpoint is None && l.poll_interval_secs is None
                    && l.max_actions_per_ticket is None,
            },
            None => l.endpoint is None && l.poll_interval_secs is None && l.max_actions_per_ticket
                is None,
        },
        memory_path@.len() > 0 ==> (r.memory matches Some(m) && m.path.deep_view() == Some(
            memory_path@,
        ) && m.defrag_file_threshold is None && m.defrag_size_threshold_kb is None),
        memory_path@.len() == 0 ==> r.memory == match existing {
            Some(c) => c.memory,
            None => None,
        },
        workspace_path@.len() > 0 ==> (r.workspace matches Some(w) && w.path@ == workspace_path@),
        workspace_path@.len() == 0 ==> r.workspace == match existing {
            Some(c) => c.workspace,
            None => None,
        },
        skills_path@.len() > 0 ==> (r.skills matches Some(s) && s.path@ == skills_path@),
        skills_path@.len() == 0 ==> r.skills == match existing {
            Some(c) => c.skills,
            None => None,
        },
        match existing {
            Some(c) => r.agent == c.agent && r.board == c.board && r.trello == c.trello && r.linear
                == c.linear && r.logging == c.logging && r.metrics == c.metrics
                && r.comment_compaction_threshold == c.comment_compaction_threshold && r.subagents
                == c.subagents,
            None => r.agent.name@.len() == 0 && r.board.backend@ == "trello"@ && r.trello is None
                && r.linear is None && r.logging is None && r.metrics is None
                && r.comment_compaction_threshold is None && r.subagents@.len() == 0,
        },
{
    let mut config = match existing {
        Some(c) => c,
        None => bare(String::new(), "trello"),
    };
    let (endpoint, poll, max_actions) = match &config.llm {
        Some(l) => (l.endpoint.clone(), l.poll_interval_secs, l.max_actions_per_ticket),
        None => (None, None, None),
    };
    config.llm = Some(
        LlmConfig {
            provider: str_to_string(provider),
            api_key,
            model,
            endpoint,
            poll_interval_secs: poll,
            max_actions_per_ticket: max_actions,
        },
    );
    if !memory_path.as_str().is_empty() {
        config.memory = Some(
            MemoryConfig {
                path: Some(memory_path),
                defrag_file_threshold: None,
                defrag_size_threshold_kb: None,
            },
        );
    }
    if !workspace_path.as_str().is_empty() {
        config.workspace = Some(WorkspaceConfig { path: workspace_path });
    }
    if !skills_path.as_str().is_empty() {
        config.skills = Some(SkillsConfig { path: skills_path });
    }
    config
}

/// What the status of a Trello answer to the wizard means: bad credentials,
/// another client or server error, or success.
pub fn trello_setup_status(status: u16) -> (r: Result<(), OrgaError>)
    requires
        100 <= status <= 999,
    ensures
        match r {
            Ok(()) => !(400 <= status <= 599),
            Err(e) => 400 <= status <= 599 && if status == 401 {
                is_unauthorized_error(e, "invalid Trello API key or token"@)
            } else {
                is_backend_error(e, "Trello returned HTTP "@ + status_display(status))
            },
        },
{
    if status == 401 {
        Err(OrgaError::Unauthorized(str_to_string("invalid Trello API key or token")))
    } else if 400 <= status && status <= 599 {
        let mut m = String::new();
        push_str(&mut m, "Trello returned HTTP ");
        let st = status_text(status);
        push_str(&mut m, st.as_str());
        Err(OrgaError::BackendError(m))
    } else {
        Ok(())
    }
}

} // verus!
