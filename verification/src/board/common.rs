//! What the board backends share: which backend a configuration picks, and
//! the checks and lookups around their calls.

use vstd::prelude::*;

use crate::board::linear::LinearState;
use crate::config::{AppConfig, LinearConfig, TrelloConfig};
use crate::error::{is_backend_error, is_not_found_error, OrgaError};
use crate::models::{Column, Member, Ticket};
use crate::text::{
    eq_ignore_ascii_case, push_str, same_ignoring_ascii_case, str_to_string, trim_front, trim_chars,
    chars_of, string_of, TrimSet,
};
use crate::config::is_config_error;

verus! {

broadcast use vstd::string::group_string_axioms;

/// The board a configuration names, with its settings.
pub enum BoardChoice {
    Trello(TrelloConfig),
    Linear(LinearConfig),
}

/// The board a configuration names: `trello` and `linear` need their
/// section; any other backend is refused.
pub fn board_choice(config: &AppConfig) -> (r: Result<BoardChoice, OrgaError>)
    ensures
        config.board.backend@ == "trello"@ ==> match config.trello {
            Some(t) => r matches Ok(BoardChoice::Trello(x)) && x == t,
            None => r matches Err(e) && is_config_error(e, "[trello] section missing"@),
        },
        config.board.backend@ == "linear"@ ==> match config.linear {
            Some(l) => r matches Ok(BoardChoice::Linear(x)) && x == l,
            None => r matches Err(e) && is_config_error(e, "[linear] section missing"@),
        },
        config.board.backend@ != "trello"@ && config.board.backend@ != "linear"@ ==> (r matches Err(e)
            && is_config_error(e, "unsupported backend '"@ + config.board.backend@ + "'"@)),
{
    proof {
        reveal_strlit("trello");
        reveal_strlit("linear");
        assert("linear"@[0] != "trello"@[0]);
    }
    let backend = config.board.backend.as_str();
    if crate::text::str_eq(backend, "trello") {
        match &config.trello {
            Some(t) => Ok(
                BoardChoice::Trello(
                    TrelloConfig {
                        api_key: t.api_key.clone(),
                        token: t.token.clone(),
                        member_id: t.member_id.clone(),
                        board_id: t.board_id.clone(),
                    },
                ),
            ),
            None => Err(OrgaError::ConfigError(str_to_string("[trello] section missing"))),
        }
    } else if crate::text::str_eq(backend, "linear") {
        match &config.linear {
            Some(l) => Ok(
                BoardChoice::Linear(LinearConfig { api_key: l.api_key.clone(), team_id: l.team_id.clone() }),
            ),
            None => Err(OrgaError::ConfigError(str_to_string("[linear] section missing"))),
        }
    } else {
        let mut m = String::new();
        push_str(&mut m, "unsupported backend '");
        push_str(&mut m, backend);
        push_str(&mut m, "'");
        Err(OrgaError::ConfigError(m))
    }
}

/// A comment must have text.
pub fn check_comment_text(text: &str) -> (r: Result<(), OrgaError>)
    ensures
        match r {
            Ok(()) => text@.len() > 0,
            Err(e) => text@.len() == 0 && is_backend_error(e, "comment text cannot be empty"@),
        },
{
    if text.is_empty() {
        Err(OrgaError::BackendError(str_to_string("comment text cannot be empty")))
    } else {
        Ok(())
    }
}

/// The column a name stands for, comparing without ASCII case: the id of
/// the first such column, or an error naming the list.
pub fn column_id_for_name(columns: &Vec<Column>, list_name: &str) -> (r: Result<String, OrgaError>)
    ensures
        match r {
            Ok(id) => exists|i: int|
                0 <= i < columns@.len() && same_ignoring_ascii_case(columns@[i].name@, list_name@)
                    && id@ == columns@[i].id@ && forall|j: int|
                    0 <= j < i ==> !same_ignoring_ascii_case((#[trigger] columns@[j]).name@, list_name@),
            Err(e) => (forall|j: int|
                0 <= j < columns@.len() ==> !same_ignoring_ascii_case(
                    (#[trigger] columns@[j]).name@,
                    list_name@,
                )) && is_not_found_error(e, "list '"@ + list_name@ + "'"@),
        },
{
    let mut i: usize = 0;
    while i < columns.len()
        invariant
            i <= columns@.len(),
            forall|j: int|
                0 <= j < i ==> !same_ignoring_ascii_case((#[trigger] columns@[j]).name@, list_name@),
        decreases columns@.len() - i,
    {
        if eq_ignore_ascii_case(columns[i].name.as_str(), list_name) {
            return Ok(columns[i].id.clone());
        }
        i = i + 1;
    }
    let mut m = String::new();
    push_str(&mut m, "list '");
    push_str(&mut m, list_name);
    push_str(&mut m, "'");
    Err(OrgaError::NotFound(m))
}

/// The columns of a Linear team: its workflow states.
pub fn columns_of_states(states: &Vec<LinearState>) -> (r: Vec<Column>)
    ensures
        r@.len() == states@.len(),
        forall|i: int|
            0 <= i < r@.len() ==> (#[trigger] r@[i]).id@ == states@[i].id@ && r@[i].name@
                == states@[i].name@,
{
    let mut out: Vec<Column> = Vec::new();
    let mut i: usize = 0;
    while i < states.len()
        invariant
            i <= states@.len(),
            out@.len() == i,
            forall|k: int|
                0 <= k < i ==> (#[trigger] out@[k]).id@ == states@[k].id@ && out@[k].name@
                    == states@[k].name@,
        decreases states@.len() - i,
    {
        out.push(Column { id: states[i].id.clone(), name: states[i].name.clone() });
        i = i + 1;
    }
    out
}

/// The person a ticket goes back to: its creator, who must be known.
pub fn return_target(ticket: &Ticket) -> (r: Result<&Member, OrgaError>)
    ensures
        match ticket.summary.creator {
            Some(c) => r == Ok::<&Member, OrgaError>(&c),
            None => r matches Err(e) && is_backend_error(e, "ticket has no known creator"@),
        },
{
    match &ticket.summary.creator {
        Some(c) => Ok(c),
        None => Err(OrgaError::BackendError(str_to_string("ticket has no known creator"))),
    }
}

/// A username without the `@` signs in front of it.
pub fn bare_username(username: &str) -> (r: String)
    ensures
        r@ == trim_front(username@, TrimSet::Char('@')),
{
    let cs = chars_of(username);
    let mut i: usize = 0;
    let n = cs.len();
    assert(cs@.subrange(0, n as int) =~= cs@);
    while i < n && cs[i] == '@'
        invariant
            i <= n == cs@.len(),
            trim_front(cs@, TrimSet::Char('@')) == trim_front(cs@.subrange(i as int, n as int), TrimSet::Char('@')),
        decreases n - i,
    {
        assert(cs@.subrange(i as int, n as int).drop_first() =~= cs@.subrange(i + 1, n as int));
        i = i + 1;
    }
    let mut out: Vec<char> = Vec::new();
    let mut k: usize = i;
    while k < n
        invariant
            i <= k <= n == cs@.len(),
            out@ == cs@.subrange(i as int, k as int),
        decreases n - k,
    {
        out.push(cs[k]);
        k = k + 1;
        assert(out@ =~= cs@.subrange(i as int, k as int));
    }
    string_of(out.as_slice())
}

} // verus!
