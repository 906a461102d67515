//! What the board backends send: the Trello REST addresses, the Linear
//! GraphQL documents, the text of an outbound comment, and the choices the
//! backends make among what the APIs answer.

use vstd::prelude::*;

use crate::board::agent_tag::{append_agent_tag, tagged};
use crate::board::common::check_comment_text;
use crate::board::trello::{TrelloCard, TrelloChecklist};
use crate::error::{is_backend_error, OrgaError};
use crate::text::{push_str, str_eq, str_to_string};

verus! {

broadcast use vstd::string::group_string_axioms;

/// A Trello REST address: the API root followed by `path`.
pub open spec fn trello_api(path: Seq<char>) -> Seq<char> {
    "https://api.trello.com/1/"@ + path
}

fn trello_address(a: &str, b: &str, c: &str) -> (r: String)
    ensures
        r@ == trello_api(a@ + b@ + c@),
{
    let mut s = String::new();
    push_str(&mut s, "https://api.trello.com/1/");
    push_str(&mut s, a);
    push_str(&mut s, b);
    push_str(&mut s, c);
    proof {
        assert(s@ =~= trello_api(a@ + b@ + c@));
    }
    s
}

/// The address of a list.
pub fn trello_list_url(list_id: &str) -> (r: String)
    ensures
        r@ == trello_api("lists/"@ + list_id@),
{
    let r = trello_address("lists/", list_id, "");
    proof {
        assert(""@ =~= Seq::<char>::empty()) by {
            reveal_strlit("");
        }
        assert("lists/"@ + list_id@ + ""@ =~= "lists/"@ + list_id@);
    }
    r
}

/// The address of the lists of a board.
pub fn trello_board_lists_url(board_id: &str) -> (r: String)
    ensures
        r@ == trello_api("boards/"@ + board_id@ + "/lists"@),
{
    trello_address("boards/", board_id, "/lists")
}

/// The address of the cards of a member.
pub fn trello_member_cards_url(member_id: &str) -> (r: String)
    ensures
        r@ == trello_api("members/"@ + member_id@ + "/cards"@),
{
    trello_address("members/", member_id, "/cards")
}

/// The address of a member, by id or by username.
pub fn trello_member_url(member: &str) -> (r: String)
    ensures
        r@ == trello_api("members/"@ + member@),
{
    let r = trello_address("members/", member, "");
    proof {
        assert(""@ =~= Seq::<char>::empty()) by {
            reveal_strlit("");
        }
        assert("members/"@ + member@ + ""@ =~= "members/"@ + member@);
    }
    r
}

/// The address of a card.
pub fn trello_card_url(card_id: &str) -> (r: String)
    ensures
        r@ == trello_api("cards/"@ + card_id@),
{
    let r = trello_address("cards/", card_id, "");
    proof {
        assert(""@ =~= Seq::<char>::empty()) by {
            reveal_strlit("");
        }
        assert("cards/"@ + card_id@ + ""@ =~= "cards/"@ + card_id@);
    }
    r
}

/// The address that new cards are posted to.
pub fn trello_cards_url() -> (r: String)
    ensures
        r@ == trello_api("cards"@),
{
    let r = trello_address("cards", "", "");
    proof {
        assert(""@ =~= Seq::<char>::empty()) by {
            reveal_strlit("");
        }
        assert("cards"@ + ""@ + ""@ =~= "cards"@);
    }
    r
}

/// The address of the comments of a card.
pub fn trello_card_comments_url(card_id: &str) -> (r: String)
    ensures
        r@ == trello_api("cards/"@ + card_id@ + "/actions/comments"@),
{
    trello_address("cards/", card_id, "/actions/comments")
}

/// The address of the members of a card.
pub fn trello_card_members_url(card_id: &str) -> (r: String)
    ensures
        r@ == trello_api("cards/"@ + card_id@ + "/idMembers"@),
{
    trello_address("cards/", card_id, "/idMembers")
}

/// The address of the checklists of a card.
pub fn trello_card_checklists_url(card_id: &str) -> (r: String)
    ensures
        r@ == trello_api("cards/"@ + card_id@ + "/checklists"@),
{
    trello_address("cards/", card_id, "/checklists")
}

/// The address that new checklists are posted to.
pub fn trello_checklists_url() -> (r: String)
    ensures
        r@ == trello_api("checklists"@),
{
    let r = trello_address("checklists", "", "");
    proof {
        assert(""@ =~= Seq::<char>::empty()) by {
            reveal_strlit("");
        }
        assert("checklists"@ + ""@ + ""@ =~= "checklists"@);
    }
    r
}

/// The address of the items of a checklist.
pub fn trello_check_items_url(checklist_id: &str) -> (r: String)
    ensures
        r@ == trello_api("checklists/"@ + checklist_id@ + "/checkItems"@),
{
    trello_address("checklists/", checklist_id, "/checkItems")
}

/// The cards from index `k` on that are on the board `board_id`, in order.
pub open spec fn on_board_from(cards: Seq<TrelloCard>, board_id: Seq<char>, k: int) -> Seq<TrelloCard>
    decreases cards.len() - k,
{
    if k < 0 || k >= cards.len() {
        seq![]
    } else if cards[k].id_board@ == board_id {
        seq![cards[k]] + on_board_from(cards, board_id, k + 1)
    } else {
        on_board_from(cards, board_id, k + 1)
    }
}

/// The cards that are on the board `board_id`, in order.
pub fn cards_on_board(cards: Vec<TrelloCard>, board_id: &str) -> (r: Vec<TrelloCard>)
    ensures
        r@ == on_board_from(cards@, board_id@, 0),
{
    let ghost all = cards@;
    let mut rest = cards;
    let mut out: Vec<TrelloCard> = Vec::new();
    let n = rest.len();
    let mut k: usize = 0;
    while k < n
        invariant
            k <= n == all.len(),
            rest@ == all.subrange(k as int, n as int),
            out@ + on_board_from(all, board_id@, k as int) == on_board_from(all, board_id@, 0),
        decreases n - k,
    {
        let ghost before = out@;
        let c = rest.remove(0);
        assert(c == all[k as int]);
        if str_eq(c.id_board.as_str(), board_id) {
            out.push(c);
            assert(out@ + on_board_from(all, board_id@, k + 1) =~= before + on_board_from(
                all,
                board_id@,
                k as int,
            ));
        }
        k = k + 1;
        assert(rest@ =~= all.subrange(k as int, n as int));
    }
    assert(out@ =~= out@ + on_board_from(all, board_id@, k as int));
    out
}

/// The id of the first checklist named `name`, where there is one.
pub fn checklist_named(lists: &Vec<TrelloChecklist>, name: &str) -> (r: Option<String>)
    ensures
        match r {
            Some(id) => exists|i: int|
                0 <= i < lists@.len() && lists@[i].name@ == name@ && id@ == lists@[i].id@
                    && forall|j: int| 0 <= j < i ==> (#[trigger] lists@[j]).name@ != name@,
            None => forall|j: int| 0 <= j < lists@.len() ==> (#[trigger] lists@[j]).name@ != name@,
        },
{
    let mut i: usize = 0;
    while i < lists.len()
        invariant
            i <= lists@.len(),
            forall|j: int| 0 <= j < i ==> (#[trigger] lists@[j]).name@ != name@,
        decreases lists@.len() - i,
    {
        if str_eq(lists[i].name.as_str(), name) {
            return Some(lists[i].id.clone());
        }
        i = i + 1;
    }
    None
}

/// The checklist item that links a sub-card to its parent: its title and
/// its address, or its id where the answer gave no address.
pub fn sub_item_text(title: &str, url: Option<&str>, card_id: &str) -> (r: String)
    ensures
        r@ == title@ + " - "@ + match url {
            Some(u) => u@,
            None => card_id@,
        },
{
    let mut s = String::new();
    push_str(&mut s, title);
    push_str(&mut s, " - ");
    match url {
        Some(u) => push_str(&mut s, u),
        None => push_str(&mut s, card_id),
    }
    s
}

/// The text posted for a comment: refused where it is empty, else with the
/// agent's tag appended.
pub fn comment_body(text: &str, agent_name: &str) -> (r: Result<String, OrgaError>)
    ensures
        match r {
            Ok(body) => text@.len() > 0 && body@ == tagged(text@, agent_name@),
            Err(e) => text@.len() == 0 && is_backend_error(e, "comment text cannot be empty"@),
        },
{
    match check_comment_text(text) {
        Ok(()) => Ok(append_agent_tag(text, agent_name)),
        Err(e) => Err(e),
    }
}

/// The GraphQL query for the signed-in Linear user.
pub fn viewer_query() -> (r: &'static str)
    ensures
        r@ == "query { viewer { id displayName } }"@,
{
    "query { viewer { id displayName } }"
}

/// The GraphQL query for the users with a display name (`$name`).
pub open spec fn users_query_text() -> Seq<char> {
    "query($name: String!) {\n                users(filter: { displayName: { eq: $name } }) {\n                    nodes { id displayName }\n                }\n            }"@
}

/// The GraphQL query for the users with a display name (see
/// `users_query_text`).
pub fn users_query() -> (r: &'static str)
    ensures
        r@ == users_query_text(),
{
    "query($name: String!) {\n                users(filter: { displayName: { eq: $name } }) {\n                    nodes { id displayName }\n                }\n            }"
}

fn concat3(a: &str, b: &str, c: &str) -> (r: String)
    ensures
        r@ == a@ + b@ + c@,
{
    let mut s = String::new();
    push_str(&mut s, a);
    push_str(&mut s, b);
    push_str(&mut s, c);
    s
}

/// The GraphQL query for the workflow states of a team.
pub fn team_states_query(team_id: &str) -> (r: String)
    ensures
        r@ == "{ team(id: \""@ + team_id@ + "\") { states { nodes { id name type } } } }"@,
{
    concat3("{ team(id: \"", team_id, "\") { states { nodes { id name type } } } }")
}

/// The GraphQL query for the issues of a team assigned to a user.
pub fn assigned_issues_query(team_id: &str, viewer_id: &str) -> (r: String)
    ensures
        r@ == "{ issues(filter: { team: { id: { eq: \""@ + team_id@
            + "\" } } assignee: { id: { eq: \""@ + viewer_id@
            + "\" } } }) { nodes { id title description url state { id name type } creator { id displayName } comments { nodes { id body createdAt } } labels { nodes { name } } } } }"@,
{
    let mut s = concat3("{ issues(filter: { team: { id: { eq: \"", team_id, "\" } } assignee: { id: { eq: \"");
    push_str(&mut s, viewer_id);
    push_str(
        &mut s,
        "\" } } }) { nodes { id title description url state { id name type } creator { id displayName } comments { nodes { id body createdAt } } labels { nodes { name } } } } }",
    );
    s
}

/// The GraphQL query for an issue with everything a ticket shows.
pub fn issue_query(id: &str) -> (r: String)
    ensures
        r@ == "{ issue(id: \""@ + id@
            + "\") { id title description url state { id name type } creator { id displayName } assignee { id displayName } comments { nodes { id body createdAt user { id displayName } } } children { nodes { id title url state { id name type } } } labels { nodes { name } } } }"@,
{
    concat3(
        "{ issue(id: \"",
        id,
        "\") { id title description url state { id name type } creator { id displayName } assignee { id displayName } comments { nodes { id body createdAt user { id displayName } } } children { nodes { id title url state { id name type } } } labels { nodes { name } } } }",
    )
}

/// The GraphQL mutation that comments on an issue; the text is `$body`.
pub fn comment_mutation(id: &str) -> (r: String)
    ensures
        r@ == "mutation($body: String!) { commentCreate(input: { issueId: \""@ + id@
            + "\", body: $body }) { success } }"@,
{
    concat3(
        "mutation($body: String!) { commentCreate(input: { issueId: \"",
        id,
        "\", body: $body }) { success } }",
    )
}

/// The GraphQL mutation that assigns an issue to a user.
pub fn assign_mutation(id: &str, user_id: &str) -> (r: String)
    ensures
        r@ == "mutation { issueUpdate(id: \""@ + id@ + "\", input: { assigneeId: \""@ + user_id@
            + "\" }) { success } }"@,
{
    let mut s = concat3("mutation { issueUpdate(id: \"", id, "\", input: { assigneeId: \"");
    push_str(&mut s, user_id);
    push_str(&mut s, "\" }) { success } }");
    s
}

/// The GraphQL mutation that creates a sub-issue in a state; the title is
/// `$title`, and the description `$description` where there is one.
pub open spec fn create_issue_text(team_id: Seq<char>, parent_id: Seq<char>, state_id: Seq<char>, with_description: bool) -> Seq<char> {
    "mutation($title: String!"@ + (if with_description {
        ", $description: String"@
    } else {
        Seq::empty()
    }) + ") { issueCreate(input: { teamId: \""@ + team_id + "\", parentId: \""@ + parent_id
        + "\", stateId: \""@ + state_id + "\", title: $title"@ + (if with_description {
        ", description: $description"@
    } else {
        Seq::empty()
    }) + " }) { issue { id } } }"@
}

/// The GraphQL mutation that creates a sub-issue (see `create_issue_text`).
pub fn create_issue_mutation(team_id: &str, parent_id: &str, state_id: &str, with_description: bool) -> (r: String)
    ensures
        r@ == create_issue_text(team_id@, parent_id@, state_id@, with_description),
{
    let mut s = String::new();
    push_str(&mut s, "mutation($title: String!");
    if with_description {
        push_str(&mut s, ", $description: String");
    }
    push_str(&mut s, ") { issueCreate(input: { teamId: \"");
    push_str(&mut s, team_id);
    push_str(&mut s, "\", parentId: \"");
    push_str(&mut s, parent_id);
    push_str(&mut s, "\", stateId: \"");
    push_str(&mut s, state_id);
    push_str(&mut s, "\", title: $title");
    if with_description {
        push_str(&mut s, ", description: $description");
    }
    push_str(&mut s, " }) { issue { id } } }");
    proof {
        assert(s@ =~= create_issue_text(team_id@, parent_id@, state_id@, with_description));
    }
    s
}

} // verus!
