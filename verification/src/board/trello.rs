//! Trello: the shapes of its API answers, how they become tickets, and what
//! its HTTP statuses mean.

use vstd::prelude::*;

use crate::board::agent_tag::{parse_agent_tag, untagged};
use crate::board::status::{status_display, status_text};
use crate::error::{is_backend_error, is_not_found_error, is_unauthorized_error, OrgaError};
use crate::models::{
    comment_view, comment_views, instant_of, member_view, member_views, opt_member_view,
    parse_rfc3339, sort_comments_by_time, stably_sorted, summary_view, Comment, CommentView,
    Member, SummaryView, Ticket, TicketSummary,
};
use crate::order::{
    lemma_lex_le_antisymmetric, lemma_lex_le_reflexive, lemma_lex_le_total, lemma_lex_le_transitive, lex_le,
    str_le,
};
use crate::text::{push_str, str_eq, str_to_string, views_of};

verus! {

broadcast use vstd::string::group_string_axioms;

/// A list (column) of a board.
pub struct TrelloList {
    pub id: String,
    pub name: String,
}

/// A card label.
pub struct TrelloLabel {
    pub name: String,
}

/// An item of a checklist.
pub struct TrelloCheckItem {
    pub id: String,
    pub name: String,
    pub state: String,
}

/// A checklist of a card.
pub struct TrelloChecklist {
    pub id: String,
    pub name: String,
    pub check_items: Vec<TrelloCheckItem>,
}

/// A Trello member.
pub struct TrelloMember {
    pub id: String,
    pub username: String,
    pub full_name: String,
}

/// The data of an action; a comment's text.
pub struct TrelloActionData {
    pub text: Option<String>,
}

/// An action on a card, such as `createCard` or `commentCard`.
pub struct TrelloAction {
    pub id: String,
    pub action_type: String,
    pub date: String,
    pub data: Option<TrelloActionData>,
    pub member_creator: Option<TrelloMember>,
}

/// A card.
pub struct TrelloCard {
    pub id: String,
    pub name: String,
    pub desc: Option<String>,
    pub id_list: String,
    pub id_board: String,
    pub url: String,
    pub closed: bool,
    pub checklists: Option<Vec<TrelloChecklist>>,
    pub members: Option<Vec<TrelloMember>>,
    pub actions: Option<Vec<TrelloAction>>,
    pub labels: Option<Vec<TrelloLabel>>,
}

/// A Trello member as a member.
pub open spec fn trello_member(m: TrelloMember) -> (Seq<char>, Seq<char>, Seq<char>) {
    (m.id@, m.username@, m.full_name@)
}

fn member_of(m: &TrelloMember) -> (r: Member)
    ensures
        member_view(r) == trello_member(*m),
{
    Member { id: m.id.clone(), username: m.username.clone(), full_name: m.full_name.clone() }
}

/// The actions of a card; none where the card has none.
pub open spec fn actions_of(card: TrelloCard) -> Seq<TrelloAction> {
    match card.actions {
        Some(a) => a@,
        None => seq![],
    }
}

/// The creator of the card: the member who made the first `createCard`
/// action, where there is one.
pub open spec fn creator_from(actions: Seq<TrelloAction>, k: int) -> Option<(Seq<char>, Seq<char>, Seq<char>)>
    decreases actions.len() - k,
{
    if k < 0 || k >= actions.len() {
        None
    } else if actions[k].action_type@ == "createCard"@ {
        match actions[k].member_creator {
            Some(m) => Some(trello_member(m)),
            None => None,
        }
    } else {
        creator_from(actions, k + 1)
    }
}

fn creator_exec(actions: &Vec<TrelloAction>) -> (r: Option<Member>)
    ensures
        opt_member_view(r) == creator_from(actions@, 0),
{
    let mut k: usize = 0;
    while k < actions.len()
        invariant
            k <= actions@.len(),
            creator_from(actions@, 0) == creator_from(actions@, k as int),
        decreases actions@.len() - k,
    {
        if str_eq(actions[k].action_type.as_str(), "createCard") {
            return match &actions[k].member_creator {
                Some(m) => Some(member_of(m)),
                None => None,
            };
        }
        k = k + 1;
    }
    None
}

/// The index of the comment action with the greatest date text among those
/// from index `j` on, the later index winning among equal dates, given the
/// best so far.
pub open spec fn latest_comment_from(actions: Seq<TrelloAction>, j: int, best: Option<int>) -> Option<int>
    decreases actions.len() - j,
{
    if j < 0 || j >= actions.len() {
        best
    } else if actions[j].action_type@ == "commentCard"@ {
        match best {
            Some(b) => if lex_le(actions[b].date@, actions[j].date@) {
                latest_comment_from(actions, j + 1, Some(j))
            } else {
                latest_comment_from(actions, j + 1, best)
            },
            None => latest_comment_from(actions, j + 1, Some(j)),
        }
    } else {
        latest_comment_from(actions, j + 1, best)
    }
}

/// The latest comment action (by its date text) has a text with an agent tag.
pub open spec fn latest_comment_is_agent(actions: Seq<TrelloAction>) -> bool {
    match latest_comment_from(actions, 0, None) {
        Some(i) => match actions[i].data {
            Some(d) => match d.text {
                Some(t) => untagged(t@).1 is Some,
                None => false,
            },
            None => false,
        },
        None => false,
    }
}

/// The action is a comment.
pub open spec fn is_comment(a: TrelloAction) -> bool {
    a.action_type@ == "commentCard"@
}

/// The action's text carries an agent tag.
pub open spec fn carries_agent_tag(a: TrelloAction) -> bool {
    match a.data {
        Some(d) => match d.text {
            Some(t) => untagged(t@).1 is Some,
            None => false,
        },
        None => false,
    }
}

/// Action `b` is a comment whose date is the greatest among the comments of
/// `actions`, and no later comment in the list has the same date.
pub open spec fn is_latest_comment(actions: Seq<TrelloAction>, b: int) -> bool {
    &&& 0 <= b < actions.len()
    &&& is_comment(actions[b])
    &&& forall|k: int|
        0 <= k < actions.len() && is_comment(#[trigger] actions[k]) ==> lex_le(actions[k].date@, actions[b].date@)
    &&& forall|k: int|
        b < k < actions.len() && is_comment(#[trigger] actions[k]) ==> actions[k].date@ != actions[b].date@
}

/// `best` is the latest comment among the first `n` actions, or `None` where
/// there is none.
spec fn latest_among(actions: Seq<TrelloAction>, n: int, best: Option<int>) -> bool {
    match best {
        None => forall|k: int| 0 <= k < n ==> !is_comment(#[trigger] actions[k]),
        Some(b) => {
            &&& 0 <= b < n
            &&& is_comment(actions[b])
            &&& forall|k: int|
                0 <= k < n && is_comment(#[trigger] actions[k]) ==> lex_le(actions[k].date@, actions[b].date@)
            &&& forall|k: int|
                b < k < n && is_comment(#[trigger] actions[k]) ==> actions[k].date@ != actions[b].date@
        },
    }
}

proof fn lemma_latest_comment_from(actions: Seq<TrelloAction>, j: int, best: Option<int>)
    requires
        0 <= j <= actions.len(),
        latest_among(actions, j, best),
    ensures
        latest_among(actions, actions.len() as int, latest_comment_from(actions, j, best)),
    decreases actions.len() - j,
{
    if j < actions.len() {
        if is_comment(actions[j]) {
            match best {
                Some(b) => {
                    if lex_le(actions[b].date@, actions[j].date@) {
                        lemma_lex_le_reflexive(actions[j].date@);
                        assert forall|k: int| 0 <= k < j + 1 && is_comment(#[trigger] actions[k]) implies lex_le(
                            actions[k].date@,
                            actions[j].date@,
                        ) by {
                            if k < j {
                                lemma_lex_le_transitive(actions[k].date@, actions[b].date@, actions[j].date@);
                            }
                        }
                        lemma_latest_comment_from(actions, j + 1, Some(j));
                    } else {
                        lemma_lex_le_total(actions[b].date@, actions[j].date@);
                        if actions[j].date@ == actions[b].date@ {
                            lemma_lex_le_reflexive(actions[b].date@);
                        }
                        lemma_latest_comment_from(actions, j + 1, best);
                    }
                },
                None => {
                    lemma_lex_le_reflexive(actions[j].date@);
                    lemma_latest_comment_from(actions, j + 1, Some(j));
                },
            }
        } else {
            lemma_latest_comment_from(actions, j + 1, best);
        }
    }
}

/// Law of the last commenter: a card's latest comment is the agent's exactly
/// where some comment has the greatest date among the card's comments (the
/// later one in the list among comments of that date) and carries an agent
/// tag; so it does not depend on the order of the actions where the comments'
/// dates differ, and it is false on a card without comments.
pub proof fn lemma_latest_comment_is_agent(actions: Seq<TrelloAction>)
    ensures
        latest_comment_is_agent(actions) <==> exists|b: int|
            is_latest_comment(actions, b) && carries_agent_tag(#[trigger] actions[b]),
        (forall|k: int| 0 <= k < actions.len() ==> !is_comment(#[trigger] actions[k])) ==> !latest_comment_is_agent(
            actions,
        ),
{
    lemma_latest_comment_from(actions, 0, None);
    let r = latest_comment_from(actions, 0, None);
    if exists|b: int| is_latest_comment(actions, b) && carries_agent_tag(#[trigger] actions[b]) {
        let b = choose|b: int| is_latest_comment(actions, b) && carries_agent_tag(#[trigger] actions[b]);
        match r {
            Some(c) => {
                assert(lex_le(actions[b].date@, actions[c].date@));
                assert(lex_le(actions[c].date@, actions[b].date@));
                lemma_lex_le_antisymmetric(actions[b].date@, actions[c].date@);
                if b < c {
                    assert(actions[c].date@ != actions[b].date@);
                } else if c < b {
                    assert(actions[b].date@ != actions[c].date@);
                }
                assert(b == c);
            },
            None => {
                assert(!is_comment(actions[b]));
            },
        }
    }
    if let Some(c) = r {
        assert(is_latest_comment(actions, c));
        if latest_comment_is_agent(actions) {
            assert(carries_agent_tag(actions[c]));
        }
    }
}

fn latest_comment_is_agent_exec(actions: &Vec<TrelloAction>) -> (r: bool)
    ensures
        r == latest_comment_is_agent(actions@),
{
    let mut best: Option<usize> = None;
    let mut j: usize = 0;
    while j < actions.len()
        invariant
            j <= actions@.len(),
            latest_comment_from(actions@, 0, None) == latest_comment_from(
                actions@,
                j as int,
                match best {
                    Some(b) => Some(b as int),
                    None => None,
                },
            ),
            best matches Some(b) ==> b < j,
        decreases actions@.len() - j,
    {
        if str_eq(actions[j].action_type.as_str(), "commentCard") {
            match best {
                Some(b) => {
                    if str_le(actions[b].date.as_str(), actions[j].date.as_str()) {
                        best = Some(j);
                    }
                },
                None => {
                    best = Some(j);
                },
            }
        }
        j = j + 1;
    }
    match best {
        Some(b) => match &actions[b].data {
            Some(d) => match &d.text {
                Some(t) => {
                    let (_, name) = parse_agent_tag(t.as_str());
                    name.is_some()
                },
                None => false,
            },
            None => false,
        },
        None => false,
    }
}

/// The non-empty names of the labels from index `k` on.
pub open spec fn card_labels_from(labels: Seq<TrelloLabel>, k: int) -> Seq<Seq<char>>
    decreases labels.len() - k,
{
    if k < 0 || k >= labels.len() {
        seq![]
    } else if labels[k].name@.len() > 0 {
        seq![labels[k].name@] + card_labels_from(labels, k + 1)
    } else {
        card_labels_from(labels, k + 1)
    }
}

/// The non-empty label names of the card.
pub open spec fn card_labels(card: TrelloCard) -> Seq<Seq<char>> {
    match card.labels {
        Some(l) => card_labels_from(l@, 0),
        None => seq![],
    }
}

fn card_labels_exec(labels: &Option<Vec<TrelloLabel>>) -> (r: Vec<String>)
    ensures
        views_of(r@) == match *labels {
            Some(l) => card_labels_from(l@, 0),
            None => seq![],
        },
{
    let mut out: Vec<String> = Vec::new();
    match labels {
        Some(ls) => {
            let mut k: usize = 0;
            while k < ls.len()
                invariant
                    k <= ls@.len(),
                    views_of(out@) + card_labels_from(ls@, k as int) == card_labels_from(ls@, 0),
                decreases ls@.len() - k,
            {
                let ghost before = views_of(out@);
                if !ls[k].name.as_str().is_empty() {
                    out.push(ls[k].name.clone());
                    assert(views_of(out@) =~= before.push(ls@[k as int].name@));
                    assert(views_of(out@) + card_labels_from(ls@, k + 1) =~= before + card_labels_from(
                        ls@,
                        k as int,
                    ));
                }
                k = k + 1;
            }
            assert(views_of(out@) =~= views_of(out@) + card_labels_from(ls@, k as int));
        },
        None => {
            assert(views_of(out@) =~= Seq::<Seq<char>>::empty());
        },
    }
    out
}

fn opt_string(s: &Option<String>) -> (r: String)
    ensures
        r@ == match *s {
            Some(d) => d@,
            None => Seq::<char>::empty(),
        },
{
    match s {
        Some(d) => d.clone(),
        None => String::new(),
    }
}

/// The summary of a card in the list named `list_name`: a closed card is
/// completed, the creator comes from its `createCard` action, and the agent
/// commented last where the comment with the greatest date carries a tag.
pub open spec fn card_summary(card: TrelloCard, list_name: Seq<char>) -> SummaryView {
    SummaryView {
        id: card.id@,
        title: card.name@,
        description: match card.desc {
            Some(d) => d@,
            None => Seq::empty(),
        },
        list_id: card.id_list@,
        list_name,
        url: card.url@,
        completed: card.closed,
        creator: creator_from(actions_of(card), 0),
        last_commenter_is_agent: latest_comment_is_agent(actions_of(card)),
        labels: card_labels(card),
    }
}

/// The summary of a card (see `card_summary`).
pub fn card_to_summary(card: &TrelloCard, list_name: String) -> (r: TicketSummary)
    ensures
        summary_view(r) == card_summary(*card, list_name@),
{
    let empty: Vec<TrelloAction> = Vec::new();
    let actions = match &card.actions {
        Some(a) => a,
        None => &empty,
    };
    assert(actions@ == actions_of(*card));
    let labels = card_labels_exec(&card.labels);
    let r = TicketSummary {
        id: card.id.clone(),
        title: card.name.clone(),
        description: opt_string(&card.desc),
        list_id: card.id_list.clone(),
        list_name,
        url: card.url.clone(),
        completed: card.closed,
        creator: creator_exec(actions),
        last_commenter_is_agent: latest_comment_is_agent_exec(actions),
        labels,
    };
    assert(summary_view(r).labels =~= card_labels(*card));
    r
}

/// The comment that a comment action stands for, where it has a text, an
/// author and a date that parses; the agent tag is split off the text.
pub open spec fn action_comment(a: TrelloAction) -> Option<CommentView> {
    if a.action_type@ != "commentCard"@ {
        None
    } else {
        match a.data {
            Some(d) => match d.text {
                Some(t) => match a.member_creator {
                    Some(m) => match instant_of(a.date@) {
                        Some(at) => Some(
                            CommentView {
                                id: a.id@,
                                at,
                                who: trello_member(m),
                                content: untagged(t@).0,
                                agent_name: untagged(t@).1,
                            },
                        ),
                        None => None,
                    },
                    None => None,
                },
                None => None,
            },
            None => None,
        }
    }
}

/// The comments that the actions from index `k` on stand for, in order.
pub open spec fn card_comments_from(actions: Seq<TrelloAction>, k: int) -> Seq<CommentView>
    decreases actions.len() - k,
{
    if k < 0 || k >= actions.len() {
        seq![]
    } else {
        match action_comment(actions[k]) {
            Some(c) => seq![c] + card_comments_from(actions, k + 1),
            None => card_comments_from(actions, k + 1),
        }
    }
}

fn action_comment_exec(a: &TrelloAction) -> (r: Option<Comment>)
    ensures
        match r {
            Some(c) => action_comment(*a) == Some(comment_view(c)),
            None => action_comment(*a) is None,
        },
{
    if !str_eq(a.action_type.as_str(), "commentCard") {
        return None;
    }
    let d = match &a.data {
        Some(d) => d,
        None => {
            return None;
        },
    };
    let t = match &d.text {
        Some(t) => t,
        None => {
            return None;
        },
    };
    let m = match &a.member_creator {
        Some(m) => m,
        None => {
            return None;
        },
    };
    let at = match parse_rfc3339(a.date.as_str()) {
        Some(at) => at,
        None => {
            return None;
        },
    };
    let (content, agent_name) = parse_agent_tag(t.as_str());
    Some(Comment { id: a.id.clone(), at, who: member_of(m), content, agent_name })
}

fn card_comments_exec(actions: &Vec<TrelloAction>) -> (r: Vec<Comment>)
    ensures
        comment_views(r@) == card_comments_from(actions@, 0),
{
    let mut out: Vec<Comment> = Vec::new();
    let mut k: usize = 0;
    while k < actions.len()
        invariant
            k <= actions@.len(),
            comment_views(out@) + card_comments_from(actions@, k as int) == card_comments_from(
                actions@,
                0,
            ),
        decreases actions@.len() - k,
    {
        let ghost before = comment_views(out@);
        match action_comment_exec(&actions[k]) {
            Some(c) => {
                let ghost cv = comment_view(c);
                out.push(c);
                assert(comment_views(out@) =~= before.push(cv));
                assert(comment_views(out@) + card_comments_from(actions@, k + 1) =~= before
                    + card_comments_from(actions@, k as int));
            },
            None => {},
        }
        k = k + 1;
    }
    assert(comment_views(out@) =~= comment_views(out@) + card_comments_from(actions@, k as int));
    out
}

/// The members assigned to the card; none where it has none.
pub open spec fn card_members(card: TrelloCard) -> Seq<(Seq<char>, Seq<char>, Seq<char>)> {
    match card.members {
        Some(ms) => Seq::new(ms@.len(), |i: int| trello_member(ms@[i])),
        None => seq![],
    }
}

/// The ticket that a card in the list named `list_name` stands for: the
/// summary as `card_summary` has it but that the agent commented last where
/// the last of its comments by time carries a tag; its members as assignees;
/// its comments with a text, author and parsable date, stably sorted by time.
pub fn card_to_ticket(card: &TrelloCard, list_name: String) -> (r: Result<Ticket, OrgaError>)
    ensures
        r is Ok,
        r matches Ok(t) ==> {
            &&& summary_view(t.summary) == (SummaryView {
                last_commenter_is_agent: t.comments@.len() > 0 && t.comments@.last().agent_name is Some,
                ..card_summary(*card, list_name@)
            })
            &&& member_views(t.assignees@) == card_members(*card)
            &&& t.sub_tickets@.len() == 0
            &&& stably_sorted(card_comments_from(actions_of(*card), 0), comment_views(t.comments@))
            &&& t.comment_compaction is None
            &&& !t.compaction_suggested
        },
{
    let empty: Vec<TrelloAction> = Vec::new();
    let actions = match &card.actions {
        Some(a) => a,
        None => &empty,
    };
    assert(actions@ == actions_of(*card));
    let creator = creator_exec(actions);
    let made = card_comments_exec(actions);
    let comments = sort_comments_by_time(made);
    let last_is_agent = if comments.len() > 0 {
        comments[comments.len() - 1].agent_name.is_some()
    } else {
        false
    };
    let mut assignees: Vec<Member> = Vec::new();
    match &card.members {
        Some(ms) => {
            let mut k: usize = 0;
            while k < ms.len()
                invariant
                    k <= ms@.len(),
                    member_views(assignees@) == Seq::new(k as nat, |i: int| trello_member(ms@[i])),
                decreases ms@.len() - k,
            {
                let ghost before = member_views(assignees@);
                let m = member_of(&ms[k]);
                assignees.push(m);
                assert(member_views(assignees@) =~= before.push(trello_member(ms@[k as int])));
                k = k + 1;
                assert(member_views(assignees@) =~= Seq::new(k as nat, |i: int| trello_member(ms@[i])));
            }
        },
        None => {
            assert(member_views(assignees@) =~= Seq::<(Seq<char>, Seq<char>, Seq<char>)>::empty());
        },
    }
    let labels = card_labels_exec(&card.labels);
    let summary = TicketSummary {
        id: card.id.clone(),
        title: card.name.clone(),
        description: opt_string(&card.desc),
        list_id: card.id_list.clone(),
        list_name,
        url: card.url.clone(),
        completed: card.closed,
        creator,
        last_commenter_is_agent: last_is_agent,
        labels,
    };
    assert(summary_view(summary).labels =~= card_labels(*card));
    Ok(
        Ticket {
            summary,
            assignees,
            sub_tickets: Vec::new(),
            comments,
            comment_compaction: None,
            compaction_suggested: false,
        },
    )
}

/// What a Trello answer with the HTTP status `status` and the text `body`
/// means: too many requests, bad credentials and a missing resource each
/// have their error, any other client or server error is a backend error
/// that names the status, and anything else hands the body on.
pub fn handle_response(status: u16, body: String) -> (r: Result<String, OrgaError>)
    requires
        100 <= status <= 999,
    ensures
        match r {
            Ok(b) => !(400 <= status <= 599) && b@ == body@,
            Err(e) => 400 <= status <= 599 && if status == 429 {
                e is RateLimited
            } else if status == 401 {
                is_unauthorized_error(e, "invalid Trello credentials"@)
            } else if status == 404 {
                is_not_found_error(e, "resource not found"@)
            } else {
                is_backend_error(e, "Trello returned HTTP "@ + status_display(status))
            },
        },
{
    if status == 429 {
        Err(OrgaError::RateLimited)
    } else if status == 401 {
        Err(OrgaError::Unauthorized(str_to_string("invalid Trello credentials")))
    } else if status == 404 {
        Err(OrgaError::NotFound(str_to_string("resource not found")))
    } else if 400 <= status && status <= 599 {
        let mut m = String::new();
        push_str(&mut m, "Trello returned HTTP ");
        let st = status_text(status);
        push_str(&mut m, st.as_str());
        Err(OrgaError::BackendError(m))
    } else {
        Ok(body)
    }
}

} // verus!
