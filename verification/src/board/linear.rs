//! Linear: the shapes of its API answers and how they become tickets.

use vstd::prelude::*;

use crate::board::agent_tag::{parse_agent_tag, untagged};
use crate::models::{
    member_views, opt_member_view, summary_view, summary_views, SummaryView, comment_view, comment_views, instant_of, member_view, parse_rfc3339, sort_comments_by_time,
    stably_sorted, ts_le, Comment, CommentView, Member, Ticket, TicketSummary, Timestamp,
};
use crate::board::common::bare_username;
use crate::board::status::{status_display, status_text};
use crate::error::{is_backend_error, is_not_found_error, is_unauthorized_error, OrgaError};
use crate::text::{opt_view, push_str, str_eq, str_to_string, trim_front, views_of, TrimSet};

verus! {

broadcast use vstd::string::group_string_axioms;

/// A list in a GraphQL answer.
pub struct Nodes<T> {
    pub nodes: Vec<T>,
}

/// A Linear user.
pub struct LinearUser {
    pub id: String,
    pub display_name: String,
}

/// A workflow state of a Linear team; its type is `completed`, `cancelled`,
/// `unstarted` and the like.
pub struct LinearState {
    pub id: String,
    pub name: String,
    pub state_type: Option<String>,
}

/// A comment on an issue.
pub struct LinearComment {
    pub id: String,
    pub body: String,
    pub created_at: String,
    pub user: Option<LinearUser>,
}

/// A comment as an issue listing shows it.
pub struct LinearCommentSummary {
    pub body: String,
    pub created_at: String,
}

/// A sub-issue.
pub struct LinearChildIssue {
    pub id: String,
    pub title: String,
    pub url: String,
    pub state: Option<LinearState>,
}

/// A label of an issue.
pub struct LinearLabel {
    pub name: String,
}

/// An issue with everything a ticket shows.
pub struct LinearIssue {
    pub id: String,
    pub title: String,
    pub description: Option<String>,
    pub url: String,
    pub state: Option<LinearState>,
    pub creator: Option<LinearUser>,
    pub assignee: Option<LinearUser>,
    pub comments: Nodes<LinearComment>,
    pub children: Nodes<LinearChildIssue>,
    pub labels: Option<Nodes<LinearLabel>>,
}

/// An issue as a listing shows it.
pub struct LinearIssueSummary {
    pub id: String,
    pub title: String,
    pub description: Option<String>,
    pub url: String,
    pub state: Option<LinearState>,
    pub creator: Option<LinearUser>,
    pub comments: Nodes<LinearCommentSummary>,
    pub labels: Option<Nodes<LinearLabel>>,
}

/// The member a Linear user stands for: the display name serves as both
/// username and full name.
pub open spec fn user_member(u: LinearUser) -> (Seq<char>, Seq<char>, Seq<char>) {
    (u.id@, u.display_name@, u.display_name@)
}

/// The member that a Linear user stands for (see `user_member`).
pub fn member_from_user(user: &LinearUser) -> (r: Member)
    ensures
        member_view(r) == user_member(*user),
{
    Member {
        id: user.id.clone(),
        username: user.display_name.clone(),
        full_name: user.display_name.clone(),
    }
}

/// The name of the state, or the empty text where there is none.
pub open spec fn state_name(state: Option<LinearState>) -> Seq<char> {
    match state {
        Some(s) => s.name@,
        None => Seq::empty(),
    }
}

/// The id of the state, or the empty text where there is none.
pub open spec fn state_id(state: Option<LinearState>) -> Seq<char> {
    match state {
        Some(s) => s.id@,
        None => Seq::empty(),
    }
}

/// The state is of the type `completed` or `cancelled`.
pub open spec fn completed_state(state: Option<LinearState>) -> bool {
    match state {
        Some(s) => match s.state_type {
            Some(t) => t@ == "completed"@ || t@ == "cancelled"@,
            None => false,
        },
        None => false,
    }
}

/// The name of the state (see `state_name`).
pub fn linear_state_name(state: &Option<LinearState>) -> (r: String)
    ensures
        r@ == state_name(*state),
{
    match state {
        Some(s) => s.name.clone(),
        None => String::new(),
    }
}

/// The id of the state (see `state_id`).
pub fn linear_state_id(state: &Option<LinearState>) -> (r: String)
    ensures
        r@ == state_id(*state),
{
    match state {
        Some(s) => s.id.clone(),
        None => String::new(),
    }
}

/// Whether the state is a finished one (see `completed_state`).
pub fn is_completed_state(state: &Option<LinearState>) -> (r: bool)
    ensures
        r == completed_state(*state),
{
    match state {
        Some(s) => match &s.state_type {
            Some(t) => str_eq(t.as_str(), "completed") || str_eq(t.as_str(), "cancelled"),
            None => false,
        },
        None => false,
    }
}

/// The non-empty names of the labels from index `k` on.
pub open spec fn label_names_from(labels: Seq<LinearLabel>, k: int) -> Seq<Seq<char>>
    decreases labels.len() - k,
{
    if k < 0 || k >= labels.len() {
        seq![]
    } else if labels[k].name@.len() > 0 {
        seq![labels[k].name@] + label_names_from(labels, k + 1)
    } else {
        label_names_from(labels, k + 1)
    }
}

/// The non-empty label names, in order; none where there are no labels.
pub open spec fn label_names(labels: Option<Nodes<LinearLabel>>) -> Seq<Seq<char>> {
    match labels {
        Some(n) => label_names_from(n.nodes@, 0),
        None => seq![],
    }
}

/// The non-empty label names (see `label_names`).
pub fn linear_label_names(labels: Option<&Nodes<LinearLabel>>) -> (r: Vec<String>)
    ensures
        views_of(r@) == match labels {
            Some(n) => label_names_from(n.nodes@, 0),
            None => seq![],
        },
{
    let mut out: Vec<String> = Vec::new();
    match labels {
        Some(n) => {
            let ghost ls = n.nodes@;
            let mut k: usize = 0;
            while k < n.nodes.len()
                invariant
                    k <= ls.len(),
                    ls == n.nodes@,
                    views_of(out@) + label_names_from(ls, k as int) == label_names_from(ls, 0),
                decreases ls.len() - k,
            {
                let ghost before = views_of(out@);
                if !n.nodes[k].name.as_str().is_empty() {
                    out.push(n.nodes[k].name.clone());
                    assert(views_of(out@) =~= before.push(ls[k as int].name@));
                    assert(views_of(out@) + label_names_from(ls, k + 1) =~= before + label_names_from(
                        ls,
                        k as int,
                    ));
                }
                k = k + 1;
            }
            assert(views_of(out@) =~= views_of(out@) + label_names_from(ls, k as int));
        },
        None => {
            assert(views_of(out@) =~= Seq::<Seq<char>>::empty());
        },
    }
    out
}

/// The member that an optional user stands for.
pub open spec fn opt_user_member(u: Option<LinearUser>) -> Option<(Seq<char>, Seq<char>, Seq<char>)> {
    match u {
        Some(x) => Some(user_member(x)),
        None => None,
    }
}

fn opt_member(u: &Option<LinearUser>) -> (r: Option<Member>)
    ensures
        opt_member_view(r) == opt_user_member(*u),
{
    match u {
        Some(x) => Some(member_from_user(x)),
        None => None,
    }
}

/// The index of the latest of the comments from index `j` on whose time
/// parses, the later index winning among equal times, given the best so far.
pub open spec fn latest_from(cs: Seq<LinearCommentSummary>, j: int, best: Option<(Timestamp, int)>) -> Option<
    int,
>
    decreases cs.len() - j,
{
    if j < 0 || j >= cs.len() {
        match best {
            Some(b) => Some(b.1),
            None => None,
        }
    } else {
        match instant_of(cs[j].created_at@) {
            None => latest_from(cs, j + 1, best),
            Some(t) => match best {
                Some(b) => if ts_le(b.0, t) {
                    latest_from(cs, j + 1, Some((t, j)))
                } else {
                    latest_from(cs, j + 1, best)
                },
                None => latest_from(cs, j + 1, Some((t, j))),
            },
        }
    }
}

/// The latest comment (by its time; of equal times the last) carries an
/// agent tag.
pub open spec fn latest_is_agent(cs: Seq<LinearCommentSummary>) -> bool {
    match latest_from(cs, 0, None) {
        Some(i) => untagged(cs[i].body@).1 is Some,
        None => false,
    }
}

/// The summary of a listed issue: its state gives the column and whether it
/// is completed, a missing description is empty.
pub open spec fn issue_summary(issue: LinearIssueSummary) -> SummaryView {
    SummaryView {
        id: issue.id@,
        title: issue.title@,
        description: match issue.description {
            Some(d) => d@,
            None => Seq::empty(),
        },
        list_id: state_id(issue.state),
        list_name: state_name(issue.state),
        url: issue.url@,
        completed: completed_state(issue.state),
        creator: opt_user_member(issue.creator),
        last_commenter_is_agent: latest_is_agent(issue.comments.nodes@),
        labels: label_names(issue.labels),
    }
}

fn opt_string(s: &Option<String>) -> (r: String)
    ensures
        r@ == match *s {
            Some(d) => d@,
            None => Seq::<char>::empty(),
        },
{
    match s {
        Some(d) => d.clone(),
        None => String::new(),
    }
}

/// Comment `b` has a time that parses, the greatest among the comments whose
/// time parses, and no later comment in the list has that same time.
pub open spec fn is_latest_dated(cs: Seq<LinearCommentSummary>, b: int) -> bool {
    &&& 0 <= b < cs.len()
    &&& instant_of(cs[b].created_at@) is Some
    &&& forall|k: int|
        0 <= k < cs.len() && (#[trigger] instant_of(cs[k].created_at@)) is Some ==> ts_le(
            instant_of(cs[k].created_at@)->0,
            instant_of(cs[b].created_at@)->0,
        )
    &&& forall|k: int|
        b < k < cs.len() && (#[trigger] instant_of(cs[k].created_at@)) is Some ==> instant_of(
            cs[k].created_at@,
        )->0 != instant_of(cs[b].created_at@)->0
}

spec fn latest_dated_among(cs: Seq<LinearCommentSummary>, n: int, best: Option<(Timestamp, int)>) -> bool {
    match best {
        None => forall|k: int| 0 <= k < n ==> (#[trigger] instant_of(cs[k].created_at@)) is None,
        Some(bt) => {
            let b = bt.1;
            &&& 0 <= b < n
            &&& instant_of(cs[b].created_at@) == Some(bt.0)
            &&& forall|k: int|
                0 <= k < n && (#[trigger] instant_of(cs[k].created_at@)) is Some ==> ts_le(
                    instant_of(cs[k].created_at@)->0,
                    bt.0,
                )
            &&& forall|k: int|
                b < k < n && (#[trigger] instant_of(cs[k].created_at@)) is Some ==> instant_of(
                    cs[k].created_at@,
                )->0 != bt.0
        },
    }
}

proof fn lemma_latest_from(cs: Seq<LinearCommentSummary>, j: int, best: Option<(Timestamp, int)>)
    requires
        0 <= j <= cs.len(),
        latest_dated_among(cs, j, best),
    ensures
        match latest_from(cs, j, best) {
            Some(b) => is_latest_dated(cs, b),
            None => forall|k: int| 0 <= k < cs.len() ==> (#[trigger] instant_of(cs[k].created_at@)) is None,
        },
    decreases cs.len() - j,
{
    if j < cs.len() {
        match instant_of(cs[j].created_at@) {
            None => lemma_latest_from(cs, j + 1, best),
            Some(t) => match best {
                Some(b) => {
                    if ts_le(b.0, t) {
                        lemma_latest_from(cs, j + 1, Some((t, j)));
                    } else {
                        lemma_latest_from(cs, j + 1, best);
                    }
                },
                None => lemma_latest_from(cs, j + 1, Some((t, j))),
            },
        }
    }
}

/// Law of the last commenter of a Linear issue: its latest comment is the
/// agent's exactly where some comment whose time parses has the greatest
/// time (the later one in the list among equal times) and carries an agent
/// tag; so it does not depend on the order of the comments where their times
/// differ, and it is false where no comment's time parses.
pub proof fn lemma_latest_is_agent(cs: Seq<LinearCommentSummary>)
    ensures
        latest_is_agent(cs) <==> exists|b: int|
            is_latest_dated(cs, b) && (untagged(#[trigger] cs[b].body@).1 is Some),
{
    lemma_latest_from(cs, 0, None);
    let r = latest_from(cs, 0, None);
    if exists|b: int| is_latest_dated(cs, b) && (untagged(#[trigger] cs[b].body@).1 is Some) {
        let b = choose|b: int| is_latest_dated(cs, b) && (untagged(#[trigger] cs[b].body@).1 is Some);
        match r {
            Some(c) => {
                assert(instant_of(cs[b].created_at@) is Some);
                assert(instant_of(cs[c].created_at@) is Some);
                if b < c {
                    assert(instant_of(cs[c].created_at@)->0 != instant_of(cs[b].created_at@)->0);
                } else if c < b {
                    assert(instant_of(cs[b].created_at@)->0 != instant_of(cs[c].created_at@)->0);
                }
            },
            None => {
                assert(instant_of(cs[b].created_at@) is Some);
            },
        }
    }
    if let Some(c) = r {
        if latest_is_agent(cs) {
            assert(is_latest_dated(cs, c) && (untagged(cs[c].body@).1 is Some));
        }
    }
}

fn latest_is_agent_exec(cs: &Vec<LinearCommentSummary>) -> (r: bool)
    ensures
        r == latest_is_agent(cs@),
{
    let mut best: Option<(Timestamp, usize)> = None;
    let mut j: usize = 0;
    while j < cs.len()
        invariant
            j <= cs@.len(),
            latest_from(cs@, 0, None) == latest_from(
                cs@,
                j as int,
                match best {
                    Some(b) => Some((b.0, b.1 as int)),
                    None => None,
                },
            ),
            best matches Some(b) ==> b.1 < j,
        decreases cs@.len() - j,
    {
        match parse_rfc3339(cs[j].created_at.as_str()) {
            Some(t) => {
                match best {
                    Some(b) => {
                        if !t.is_before(&b.0) {
                            best = Some((t, j));
                        }
                    },
                    None => {
                        best = Some((t, j));
                    },
                }
            },
            None => {},
        }
        j = j + 1;
    }
    match best {
        Some(b) => {
            let (_, name) = parse_agent_tag(cs[b.1].body.as_str());
            name.is_some()
        },
        None => false,
    }
}

/// The summary of a listed issue (see `issue_summary`).
pub fn linear_issue_to_summary(issue: &LinearIssueSummary) -> (r: TicketSummary)
    ensures
        summary_view(r) == issue_summary(*issue),
{
    let labels = linear_label_names(issue.labels.as_ref());
    let r = TicketSummary {
        id: issue.id.clone(),
        title: issue.title.clone(),
        description: opt_string(&issue.description),
        list_id: linear_state_id(&issue.state),
        list_name: linear_state_name(&issue.state),
        url: issue.url.clone(),
        completed: is_completed_state(&issue.state),
        creator: opt_member(&issue.creator),
        last_commenter_is_agent: latest_is_agent_exec(&issue.comments.nodes),
        labels,
    };
    assert(summary_view(r).labels =~= label_names(issue.labels));
    r
}

/// The comment that a Linear comment stands for, where its time parses and
/// its author is known; the agent tag is split off its body.
pub open spec fn linear_comment(c: LinearComment) -> Option<CommentView> {
    match instant_of(c.created_at@) {
        Some(t) => match c.user {
            Some(u) => Some(
                CommentView {
                    id: c.id@,
                    at: t,
                    who: user_member(u),
                    content: untagged(c.body@).0,
                    agent_name: untagged(c.body@).1,
                },
            ),
            None => None,
        },
        None => None,
    }
}

/// The comments that the Linear comments from index `k` on stand for, in
/// their order, without those whose time or author is missing.
pub open spec fn linear_comments_from(cs: Seq<LinearComment>, k: int) -> Seq<CommentView>
    decreases cs.len() - k,
{
    if k < 0 || k >= cs.len() {
        seq![]
    } else {
        match linear_comment(cs[k]) {
            Some(c) => seq![c] + linear_comments_from(cs, k + 1),
            None => linear_comments_from(cs, k + 1),
        }
    }
}

/// The summary of a sub-issue: no description, creator, labels or agent
/// comment.
pub open spec fn child_summary(c: LinearChildIssue) -> SummaryView {
    SummaryView {
        id: c.id@,
        title: c.title@,
        description: Seq::empty(),
        list_id: state_id(c.state),
        list_name: state_name(c.state),
        url: c.url@,
        completed: completed_state(c.state),
        creator: None,
        last_commenter_is_agent: false,
        labels: seq![],
    }
}

fn linear_comments_exec(cs: &Vec<LinearComment>) -> (r: Vec<Comment>)
    ensures
        comment_views(r@) == linear_comments_from(cs@, 0),
{
    let mut out: Vec<Comment> = Vec::new();
    let mut k: usize = 0;
    while k < cs.len()
        invariant
            k <= cs@.len(),
            comment_views(out@) + linear_comments_from(cs@, k as int) == linear_comments_from(cs@, 0),
        decreases cs@.len() - k,
    {
        let c = &cs[k];
        let ghost before = comment_views(out@);
        match parse_rfc3339(c.created_at.as_str()) {
            Some(at) => {
                match &c.user {
                    Some(u) => {
                        let (content, agent_name) = parse_agent_tag(c.body.as_str());
                        let comment = Comment {
                            id: c.id.clone(),
                            at,
                            who: member_from_user(u),
                            content,
                            agent_name,
                        };
                        let ghost cv = comment_view(comment);
                        assert(cv == linear_comment(*c)->0);
                        out.push(comment);
                        assert(comment_views(out@) =~= before.push(cv));
                        assert(comment_views(out@) + linear_comments_from(cs@, k + 1) =~= before
                            + linear_comments_from(cs@, k as int));
                    },
                    None => {},
                }
            },
            None => {},
        }
        k = k + 1;
    }
    assert(comment_views(out@) =~= comment_views(out@) + linear_comments_from(cs@, k as int));
    out
}

fn child_to_summary(c: &LinearChildIssue) -> (r: TicketSummary)
    ensures
        summary_view(r) == child_summary(*c),
{
    let r = TicketSummary {
        id: c.id.clone(),
        title: c.title.clone(),
        description: String::new(),
        list_id: linear_state_id(&c.state),
        list_name: linear_state_name(&c.state),
        url: c.url.clone(),
        completed: is_completed_state(&c.state),
        creator: None,
        last_commenter_is_agent: false,
        labels: Vec::new(),
    };
    assert(summary_view(r).labels =~= Seq::<Seq<char>>::empty());
    r
}

/// The ticket that an issue stands for: the summary from its state, creator,
/// description and labels; its assignee; its sub-issues as sub-tickets; its
/// comments with a known time and author, stably sorted by time; the agent
/// commented last where the last of these carries an agent tag.
pub fn linear_issue_to_ticket(issue: &LinearIssue) -> (r: Ticket)
    ensures
        summary_view(r.summary) == (SummaryView {
            id: issue.id@,
            title: issue.title@,
            description: match issue.description {
                Some(d) => d@,
                None => Seq::empty(),
            },
            list_id: state_id(issue.state),
            list_name: state_name(issue.state),
            url: issue.url@,
            completed: completed_state(issue.state),
            creator: opt_user_member(issue.creator),
            last_commenter_is_agent: r.comments@.len() > 0 && r.comments@.last().agent_name is Some,
            labels: label_names(issue.labels),
        }),
        member_views(r.assignees@) == match issue.assignee {
            Some(u) => seq![user_member(u)],
            None => seq![],
        },
        summary_views(r.sub_tickets@) == Seq::new(
            issue.children.nodes@.len(),
            |i: int| child_summary(issue.children.nodes@[i]),
        ),
        stably_sorted(linear_comments_from(issue.comments.nodes@, 0), comment_views(r.comments@)),
        r.comment_compaction is None,
        !r.compaction_suggested,
{
    let ghost kids = issue.children.nodes@;
    let mut sub_tickets: Vec<TicketSummary> = Vec::new();
    let mut k: usize = 0;
    while k < issue.children.nodes.len()
        invariant
            k <= kids.len(),
            kids == issue.children.nodes@,
            summary_views(sub_tickets@) == Seq::new(k as nat, |i: int| child_summary(kids[i])),
        decreases kids.len() - k,
    {
        let ghost before = summary_views(sub_tickets@);
        let s = child_to_summary(&issue.children.nodes[k]);
        let ghost sv = summary_view(s);
        sub_tickets.push(s);
        assert(summary_views(sub_tickets@) =~= before.push(sv));
        k = k + 1;
        assert(summary_views(sub_tickets@) =~= Seq::new(k as nat, |i: int| child_summary(kids[i])));
    }
    let made = linear_comments_exec(&issue.comments.nodes);
    let comments = sort_comments_by_time(made);
    let last_is_agent = if comments.len() > 0 {
        comments[comments.len() - 1].agent_name.is_some()
    } else {
        false
    };
    let assignees: Vec<Member> = match &issue.assignee {
        Some(u) => vec![member_from_user(u)],
        None => Vec::new(),
    };
    assert(member_views(assignees@) =~= match issue.assignee {
        Some(u) => seq![user_member(u)],
        None => seq![],
    });
    let labels = linear_label_names(issue.labels.as_ref());
    let summary = TicketSummary {
        id: issue.id.clone(),
        title: issue.title.clone(),
        description: opt_string(&issue.description),
        list_id: linear_state_id(&issue.state),
        list_name: linear_state_name(&issue.state),
        url: issue.url.clone(),
        completed: is_completed_state(&issue.state),
        creator: opt_member(&issue.creator),
        last_commenter_is_agent: last_is_agent,
        labels,
    };
    assert(summary_view(summary).labels =~= label_names(issue.labels));
    Ticket {
        summary,
        assignees,
        sub_tickets,
        comments,
        comment_compaction: None,
        compaction_suggested: false,
    }
}

#[verifier::external_type_specification]
#[verifier::external_body]
pub struct ExJsonValue(serde_json::Value);

/// An error that a GraphQL answer reports.
pub struct GqlError {
    pub message: String,
}

/// A GraphQL answer: its data, and the errors it reports.
pub struct GqlResponse {
    pub data: Option<serde_json::Value>,
    pub errors: Option<Vec<GqlError>>,
}

/// The message of the first error the answer reports, where it reports one.
pub open spec fn first_error(r: GqlResponse) -> Option<Seq<char>> {
    match r.errors {
        Some(es) => if es@.len() > 0 {
            Some(es@[0].message@)
        } else {
            None
        },
        None => None,
    }
}

fn first_error_message(r: &GqlResponse) -> (m: Option<String>)
    ensures
        opt_view(m) == first_error(*r),
{
    match &r.errors {
        Some(es) => if es.len() > 0 {
            Some(es[0].message.clone())
        } else {
            None
        },
        None => None,
    }
}

/// What a Linear answer with the HTTP status `status` means, given its body
/// parsed as a GraphQL answer (or the parser's error): a refused key (with
/// the first error the body reports, where it parses and reports one), any
/// other client or server error, a body that does not parse, an error the
/// answer reports, an answer without data, or the data.
pub fn gql_outcome(status: u16, parsed: Result<GqlResponse, String>) -> (r: Result<
    serde_json::Value,
    OrgaError,
>)
    requires
        100 <= status <= 999,
    ensures
        status == 400 || status == 401 ==> (r matches Err(e) && is_unauthorized_error(
            e,
            match parsed {
                Ok(p) => match first_error(p) {
                    Some(m) => m,
                    None => "invalid Linear API key"@,
                },
                Err(_) => "invalid Linear API key"@,
            },
        )),
        400 <= status <= 599 && status != 400 && status != 401 ==> (r matches Err(e)
            && is_backend_error(e, "Linear returned HTTP "@ + status_display(status))),
        !(400 <= status <= 599) ==> match parsed {
            Err(pe) => r matches Err(e) && is_backend_error(e, pe@),
            Ok(p) => match first_error(p) {
                Some(m) => r matches Err(e) && is_backend_error(e, m),
                None => match p.data {
                    Some(d) => r == Ok::<serde_json::Value, OrgaError>(d),
                    None => r matches Err(e) && is_backend_error(e, "Linear returned no data"@),
                },
            },
        },
{
    if status == 400 || status == 401 {
        let msg = match &parsed {
            Ok(p) => match first_error_message(p) {
                Some(m) => m,
                None => str_to_string("invalid Linear API key"),
            },
            Err(_) => str_to_string("invalid Linear API key"),
        };
        return Err(OrgaError::Unauthorized(msg));
    }
    if 400 <= status && status <= 599 {
        let mut m = String::new();
        push_str(&mut m, "Linear returned HTTP ");
        let st = status_text(status);
        push_str(&mut m, st.as_str());
        return Err(OrgaError::BackendError(m));
    }
    let p = match parsed {
        Ok(p) => p,
        Err(pe) => {
            return Err(OrgaError::BackendError(pe));
        },
    };
    match first_error_message(&p) {
        Some(m) => {
            return Err(OrgaError::BackendError(m));
        },
        None => {},
    }
    match p.data {
        Some(d) => Ok(d),
        None => Err(OrgaError::BackendError(str_to_string("Linear returned no data"))),
    }
}

/// The id of the one user with the display name (given with or without
/// leading `@`): none is an error naming the user, several are an error.
pub fn pick_user(username: &str, users: &Vec<LinearUser>) -> (r: Result<String, OrgaError>)
    ensures
        ({
            let name = trim_front(username@, TrimSet::Char('@'));
            if users@.len() == 0 {
                r matches Err(e) && is_not_found_error(e, "user '"@ + name + "'"@)
            } else if users@.len() == 1 {
                r matches Ok(id) && id@ == users@[0].id@
            } else {
                r matches Err(e) && is_backend_error(
                    e,
                    "multiple users match display name '"@ + name + "'"@,
                )
            }
        }),
{
    let name = bare_username(username);
    if users.len() == 0 {
        let mut m = String::new();
        push_str(&mut m, "user '");
        push_str(&mut m, name.as_str());
        push_str(&mut m, "'");
        Err(OrgaError::NotFound(m))
    } else if users.len() == 1 {
        Ok(users[0].id.clone())
    } else {
        let mut m = String::new();
        push_str(&mut m, "multiple users match display name '");
        push_str(&mut m, name.as_str());
        push_str(&mut m, "'");
        Err(OrgaError::BackendError(m))
    }
}

} // verus!
