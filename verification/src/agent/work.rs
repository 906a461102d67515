//! The decisions of the agent's work on its tickets: which tickets wait on
//! it, what a ticket's run came to, which skills and tools a subagent gets,
//! and what a subagent hands back.

use vstd::prelude::*;

use crate::agent::context::SkillContext;
use crate::agent::loop_runner::LoopOutcome;
use crate::agent::skills::{match_skills, matched_from, SkillMeta};
use crate::agent::tools::{entry_lines_from, format_tree_index, DispatchArgs};
use crate::config::{LlmConfig, SubagentConfig};
use crate::error::{error_message, OrgaError};
use crate::memory::context_repo::{ContextEntry, RepoStats};
use crate::metrics::TicketOutcome;
use crate::models::{
    comment_view, comment_views, summary_view, summary_views, ts_before, Comment, CommentCompaction,
    CommentView, Ticket, TicketSummary, Timestamp,
};
use crate::text::{
    join_strings, joined_by, opt_view, pair_views, push_str, replace_all, replaced, str_eq, views_of,
};

verus! {

broadcast use vstd::string::group_string_axioms;

/// What processing a ticket came to.
#[derive(Debug, Clone, Copy, PartialEq, Eq, Structural)]
pub enum TicketProcessingOutcome {
    Success,
    Skipped,
    CapReached,
}

/// The outcome of a ticket's run by the way its loop ended: a terminal tool
/// is a success, no tool call a skip, and the step limit a cap.
pub open spec fn processing_outcome(o: LoopOutcome) -> TicketProcessingOutcome {
    match o {
        LoopOutcome::NoToolCalls => TicketProcessingOutcome::Skipped,
        LoopOutcome::CapReached => TicketProcessingOutcome::CapReached,
        LoopOutcome::Terminal => TicketProcessingOutcome::Success,
    }
}

impl TicketProcessingOutcome {
    /// The outcome of a ticket's run (see `processing_outcome`).
    pub fn from_loop_outcome(outcome: LoopOutcome) -> (r: Self)
        ensures
            r == processing_outcome(outcome),
    {
        match outcome {
            LoopOutcome::NoToolCalls => TicketProcessingOutcome::Skipped,
            LoopOutcome::CapReached => TicketProcessingOutcome::CapReached,
            LoopOutcome::Terminal => TicketProcessingOutcome::Success,
        }
    }
}

/// The metrics outcome of a ticket's run: its processing outcome, or an
/// error.
pub fn ticket_outcome(result: &Result<TicketProcessingOutcome, OrgaError>) -> (r: TicketOutcome)
    ensures
        r == match *result {
            Ok(TicketProcessingOutcome::Success) => TicketOutcome::Success,
            Ok(TicketProcessingOutcome::Skipped) => TicketOutcome::Skipped,
            Ok(TicketProcessingOutcome::CapReached) => TicketOutcome::CapReached,
            Err(_) => TicketOutcome::Error,
        },
{
    match result {
        Ok(TicketProcessingOutcome::Success) => TicketOutcome::Success,
        Ok(TicketProcessingOutcome::Skipped) => TicketOutcome::Skipped,
        Ok(TicketProcessingOutcome::CapReached) => TicketOutcome::CapReached,
        Err(_) => TicketOutcome::Error,
    }
}

/// A ticket waits on the agent: it is open and the agent did not comment
/// last.
pub open spec fn waiting_on_agent(t: TicketSummary) -> bool {
    !t.completed && !t.last_commenter_is_agent
}

/// The tickets from index `k` on that wait on the agent, in order.
pub open spec fn waiting_from(ts: Seq<TicketSummary>, k: int) -> Seq<TicketSummary>
    decreases ts.len() - k,
{
    if k < 0 || k >= ts.len() {
        seq![]
    } else if waiting_on_agent(ts[k]) {
        seq![ts[k]] + waiting_from(ts, k + 1)
    } else {
        waiting_from(ts, k + 1)
    }
}

proof fn lemma_waiting_filter(ts: Seq<TicketSummary>, k: int)
    requires
        0 <= k <= ts.len(),
    ensures
        waiting_from(ts, k) == ts.subrange(k, ts.len() as int).filter(|t: TicketSummary| waiting_on_agent(t)),
    decreases ts.len() - k,
{
    let pred = |t: TicketSummary| waiting_on_agent(t);
    let sub = ts.subrange(k, ts.len() as int);
    if k == ts.len() {
        assert(sub =~= Seq::<TicketSummary>::empty());
        assert(sub.filter(pred) =~= Seq::<TicketSummary>::empty());
    } else {
        lemma_waiting_filter(ts, k + 1);
        let rest = ts.subrange(k + 1, ts.len() as int);
        assert(sub =~= seq![ts[k]] + rest);
        rest.lemma_filter_prepend(ts[k], pred);
        if !waiting_on_agent(ts[k]) {
            assert(Seq::<TicketSummary>::empty() + rest.filter(pred) =~= rest.filter(pred));
        }
    }
}

/// Law of the tickets to work on: they are exactly the tickets, in their
/// order, that are open and on which the agent did not comment last.
pub proof fn lemma_actionable_are_the_waiting(ts: Seq<TicketSummary>)
    ensures
        waiting_from(ts, 0) == ts.filter(|t: TicketSummary| !t.completed && !t.last_commenter_is_agent),
{
    lemma_waiting_filter(ts, 0);
    assert(ts.subrange(0, ts.len() as int) =~= ts);
    assert((|t: TicketSummary| waiting_on_agent(t)) =~= (|t: TicketSummary| !t.completed
        && !t.last_commenter_is_agent));
}

/// The tickets that wait on the agent (see `waiting_on_agent`), in order.
pub fn actionable_tickets(tickets: Vec<TicketSummary>) -> (r: Vec<TicketSummary>)
    ensures
        r@ == waiting_from(tickets@, 0),
{
    let ghost all = tickets@;
    let mut rest = tickets;
    let mut out: Vec<TicketSummary> = Vec::new();
    let n = rest.len();
    let mut k: usize = 0;
    while k < n
        invariant
            k <= n == all.len(),
            rest@.len() == n - k,
            rest@ == all.subrange(k as int, n as int),
            out@ + waiting_from(all, k as int) == waiting_from(all, 0),
        decreases n - k,
    {
        let ghost before = out@;
        let t = rest.remove(0);
        assert(t == all[k as int]);
        if !t.completed && !t.last_commenter_is_agent {
            out.push(t);
            assert(out@ + waiting_from(all, k + 1) =~= before + waiting_from(all, k as int));
        }
        k = k + 1;
        assert(rest@ =~= all.subrange(k as int, n as int));
    }
    assert(out@ =~= out@ + waiting_from(all, k as int));
    out
}

/// The comments from index `k` on that came after the instant `through`.
pub open spec fn after_from(cs: Seq<Comment>, through: Timestamp, k: int) -> Seq<Comment>
    decreases cs.len() - k,
{
    if k < 0 || k >= cs.len() {
        seq![]
    } else if ts_before(through, cs[k].at) {
        seq![cs[k]] + after_from(cs, through, k + 1)
    } else {
        after_from(cs, through, k + 1)
    }
}

proof fn lemma_after_from_shift(x: Comment, rest: Seq<Comment>, through: Timestamp, j: int)
    requires
        0 <= j,
    ensures
        after_from(seq![x] + rest, through, j + 1) == after_from(rest, through, j),
    decreases rest.len() - j,
{
    let s = seq![x] + rest;
    if j < rest.len() {
        assert(s[j + 1] == rest[j]);
        lemma_after_from_shift(x, rest, through, j + 1);
    }
}

proof fn lemma_after_from_again(cs: Seq<Comment>, through: Timestamp, k: int)
    requires
        0 <= k,
    ensures
        after_from(after_from(cs, through, k), through, 0) == after_from(cs, through, k),
        forall|i: int|
            0 <= i < after_from(cs, through, k).len() ==> ts_before(
                through,
                (#[trigger] after_from(cs, through, k)[i]).at,
            ),
    decreases cs.len() - k,
{
    if k < cs.len() {
        lemma_after_from_again(cs, through, k + 1);
        let rest = after_from(cs, through, k + 1);
        if ts_before(through, cs[k].at) {
            let s = seq![cs[k]] + rest;
            assert(s[0] == cs[k]);
            lemma_after_from_shift(cs[k], rest, through, 0);
            assert(after_from(s, through, 0) =~= seq![cs[k]] + after_from(rest, through, 0));
            assert forall|i: int| 0 <= i < s.len() implies ts_before(through, (#[trigger] s[i]).at) by {
                if i > 0 {
                    assert(s[i] == rest[i - 1]);
                }
            }
        }
    }
}

/// The comments that came after the instant `through`.
pub open spec fn is_after(through: Timestamp) -> spec_fn(Comment) -> bool {
    |c: Comment| ts_before(through, c.at)
}

proof fn lemma_after_from_filter(cs: Seq<Comment>, through: Timestamp, k: int)
    requires
        0 <= k <= cs.len(),
    ensures
        after_from(cs, through, k) == cs.subrange(k, cs.len() as int).filter(is_after(through)),
    decreases cs.len() - k,
{
    let tail = cs.subrange(k, cs.len() as int);
    if k == cs.len() {
        assert(tail =~= Seq::<Comment>::empty());
    } else {
        lemma_after_from_filter(cs, through, k + 1);
        let first = seq![cs[k]];
        reveal(Seq::filter);
        assert(tail =~= first + cs.subrange(k + 1, cs.len() as int));
        Seq::filter_distributes_over_add(first, cs.subrange(k + 1, cs.len() as int), is_after(through));
        assert(first.drop_last() =~= Seq::<Comment>::empty());
        assert(first.drop_last().filter(is_after(through)) =~= Seq::<Comment>::empty());
        if ts_before(through, cs[k].at) {
            assert(first.filter(is_after(through)) =~= first);
        } else {
            assert(first.filter(is_after(through)) =~= Seq::<Comment>::empty());
        }
    }
}

/// Laws of a compaction: what it keeps are exactly the comments after its
/// boundary, in their order, so that applying it to a ticket it was already
/// applied to changes no comment.
pub proof fn lemma_compaction_idempotent(cs: Seq<Comment>, through: Timestamp)
    ensures
        after_from(cs, through, 0) == cs.filter(is_after(through)),
        after_from(after_from(cs, through, 0), through, 0) == after_from(cs, through, 0),
        forall|i: int|
            0 <= i < after_from(cs, through, 0).len() ==> ts_before(
                through,
                (#[trigger] after_from(cs, through, 0)[i]).at,
            ),
{
    lemma_after_from_again(cs, through, 0);
    lemma_after_from_filter(cs, through, 0);
    assert(cs.subrange(0, cs.len() as int) =~= cs);
}

/// Puts a stored compaction on the ticket: the comments up to the instant it
/// went through are dropped, and its summary takes their place.
pub fn apply_compaction(ticket: &mut Ticket, summary: String, through: Timestamp, count: usize)
    ensures
        final(ticket).comments@ == after_from(old(ticket).comments@, through, 0),
        final(ticket).comment_compaction == Some(
            CommentCompaction { summary, compacted_through: through, compacted_count: count },
        ),
        final(ticket).summary == old(ticket).summary,
        final(ticket).assignees == old(ticket).assignees,
        final(ticket).sub_tickets == old(ticket).sub_tickets,
        final(ticket).compaction_suggested == old(ticket).compaction_suggested,
{
    let ghost all = ticket.comments@;
    let mut rest: Vec<Comment> = Vec::new();
    std::mem::swap(&mut rest, &mut ticket.comments);
    let n = rest.len();
    let mut kept: Vec<Comment> = Vec::new();
    let mut k: usize = 0;
    while k < n
        invariant
            k <= n == all.len(),
            rest@ == all.subrange(k as int, n as int),
            kept@ + after_from(all, through, k as int) == after_from(all, through, 0),
        decreases n - k,
    {
        let ghost before = kept@;
        let c = rest.remove(0);
        assert(c == all[k as int]);
        if through.is_before(&c.at) {
            kept.push(c);
            assert(kept@ + after_from(all, through, k + 1) =~= before + after_from(
                all,
                through,
                k as int,
            ));
        }
        k = k + 1;
        assert(rest@ =~= all.subrange(k as int, n as int));
    }
    assert(kept@ =~= kept@ + after_from(all, through, k as int));
    ticket.comments = kept;
    ticket.comment_compaction = Some(
        CommentCompaction { summary, compacted_through: through, compacted_count: count },
    );
}

/// Names and descriptions of the skills, in order.
pub open spec fn skill_descriptions(skills: Seq<SkillMeta>) -> Seq<(Seq<char>, Seq<char>)> {
    Seq::new(skills.len(), |i: int| (skills[i].name@, skills[i].description@))
}

/// Names and instructions of the skills at the given indices, in order.
pub open spec fn skill_bodies_at(skills: Seq<SkillMeta>, idx: Seq<int>) -> Seq<(Seq<char>, Seq<char>)> {
    Seq::new(idx.len(), |i: int| (skills[idx[i]].name@, skills[idx[i]].body@))
}

/// The skills of a ticket's main agent: all skills may be asked about, and
/// those that apply to the ticket are active; none where there are no
/// skills.
pub fn skill_context_for(skills: &[SkillMeta], ticket: &TicketSummary) -> (r: Option<SkillContext>)
    ensures
        match r {
            Some(c) => skills@.len() > 0 && pair_views(c.available@) == skill_descriptions(skills@)
                && pair_views(c.active@) == skill_bodies_at(
                skills@,
                matched_from(skills@, *ticket, 0, seq![]),
            ),
            None => skills@.len() == 0,
        },
{
    if skills.len() == 0 {
        return None;
    }
    let mut available: Vec<(String, String)> = Vec::new();
    let mut i: usize = 0;
    while i < skills.len()
        invariant
            i <= skills@.len(),
            pair_views(available@) == skill_descriptions(skills@).subrange(0, i as int),
        decreases skills@.len() - i,
    {
        let ghost before = pair_views(available@);
        available.push((skills[i].name.clone(), skills[i].description.clone()));
        assert(pair_views(available@) =~= before.push((skills@[i as int].name@, skills@[i as int].description@)));
        i = i + 1;
        assert(pair_views(available@) =~= skill_descriptions(skills@).subrange(0, i as int));
    }
    assert(skill_descriptions(skills@).subrange(0, i as int) =~= skill_descriptions(skills@));
    let matched = match_skills(skills, ticket);
    let ghost idx = matched_from(skills@, *ticket, 0, seq![]);
    let mut active: Vec<(String, String)> = Vec::new();
    let mut j: usize = 0;
    while j < matched.len()
        invariant
            j <= matched@.len(),
            matched@.len() == idx.len(),
            forall|k: int| 0 <= k < matched@.len() ==> *matched@[k] == skills@[#[trigger] idx[k]],
            pair_views(active@) == skill_bodies_at(skills@, idx).subrange(0, j as int),
        decreases matched@.len() - j,
    {
        let ghost before = pair_views(active@);
        let s = matched[j];
        assert(*s == skills@[idx[j as int]]);
        active.push((s.name.clone(), s.body.clone()));
        assert(pair_views(active@) =~= before.push((skills@[idx[j as int]].name@, skills@[idx[j as int]].body@)));
        j = j + 1;
        assert(pair_views(active@) =~= skill_bodies_at(skills@, idx).subrange(0, j as int));
    }
    assert(skill_bodies_at(skills@, idx).subrange(0, j as int) =~= skill_bodies_at(skills@, idx));
    Some(SkillContext { available, active })
}

/// The indices of the skills from index `k` on whose names the subagent
/// lists.
pub open spec fn named_from(skills: Seq<SkillMeta>, names: Seq<Seq<char>>, k: int) -> Seq<int>
    decreases skills.len() - k,
{
    if k < 0 || k >= skills.len() {
        seq![]
    } else if names.contains(skills[k].name@) {
        seq![k] + named_from(skills, names, k + 1)
    } else {
        named_from(skills, names, k + 1)
    }
}

fn holds_name(names: &Vec<String>, name: &str) -> (b: bool)
    ensures
        b == views_of(names@).contains(name@),
{
    let ghost nv = views_of(names@);
    let mut i: usize = 0;
    while i < names.len()
        invariant
            i <= names@.len(),
            nv == views_of(names@),
            forall|k: int| 0 <= k < i ==> nv[k] != name@,
        decreases names@.len() - i,
    {
        if str_eq(names[i].as_str(), name) {
            assert(nv[i as int] == name@);
            return true;
        }
        i = i + 1;
    }
    false
}

/// The skills of a subagent: none to ask about, and as active either those
/// it names or, where it names none, those that apply to the ticket; no
/// context where there are no skills.
pub fn subagent_skill_context(skills: &[SkillMeta], sub: &SubagentConfig, ticket: &TicketSummary) -> (r:
    Option<SkillContext>)
    ensures
        match r {
            Some(c) => skills@.len() > 0 && c.available@.len() == 0 && pair_views(c.active@)
                == skill_bodies_at(
                skills@,
                if sub.skills@.len() == 0 {
                    matched_from(skills@, *ticket, 0, seq![])
                } else {
                    named_from(skills@, views_of(sub.skills@), 0)
                },
            ),
            None => skills@.len() == 0,
        },
{
    if skills.len() == 0 {
        return None;
    }
    let mut active: Vec<(String, String)> = Vec::new();
    if sub.skills.len() == 0 {
        let matched = match_skills(skills, ticket);
        let ghost idx = matched_from(skills@, *ticket, 0, seq![]);
        let mut j: usize = 0;
        while j < matched.len()
            invariant
                j <= matched@.len(),
                matched@.len() == idx.len(),
                forall|k: int| 0 <= k < matched@.len() ==> *matched@[k] == skills@[#[trigger] idx[k]],
                pair_views(active@) == skill_bodies_at(skills@, idx).subrange(0, j as int),
            decreases matched@.len() - j,
        {
            let ghost before = pair_views(active@);
            let s = matched[j];
            assert(*s == skills@[idx[j as int]]);
            active.push((s.name.clone(), s.body.clone()));
            assert(pair_views(active@) =~= before.push((skills@[idx[j as int]].name@, skills@[idx[j as int]].body@)));
            j = j + 1;
            assert(pair_views(active@) =~= skill_bodies_at(skills@, idx).subrange(0, j as int));
        }
        assert(skill_bodies_at(skills@, idx).subrange(0, j as int) =~= skill_bodies_at(skills@, idx));
    } else {
        let ghost names = views_of(sub.skills@);
        let ghost all = named_from(skills@, names, 0);
        let ghost mut taken: Seq<int> = seq![];
        let mut k: usize = 0;
        while k < skills.len()
            invariant
                k <= skills@.len(),
                names == views_of(sub.skills@),
                all == named_from(skills@, names, 0),
                all == taken + named_from(skills@, names, k as int),
                forall|m: int| 0 <= m < taken.len() ==> 0 <= #[trigger] taken[m] < skills@.len(),
                pair_views(active@) == skill_bodies_at(skills@, taken),
            decreases skills@.len() - k,
        {
            if holds_name(&sub.skills, skills[k].name.as_str()) {
                let ghost before = pair_views(active@);
                active.push((skills[k].name.clone(), skills[k].body.clone()));
                assert(pair_views(active@) =~= before.push((skills@[k as int].name@, skills@[k as int].body@)));
                proof {
                    assert(taken + named_from(skills@, names, k as int) =~= taken.push(k as int)
                        + named_from(skills@, names, k + 1));
                    taken = taken.push(k as int);
                    assert(pair_views(active@) =~= skill_bodies_at(skills@, taken));
                }
            }
            k = k + 1;
        }
        assert(taken =~= taken + named_from(skills@, names, k as int));
    }
    Some(SkillContext { available: Vec::new(), active })
}

/// The tools every subagent gets on top of its own.
pub open spec fn required_subagent_tools() -> Seq<Seq<char>> {
    seq![
        "return"@,
        "todos"@,
        "memory_list"@,
        "memory_read"@,
        "memory_write"@,
        "memory_search"@,
    ]
}

/// The tool list `have` extended by the required tools from index `k` on
/// that it lacks, in their order.
pub open spec fn with_required_from(have: Seq<Seq<char>>, k: int) -> Seq<Seq<char>>
    decreases required_subagent_tools().len() - k,
{
    if k < 0 || k >= required_subagent_tools().len() {
        have
    } else if have.contains(required_subagent_tools()[k]) {
        with_required_from(have, k + 1)
    } else {
        with_required_from(have.push(required_subagent_tools()[k]), k + 1)
    }
}

proof fn lemma_with_required(have: Seq<Seq<char>>, k: int)
    requires
        0 <= k,
    ensures
        with_required_from(have, k).len() >= have.len(),
        with_required_from(have, k).subrange(0, have.len() as int) == have,
        forall|j: int|
            k <= j < required_subagent_tools().len() ==> with_required_from(have, k).contains(
                #[trigger] required_subagent_tools()[j],
            ),
    decreases required_subagent_tools().len() - k,
{
    let req = required_subagent_tools();
    if k < req.len() {
        if have.contains(req[k]) {
            lemma_with_required(have, k + 1);
            let r = with_required_from(have, k);
            let idx = choose|i: int| 0 <= i < have.len() && have[i] == req[k];
            assert(r.subrange(0, have.len() as int)[idx] == r[idx]);
            assert(r.contains(req[k]));
        } else {
            let more = have.push(req[k]);
            lemma_with_required(more, k + 1);
            let r = with_required_from(have, k);
            assert(r.subrange(0, more.len() as int)[have.len() as int] == req[k]);
            assert(r[have.len() as int] == req[k]);
            assert(r.subrange(0, have.len() as int) =~= r.subrange(0, more.len() as int).subrange(
                0,
                have.len() as int,
            ));
            assert(more.subrange(0, have.len() as int) =~= have);
        }
    } else {
        assert(have.subrange(0, have.len() as int) =~= have);
    }
}

/// Law of a subagent's tools: it keeps its own tools, in their order, at
/// the front, and it gets every required tool.
pub proof fn lemma_subagent_tools_complete(tools: Seq<Seq<char>>)
    ensures
        with_required_from(tools, 0).subrange(0, tools.len() as int) == tools,
        forall|j: int|
            0 <= j < required_subagent_tools().len() ==> with_required_from(tools, 0).contains(
                #[trigger] required_subagent_tools()[j],
            ),
{
    lemma_with_required(tools, 0);
}

/// The tools of a subagent: its own, then each required tool that it lacks
/// (see `with_required_from`).
pub fn subagent_tool_names(tools: &Vec<String>) -> (r: Vec<String>)
    ensures
        views_of(r@) == with_required_from(views_of(tools@), 0),
{
    let mut names: Vec<String> = Vec::new();
    let mut i: usize = 0;
    while i < tools.len()
        invariant
            i <= tools@.len(),
            views_of(names@) == views_of(tools@).subrange(0, i as int),
        decreases tools@.len() - i,
    {
        let ghost before = views_of(names@);
        names.push(tools[i].clone());
        assert(views_of(names@) =~= before.push(tools@[i as int]@));
        i = i + 1;
        assert(views_of(names@) =~= views_of(tools@).subrange(0, i as int));
    }
    assert(views_of(tools@).subrange(0, i as int) =~= views_of(tools@));
    let need = vec!["return", "todos", "memory_list", "memory_read", "memory_write", "memory_search"];
    let mut k: usize = 0;
    while k < need.len()
        invariant
            k <= need@.len(),
            need@.len() == required_subagent_tools().len(),
            forall|m: int| 0 <= m < need@.len() ==> (#[trigger] need@[m])@ == required_subagent_tools()[m],
            with_required_from(views_of(tools@), 0) == with_required_from(views_of(names@), k as int),
        decreases need@.len() - k,
    {
        let t = need[k];
        if !holds_name(&names, t) {
            let ghost before = views_of(names@);
            let mut s = String::new();
            push_str(&mut s, t);
            names.push(s);
            assert(views_of(names@) =~= before.push(required_subagent_tools()[k as int]));
        }
        k = k + 1;
    }
    names
}

/// The most tool calls a subagent makes: its own limit, or else the agent's.
pub fn subagent_max_actions(sub: &SubagentConfig, llm: &LlmConfig) -> (r: usize)
    ensures
        r == match sub.max_actions {
            Some(n) => n,
            None => match llm.max_actions_per_ticket {
                Some(n) => n,
                None => 10,
            },
        },
{
    match sub.max_actions {
        Some(n) => n,
        None => llm.max_actions_per_ticket(),
    }
}

/// The model a subagent uses: its own, or else the agent's.
pub fn subagent_model<'a>(sub: &'a SubagentConfig, llm: &'a LlmConfig) -> (r: &'a str)
    ensures
        r@ == match sub.model {
            Some(m) => m@,
            None => llm.model@,
        },
{
    match &sub.model {
        Some(m) => m.as_str(),
        None => llm.model.as_str(),
    }
}

/// The answer of a subagent whose loop ended by `outcome`, given the last
/// message of its conversation and its last text: after its terminal tool,
/// the value that the last message returned, where it returned one.
pub fn subagent_answer(outcome: LoopOutcome, last: Option<&HistoryMessage>, last_text: String) -> (r: String)
    ensures
        r@ == match outcome {
            LoopOutcome::Terminal => match last {
                Some(m) => match returned_value(*m) {
                    Some(v) => v,
                    None => last_text@,
                },
                None => last_text@,
            },
            LoopOutcome::CapReached => "error: subagent hit action cap without returning a result"@,
            LoopOutcome::NoToolCalls => last_text@,
        },
{
    let value = match outcome {
        LoopOutcome::Terminal => match last {
            Some(m) => extract_return_value(m),
            None => None,
        },
        _ => None,
    };
    subagent_result(outcome, value, last_text)
}

/// Whether the agent reflects on the ticket after its turn: where the turn
/// called `done` and this is no dry run.
pub fn reflection_due(did_done: bool, dry_run: bool) -> (r: bool)
    ensures
        r == (did_done && !dry_run),
{
    did_done && !dry_run
}

/// Whether a subagent's tool call ends its loop: only its `return` tool does.
pub fn is_subagent_terminal_tool(name: &str) -> (r: bool)
    ensures
        r == (name@ == "return"@),
{
    str_eq(name, "return")
}

/// How a subagent's loop ended and its last text: as the loop reported it,
/// or, where the loop failed, as if the model had stopped calling tools, with
/// the error as the text.
pub fn subagent_loop_end(result: Result<(LoopOutcome, String), OrgaError>) -> (r: (LoopOutcome, String))
    ensures
        match result {
            Ok(p) => r.0 == p.0 && r.1@ == p.1@,
            Err(e) => r.0 == LoopOutcome::NoToolCalls && r.1@ == "error: "@ + error_message(e),
        },
{
    match result {
        Ok(p) => p,
        Err(e) => {
            let mut text = String::new();
            push_str(&mut text, "error: ");
            let m = e.message();
            push_str(&mut text, m.as_str());
            (LoopOutcome::NoToolCalls, text)
        },
    }
}

/// The answer a subagent hands back, by the way its loop ended: after a
/// terminal tool, the value it returned, or else its last text; at the step
/// limit, an error; without tool calls, its last text.
pub fn subagent_result(outcome: LoopOutcome, last_return_value: Option<String>, last_text: String) -> (r: String)
    ensures
        r@ == match outcome {
            LoopOutcome::Terminal => match last_return_value {
                Some(v) => v@,
                None => last_text@,
            },
            LoopOutcome::CapReached => "error: subagent hit action cap without returning a result"@,
            LoopOutcome::NoToolCalls => last_text@,
        },
{
    match outcome {
        LoopOutcome::Terminal => match last_return_value {
            Some(v) => v,
            None => last_text,
        },
        LoopOutcome::CapReached => {
            let mut s = String::new();
            push_str(&mut s, "error: subagent hit action cap without returning a result");
            s
        },
        LoopOutcome::NoToolCalls => last_text,
    }
}

/// The answer to a dispatch in a dry run.
pub fn dispatch_dry_run_answer(args: &DispatchArgs) -> (r: String)
    ensures
        r@ == "[dry-run] dispatch subagent '"@ + args.subagent@ + "' with task: "@ + args.task@
            + " would have been executed"@,
{
    let mut s = String::new();
    push_str(&mut s, "[dry-run] dispatch subagent '");
    push_str(&mut s, args.subagent.as_str());
    push_str(&mut s, "' with task: ");
    push_str(&mut s, args.task.as_str());
    push_str(&mut s, " would have been executed");
    s
}

/// The first configured subagent with the name, where there is one.
pub fn find_subagent<'a>(subs: &'a [SubagentConfig], name: &str) -> (r: Option<&'a SubagentConfig>)
    ensures
        match r {
            Some(s) => exists|i: int|
                0 <= i < subs@.len() && subs@[i] == *s && subs@[i].name@ == name@ && forall|j: int|
                    0 <= j < i ==> (#[trigger] subs@[j]).name@ != name@,
            None => forall|j: int| 0 <= j < subs@.len() ==> (#[trigger] subs@[j]).name@ != name@,
        },
{
    let mut i: usize = 0;
    while i < subs.len()
        invariant
            i <= subs@.len(),
            forall|j: int| 0 <= j < i ==> (#[trigger] subs@[j]).name@ != name@,
        decreases subs@.len() - i,
    {
        if str_eq(subs[i].name.as_str(), name) {
            return Some(&subs[i]);
        }
        i = i + 1;
    }
    None
}

/// The answer to a dispatch to a subagent that is not configured.
pub fn no_subagent_answer(name: &str) -> (r: String)
    ensures
        r@ == "error: no subagent named '"@ + name@ + "' is configured"@,
{
    let mut s = String::new();
    push_str(&mut s, "error: no subagent named '");
    push_str(&mut s, name);
    push_str(&mut s, "' is configured");
    s
}

/// Whether the context repository is due for a clean-up: it holds as many
/// files as the file threshold, or as many KiB as the size threshold.
pub fn defrag_due(stats: &RepoStats, file_threshold: usize, size_threshold_kb: u64) -> (r: bool)
    ensures
        r == (stats.file_count >= file_threshold || stats.total_size_kb >= size_threshold_kb),
{
    stats.file_count >= file_threshold || stats.total_size_kb >= size_threshold_kb
}

/// Names and descriptions of the subagents, in order.
pub open spec fn subagent_pairs(subs: Seq<SubagentConfig>) -> Seq<(Seq<char>, Seq<char>)> {
    Seq::new(subs.len(), |i: int| (subs[i].name@, subs[i].description@))
}

/// Names and descriptions of the subagents (see `subagent_pairs`).
pub fn subagent_descriptions(subs: &Vec<SubagentConfig>) -> (r: Vec<(String, String)>)
    ensures
        pair_views(r@) == subagent_pairs(subs@),
{
    let mut out: Vec<(String, String)> = Vec::new();
    let mut i: usize = 0;
    while i < subs.len()
        invariant
            i <= subs@.len(),
            pair_views(out@) == subagent_pairs(subs@).subrange(0, i as int),
        decreases subs@.len() - i,
    {
        let ghost before = pair_views(out@);
        out.push((subs[i].name.clone(), subs[i].description.clone()));
        assert(pair_views(out@) =~= before.push((subs@[i as int].name@, subs@[i as int].description@)));
        i = i + 1;
        assert(pair_views(out@) =~= subagent_pairs(subs@).subrange(0, i as int));
    }
    assert(subagent_pairs(subs@).subrange(0, i as int) =~= subagent_pairs(subs@));
    out
}

/// `@user: content` for each comment of the ticket.
pub open spec fn reflection_comments(cs: Seq<Comment>) -> Seq<Seq<char>> {
    Seq::new(cs.len(), |i: int| "@"@ + cs[i].who.username@ + ": "@ + cs[i].content@)
}

/// The message that asks the reflection agent to learn from a finished
/// ticket: its title, description and comments.
pub open spec fn reflection_message(t: Ticket) -> Seq<char> {
    "Ticket just completed: "@ + t.summary.title@ + "\n\nDescription: "@ + t.summary.description@
        + "\n\n## Comments\n"@ + joined_by(reflection_comments(t.comments@), "\n---\n"@)
        + "\n\nReflect and persist any valuable cross-ticket learnings."@
}

/// The message for the reflection agent (see `reflection_message`).
pub fn reflection_prompt(ticket: &Ticket) -> (r: String)
    ensures
        r@ == reflection_message(*ticket),
{
    let mut lines: Vec<String> = Vec::new();
    let mut i: usize = 0;
    while i < ticket.comments.len()
        invariant
            i <= ticket.comments@.len(),
            views_of(lines@) == reflection_comments(ticket.comments@).subrange(0, i as int),
        decreases ticket.comments@.len() - i,
    {
        let c = &ticket.comments[i];
        let mut line = String::new();
        push_str(&mut line, "@");
        push_str(&mut line, c.who.username.as_str());
        push_str(&mut line, ": ");
        push_str(&mut line, c.content.as_str());
        let ghost before = views_of(lines@);
        let ghost lv = line@;
        lines.push(line);
        assert(views_of(lines@) =~= before.push(lv));
        i = i + 1;
        assert(views_of(lines@) =~= reflection_comments(ticket.comments@).subrange(0, i as int));
    }
    assert(reflection_comments(ticket.comments@).subrange(0, i as int) =~= reflection_comments(
        ticket.comments@,
    ));
    let joined = join_strings(lines.as_slice(), "\n---\n");
    let mut out = String::new();
    push_str(&mut out, "Ticket just completed: ");
    push_str(&mut out, ticket.summary.title.as_str());
    push_str(&mut out, "\n\nDescription: ");
    push_str(&mut out, ticket.summary.description.as_str());
    push_str(&mut out, "\n\n## Comments\n");
    push_str(&mut out, joined.as_str());
    push_str(&mut out, "\n\nReflect and persist any valuable cross-ticket learnings.");
    out
}

/// A part of a tool result.
pub enum ResultPart {
    Text(String),
    Other,
}

/// A part of a user message of the conversation.
pub enum UserPart {
    /// A tool result, with its parts.
    ToolResult(Vec<ResultPart>),
    Text(String),
    Other,
}

/// A part of an assistant message of the conversation.
pub enum AssistantPart {
    /// A tool call, with the tool's name.
    ToolCall(String),
    Text(String),
    Other,
}

/// A message of an agent's conversation with the model.
pub enum HistoryMessage {
    User(Vec<UserPart>),
    Assistant(Vec<AssistantPart>),
    Other,
}

/// The number of tool results among the parts.
pub open spec fn tool_results_in(parts: Seq<UserPart>) -> nat
    decreases parts.len(),
{
    if parts.len() == 0 {
        0
    } else {
        tool_results_in(parts.drop_last()) + if parts.last() is ToolResult {
            1nat
        } else {
            0nat
        }
    }
}

/// The number of tool results in the messages: the actions the agent took.
pub open spec fn actions_in(history: Seq<HistoryMessage>) -> nat
    decreases history.len(),
{
    if history.len() == 0 {
        0
    } else {
        actions_in(history.drop_last()) + match history.last() {
            HistoryMessage::User(parts) => tool_results_in(parts@),
            _ => 0,
        }
    }
}

/// Some assistant message calls the `done` tool.
pub open spec fn called_done(history: Seq<HistoryMessage>) -> bool {
    exists|i: int, j: int|
        #![trigger history[i], is_done_call(history, i, j)]
        0 <= i < history.len() && is_done_call(history, i, j)
}

/// Part `j` of message `i` is a call of the `done` tool.
pub open spec fn is_done_call(history: Seq<HistoryMessage>, i: int, j: int) -> bool {
    match history[i] {
        HistoryMessage::Assistant(parts) => 0 <= j < parts@.len() && match parts@[j] {
            AssistantPart::ToolCall(name) => name@ == "done"@,
            _ => false,
        },
        _ => false,
    }
}

/// The number of actions the agent took, and whether it called `done`.
pub fn count_actions_and_detect_done(history: &Vec<HistoryMessage>) -> (r: (usize, bool))
    requires
        actions_in(history@) <= usize::MAX,
    ensures
        r.0 == actions_in(history@),
        r.1 == called_done(history@),
{
    let mut actions: usize = 0;
    let mut did_done = false;
    let mut i: usize = 0;
    proof {
        lemma_actions_prefix(history@, history@.len() as int);
        assert(history@.subrange(0, history@.len() as int) =~= history@);
    }
    while i < history.len()
        invariant
            i <= history@.len(),
            actions == actions_in(history@.subrange(0, i as int)),
            actions_in(history@) <= usize::MAX,
            forall|m: int| 0 <= m <= history@.len() ==> actions_in(#[trigger] history@.subrange(0, m)) <= actions_in(history@),
            did_done == exists|a: int, b: int|
                #![trigger history@[a], is_done_call(history@, a, b)]
                0 <= a < i && is_done_call(history@, a, b),
        decreases history@.len() - i,
    {
        assert(history@.subrange(0, i + 1).drop_last() =~= history@.subrange(0, i as int));
        assert(history@.subrange(0, i + 1).last() == history@[i as int]);
        match &history[i] {
            HistoryMessage::User(parts) => {
                let mut n: usize = 0;
                let mut k: usize = 0;
                while k < parts.len()
                    invariant
                        k <= parts@.len(),
                        n == tool_results_in(parts@.subrange(0, k as int)),
                        n <= k,
                    decreases parts@.len() - k,
                {
                    assert(parts@.subrange(0, k + 1).drop_last() =~= parts@.subrange(0, k as int));
                    match &parts[k] {
                        UserPart::ToolResult(_) => {
                            n = n + 1;
                        },
                        _ => {},
                    }
                    k = k + 1;
                }
                assert(parts@.subrange(0, k as int) =~= parts@);
                assert(actions_in(history@.subrange(0, i + 1)) <= actions_in(history@));
                actions = actions + n;
            },
            HistoryMessage::Assistant(parts) => {
                let mut k: usize = 0;
                while k < parts.len()
                    invariant
                        k <= parts@.len(),
                        i < history@.len(),
                        history@[i as int] == HistoryMessage::Assistant(*parts),
                        did_done == exists|a: int, b: int|
                            #![trigger history@[a], is_done_call(history@, a, b)]
                            (0 <= a < i && is_done_call(history@, a, b)) || (a == i && 0 <= b < k
                                && is_done_call(history@, a, b)),
                    decreases parts@.len() - k,
                {
                    match &parts[k] {
                        AssistantPart::ToolCall(name) => {
                            if crate::text::str_eq(name.as_str(), "done") {
                                did_done = true;
                                assert(is_done_call(history@, i as int, k as int));
                            }
                        },
                        _ => {},
                    }
                    k = k + 1;
                }
            },
            HistoryMessage::Other => {},
        }
        i = i + 1;
    }
    assert(history@.subrange(0, i as int) =~= history@);
    (actions, did_done)
}

proof fn lemma_actions_prefix(h: Seq<HistoryMessage>, n: int)
    requires
        0 <= n <= h.len(),
    ensures
        forall|m: int| 0 <= m <= n ==> actions_in(#[trigger] h.subrange(0, m)) <= actions_in(h.subrange(0, n)),
    decreases n,
{
    if n > 0 {
        lemma_actions_prefix(h, n - 1);
        assert(h.subrange(0, n).drop_last() =~= h.subrange(0, n - 1));
    }
    assert(h.subrange(0, h.len() as int) =~= h);
}

/// What a `return` tool left as the last message: the text of the first
/// part of the first tool result of a user message.
pub open spec fn returned_value(msg: HistoryMessage) -> Option<Seq<char>> {
    match msg {
        HistoryMessage::User(parts) => if parts@.len() > 0 {
            match parts@[0] {
                UserPart::ToolResult(rs) => if rs@.len() > 0 {
                    match rs@[0] {
                        ResultPart::Text(t) => Some(t@),
                        ResultPart::Other => None,
                    }
                } else {
                    None
                },
                _ => None,
            }
        } else {
            None
        },
        _ => None,
    }
}

/// The value a subagent returned (see `returned_value`).
pub fn extract_return_value(msg: &HistoryMessage) -> (r: Option<String>)
    ensures
        opt_view(r) == returned_value(*msg),
{
    match msg {
        HistoryMessage::User(parts) => {
            if parts.len() == 0 {
                return None;
            }
            match &parts[0] {
                UserPart::ToolResult(rs) => {
                    if rs.len() == 0 {
                        return None;
                    }
                    match &rs[0] {
                        ResultPart::Text(t) => Some(t.clone()),
                        ResultPart::Other => None,
                    }
                },
                _ => None,
            }
        },
        _ => None,
    }
}

/// The system prompt of the reflection agent: its template with
/// `{tree_index}` replaced by the index of the notes, or by `(empty)` where
/// there are none.
pub open spec fn reflection_system_text(template: Seq<char>, entries: Seq<ContextEntry>) -> Seq<char> {
    replaced(
        template,
        "{tree_index}"@,
        if entries.len() == 0 {
            "(empty)"@
        } else {
            entry_lines_from(entries, 0)
        },
    )
}

/// The system prompt of the reflection agent (see `reflection_system_text`).
pub fn reflection_system_prompt(template: &str, entries: &Vec<ContextEntry>) -> (r: String)
    ensures
        r@ == reflection_system_text(template@, entries@),
{
    let index = if entries.len() == 0 {
        let mut s = String::new();
        push_str(&mut s, "(empty)");
        s
    } else {
        format_tree_index(entries)
    };
    proof {
        reveal_strlit("{tree_index}");
    }
    replace_all(template, "{tree_index}", index.as_str())
}

/// The system prompt of the clean-up agent: its template with `{tree}`
/// replaced by the index of the notes.
pub fn defrag_system_prompt(template: &str, entries: &Vec<ContextEntry>) -> (r: String)
    ensures
        r@ == replaced(template@, "{tree}"@, entry_lines_from(entries@, 0)),
{
    let index = format_tree_index(entries);
    proof {
        reveal_strlit("{tree}");
    }
    replace_all(template, "{tree}", index.as_str())
}

/// The request that starts a clean-up of the repository.
pub fn defrag_request() -> (r: &'static str)
    ensures
        r@ == "Please clean up the context repository now."@,
{
    "Please clean up the context repository now."
}

/// The most tool calls of a reflection on a finished ticket.
pub fn reflection_max_steps() -> (r: usize)
    ensures
        r == 10,
{
    10
}

/// The most tool calls of a clean-up of the repository.
pub fn defrag_max_steps() -> (r: usize)
    ensures
        r == 20,
{
    20
}

} // verus!
