//! The decisions of the command line: which tickets a listing shows, what a
//! ticket view adds, what a compaction covers, and the text it prints.

use vstd::prelude::*;

use crate::agent::work::{actionable_tickets, after_from, apply_compaction, waiting_from};
use crate::error::{is_backend_error, OrgaError};
use crate::models::{
    format_minute, minute_text, Column, Comment, CommentCompaction, Ticket, TicketSummary, Timestamp,
};
use crate::text::{decimal, decimal_string, join_strings, joined_by, push_str, str_to_string, views_of};

verus! {

broadcast use vstd::string::group_string_axioms;

/// Which assigned tickets a listing shows.
#[derive(Debug, Clone, Copy, PartialEq, Eq, Structural)]
pub enum TicketFilter {
    /// All of them.
    All,
    /// The completed ones.
    Completed,
    /// Those waiting on the agent.
    Waiting,
}

/// The filter that the flags ask for: `--all` wins, then `--completed`.
pub fn ticket_filter(completed: bool, all: bool) -> (r: TicketFilter)
    ensures
        r == if all {
            TicketFilter::All
        } else if completed {
            TicketFilter::Completed
        } else {
            TicketFilter::Waiting
        },
{
    if all {
        TicketFilter::All
    } else if completed {
        TicketFilter::Completed
    } else {
        TicketFilter::Waiting
    }
}

/// The completed tickets from index `k` on.
pub open spec fn completed_from(ts: Seq<TicketSummary>, k: int) -> Seq<TicketSummary>
    decreases ts.len() - k,
{
    if k < 0 || k >= ts.len() {
        seq![]
    } else if ts[k].completed {
        seq![ts[k]] + completed_from(ts, k + 1)
    } else {
        completed_from(ts, k + 1)
    }
}

proof fn lemma_completed_filter(ts: Seq<TicketSummary>, k: int)
    requires
        0 <= k <= ts.len(),
    ensures
        completed_from(ts, k) == ts.subrange(k, ts.len() as int).filter(|t: TicketSummary| t.completed),
    decreases ts.len() - k,
{
    let pred = |t: TicketSummary| t.completed;
    let sub = ts.subrange(k, ts.len() as int);
    if k == ts.len() {
        assert(sub =~= Seq::<TicketSummary>::empty());
        assert(sub.filter(pred) =~= Seq::<TicketSummary>::empty());
    } else {
        lemma_completed_filter(ts, k + 1);
        let rest = ts.subrange(k + 1, ts.len() as int);
        assert(sub =~= seq![ts[k]] + rest);
        rest.lemma_filter_prepend(ts[k], pred);
        if !ts[k].completed {
            assert(Seq::<TicketSummary>::empty() + rest.filter(pred) =~= rest.filter(pred));
        }
    }
}

/// Law of the completed listing: it shows exactly the completed tickets, in
/// their order.
pub proof fn lemma_completed_listing(ts: Seq<TicketSummary>)
    ensures
        shown(ts, TicketFilter::Completed) == ts.filter(|t: TicketSummary| t.completed),
{
    lemma_completed_filter(ts, 0);
    assert(ts.subrange(0, ts.len() as int) =~= ts);
}

/// The tickets a listing shows, in order.
pub open spec fn shown(ts: Seq<TicketSummary>, f: TicketFilter) -> Seq<TicketSummary> {
    match f {
        TicketFilter::All => ts,
        TicketFilter::Completed => completed_from(ts, 0),
        TicketFilter::Waiting => waiting_from(ts, 0),
    }
}

fn completed_tickets(tickets: Vec<TicketSummary>) -> (r: Vec<TicketSummary>)
    ensures
        r@ == completed_from(tickets@, 0),
{
    let ghost all = tickets@;
    let mut rest = tickets;
    let mut out: Vec<TicketSummary> = Vec::new();
    let n = rest.len();
    let mut k: usize = 0;
    while k < n
        invariant
            k <= n == all.len(),
            rest@ == all.subrange(k as int, n as int),
            out@ + completed_from(all, k as int) == completed_from(all, 0),
        decreases n - k,
    {
        let ghost before = out@;
        let t = rest.remove(0);
        assert(t == all[k as int]);
        if t.completed {
            out.push(t);
            assert(out@ + completed_from(all, k + 1) =~= before + completed_from(all, k as int));
        }
        k = k + 1;
        assert(rest@ =~= all.subrange(k as int, n as int));
    }
    assert(out@ =~= out@ + completed_from(all, k as int));
    out
}

/// The tickets a listing shows (see `shown`).
pub fn filter_tickets(tickets: Vec<TicketSummary>, filter: TicketFilter) -> (r: Vec<TicketSummary>)
    ensures
        r@ == shown(tickets@, filter),
{
    match filter {
        TicketFilter::All => tickets,
        TicketFilter::Completed => completed_tickets(tickets),
        TicketFilter::Waiting => actionable_tickets(tickets),
    }
}

/// What a listing prints where it shows no ticket.
pub open spec fn empty_listing_text(f: TicketFilter) -> Seq<char> {
    match f {
        TicketFilter::All => "No tickets assigned to you."@,
        TicketFilter::Completed => "No completed tickets."@,
        TicketFilter::Waiting => "No tickets waiting on you."@,
    }
}

/// What a listing prints where it shows no ticket (see `empty_listing_text`).
pub fn empty_listing_message(filter: TicketFilter) -> (r: &'static str)
    ensures
        r@ == empty_listing_text(filter),
{
    match filter {
        TicketFilter::All => "No tickets assigned to you.",
        TicketFilter::Completed => "No completed tickets.",
        TicketFilter::Waiting => "No tickets waiting on you.",
    }
}

/// The line of a column in a listing: its id and name, tab-separated.
pub fn column_line(c: &Column) -> (r: String)
    ensures
        r@ == c.id@ + "\t"@ + c.name@,
{
    let mut s = String::new();
    push_str(&mut s, c.id.as_str());
    push_str(&mut s, "\t");
    push_str(&mut s, c.name.as_str());
    s
}

/// The line of a ticket in a listing: `[id] title (column) — url`.
pub fn ticket_summary_line(t: &TicketSummary) -> (r: String)
    ensures
        r@ == "["@ + t.id@ + "] "@ + t.title@ + " ("@ + t.list_name@ + ") — "@ + t.url@,
{
    let mut s = String::new();
    push_str(&mut s, "[");
    push_str(&mut s, t.id.as_str());
    push_str(&mut s, "] ");
    push_str(&mut s, t.title.as_str());
    push_str(&mut s, " (");
    push_str(&mut s, t.list_name.as_str());
    push_str(&mut s, ") — ");
    push_str(&mut s, t.url.as_str());
    s
}

/// A ticket as the `show` command prepares it: with its stored compaction
/// applied, where there is one; else marked for compaction where it has more
/// comments than the threshold.
pub fn prepare_ticket_view(
    ticket: &mut Ticket,
    stored: Option<CommentCompaction>,
    threshold: usize,
)
    ensures
        match stored {
            Some(cc) => final(ticket).comments@ == after_from(
                old(ticket).comments@,
                cc.compacted_through,
                0,
            ) && final(ticket).comment_compaction == Some(cc) && final(ticket).compaction_suggested
                == old(ticket).compaction_suggested,
            None => final(ticket).comments == old(ticket).comments && final(ticket).comment_compaction
                == old(ticket).comment_compaction && final(ticket).compaction_suggested == (
            old(ticket).compaction_suggested || old(ticket).comments@.len() > threshold),
        },
        final(ticket).summary == old(ticket).summary,
        final(ticket).assignees == old(ticket).assignees,
        final(ticket).sub_tickets == old(ticket).sub_tickets,
{
    match stored {
        Some(cc) => {
            let CommentCompaction { summary, compacted_through, compacted_count } = cc;
            apply_compaction(ticket, summary, compacted_through, compacted_count);
        },
        None => {
            if ticket.comments.len() > threshold {
                ticket.compaction_suggested = true;
            }
        },
    }
}

/// What a compaction of the ticket's comments covers: through the last
/// comment's time (or `now` where there are none), and how many comments.
pub fn compaction_boundary(ticket: &Ticket, now: Timestamp) -> (r: (Timestamp, usize))
    ensures
        r.0 == if ticket.comments@.len() > 0 {
            ticket.comments@.last().at
        } else {
            now
        },
        r.1 == ticket.comments@.len(),
{
    let n = ticket.comments.len();
    if n > 0 {
        (ticket.comments[n - 1].at, n)
    } else {
        (now, 0)
    }
}

/// A compaction summary must have text.
pub fn check_summary(summary: &str) -> (r: Result<(), OrgaError>)
    ensures
        match r {
            Ok(()) => summary@.len() > 0,
            Err(e) => summary@.len() == 0 && is_backend_error(e, "summary cannot be empty"@),
        },
{
    if summary.is_empty() {
        Err(OrgaError::BackendError(str_to_string("summary cannot be empty")))
    } else {
        Ok(())
    }
}

/// Where the content of an artifact to commit comes from.
pub enum ArtifactSource {
    Inline(String),
    File(String),
}

/// The source of an artifact's content: the inline text or the file; one
/// of them must be given (the two together are refused before).
pub fn artifact_source(content: Option<String>, file: Option<String>) -> (r: Result<ArtifactSource, OrgaError>)
    requires
        !(content is Some && file is Some),
    ensures
        match content {
            Some(c) => r matches Ok(ArtifactSource::Inline(x)) && x == c,
            None => match file {
                Some(f) => r matches Ok(ArtifactSource::File(x)) && x == f,
                None => r matches Err(e) && is_backend_error(
                    e,
                    "either inline content or --file must be provided"@,
                ),
            },
        },
{
    match content {
        Some(c) => Ok(ArtifactSource::Inline(c)),
        None => match file {
            Some(f) => Ok(ArtifactSource::File(f)),
            None => Err(
                OrgaError::BackendError(str_to_string("either inline content or --file must be provided")),
            ),
        },
    }
}

/// `  [x] title (id) url` for each sub-ticket from index `k` on, a blank
/// mark for one that is open.
pub open spec fn detail_sub_lines_from(subs: Seq<TicketSummary>, k: int) -> Seq<Seq<char>>
    decreases subs.len() - k,
{
    if k < 0 || k >= subs.len() {
        seq![]
    } else {
        seq![
            "  ["@ + (if subs[k].completed {
                "x"@
            } else {
                " "@
            }) + "] "@ + subs[k].title@ + " ("@ + subs[k].id@ + ") "@ + subs[k].url@,
        ] + detail_sub_lines_from(subs, k + 1)
    }
}

/// Two lines for each comment from index `k` on: who wrote it when, and
/// its text indented.
pub open spec fn detail_comment_lines_from(cs: Seq<Comment>, times: Seq<Seq<char>>, k: int) -> Seq<Seq<char>>
    decreases cs.len() - k,
{
    if k < 0 || k >= cs.len() {
        seq![]
    } else {
        seq!["  @"@ + cs[k].who.username@ + " at "@ + times[k] + ":"@, "    "@ + cs[k].content@]
            + detail_comment_lines_from(cs, times, k + 1)
    }
}

/// The usernames of the assignees.
pub open spec fn assignee_names(t: Ticket) -> Seq<Seq<char>> {
    Seq::new(t.assignees@.len(), |i: int| t.assignees@[i].username@)
}

/// The head of a ticket's detail view: title, id, list, URL, completion,
/// creator, assignees, description and sub-tickets.
pub open spec fn detail_head(t: Ticket) -> Seq<Seq<char>> {
    let s = t.summary;
    let a = seq![
        "# "@ + s.title@,
        "ID:        "@ + s.id@,
        "List:      "@ + s.list_name@,
        "URL:       "@ + s.url@,
        "Completed: "@ + if s.completed {
            "yes"@
        } else {
            "no"@
        },
    ];
    let b = match s.creator {
        Some(c) => a.push("Creator:   @"@ + c.username@),
        None => a,
    };
    let c = if t.assignees@.len() > 0 {
        b.push("Assignees: "@ + joined_by(assignee_names(t), ", "@))
    } else {
        b
    };
    let d = if s.description@.len() > 0 {
        c.push("\n## Description\n"@ + s.description@)
    } else {
        c
    };
    if t.sub_tickets@.len() > 0 {
        d.push("\n## Sub-tickets"@) + detail_sub_lines_from(t.sub_tickets@, 0)
    } else {
        d
    }
}

/// The lines on the compaction in a ticket's detail view.
pub open spec fn detail_compaction(t: Ticket, compacted_time: Seq<char>) -> Seq<Seq<char>> {
    match t.comment_compaction {
        Some(cc) => {
            let h = seq![
                "  [compacted: "@ + decimal(cc.compacted_count as nat) + " comments through "@
                    + compacted_time + "]"@,
                "  Summary: "@ + cc.summary@,
            ];
            if t.comments@.len() > 0 {
                h.push("  ---"@)
            } else {
                h
            }
        },
        None => seq![],
    }
}

/// The comments part of a ticket's detail view, after its heading.
pub open spec fn detail_comments(t: Ticket, times: Seq<Seq<char>>, compacted_time: Seq<char>) -> Seq<Seq<char>> {
    let k = detail_compaction(t, compacted_time) + detail_comment_lines_from(t.comments@, times, 0);
    if t.compaction_suggested {
        k.push("  [compaction suggested: consider running `ticket compact` to reduce context]"@)
    } else {
        k
    }
}

/// The lines of a ticket's detail view, given the time texts of its comments
/// and of its compaction.
pub open spec fn detail_lines(t: Ticket, times: Seq<Seq<char>>, compacted_time: Seq<char>) -> Seq<Seq<char>> {
    if t.comments@.len() > 0 || t.comment_compaction is Some || t.compaction_suggested {
        detail_head(t).push("\n## Comments"@) + detail_comments(t, times, compacted_time)
    } else {
        detail_head(t)
    }
}

fn detail_head_exec(ticket: &Ticket) -> (r: Vec<String>)
    ensures
        views_of(r@) == detail_head(*ticket),
{
    let s = &ticket.summary;
    let mut out: Vec<String> = Vec::new();
    let mut l = String::new();
    push_str(&mut l, "# ");
    push_str(&mut l, s.title.as_str());
    out.push(l);
    let mut l = String::new();
    push_str(&mut l, "ID:        ");
    push_str(&mut l, s.id.as_str());
    out.push(l);
    let mut l = String::new();
    push_str(&mut l, "List:      ");
    push_str(&mut l, s.list_name.as_str());
    out.push(l);
    let mut l = String::new();
    push_str(&mut l, "URL:       ");
    push_str(&mut l, s.url.as_str());
    out.push(l);
    let mut l = String::new();
    push_str(&mut l, "Completed: ");
    if s.completed {
        push_str(&mut l, "yes");
    } else {
        push_str(&mut l, "no");
    }
    out.push(l);
    match &s.creator {
        Some(c) => {
            let mut l = String::new();
            push_str(&mut l, "Creator:   @");
            push_str(&mut l, c.username.as_str());
            out.push(l);
        },
        None => {},
    }
    if ticket.assignees.len() > 0 {
        let mut names: Vec<String> = Vec::new();
        let mut i: usize = 0;
        while i < ticket.assignees.len()
            invariant
                i <= ticket.assignees@.len(),
                views_of(names@) == assignee_names(*ticket).subrange(0, i as int),
            decreases ticket.assignees@.len() - i,
        {
            let ghost before = views_of(names@);
            names.push(ticket.assignees[i].username.clone());
            assert(views_of(names@) =~= before.push(ticket.assignees@[i as int].username@));
            i = i + 1;
            assert(views_of(names@) =~= assignee_names(*ticket).subrange(0, i as int));
        }
        assert(assignee_names(*ticket).subrange(0, i as int) =~= assignee_names(*ticket));
        let joined = join_strings(names.as_slice(), ", ");
        proof {
            reveal_strlit(", ");
        }
        let mut l = String::new();
        push_str(&mut l, "Assignees: ");
        push_str(&mut l, joined.as_str());
        out.push(l);
    }
    if !s.description.as_str().is_empty() {
        let mut l = String::new();
        push_str(&mut l, "\n## Description\n");
        push_str(&mut l, s.description.as_str());
        out.push(l);
    }
    if ticket.sub_tickets.len() > 0 {
        out.push(str_to_string("\n## Sub-tickets"));
        let ghost start = views_of(out@);
        let mut k: usize = 0;
        while k < ticket.sub_tickets.len()
            invariant
                k <= ticket.sub_tickets@.len(),
                views_of(out@) + detail_sub_lines_from(ticket.sub_tickets@, k as int) == start
                    + detail_sub_lines_from(ticket.sub_tickets@, 0),
            decreases ticket.sub_tickets@.len() - k,
        {
            let sub = &ticket.sub_tickets[k];
            let mut l = String::new();
            push_str(&mut l, "  [");
            if sub.completed {
                push_str(&mut l, "x");
            } else {
                push_str(&mut l, " ");
            }
            push_str(&mut l, "] ");
            push_str(&mut l, sub.title.as_str());
            push_str(&mut l, " (");
            push_str(&mut l, sub.id.as_str());
            push_str(&mut l, ") ");
            push_str(&mut l, sub.url.as_str());
            let ghost before = views_of(out@);
            let ghost lv = l@;
            out.push(l);
            assert(views_of(out@) =~= before.push(lv));
            assert(views_of(out@) + detail_sub_lines_from(ticket.sub_tickets@, k + 1) =~= before
                + detail_sub_lines_from(ticket.sub_tickets@, k as int));
            k = k + 1;
        }
        assert(views_of(out@) =~= views_of(out@) + detail_sub_lines_from(ticket.sub_tickets@, k as int));
    }
    assert(views_of(out@) =~= detail_head(*ticket));
    out
}

fn detail_comments_exec(ticket: &Ticket, comment_times: &Vec<String>, compacted_time: &str) -> (r:
    Vec<String>)
    requires
        comment_times@.len() == ticket.comments@.len(),
    ensures
        views_of(r@) == detail_comments(*ticket, views_of(comment_times@), compacted_time@),
{
    let mut out: Vec<String> = Vec::new();
    match &ticket.comment_compaction {
            Some(cc) => {
                let mut l = String::new();
                push_str(&mut l, "  [compacted: ");
                let n = decimal_string(cc.compacted_count as u64);
                push_str(&mut l, n.as_str());
                push_str(&mut l, " comments through ");
                push_str(&mut l, compacted_time);
                push_str(&mut l, "]");
                out.push(l);
                let mut l = String::new();
                push_str(&mut l, "  Summary: ");
                push_str(&mut l, cc.summary.as_str());
                out.push(l);
                if ticket.comments.len() > 0 {
                    out.push(str_to_string("  ---"));
                }
            },
            None => {},
        }
        assert(views_of(out@) =~= detail_compaction(*ticket, compacted_time@));
        let ghost start = views_of(out@);
        let ghost tv = views_of(comment_times@);
        let mut k: usize = 0;
        while k < ticket.comments.len()
            invariant
                k <= ticket.comments@.len(),
                comment_times@.len() == ticket.comments@.len(),
                tv == views_of(comment_times@),
                views_of(out@) + detail_comment_lines_from(ticket.comments@, tv, k as int) == start
                    + detail_comment_lines_from(ticket.comments@, tv, 0),
            decreases ticket.comments@.len() - k,
        {
            let c = &ticket.comments[k];
            let mut a = String::new();
            push_str(&mut a, "  @");
            push_str(&mut a, c.who.username.as_str());
            push_str(&mut a, " at ");
            push_str(&mut a, comment_times[k].as_str());
            push_str(&mut a, ":");
            let mut b = String::new();
            push_str(&mut b, "    ");
            push_str(&mut b, c.content.as_str());
            let ghost before = views_of(out@);
            let ghost av = a@;
            let ghost bv = b@;
            out.push(a);
            out.push(b);
            assert(views_of(out@) =~= before.push(av).push(bv));
            assert(views_of(out@) + detail_comment_lines_from(ticket.comments@, tv, k + 1) =~= before
                + detail_comment_lines_from(ticket.comments@, tv, k as int));
            k = k + 1;
        }
        assert(views_of(out@) =~= views_of(out@) + detail_comment_lines_from(
            ticket.comments@,
            tv,
            k as int,
        ));
        if ticket.compaction_suggested {
            out.push(
                str_to_string(
                    "  [compaction suggested: consider running `ticket compact` to reduce context]",
                ),
            );
        }
        assert(views_of(out@) =~= detail_comments(
            *ticket,
            views_of(comment_times@),
            compacted_time@,
        ));
    out
}

/// The lines of a ticket's detail view (see `detail_lines`), given the
/// time texts of its comments and of its compaction.
pub fn ticket_detail_lines_with(ticket: &Ticket, comment_times: &Vec<String>, compacted_time: &str) -> (r:
    Vec<String>)
    requires
        comment_times@.len() == ticket.comments@.len(),
    ensures
        views_of(r@) == detail_lines(*ticket, views_of(comment_times@), compacted_time@),
{
    let mut out = detail_head_exec(ticket);
    if ticket.comments.len() > 0 || ticket.comment_compaction.is_some() || ticket.compaction_suggested {
        out.push(str_to_string("\n## Comments"));
        let ghost before = views_of(out@);
        let mut rest = detail_comments_exec(ticket, comment_times, compacted_time);
        let ghost rv = views_of(rest@);
        out.append(&mut rest);
        assert(views_of(out@) =~= before + rv);
    }
    out
}

/// The time texts of the comments of a ticket.
pub open spec fn comment_minutes(t: Ticket) -> Seq<Seq<char>> {
    Seq::new(
        t.comments@.len(),
        |k: int| minute_text(t.comments@[k].at.secs, t.comments@[k].at.nanos)->0,
    )
}

/// The time texts of the ticket's comments and compaction all exist.
pub open spec fn minutes_exist(t: Ticket) -> bool {
    &&& forall|k: int|
        0 <= k < t.comments@.len() ==> minute_text(
            #[trigger] t.comments@[k].at.secs,
            t.comments@[k].at.nanos,
        ) is Some
    &&& match t.comment_compaction {
        Some(cc) => minute_text(cc.compacted_through.secs, cc.compacted_through.nanos) is Some,
        None => true,
    }
}

/// The lines of a ticket's detail view, with its times written as
/// `%Y-%m-%d %H:%M`; `None` where a time has no text in `chrono`'s calendar.
pub fn ticket_detail_lines(ticket: &Ticket) -> (r: Option<Vec<String>>)
    ensures
        r is Some <==> minutes_exist(*ticket),
        r matches Some(lines) ==> views_of(lines@) == detail_lines(
            *ticket,
            comment_minutes(*ticket),
            match ticket.comment_compaction {
                Some(cc) => minute_text(cc.compacted_through.secs, cc.compacted_through.nanos)->0,
                None => Seq::empty(),
            },
        ),
{
    let mut times: Vec<String> = Vec::new();
    let mut k: usize = 0;
    while k < ticket.comments.len()
        invariant
            k <= ticket.comments@.len(),
            views_of(times@) == comment_minutes(*ticket).subrange(0, k as int),
            forall|m: int|
                0 <= m < k ==> minute_text(
                    #[trigger] ticket.comments@[m].at.secs,
                    ticket.comments@[m].at.nanos,
                ) is Some,
        decreases ticket.comments@.len() - k,
    {
        match format_minute(ticket.comments[k].at) {
            Some(t) => {
                let ghost before = views_of(times@);
                let ghost tv = t@;
                times.push(t);
                assert(views_of(times@) =~= before.push(tv));
            },
            None => {
                return None;
            },
        }
        k = k + 1;
        assert(views_of(times@) =~= comment_minutes(*ticket).subrange(0, k as int));
    }
    assert(comment_minutes(*ticket).subrange(0, k as int) =~= comment_minutes(*ticket));
    let compacted = match &ticket.comment_compaction {
        Some(cc) => match format_minute(cc.compacted_through) {
            Some(t) => t,
            None => {
                return None;
            },
        },
        None => String::new(),
    };
    Some(ticket_detail_lines_with(ticket, &times, compacted.as_str()))
}

} // verus!
