//! The board data that the crate works on: tickets, their comments and the
//! people on them.

use vstd::prelude::*;

verus! {

/// A point in time: whole seconds since the Unix epoch and the nanoseconds
/// past that second.
#[derive(Debug, Clone, Copy, PartialEq, Eq, Structural)]
pub struct Timestamp {
    pub secs: i64,
    pub nanos: u32,
}

/// `a` is strictly earlier than `b`.
pub open spec fn ts_before(a: Timestamp, b: Timestamp) -> bool {
    a.secs < b.secs || (a.secs == b.secs && a.nanos < b.nanos)
}

impl Timestamp {
    /// Whether `self` is strictly earlier than `other`.
    pub fn is_before(&self, other: &Timestamp) -> (r: bool)
        ensures
            r == ts_before(*self, *other),
    {
        self.secs < other.secs || (self.secs == other.secs && self.nanos < other.nanos)
    }
}

/// A column (list, workflow state) of the board.
#[derive(Debug, Clone)]
pub struct Column {
    pub id: String,
    pub name: String,
}

/// A person on the board.
#[derive(Debug, Clone)]
pub struct Member {
    pub id: String,
    pub username: String,
    pub full_name: String,
}

impl Member {
    /// A copy of the member.
    pub fn duplicate(&self) -> (r: Member)
        ensures
            r == *self,
    {
        Member { id: self.id.clone(), username: self.username.clone(), full_name: self.full_name.clone() }
    }
}

/// A comment on a ticket; `agent_name` is set where an agent posted it.
#[derive(Debug, Clone)]
pub struct Comment {
    pub id: String,
    pub at: Timestamp,
    pub who: Member,
    pub content: String,
    pub agent_name: Option<String>,
}

/// A summary of the comments that were compacted away.
#[derive(Debug, Clone)]
pub struct CommentCompaction {
    pub summary: String,
    pub compacted_through: Timestamp,
    pub compacted_count: usize,
}

/// What a board listing shows of a ticket.
#[derive(Debug, Clone)]
pub struct TicketSummary {
    pub id: String,
    pub title: String,
    pub description: String,
    pub list_id: String,
    pub list_name: String,
    pub url: String,
    pub completed: bool,
    pub creator: Option<Member>,
    pub last_commenter_is_agent: bool,
    pub labels: Vec<String>,
}

/// A ticket with its assignees, sub-tickets and comments.
#[derive(Debug, Clone)]
pub struct Ticket {
    pub summary: TicketSummary,
    pub assignees: Vec<Member>,
    pub sub_tickets: Vec<TicketSummary>,
    pub comments: Vec<Comment>,
    pub comment_compaction: Option<CommentCompaction>,
    pub compaction_suggested: bool,
}

/// `a` is not later than `b`.
pub open spec fn ts_le(a: Timestamp, b: Timestamp) -> bool {
    !ts_before(b, a)
}

/// A member as mathematical values: id, username, full name.
pub open spec fn member_view(m: Member) -> (Seq<char>, Seq<char>, Seq<char>) {
    (m.id@, m.username@, m.full_name@)
}

/// A comment as mathematical values.
pub ghost struct CommentView {
    pub id: Seq<char>,
    pub at: Timestamp,
    pub who: (Seq<char>, Seq<char>, Seq<char>),
    pub content: Seq<char>,
    pub agent_name: Option<Seq<char>>,
}

/// A comment as mathematical values.
pub open spec fn comment_view(c: Comment) -> CommentView {
    CommentView {
        id: c.id@,
        at: c.at,
        who: member_view(c.who),
        content: c.content@,
        agent_name: match c.agent_name {
            Some(n) => Some(n@),
            None => None,
        },
    }
}

/// A list of comments as mathematical values.
pub open spec fn comment_views(s: Seq<Comment>) -> Seq<CommentView> {
    Seq::new(s.len(), |i: int| comment_view(s[i]))
}

/// The comments are in time order.
pub open spec fn sorted_by_time(s: Seq<CommentView>) -> bool {
    forall|i: int, j: int| 0 <= i < j < s.len() ==> ts_le(#[trigger] s[i].at, #[trigger] s[j].at)
}

/// The comments of `s` made at the time `t`, in their order.
pub open spec fn made_at(s: Seq<CommentView>, t: Timestamp) -> Seq<CommentView> {
    s.filter(|c: CommentView| c.at == t)
}

/// `out` is `input` sorted by time, with comments of the same time in the
/// order that they had (a stable sort).
pub open spec fn stably_sorted(input: Seq<CommentView>, out: Seq<CommentView>) -> bool {
    sorted_by_time(out) && forall|t: Timestamp| #[trigger] made_at(out, t) == made_at(input, t)
}

proof fn lemma_made_at_insert(s: Seq<CommentView>, k: int, x: CommentView, t: Timestamp)
    requires
        0 <= k <= s.len(),
        forall|m: int| k <= m < s.len() ==> ts_before(x.at, #[trigger] s[m].at),
    ensures
        made_at(s.insert(k, x), t) == if x.at == t {
            made_at(s, t).push(x)
        } else {
            made_at(s, t)
        },
{
    let pred = |c: CommentView| c.at == t;
    let a = s.subrange(0, k);
    let b = s.subrange(k, s.len() as int);
    assert(s =~= a + b);
    assert(s.insert(k, x) =~= a.push(x) + b);
    Seq::filter_distributes_over_add(a, b, pred);
    Seq::filter_distributes_over_add(a.push(x), b, pred);
    a.lemma_filter_push(x, pred);
    if x.at == t {
        assert forall|m: int| 0 <= m < b.len() implies !pred(#[trigger] b[m]) by {
            assert(b[m] == s[k + m]);
        }
        b.lemma_all_neg_filter_empty(pred);
        assert(b.filter(pred) =~= Seq::<CommentView>::empty());
        assert(made_at(s.insert(k, x), t) =~= made_at(s, t).push(x));
    }
}

/// Sorts the comments by time, keeping comments of the same time in their
/// order.
pub fn sort_comments_by_time(v: Vec<Comment>) -> (r: Vec<Comment>)
    ensures
        stably_sorted(comment_views(v@), comment_views(r@)),
{
    let mut out: Vec<Comment> = Vec::new();
    let mut rest = v;
    let ghost input = comment_views(rest@);
    let n = rest.len();
    let mut i: usize = 0;
    while rest.len() > 0
        invariant
            n == input.len(),
            i + rest@.len() == input.len(),
            comment_views(rest@) == input.subrange(i as int, input.len() as int),
            sorted_by_time(comment_views(out@)),
            forall|t: Timestamp| #[trigger] made_at(comment_views(out@), t) == made_at(
                input.subrange(0, i as int),
                t,
            ),
        decreases rest@.len(),
    {
        let ghost rest_before = rest@;
        let x = rest.remove(0);
        assert(rest@ == rest_before.remove(0));
        assert(comment_views(rest@) =~= comment_views(rest_before).subrange(1, rest_before.len() as int));
        let ghost xv = comment_view(x);
        assert(comment_views(rest_before)[0] == xv);
        assert(xv == input[i as int]);
        let mut k: usize = 0;
        while k < out.len() && !x.at.is_before(&out[k].at)
            invariant
                k <= out@.len(),
                forall|m: int| 0 <= m < k ==> ts_le(#[trigger] out@[m].at, x.at),
            decreases out@.len() - k,
        {
            k = k + 1;
        }
        let ghost before = comment_views(out@);
        proof {
            assert forall|m: int| k <= m < before.len() implies ts_before(xv.at, #[trigger] before[m].at) by {
                assert(ts_le(before[k as int].at, before[m].at));
            }
            assert forall|t: Timestamp| #[trigger] made_at(before.insert(k as int, xv), t) == made_at(
                input.subrange(0, i + 1),
                t,
            ) by {
                lemma_made_at_insert(before, k as int, xv, t);
                assert(input.subrange(0, i + 1) =~= input.subrange(0, i as int).push(xv));
                input.subrange(0, i as int).lemma_filter_push(xv, |c: CommentView| c.at == t);
            }
        }
        out.insert(k, x);
        assert(comment_views(out@) =~= before.insert(k as int, xv));
        proof {
            let ov = comment_views(out@);
            assert forall|a: int, b: int| 0 <= a < b < ov.len() implies ts_le(
                #[trigger] ov[a].at,
                #[trigger] ov[b].at,
            ) by {
                if b < k {
                } else if b == k {
                } else if a == k {
                } else if a < k {
                    assert(ts_le(before[a].at, xv.at));
                    assert(ts_before(xv.at, before[b - 1].at));
                } else {
                }
            }
        }
        i = i + 1;
        assert(comment_views(rest@) =~= input.subrange(i as int, input.len() as int));
    }
    assert(input.subrange(0, i as int) =~= input);
    out
}

/// What `DateTime::parse_from_rfc3339` makes of `s`, taken to UTC: whole
/// seconds since the Unix epoch and the nanoseconds past them; `None` where
/// `s` is not an RFC 3339 date and time.
pub uninterp spec fn rfc3339_instant(s: Seq<char>) -> Option<(i64, u32)>;

/// The instant that the RFC 3339 text `s` names, where it names one.
pub open spec fn instant_of(s: Seq<char>) -> Option<Timestamp> {
    match rfc3339_instant(s) {
        Some(p) => Some(Timestamp { secs: p.0, nanos: p.1 }),
        None => None,
    }
}

/// `chrono::DateTime::parse_from_rfc3339`, taken to UTC.
#[verifier::external_body]
pub(crate) fn parse_rfc3339(s: &str) -> (r: Option<Timestamp>)
    ensures
        match r {
            Some(t) => rfc3339_instant(s@) == Some((t.secs, t.nanos)),
            None => rfc3339_instant(s@) is None,
        },
{
    match chrono::DateTime::parse_from_rfc3339(s) {
        Ok(d) => {
            let u = d.with_timezone(&chrono::Utc);
            Some(Timestamp { secs: u.timestamp(), nanos: u.timestamp_subsec_nanos() })
        },
        Err(_) => None,
    }
}

/// An optional member as mathematical values.
pub open spec fn opt_member_view(m: Option<Member>) -> Option<(Seq<char>, Seq<char>, Seq<char>)> {
    match m {
        Some(x) => Some(member_view(x)),
        None => None,
    }
}

/// A list of members as mathematical values.
pub open spec fn member_views(s: Seq<Member>) -> Seq<(Seq<char>, Seq<char>, Seq<char>)> {
    Seq::new(s.len(), |i: int| member_view(s[i]))
}

/// A ticket summary as mathematical values.
pub ghost struct SummaryView {
    pub id: Seq<char>,
    pub title: Seq<char>,
    pub description: Seq<char>,
    pub list_id: Seq<char>,
    pub list_name: Seq<char>,
    pub url: Seq<char>,
    pub completed: bool,
    pub creator: Option<(Seq<char>, Seq<char>, Seq<char>)>,
    pub last_commenter_is_agent: bool,
    pub labels: Seq<Seq<char>>,
}

/// A ticket summary as mathematical values.
pub open spec fn summary_view(t: TicketSummary) -> SummaryView {
    SummaryView {
        id: t.id@,
        title: t.title@,
        description: t.description@,
        list_id: t.list_id@,
        list_name: t.list_name@,
        url: t.url@,
        completed: t.completed,
        creator: opt_member_view(t.creator),
        last_commenter_is_agent: t.last_commenter_is_agent,
        labels: Seq::new(t.labels@.len(), |i: int| t.labels@[i]@),
    }
}

/// A list of ticket summaries as mathematical values.
pub open spec fn summary_views(s: Seq<TicketSummary>) -> Seq<SummaryView> {
    Seq::new(s.len(), |i: int| summary_view(s[i]))
}

/// A `strftime` pattern that uses no directive but the year, month, day,
/// hour, minute and second ones: every `%` is followed by one of `Y`, `m`,
/// `d`, `H`, `M` or `S`.
pub open spec fn plain_pattern(p: Seq<char>) -> bool {
    forall|i: int|
        0 <= i < p.len() && #[trigger] p[i] == '%' ==> i + 1 < p.len() && (p[i + 1] == 'Y' || p[i + 1]
            == 'm' || p[i + 1] == 'd' || p[i + 1] == 'H' || p[i + 1] == 'M' || p[i + 1] == 'S')
}

/// What `chrono` writes for the instant `secs` seconds and `nanos`
/// nanoseconds after the Unix epoch (UTC) in the `strftime` pattern
/// `pattern`; `None` where `DateTime::from_timestamp` has no such instant.
pub uninterp spec fn formatted_instant(secs: i64, nanos: u32, pattern: Seq<char>) -> Option<Seq<char>>;

/// `DateTime::from_timestamp` in UTC, written by `format(pattern)`. A plain
/// pattern has no directive that could fail to write, so the writing does
/// not panic.
#[verifier::external_body]
fn format_instant(t: Timestamp, pattern: &str) -> (r: Option<String>)
    requires
        plain_pattern(pattern@),
    ensures
        match r {
            Some(s) => formatted_instant(t.secs, t.nanos, pattern@) == Some(s@),
            None => formatted_instant(t.secs, t.nanos, pattern@) is None,
        },
{
    match chrono::DateTime::from_timestamp(t.secs, t.nanos) {
        Some(d) => Some(d.format(pattern).to_string()),
        None => None,
    }
}

/// The pattern in which comment times are shown: `%Y-%m-%d %H:%M`.
pub open spec fn minute_pattern() -> Seq<char> {
    "%Y-%m-%d %H:%M"@
}

/// An instant written to the minute (see `minute_pattern`).
pub open spec fn minute_text(secs: i64, nanos: u32) -> Option<Seq<char>> {
    formatted_instant(secs, nanos, minute_pattern())
}

/// The instant `t` written to the minute, where chrono has such an instant.
pub fn format_minute(t: Timestamp) -> (r: Option<String>)
    ensures
        match r {
            Some(s) => minute_text(t.secs, t.nanos) == Some(s@),
            None => minute_text(t.secs, t.nanos) is None,
        },
{
    let pattern = "%Y-%m-%d %H:%M";
    proof {
        reveal_strlit("%Y-%m-%d %H:%M");
        assert(pattern@ == seq!['%', 'Y', '-', '%', 'm', '-', '%', 'd', ' ', '%', 'H', ':', '%', 'M']);
        assert forall|i: int|
            0 <= i < pattern@.len() && #[trigger] pattern@[i] == '%' implies i + 1 < pattern@.len() && (
            pattern@[i + 1] == 'Y' || pattern@[i + 1] == 'm' || pattern@[i + 1] == 'd' || pattern@[i + 1]
                == 'H' || pattern@[i + 1] == 'M' || pattern@[i + 1] == 'S') by {
            assert(i == 0 || i == 3 || i == 6 || i == 9 || i == 12);
        }
    }
    format_instant(t, pattern)
}

} // verus!
