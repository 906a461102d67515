use orga::cli::{
    artifact_source, check_summary, column_line, compaction_boundary, empty_listing_message,
    filter_tickets, prepare_ticket_view, ticket_detail_lines, ticket_filter, ticket_summary_line,
    ArtifactSource, TicketFilter,
};
use orga::models::{Column, Comment, CommentCompaction, Member, Ticket, TicketSummary, Timestamp};

fn sample_member() -> Member {
    Member { id: "m1".into(), username: "alice".into(), full_name: "Alice Example".into() }
}

fn instant(ts: &str) -> Timestamp {
    let d = chrono::DateTime::parse_from_rfc3339(ts).unwrap().with_timezone(&chrono::Utc);
    Timestamp { secs: d.timestamp(), nanos: d.timestamp_subsec_nanos() }
}

fn make_comments_at(timestamps: &[&str]) -> Vec<Comment> {
    timestamps
        .iter()
        .enumerate()
        .map(|(i, ts)| Comment {
            id: format!("c{i}"),
            at: instant(ts),
            who: sample_member(),
            content: format!("comment {i}"),
            agent_name: None,
        })
        .collect()
}

fn summary(id: &str, completed: bool, agent_last: bool) -> TicketSummary {
    TicketSummary {
        id: id.into(),
        title: "Fix login bug".into(),
        description: String::new(),
        list_id: "list-1".into(),
        list_name: "Doing".into(),
        url: "https://trello.com/c/abc123".into(),
        completed,
        creator: None,
        last_commenter_is_agent: agent_last,
        labels: vec![],
    }
}

fn sample_ticket() -> Ticket {
    Ticket {
        summary: summary("abc123", false, false),
        assignees: vec![],
        sub_tickets: vec![],
        comments: vec![],
        comment_compaction: None,
        compaction_suggested: false,
    }
}

fn is_after(a: Timestamp, b: Timestamp) -> bool {
    a.secs > b.secs || (a.secs == b.secs && a.nanos > b.nanos)
}

#[test]
fn compaction_filters_comments_before_boundary() {
    let mut ticket = sample_ticket();
    ticket.comments = make_comments_at(&[
        "2024-01-01T10:00:00Z",
        "2024-02-01T10:00:00Z",
        "2024-03-01T10:00:00Z",
        "2024-04-01T10:00:00Z",
    ]);
    let boundary = instant("2024-02-15T00:00:00Z");
    let rec = CommentCompaction {
        summary: "old discussion summarized".into(),
        compacted_through: boundary,
        compacted_count: 2,
    };
    prepare_ticket_view(&mut ticket, Some(rec), 5);
    assert_eq!(ticket.comments.len(), 2);
    assert!(ticket.comments.iter().all(|c| is_after(c.at, boundary)));
    assert!(ticket.comment_compaction.is_some());
    assert!(!ticket.compaction_suggested);
}

#[test]
fn compaction_suggested_when_over_threshold_and_no_record() {
    let mut ticket = sample_ticket();
    ticket.comments = make_comments_at(&[
        "2024-01-01T10:00:00Z",
        "2024-01-02T10:00:00Z",
        "2024-01-03T10:00:00Z",
        "2024-01-04T10:00:00Z",
        "2024-01-05T10:00:00Z",
        "2024-01-06T10:00:00Z",
    ]);
    prepare_ticket_view(&mut ticket, None, 5);
    assert!(ticket.compaction_suggested);
    assert!(ticket.comment_compaction.is_none());
}

#[test]
fn compaction_suggested_not_set_when_record_exists() {
    let mut ticket = sample_ticket();
    ticket.comments = make_comments_at(&[
        "2024-01-01T10:00:00Z",
        "2024-01-02T10:00:00Z",
        "2024-01-03T10:00:00Z",
        "2024-01-04T10:00:00Z",
        "2024-01-05T10:00:00Z",
        "2024-01-06T10:00:00Z",
    ]);
    let rec = CommentCompaction {
        summary: "summary".into(),
        compacted_through: instant("2024-01-03T00:00:00Z"),
        compacted_count: 3,
    };
    prepare_ticket_view(&mut ticket, Some(rec), 5);
    assert!(!ticket.compaction_suggested);
    assert!(ticket.comment_compaction.is_some());
}

#[test]
fn compaction_suggested_not_set_when_under_threshold() {
    let mut ticket = sample_ticket();
    ticket.comments = make_comments_at(&[
        "2024-01-01T10:00:00Z",
        "2024-01-02T10:00:00Z",
        "2024-01-03T10:00:00Z",
    ]);
    prepare_ticket_view(&mut ticket, None, 5);
    assert!(!ticket.compaction_suggested);
}

#[test]
fn filter_open_tickets() {
    let tickets = vec![summary("a", false, false), summary("b", true, false), summary("c", false, true)];
    let ids: Vec<String> =
        filter_tickets(tickets.clone(), ticket_filter(false, false)).into_iter().map(|t| t.id).collect();
    assert_eq!(ids, vec!["a".to_string()]);
    let done: Vec<String> =
        filter_tickets(tickets.clone(), ticket_filter(true, false)).into_iter().map(|t| t.id).collect();
    assert_eq!(done, vec!["b".to_string()]);
    assert_eq!(filter_tickets(tickets, ticket_filter(true, true)).len(), 3);
}

#[test]
fn listing_texts() {
    assert_eq!(empty_listing_message(TicketFilter::All), "No tickets assigned to you.");
    assert_eq!(empty_listing_message(TicketFilter::Completed), "No completed tickets.");
    assert_eq!(empty_listing_message(TicketFilter::Waiting), "No tickets waiting on you.");
    assert_eq!(column_line(&Column { id: "c1".into(), name: "To Do".into() }), "c1\tTo Do");
    assert_eq!(
        ticket_summary_line(&summary("abc123", false, false)),
        "[abc123] Fix login bug (Doing) — https://trello.com/c/abc123"
    );
}

#[test]
fn compaction_boundary_is_the_last_comment() {
    let mut t = sample_ticket();
    let now = Timestamp { secs: 99, nanos: 0 };
    assert_eq!(compaction_boundary(&t, now), (now, 0));
    t.comments = make_comments_at(&["2024-01-01T10:00:00Z", "2024-01-02T10:00:00Z"]);
    assert_eq!(compaction_boundary(&t, now), (instant("2024-01-02T10:00:00Z"), 2));
}

#[test]
fn summary_and_artifact_inputs_are_checked() {
    assert!(check_summary("done").is_ok());
    assert_eq!(check_summary("").unwrap_err().message(), "backend error: summary cannot be empty");
    match artifact_source(Some("text".into()), None).unwrap() {
        ArtifactSource::Inline(t) => assert_eq!(t, "text"),
        ArtifactSource::File(_) => panic!("expected inline content"),
    }
    match artifact_source(None, Some("notes.md".into())).unwrap() {
        ArtifactSource::File(f) => assert_eq!(f, "notes.md"),
        ArtifactSource::Inline(_) => panic!("expected a file"),
    }
    assert_eq!(
        artifact_source(None, None).err().unwrap().message(),
        "backend error: either inline content or --file must be provided"
    );
}

#[test]
fn detail_view_lines() {
    let mut t = sample_ticket();
    t.summary.creator = Some(sample_member());
    t.summary.description = "Login fails".into();
    t.sub_tickets = vec![summary("s1", true, false)];
    t.comments = make_comments_at(&["2024-01-01T10:00:00Z"]);
    t.comment_compaction = Some(CommentCompaction {
        summary: "earlier".into(),
        compacted_through: instant("2023-12-31T09:30:00Z"),
        compacted_count: 4,
    });
    let lines = ticket_detail_lines(&t).unwrap();
    assert_eq!(
        lines,
        vec![
            "# Fix login bug",
            "ID:        abc123",
            "List:      Doing",
            "URL:       https://trello.com/c/abc123",
            "Completed: no",
            "Creator:   @alice",
            "\n## Description\nLogin fails",
            "\n## Sub-tickets",
            "  [x] Fix login bug (s1) https://trello.com/c/abc123",
            "\n## Comments",
            "  [compacted: 4 comments through 2023-12-31 09:30]",
            "  Summary: earlier",
            "  ---",
            "  @alice at 2024-01-01 10:00:",
            "    comment 0",
        ]
    );
}
