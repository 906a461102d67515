use orga::board::linear::{
    is_completed_state, linear_issue_to_summary, linear_issue_to_ticket, linear_label_names,
    linear_state_id, linear_state_name, member_from_user, LinearChildIssue, LinearComment,
    LinearCommentSummary, LinearIssue, LinearIssueSummary, LinearLabel, LinearState, LinearUser,
    Nodes,
};

fn make_summary_comment(body: &str, created_at: &str) -> LinearCommentSummary {
    LinearCommentSummary { body: body.into(), created_at: created_at.into() }
}

fn make_issue_summary(comments: Vec<LinearCommentSummary>) -> LinearIssueSummary {
    LinearIssueSummary {
        id: "issue-1".into(),
        title: "Test".into(),
        description: None,
        url: "https://linear.app/test/issue/TEST-1".into(),
        state: Some(LinearState {
            id: "state-1".into(),
            name: "Todo".into(),
            state_type: Some("unstarted".into()),
        }),
        creator: None,
        comments: Nodes { nodes: comments },
        labels: None,
    }
}

fn make_full_issue(children: Vec<LinearChildIssue>) -> LinearIssue {
    LinearIssue {
        id: "issue-1".into(),
        title: "Parent".into(),
        description: None,
        url: "https://linear.app/test/issue/TEST-1".into(),
        state: Some(LinearState {
            id: "state-1".into(),
            name: "Todo".into(),
            state_type: Some("unstarted".into()),
        }),
        creator: None,
        assignee: None,
        comments: Nodes { nodes: vec![] },
        children: Nodes { nodes: children },
        labels: None,
    }
}

fn make_state(id: &str, name: &str, kind: Option<&str>) -> LinearState {
    LinearState { id: id.into(), name: name.into(), state_type: kind.map(|s| s.to_string()) }
}

fn make_user(id: &str, display_name: &str) -> LinearUser {
    LinearUser { id: id.into(), display_name: display_name.into() }
}

#[test]
fn last_commenter_is_agent_true_when_tagged() {
    let issue = make_issue_summary(vec![
        make_summary_comment("human comment", "2024-01-01T10:00:00Z"),
        make_summary_comment("agent reply\n\n_[orga:agent-1]_", "2024-01-01T11:00:00Z"),
    ]);
    let summary = linear_issue_to_summary(&issue);
    assert!(summary.last_commenter_is_agent);
}

#[test]
fn last_commenter_is_agent_false_when_not_tagged() {
    let issue = make_issue_summary(vec![
        make_summary_comment("agent reply\n\n_[orga:agent-1]_", "2024-01-01T10:00:00Z"),
        make_summary_comment("human reply", "2024-01-01T11:00:00Z"),
    ]);
    let summary = linear_issue_to_summary(&issue);
    assert!(!summary.last_commenter_is_agent);
}

#[test]
fn last_commenter_is_agent_true_when_agent_is_latest_by_timestamp() {
    let issue = make_issue_summary(vec![
        make_summary_comment("agent reply\n\n_[orga:agent-1]_", "2024-01-01T12:00:00Z"),
        make_summary_comment("human reply", "2024-01-01T10:00:00Z"),
    ]);
    let summary = linear_issue_to_summary(&issue);
    assert!(summary.last_commenter_is_agent);
}

#[test]
fn last_commenter_is_agent_false_when_no_comments() {
    let issue = make_issue_summary(vec![]);
    let summary = linear_issue_to_summary(&issue);
    assert!(!summary.last_commenter_is_agent);
}

#[test]
fn last_commenter_ignores_comment_with_unreadable_time() {
    let issue = make_issue_summary(vec![
        make_summary_comment("human reply", "2024-01-01T10:00:00Z"),
        make_summary_comment("agent reply\n\n_[orga:agent-1]_", "yesterday"),
    ]);
    let summary = linear_issue_to_summary(&issue);
    assert!(!summary.last_commenter_is_agent);
}

#[test]
fn issue_summary_copies_fields_and_state() {
    let mut issue = make_issue_summary(vec![]);
    issue.description = Some("details".into());
    issue.creator = Some(make_user("u9", "Zed"));
    issue.labels = Some(Nodes { nodes: vec![LinearLabel { name: "bug".into() }] });
    let summary = linear_issue_to_summary(&issue);
    assert_eq!(summary.id, "issue-1");
    assert_eq!(summary.title, "Test");
    assert_eq!(summary.description, "details");
    assert_eq!(summary.list_id, "state-1");
    assert_eq!(summary.list_name, "Todo");
    assert!(!summary.completed);
    assert_eq!(summary.creator.unwrap().username, "Zed");
    assert_eq!(summary.labels, vec!["bug".to_string()]);
}

#[test]
fn get_ticket_maps_sub_issues_to_sub_tickets() {
    let issue = make_full_issue(vec![
        LinearChildIssue {
            id: "sub-1".into(),
            title: "Fix bug".into(),
            url: "https://linear.app/sub-1".into(),
            state: Some(LinearState {
                id: "s1".into(),
                name: "Done".into(),
                state_type: Some("completed".into()),
            }),
        },
        LinearChildIssue {
            id: "sub-2".into(),
            title: "Write test".into(),
            url: "https://linear.app/sub-2".into(),
            state: Some(LinearState {
                id: "s2".into(),
                name: "Todo".into(),
                state_type: Some("unstarted".into()),
            }),
        },
    ]);
    let ticket = linear_issue_to_ticket(&issue);
    assert_eq!(ticket.sub_tickets.len(), 2);
    assert_eq!(ticket.sub_tickets[0].title, "Fix bug");
    assert!(ticket.sub_tickets[0].completed);
    assert_eq!(ticket.sub_tickets[0].url, "https://linear.app/sub-1");
    assert_eq!(ticket.sub_tickets[1].title, "Write test");
    assert!(!ticket.sub_tickets[1].completed);
}

#[test]
fn get_ticket_no_sub_issues_empty_sub_tickets() {
    let issue = make_full_issue(vec![]);
    let ticket = linear_issue_to_ticket(&issue);
    assert!(ticket.sub_tickets.is_empty());
}

#[test]
fn get_ticket_orders_comments_by_time_and_reads_tags() {
    let mut issue = make_full_issue(vec![]);
    issue.comments = Nodes {
        nodes: vec![
            LinearComment {
                id: "c2".into(),
                body: "later\n\n_[orga:bot]_".into(),
                created_at: "2024-01-02T00:00:00Z".into(),
                user: Some(make_user("u1", "Alice")),
            },
            LinearComment {
                id: "c1".into(),
                body: "earlier".into(),
                created_at: "2024-01-01T00:00:00+02:00".into(),
                user: Some(make_user("u2", "Bob")),
            },
            LinearComment {
                id: "c3".into(),
                body: "no author".into(),
                created_at: "2024-01-03T00:00:00Z".into(),
                user: None,
            },
        ],
    };
    let ticket = linear_issue_to_ticket(&issue);
    assert_eq!(ticket.comments.len(), 2);
    assert_eq!(ticket.comments[0].id, "c1");
    assert_eq!(ticket.comments[0].who.username, "Bob");
    assert_eq!(ticket.comments[1].content, "later");
    assert_eq!(ticket.comments[1].agent_name, Some("bot".to_string()));
}

#[test]
fn member_from_user_copies_id_and_display_name_to_all_fields() {
    let m = member_from_user(&make_user("u1", "Alice"));
    assert_eq!(m.id, "u1");
    assert_eq!(m.username, "Alice");
    assert_eq!(m.full_name, "Alice");
}

#[test]
fn linear_state_name_and_id_extract_from_present_state() {
    let s = Some(make_state("s1", "Todo", Some("unstarted")));
    assert_eq!(linear_state_name(&s), "Todo");
    assert_eq!(linear_state_id(&s), "s1");
}

#[test]
fn linear_state_name_and_id_return_empty_for_none_state() {
    let s: Option<LinearState> = None;
    assert_eq!(linear_state_name(&s), "");
    assert_eq!(linear_state_id(&s), "");
}

#[test]
fn is_completed_state_true_for_completed_and_cancelled() {
    assert!(is_completed_state(&Some(make_state("s", "x", Some("completed")))));
    assert!(is_completed_state(&Some(make_state("s", "x", Some("cancelled")))));
    assert!(!is_completed_state(&Some(make_state("s", "x", Some("unstarted")))));
    assert!(!is_completed_state(&Some(make_state("s", "x", None))));
    assert!(!is_completed_state(&None));
}

#[test]
fn linear_label_names_filters_empty_and_handles_none() {
    let labels = Nodes {
        nodes: vec![
            LinearLabel { name: "bug".into() },
            LinearLabel { name: "".into() },
            LinearLabel { name: "auth".into() },
        ],
    };
    assert_eq!(linear_label_names(Some(&labels)), vec!["bug".to_string(), "auth".to_string()]);
    assert!(linear_label_names(None).is_empty());
    assert!(linear_label_names(Some(&Nodes { nodes: vec![] })).is_empty());
}
