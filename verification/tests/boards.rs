use orga::board::common::{
    bare_username, board_choice, check_comment_text, column_id_for_name, columns_of_states,
    return_target, BoardChoice,
};
use orga::board::linear::{gql_outcome, pick_user, GqlError, GqlResponse, LinearState, LinearUser};
use orga::board::status::status_text;
use orga::board::trello::{
    card_to_summary, card_to_ticket, handle_response, TrelloAction, TrelloActionData, TrelloCard,
    TrelloLabel, TrelloMember,
};
use orga::config::{AgentConfig, AppConfig, BoardConfig, TrelloConfig};
use orga::error::OrgaError;
use orga::models::{Column, Member, Ticket, TicketSummary};

fn make_card(actions: Vec<TrelloAction>) -> TrelloCard {
    TrelloCard {
        id: "card1".into(),
        name: "Test".into(),
        desc: None,
        id_list: "list1".into(),
        id_board: "board1".into(),
        url: "https://example.com".into(),
        closed: false,
        checklists: None,
        members: None,
        actions: Some(actions),
        labels: None,
    }
}

fn member(id: &str, username: &str) -> TrelloMember {
    TrelloMember { id: id.into(), username: username.into(), full_name: username.to_uppercase() }
}

fn make_comment_action(date: &str, text: &str) -> TrelloAction {
    TrelloAction {
        id: "a1".into(),
        action_type: "commentCard".into(),
        date: date.into(),
        data: Some(TrelloActionData { text: Some(text.into()) }),
        member_creator: Some(TrelloMember { id: "m1".into(), username: "user".into(), full_name: "User".into() }),
    }
}

#[test]
fn card_to_summary_last_commenter_is_agent_true_when_tagged() {
    let card = make_card(vec![
        make_comment_action("2024-01-01T00:00:00Z", "human comment"),
        make_comment_action("2024-01-02T00:00:00Z", "agent reply\n\n_[orga:agent-1]_"),
    ]);
    let summary = card_to_summary(&card, "To Do".into());
    assert!(summary.last_commenter_is_agent);
}

#[test]
fn card_to_summary_last_commenter_is_agent_false_when_not_tagged() {
    let card = make_card(vec![
        make_comment_action("2024-01-01T00:00:00Z", "agent reply\n\n_[orga:agent-1]_"),
        make_comment_action("2024-01-02T00:00:00Z", "human reply"),
    ]);
    let summary = card_to_summary(&card, "To Do".into());
    assert!(!summary.last_commenter_is_agent);
}

#[test]
fn card_to_summary_last_commenter_is_agent_false_when_no_comments() {
    let card = make_card(vec![]);
    let summary = card_to_summary(&card, "To Do".into());
    assert!(!summary.last_commenter_is_agent);
}

#[test]
fn card_summary_takes_creator_labels_and_fields() {
    let mut card = make_card(vec![TrelloAction {
        id: "a0".into(),
        action_type: "createCard".into(),
        date: "2024-01-01T00:00:00Z".into(),
        data: None,
        member_creator: Some(member("m7", "zoe")),
    }]);
    card.desc = Some("details".into());
    card.closed = true;
    card.labels = Some(vec![TrelloLabel { name: "bug".into() }, TrelloLabel { name: "".into() }]);
    let s = card_to_summary(&card, "Done".into());
    assert_eq!(s.id, "card1");
    assert_eq!(s.description, "details");
    assert_eq!(s.list_id, "list1");
    assert_eq!(s.list_name, "Done");
    assert!(s.completed);
    assert_eq!(s.creator.unwrap().username, "zoe");
    assert_eq!(s.labels, vec!["bug".to_string()]);
}

#[test]
fn card_ticket_sorts_comments_and_reads_tags() {
    let mut card = make_card(vec![
        make_comment_action("2024-01-03T00:00:00Z", "third\n\n_[orga:bot]_"),
        make_comment_action("2024-01-01T00:00:00Z", "first"),
        make_comment_action("not a date", "dropped"),
        TrelloAction {
            id: "a9".into(),
            action_type: "commentCard".into(),
            date: "2024-01-02T00:00:00Z".into(),
            data: Some(TrelloActionData { text: None }),
            member_creator: Some(member("m2", "bob")),
        },
    ]);
    card.members = Some(vec![member("m3", "amy")]);
    let ticket = card_to_ticket(&card, "Doing".into()).unwrap();
    let contents: Vec<&str> = ticket.comments.iter().map(|c| c.content.as_str()).collect();
    assert_eq!(contents, vec!["first", "third"]);
    assert_eq!(ticket.comments[1].agent_name, Some("bot".to_string()));
    assert!(ticket.summary.last_commenter_is_agent);
    assert_eq!(ticket.assignees[0].username, "amy");
    assert!(ticket.sub_tickets.is_empty());
    assert!(!ticket.compaction_suggested);
}

#[test]
fn trello_responses_map_to_errors() {
    assert_eq!(handle_response(200, "ok".into()).unwrap(), "ok");
    assert!(matches!(handle_response(429, String::new()), Err(OrgaError::RateLimited)));
    assert_eq!(handle_response(401, String::new()).unwrap_err().message(), "unauthorized: invalid Trello credentials");
    assert_eq!(handle_response(404, String::new()).unwrap_err().message(), "not found: resource not found");
    assert_eq!(
        handle_response(500, String::new()).unwrap_err().message(),
        "backend error: Trello returned HTTP 500 Internal Server Error"
    );
}

#[test]
fn status_texts() {
    assert_eq!(status_text(404), "404 Not Found");
    assert_eq!(status_text(418), "418 I'm a teapot");
    assert_eq!(status_text(599), "599 <unknown status code>");
}

#[test]
fn linear_answers_map_to_outcomes() {
    let ok = GqlResponse { data: Some(serde_json::Value::Bool(true)), errors: None };
    assert_eq!(gql_outcome(200, Ok(ok)).unwrap(), serde_json::Value::Bool(true));
    let refused = GqlResponse { data: None, errors: Some(vec![GqlError { message: "bad key".into() }]) };
    assert_eq!(gql_outcome(401, Ok(refused)).unwrap_err().message(), "unauthorized: bad key");
    assert_eq!(gql_outcome(400, Err("eof".into())).unwrap_err().message(), "unauthorized: invalid Linear API key");
    assert_eq!(
        gql_outcome(502, Err("eof".into())).unwrap_err().message(),
        "backend error: Linear returned HTTP 502 Bad Gateway"
    );
    assert_eq!(gql_outcome(200, Err("eof".into())).unwrap_err().message(), "backend error: eof");
    let reported = GqlResponse { data: None, errors: Some(vec![GqlError { message: "boom".into() }]) };
    assert_eq!(gql_outcome(200, Ok(reported)).unwrap_err().message(), "backend error: boom");
    let empty = GqlResponse { data: None, errors: Some(vec![]) };
    assert_eq!(gql_outcome(200, Ok(empty)).unwrap_err().message(), "backend error: Linear returned no data");
}

#[test]
fn picking_a_linear_user() {
    let one = vec![LinearUser { id: "u1".into(), display_name: "ann".into() }];
    assert_eq!(pick_user("@ann", &one).unwrap(), "u1");
    assert_eq!(pick_user("@@ann", &vec![]).unwrap_err().message(), "not found: user 'ann'");
    let two = vec![
        LinearUser { id: "u1".into(), display_name: "ann".into() },
        LinearUser { id: "u2".into(), display_name: "ann".into() },
    ];
    assert_eq!(pick_user("ann", &two).unwrap_err().message(), "backend error: multiple users match display name 'ann'");
}

fn config(backend: &str, trello: Option<TrelloConfig>) -> AppConfig {
    AppConfig {
        agent: AgentConfig { name: "agent-1".into() },
        board: BoardConfig { backend: backend.into() },
        trello,
        linear: None,
        memory: None,
        logging: None,
        llm: None,
        metrics: None,
        comment_compaction_threshold: None,
        skills: None,
        workspace: None,
        subagents: vec![],
    }
}

#[test]
fn board_choice_needs_its_section() {
    let t = TrelloConfig { api_key: "k".into(), token: "t".into(), member_id: "m".into(), board_id: "b".into() };
    match board_choice(&config("trello", Some(t))).unwrap() {
        BoardChoice::Trello(c) => assert_eq!(c.board_id, "b"),
        BoardChoice::Linear(_) => panic!("expected the trello board"),
    }
    assert_eq!(board_choice(&config("trello", None)).err().unwrap().message(), "config error: [trello] section missing");
    assert_eq!(board_choice(&config("linear", None)).err().unwrap().message(), "config error: [linear] section missing");
    assert!(board_choice(&config("jira", None)).is_err());
}

#[test]
fn comments_and_columns() {
    assert!(check_comment_text("hi").is_ok());
    assert_eq!(check_comment_text("").unwrap_err().message(), "backend error: comment text cannot be empty");
    let cols = vec![Column { id: "1".into(), name: "To Do".into() }, Column { id: "2".into(), name: "Done".into() }];
    assert_eq!(column_id_for_name(&cols, "done").unwrap(), "2");
    assert!(column_id_for_name(&cols, "Review").is_err());
    let states = vec![LinearState { id: "s1".into(), name: "Todo".into(), state_type: None }];
    let c = columns_of_states(&states);
    assert_eq!((c[0].id.as_str(), c[0].name.as_str()), ("s1", "Todo"));
    assert_eq!(bare_username("@@bob"), "bob");
}

#[test]
fn returning_needs_a_creator() {
    let mut t = Ticket {
        summary: TicketSummary {
            id: "t".into(),
            title: "x".into(),
            description: String::new(),
            list_id: String::new(),
            list_name: String::new(),
            url: String::new(),
            completed: false,
            creator: None,
            last_commenter_is_agent: false,
            labels: vec![],
        },
        assignees: vec![],
        sub_tickets: vec![],
        comments: vec![],
        comment_compaction: None,
        compaction_suggested: false,
    };
    assert_eq!(return_target(&t).err().unwrap().message(), "backend error: ticket has no known creator");
    t.summary.creator = Some(Member { id: "c".into(), username: "cat".into(), full_name: "Cat".into() });
    assert_eq!(return_target(&t).unwrap().username, "cat");
}
