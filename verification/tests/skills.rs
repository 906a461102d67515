use orga::agent::skills::{match_skills, parse_skill, sort_skills, unmatched_skill_requests, SkillMeta};
use orga::models::{Member, TicketSummary};

fn make_ticket(column: &str, labels: Vec<&str>) -> TicketSummary {
    TicketSummary {
        id: "T-1".into(),
        title: "Test".into(),
        description: "".into(),
        list_id: "l1".into(),
        list_name: column.into(),
        url: "https://example.com".into(),
        completed: false,
        creator: Some(Member { id: "u1".into(), username: "alice".into(), full_name: "Alice".into() }),
        last_commenter_is_agent: false,
        labels: labels.iter().map(|s| s.to_string()).collect(),
    }
}

fn parse(content: &str) -> Option<SkillMeta> {
    parse_skill(content)
}

#[test]
fn parse_valid_frontmatter() {
    let content = "---\nname: my-skill\ndescription: Does things.\n---\nBody here.";
    let skill = parse(content).unwrap();
    assert_eq!(skill.name, "my-skill");
    assert_eq!(skill.description, "Does things.");
    assert_eq!(skill.body, "Body here.");
}

#[test]
fn parse_missing_name_returns_none() {
    let content = "---\ndescription: Does things.\n---\nBody.";
    assert!(parse(content).is_none());
}

#[test]
fn parse_malformed_no_opening_delimiter_returns_none() {
    let content = "name: my-skill\ndescription: x\n---\nBody.";
    assert!(parse(content).is_none());
}

#[test]
fn parse_match_always_metadata() {
    let content = "---\nname: global\ndescription: x\nmetadata:\n  orga-match-always: \"true\"\n---\nBody.";
    let skill = parse(content).unwrap();
    assert!(skill.match_always);
}

#[test]
fn parse_match_column_metadata() {
    let content = "---\nname: s\ndescription: x\nmetadata:\n  orga-match-column: \"Review\"\n---\nBody.";
    let skill = parse(content).unwrap();
    assert_eq!(skill.match_column.as_deref(), Some("Review"));
}

#[test]
fn parse_match_label_metadata() {
    let content = "---\nname: s\ndescription: x\nmetadata:\n  orga-match-label: \"security\"\n---\nBody.";
    let skill = parse(content).unwrap();
    assert_eq!(skill.match_label.as_deref(), Some("security"));
}

#[test]
fn parse_metadata_block_ends_at_next_key() {
    let content = "  \n---\nmetadata:\n  orga-match-label: ops\nname: \"late\"\n---\n\n  Steps.\n";
    let skill = parse(content).unwrap();
    assert_eq!(skill.name, "late");
    assert_eq!(skill.description, "");
    assert_eq!(skill.match_label.as_deref(), Some("ops"));
    assert_eq!(skill.body, "Steps.\n");
    assert!(!skill.match_always);
}

#[test]
fn parse_empty_name_returns_none() {
    assert!(parse("---\nname: \"\"\n---\nBody.").is_none());
}

#[test]
fn parse_without_closing_delimiter_returns_none() {
    assert!(parse("---\nname: s\nBody.").is_none());
}

fn make_skill(name: &str, match_always: bool, match_column: Option<&str>, match_label: Option<&str>) -> SkillMeta {
    SkillMeta {
        name: name.into(),
        description: "desc".into(),
        body: "body".into(),
        match_always,
        match_column: match_column.map(|s| s.into()),
        match_label: match_label.map(|s| s.into()),
    }
}

#[test]
fn match_always_activates_regardless_of_ticket() {
    let skills = vec![make_skill("global", true, None, None)];
    let ticket = make_ticket("Backlog", vec![]);
    let matched = match_skills(&skills, &ticket);
    assert_eq!(matched.len(), 1);
    assert_eq!(matched[0].name, "global");
}

#[test]
fn match_column_case_insensitive() {
    let skills = vec![make_skill("review", false, Some("review"), None)];
    let ticket = make_ticket("Review", vec![]);
    let matched = match_skills(&skills, &ticket);
    assert_eq!(matched.len(), 1);
}

#[test]
fn match_label() {
    let skills = vec![make_skill("sec", false, None, Some("security"))];
    let ticket = make_ticket("Backlog", vec!["security"]);
    let matched = match_skills(&skills, &ticket);
    assert_eq!(matched.len(), 1);
}

#[test]
fn skill_label_activates_named_skill() {
    let skills = vec![make_skill("code-review", false, None, None)];
    let ticket = make_ticket("Backlog", vec!["skill:code-review"]);
    let matched = match_skills(&skills, &ticket);
    assert_eq!(matched.len(), 1);
}

#[test]
fn skill_label_missing_skill_returns_empty_no_panic() {
    let skills: Vec<SkillMeta> = vec![];
    let ticket = make_ticket("Backlog", vec!["skill:nonexistent"]);
    let matched = match_skills(&skills, &ticket);
    assert!(matched.is_empty());
    assert_eq!(unmatched_skill_requests(&skills, &ticket), vec!["nonexistent".to_string()]);
}

#[test]
fn unmatched_requests_are_those_naming_no_skill() {
    let skills = vec![make_skill("code-review", false, None, None)];
    let ticket = make_ticket("Backlog", vec!["Skill:Code-Review", "skill:deploy", "bug", "skill:deploy"]);
    assert_eq!(match_skills(&skills, &ticket).len(), 1);
    assert_eq!(unmatched_skill_requests(&skills, &ticket), vec!["deploy".to_string(), "deploy".to_string()]);
}

#[test]
fn deduplication_when_multiple_signals_fire() {
    let skills = vec![make_skill("s", true, Some("Backlog"), None)];
    let ticket = make_ticket("Backlog", vec!["skill:s"]);
    let matched = match_skills(&skills, &ticket);
    assert_eq!(matched.len(), 1);
}

#[test]
fn multiple_skills_matched_concatenated() {
    let skills = vec![
        make_skill("a", true, None, None),
        make_skill("b", false, Some("Backlog"), None),
    ];
    let ticket = make_ticket("Backlog", vec![]);
    let matched = match_skills(&skills, &ticket);
    assert_eq!(matched.len(), 2);
}

#[test]
fn no_match_returns_empty() {
    let skills = vec![make_skill("s", false, Some("Review"), None)];
    let ticket = make_ticket("Backlog", vec![]);
    let matched = match_skills(&skills, &ticket);
    assert!(matched.is_empty());
}

#[test]
fn same_name_is_taken_once_first_wins() {
    let skills = vec![
        make_skill("dup", false, Some("Doing"), None),
        make_skill("dup", true, None, None),
        make_skill("other", false, None, Some("Urgent")),
    ];
    let ticket = make_ticket("Backlog", vec!["URGENT"]);
    let matched = match_skills(&skills, &ticket);
    assert_eq!(matched.len(), 2);
    assert!(matched[0].match_always);
    assert_eq!(matched[1].name, "other");
}

fn skill_named(name: &str, description: &str) -> SkillMeta {
    SkillMeta {
        name: name.to_string(),
        description: description.to_string(),
        body: String::new(),
        match_always: true,
        match_column: None,
        match_label: None,
    }
}

#[test]
fn sort_skills_orders_by_name_and_keeps_ties_in_order() {
    let skills = vec![
        skill_named("review", "first"),
        skill_named("deploy", "only"),
        skill_named("review", "second"),
        skill_named("audit", "only"),
    ];
    let sorted = sort_skills(skills);
    let got: Vec<(&str, &str)> = sorted
        .iter()
        .map(|s| (s.name.as_str(), s.description.as_str()))
        .collect();
    assert_eq!(
        got,
        vec![("audit", "only"), ("deploy", "only"), ("review", "first"), ("review", "second")]
    );
}

#[test]
fn matching_ignores_ascii_case_of_columns_and_labels() {
    let skills = vec![
        make_skill("by-column", false, Some("In Review"), None),
        make_skill("by-label", false, None, Some("Security")),
    ];
    let ticket = make_ticket("IN REVIEW", vec!["sEcUrItY"]);
    let names: Vec<&str> = match_skills(&skills, &ticket).iter().map(|s| s.name.as_str()).collect();
    assert_eq!(names, vec!["by-column", "by-label"]);
}
