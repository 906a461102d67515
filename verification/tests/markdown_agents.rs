use orga::agent::agents::{split_frontmatter, subagent_from_frontmatter, SubagentFrontmatter};

fn settings(description: Option<&str>, tools: &[&str], skills: &[&str], max_actions: Option<usize>) -> SubagentFrontmatter {
    SubagentFrontmatter {
        description: description.map(String::from),
        tools: tools.iter().map(|t| t.to_string()).collect(),
        skills: skills.iter().map(|t| t.to_string()).collect(),
        max_actions,
    }
}

#[test]
fn frontmatter_and_body_are_split() {
    let content = "---\ndescription: Does research\ntools:\n  - comment\n---\nYou are a researcher.\n";
    let (fm, body) = split_frontmatter(content).unwrap();
    assert_eq!(fm, "description: Does research\ntools:\n  - comment");
    assert_eq!(body, "You are a researcher.\n");
}

#[test]
fn frontmatter_without_body() {
    let (fm, body) = split_frontmatter("---\ndescription: Simple agent\n---\n").unwrap();
    assert_eq!(fm, "description: Simple agent");
    assert_eq!(body, "");
}

#[test]
fn frontmatter_must_open_and_close() {
    assert_eq!(
        split_frontmatter("description: x\n").unwrap_err(),
        "missing frontmatter: file must start with '---'"
    );
    assert_eq!(split_frontmatter("---\ndescription: x\n").unwrap_err(), "missing closing '---' in frontmatter");
}

#[test]
fn agent_with_all_settings() {
    let agent = subagent_from_frontmatter(
        "researcher",
        settings(Some("Does research"), &["comment", "done"], &["rust"], Some(5)),
        "You are a researcher.\n",
    )
    .unwrap();
    assert_eq!(agent.name, "researcher");
    assert_eq!(agent.description, "Does research");
    assert_eq!(agent.tools, vec!["comment", "done"]);
    assert_eq!(agent.skills, vec!["rust"]);
    assert_eq!(agent.max_actions, Some(5));
    assert!(agent.model.is_none());
    assert_eq!(agent.system_prompt.as_deref(), Some("You are a researcher."));
}

#[test]
fn agent_with_description_only_uses_defaults() {
    let agent = subagent_from_frontmatter("simple", settings(Some("Simple agent"), &[], &[], None), "  \n").unwrap();
    assert_eq!(agent.description, "Simple agent");
    assert!(agent.tools.is_empty());
    assert!(agent.skills.is_empty());
    assert!(agent.max_actions.is_none());
    assert!(agent.system_prompt.is_none());
}

#[test]
fn agent_without_description_is_refused() {
    let err = subagent_from_frontmatter("bot", settings(None, &["comment"], &[], None), "Some prompt.\n").unwrap_err();
    assert!(err.contains("description"));
    let err = subagent_from_frontmatter("bot", settings(Some(""), &[], &[], None), "x").unwrap_err();
    assert_eq!(err, "missing required field: description");
}
