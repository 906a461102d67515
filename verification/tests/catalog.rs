use orga::agent::catalog::{
    all_tool_definitions, defrag_tool_definitions, main_agent_tool_definitions, tool_definitions_for,
};
use orga::agent::tools::main_tools;

#[test]
fn memory_delete_not_in_all_tool_definitions() {
    let defs = all_tool_definitions();
    assert!(!defs.iter().any(|d| d.name == "memory_delete"));
}

#[test]
fn memory_delete_in_defrag_tool_definitions() {
    let defs = defrag_tool_definitions();
    assert!(defs.iter().any(|d| d.name == "memory_delete"));
}

#[test]
fn tool_definitions_for_returns_subset() {
    let names = ["comment", "done"];
    let defs = tool_definitions_for(&names);
    assert_eq!(defs.len(), 2);
    assert!(defs.iter().any(|d| d.name == "comment"));
    assert!(defs.iter().any(|d| d.name == "done"));
}

#[test]
fn tool_definitions_keep_catalog_order_and_ignore_unknown_names() {
    let names = ["memory_search", "nope", "comment"];
    let defs = tool_definitions_for(&names);
    let got: Vec<&str> = defs.iter().map(|d| d.name.as_str()).collect();
    assert_eq!(got, vec!["comment", "memory_search"]);
}

#[test]
fn main_tools_all_have_definitions() {
    let names = main_tools();
    let defs = tool_definitions_for(&names);
    assert_eq!(defs.len(), names.len());
}

#[test]
fn defrag_tools_are_list_read_write_delete() {
    let defs = defrag_tool_definitions();
    let got: Vec<&str> = defs.iter().map(|d| d.name.as_str()).collect();
    assert_eq!(got, vec!["memory_list", "memory_read", "memory_write", "memory_delete"]);
}

#[test]
fn tool_schemas_are_json_objects_naming_their_required_arguments() {
    let defs = all_tool_definitions();
    assert_eq!(defs.len(), 13);
    for d in &defs {
        let v: serde_json::Value = serde_json::from_str(&d.parameters).unwrap();
        assert_eq!(v["type"], "object");
        assert!(v["required"].is_array());
    }
    let comment = &defs[0];
    assert_eq!(comment.name, "comment");
    assert_eq!(comment.description, "Post a comment on the ticket.");
    let v: serde_json::Value = serde_json::from_str(&comment.parameters).unwrap();
    assert_eq!(v["required"][0], "text");
}

#[test]
fn main_agent_gets_all_tools_without_subagents() {
    assert_eq!(main_agent_tool_definitions(false).len(), 13);
    let defs = main_agent_tool_definitions(true);
    let got: Vec<&str> = defs.iter().map(|d| d.name.as_str()).collect();
    assert_eq!(
        got,
        vec![
            "comment", "compact", "done", "skip", "dispatch", "todos", "memory_list", "memory_read",
            "memory_write", "memory_search"
        ]
    );
}
