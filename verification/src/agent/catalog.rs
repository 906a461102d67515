//! The tool definitions handed to the model: each tool's name, what it does,
//! and the JSON schema of its arguments, written as JSON text.

use vstd::prelude::*;

use crate::agent::tools::{main_tool_names, main_tools};
use crate::text::{str_eq, str_to_string};

verus! {

broadcast use vstd::string::group_string_axioms;

/// A tool the model may call; `parameters` is the JSON schema of its
/// arguments, as JSON text.
pub struct ToolSpec {
    pub name: String,
    pub description: String,
    pub parameters: String,
}

/// A tool definition as mathematical values: name, description, schema.
pub open spec fn tool_view(t: ToolSpec) -> (Seq<char>, Seq<char>, Seq<char>) {
    (t.name@, t.description@, t.parameters@)
}

/// The tool definitions of a list, as mathematical values.
pub open spec fn tool_views(s: Seq<ToolSpec>) -> Seq<(Seq<char>, Seq<char>, Seq<char>)> {
    Seq::new(s.len(), |i: int| tool_view(s[i]))
}

/// The texts of a list of names.
pub open spec fn name_views(names: Seq<&str>) -> Seq<Seq<char>> {
    Seq::new(names.len(), |i: int| names[i]@)
}

/// Every tool that an agent of a ticket can be given, in this order.
pub open spec fn tool_catalog() -> Seq<(Seq<char>, Seq<char>, Seq<char>)> {
    seq![
        ("comment"@, "Post a comment on the ticket."@, r#"{"type":"object","properties":{"text":{"type":"string","description":"The comment text to post"}},"required":["text"]}"#@),
        ("create_sub"@, "Create a sub-ticket linked to this ticket."@, r#"{"type":"object","properties":{"title":{"type":"string","description":"Title of the new sub-ticket"},"description":{"type":"string","description":"Optional description for the sub-ticket"},"list":{"type":"string","description":"Optional list/column name (defaults to parent's list)"}},"required":["title"]}"#@),
        ("compact"@, "Store a compaction summary for this ticket's comments to reduce future context size."@, r#"{"type":"object","properties":{"summary":{"type":"string","description":"Summary of the compacted comments"}},"required":["summary"]}"#@),
        ("done"@, "Mark work as complete and return the ticket to its creator. Use this when you have finished all work for this ticket."@, r#"{"type":"object","properties":{"comment":{"type":"string","description":"Optional comment to post before returning (e.g. summary of work done)"}},"required":[]}"#@),
        ("skip"@, "Skip this ticket for this cycle without taking action. Use when the ticket is not actionable right now."@, r#"{"type":"object","properties":{},"required":[]}"#@),
        ("dispatch"@, "Delegate work to a specialized subagent. The subagent will run its own loop and return a result."@, r#"{"type":"object","properties":{"subagent":{"type":"string","description":"Name of the subagent to invoke"},"task":{"type":"string","description":"Description of what the subagent should do"}},"required":["subagent","task"]}"#@),
        ("return"@, "Return a result from the subagent to the main agent. This ends the subagent loop."@, r#"{"type":"object","properties":{"result":{"type":"string","description":"The result to return to the main agent"}},"required":["result"]}"#@),
        ("bash"@, "Run a shell command in the ticket workspace directory. Returns structured JSON with stdout, stderr, and exit_code."@, r#"{"type":"object","properties":{"command":{"type":"string","description":"Shell command to execute (passed to sh -c)"}},"required":["command"]}"#@),
        ("todos"@, "Manage a structured task list for multi-step work; each task has pending/in_progress/completed state. Keep exactly one task in_progress at a time. Skip for simple or single-step tasks."@, r#"{"type":"object","properties":{"todos":{"type":"array","description":"The updated todo list","items":{"type":"object","properties":{"content":{"type":"string","description":"What needs to be done (imperative form)"},"status":{"type":"string","enum":["pending","in_progress","completed"],"description":"Task status"},"active_form":{"type":"string","description":"Present continuous form (e.g., 'Running tests')"}},"required":["content","status"]}}},"required":["todos"]}"#@),
        ("memory_list"@, "List all files in the context repository with their descriptions. Use this to discover what cross-ticket knowledge exists."@, r#"{"type":"object","properties":{},"required":[]}"#@),
        ("memory_read"@, "Read the full content of a context repository file by its path."@, r#"{"type":"object","properties":{"path":{"type":"string","description":"Relative path to the file (e.g. 'themes/auth.md')"}},"required":["path"]}"#@),
        ("memory_write"@, "Write (create or overwrite) a topic file in the context repository. Include YAML frontmatter with a `description` field. This commits the change to the git repository."@, r#"{"type":"object","properties":{"path":{"type":"string","description":"Relative path to write (e.g. 'themes/auth.md')"},"content":{"type":"string","description":"Full file content including frontmatter"},"commit_msg":{"type":"string","description":"Informative commit message describing what was learned"}},"required":["path","content","commit_msg"]}"#@),
        ("memory_search"@, "Search across all context repository files for a keyword or phrase (case-insensitive). Returns matching lines with file path and line number."@, r#"{"type":"object","properties":{"query":{"type":"string","description":"Search query (case-insensitive literal match)"}},"required":["query"]}"#@),
    ]
}

/// The tool that only the defragmenting agent gets.
pub open spec fn memory_delete_tool() -> (Seq<char>, Seq<char>, Seq<char>) {
    ("memory_delete"@, "Delete a file from the context repository. Blocked if the file's description terms are not covered by any other file."@, r#"{"type":"object","properties":{"path":{"type":"string","description":"Relative path of the file to delete (e.g. 'themes/old-notes.md')"}},"required":["path"]}"#@)
}

/// The tools of `cat` whose names are among `names`, in the order of `cat`.
pub open spec fn kept_tools(
    cat: Seq<(Seq<char>, Seq<char>, Seq<char>)>,
    names: Seq<Seq<char>>,
) -> Seq<(Seq<char>, Seq<char>, Seq<char>)>
    decreases cat.len(),
{
    if cat.len() == 0 {
        seq![]
    } else {
        let rest = kept_tools(cat.drop_last(), names);
        if names.contains(cat.last().0) {
            rest.push(cat.last())
        } else {
            rest
        }
    }
}

/// A tool whose name is among `names`.
pub open spec fn named_in(names: Seq<Seq<char>>) -> spec_fn((Seq<char>, Seq<char>, Seq<char>)) -> bool {
    |t: (Seq<char>, Seq<char>, Seq<char>)| names.contains(t.0)
}

/// Law of a subset of tools: it holds exactly the tools of `cat` whose names
/// are listed, in the order of `cat`, each of them a tool of `cat`.
pub proof fn lemma_kept_tools_are_the_listed(
    cat: Seq<(Seq<char>, Seq<char>, Seq<char>)>,
    names: Seq<Seq<char>>,
)
    ensures
        kept_tools(cat, names) == cat.filter(named_in(names)),
        forall|i: int|
            0 <= i < kept_tools(cat, names).len() ==> names.contains((#[trigger] kept_tools(cat, names)[i]).0)
                && cat.contains(kept_tools(cat, names)[i]),
    decreases cat.len(),
{
    reveal(Seq::filter);
    if cat.len() > 0 {
        lemma_kept_tools_are_the_listed(cat.drop_last(), names);
    }
    let f = cat.filter(named_in(names));
    assert forall|i: int| 0 <= i < f.len() implies names.contains((#[trigger] f[i]).0) && cat.contains(f[i]) by {
        cat.lemma_filter_pred(named_in(names), i);
        cat.lemma_filter_contains_rev(named_in(names), f[i]);
    }
}

/// The names given to the defragmenting agent besides `memory_delete`.
pub open spec fn defrag_names() -> Seq<Seq<char>> {
    seq!["memory_list"@, "memory_read"@, "memory_write"@]
}

fn tool(name: &str, description: &str, parameters: &str) -> (r: ToolSpec)
    ensures
        tool_view(r) == (name@, description@, parameters@),
{
    ToolSpec {
        name: str_to_string(name),
        description: str_to_string(description),
        parameters: str_to_string(parameters),
    }
}

/// Every tool definition, in the order of `tool_catalog`.
pub fn all_tool_definitions() -> (r: Vec<ToolSpec>)
    ensures
        tool_views(r@) == tool_catalog(),
{
    let mut v: Vec<ToolSpec> = Vec::new();
    v.push(tool("comment", "Post a comment on the ticket.", r#"{"type":"object","properties":{"text":{"type":"string","description":"The comment text to post"}},"required":["text"]}"#));
    v.push(tool("create_sub", "Create a sub-ticket linked to this ticket.", r#"{"type":"object","properties":{"title":{"type":"string","description":"Title of the new sub-ticket"},"description":{"type":"string","description":"Optional description for the sub-ticket"},"list":{"type":"string","description":"Optional list/column name (defaults to parent's list)"}},"required":["title"]}"#));
    v.push(tool("compact", "Store a compaction summary for this ticket's comments to reduce future context size.", r#"{"type":"object","properties":{"summary":{"type":"string","description":"Summary of the compacted comments"}},"required":["summary"]}"#));
    v.push(tool("done", "Mark work as complete and return the ticket to its creator. Use this when you have finished all work for this ticket.", r#"{"type":"object","properties":{"comment":{"type":"string","description":"Optional comment to post before returning (e.g. summary of work done)"}},"required":[]}"#));
    v.push(tool("skip", "Skip this ticket for this cycle without taking action. Use when the ticket is not actionable right now.", r#"{"type":"object","properties":{},"required":[]}"#));
    v.push(tool("dispatch", "Delegate work to a specialized subagent. The subagent will run its own loop and return a result.", r#"{"type":"object","properties":{"subagent":{"type":"string","description":"Name of the subagent to invoke"},"task":{"type":"string","description":"Description of what the subagent should do"}},"required":["subagent","task"]}"#));
    v.push(tool("return", "Return a result from the subagent to the main agent. This ends the subagent loop.", r#"{"type":"object","properties":{"result":{"type":"string","description":"The result to return to the main agent"}},"required":["result"]}"#));
    v.push(tool("bash", "Run a shell command in the ticket workspace directory. Returns structured JSON with stdout, stderr, and exit_code.", r#"{"type":"object","properties":{"command":{"type":"string","description":"Shell command to execute (passed to sh -c)"}},"required":["command"]}"#));
    v.push(tool("todos", "Manage a structured task list for multi-step work; each task has pending/in_progress/completed state. Keep exactly one task in_progress at a time. Skip for simple or single-step tasks.", r#"{"type":"object","properties":{"todos":{"type":"array","description":"The updated todo list","items":{"type":"object","properties":{"content":{"type":"string","description":"What needs to be done (imperative form)"},"status":{"type":"string","enum":["pending","in_progress","completed"],"description":"Task status"},"active_form":{"type":"string","description":"Present continuous form (e.g., 'Running tests')"}},"required":["content","status"]}}},"required":["todos"]}"#));
    v.push(tool("memory_list", "List all files in the context repository with their descriptions. Use this to discover what cross-ticket knowledge exists.", r#"{"type":"object","properties":{},"required":[]}"#));
    v.push(tool("memory_read", "Read the full content of a context repository file by its path.", r#"{"type":"object","properties":{"path":{"type":"string","description":"Relative path to the file (e.g. 'themes/auth.md')"}},"required":["path"]}"#));
    v.push(tool("memory_write", "Write (create or overwrite) a topic file in the context repository. Include YAML frontmatter with a `description` field. This commits the change to the git repository.", r#"{"type":"object","properties":{"path":{"type":"string","description":"Relative path to write (e.g. 'themes/auth.md')"},"content":{"type":"string","description":"Full file content including frontmatter"},"commit_msg":{"type":"string","description":"Informative commit message describing what was learned"}},"required":["path","content","commit_msg"]}"#));
    v.push(tool("memory_search", "Search across all context repository files for a keyword or phrase (case-insensitive). Returns matching lines with file path and line number.", r#"{"type":"object","properties":{"query":{"type":"string","description":"Search query (case-insensitive literal match)"}},"required":["query"]}"#));
    assert(tool_views(v@) =~= tool_catalog());
    v
}

fn listed(names: &[&str], name: &str) -> (r: bool)
    ensures
        r == name_views(names@).contains(name@),
{
    let mut i: usize = 0;
    while i < names.len()
        invariant
            i <= names@.len(),
            forall|j: int| 0 <= j < i ==> names@[j]@ != name@,
        decreases names@.len() - i,
    {
        if str_eq(names[i], name) {
            assert(name_views(names@)[i as int] == name@);
            return true;
        }
        i = i + 1;
    }
    proof {
        if name_views(names@).contains(name@) {
            let j = choose|j: int| 0 <= j < name_views(names@).len() && name_views(names@)[j] == name@;
            assert(names@[j]@ == name@);
        }
    }
    false
}

/// The tool definitions whose names are among `names`, in catalog order.
pub fn tool_definitions_for(names: &[&str]) -> (r: Vec<ToolSpec>)
    ensures
        tool_views(r@) == kept_tools(tool_catalog(), name_views(names@)),
{
    let all = all_tool_definitions();
    let ghost cat = tool_catalog();
    let ghost ns = name_views(names@);
    let mut out: Vec<ToolSpec> = Vec::new();
    let mut i: usize = 0;
    while i < all.len()
        invariant
            i <= all@.len(),
            tool_views(all@) == cat,
            ns == name_views(names@),
            tool_views(out@) == kept_tools(cat.subrange(0, i as int), ns),
        decreases all@.len() - i,
    {
        let t = &all[i];
        let keep = listed(names, t.name.as_str());
        assert(cat.subrange(0, i as int + 1).drop_last() =~= cat.subrange(0, i as int));
        assert(cat.subrange(0, i as int + 1).last() == tool_view(all@[i as int]));
        if keep {
            let copy = ToolSpec {
                name: t.name.clone(),
                description: t.description.clone(),
                parameters: t.parameters.clone(),
            };
            let ghost before = out@;
            out.push(copy);
            assert(tool_views(out@) =~= tool_views(before).push(tool_view(all@[i as int])));
        }
        i = i + 1;
    }
    assert(cat.subrange(0, all@.len() as int) =~= cat);
    out
}

/// The tools of the defragmenting agent: listing, reading and writing the
/// context repository, and deleting from it.
pub fn defrag_tool_definitions() -> (r: Vec<ToolSpec>)
    ensures
        tool_views(r@) == kept_tools(tool_catalog(), defrag_names()).push(memory_delete_tool()),
{
    let names: [&str; 3] = ["memory_list", "memory_read", "memory_write"];
    let mut defs = tool_definitions_for(names.as_slice());
    assert(name_views(names@) =~= defrag_names());
    let ghost before = defs@;
    defs.push(
        tool(
            "memory_delete",
            "Delete a file from the context repository. Blocked if the file's description terms are not covered by any other file.",
            r#"{"type":"object","properties":{"path":{"type":"string","description":"Relative path of the file to delete (e.g. 'themes/old-notes.md')"}},"required":["path"]}"#,
        ),
    );
    assert(tool_views(defs@) =~= tool_views(before).push(memory_delete_tool()));
    defs
}

/// The tools of the main agent on a ticket: every tool where no subagent is
/// configured, else only those of `main_tool_names`, which delegate the rest.
pub fn main_agent_tool_definitions(has_subagents: bool) -> (r: Vec<ToolSpec>)
    ensures
        tool_views(r@) == if has_subagents {
            kept_tools(tool_catalog(), main_tool_names())
        } else {
            tool_catalog()
        },
{
    if has_subagents {
        let names = main_tools();
        assert(name_views(names@) =~= main_tool_names());
        tool_definitions_for(names.as_slice())
    } else {
        all_tool_definitions()
    }
}

/// The tools of the reflection agent: listing, reading and writing the
/// context repository.
pub fn reflection_tool_definitions() -> (r: Vec<ToolSpec>)
    ensures
        tool_views(r@) == kept_tools(tool_catalog(), defrag_names()),
{
    let names: [&str; 3] = ["memory_list", "memory_read", "memory_write"];
    assert(name_views(names@) =~= defrag_names());
    tool_definitions_for(names.as_slice())
}

} // verus!
