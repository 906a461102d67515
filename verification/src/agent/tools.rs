//! The tools the agents call: which names exist, what each call answers in
//! text, and the checks and counts of the todo list.

use vstd::prelude::*;

use crate::memory::context_repo::ContextEntry;
use crate::text::{
    alphanumeric, chars_of, debug_string, debug_text, decimal, decimal_string, is_alphanumeric,
    push_str, str_eq, string_of,
};

verus! {

broadcast use vstd::string::group_string_axioms;

/// The arguments of the `return` tool.
pub struct ReturnArgs {
    pub result: String,
}

/// The arguments of the `dispatch` tool.
pub struct DispatchArgs {
    pub subagent: String,
    pub task: String,
}

/// A tool call ends the agent's turn: `done`, `skip` and `return` do.
pub open spec fn terminal_tool(name: Seq<char>) -> bool {
    name == "done"@ || name == "skip"@ || name == "return"@
}

/// Whether the tool ends the agent's turn (see `terminal_tool`).
pub fn is_terminal_tool(tool_name: &str) -> (r: bool)
    ensures
        r == terminal_tool(tool_name@),
{
    str_eq(tool_name, "done") || str_eq(tool_name, "skip") || str_eq(tool_name, "return")
}

/// The tools of the main agent.
pub open spec fn main_tool_names() -> Seq<Seq<char>> {
    seq![
        "comment"@,
        "dispatch"@,
        "skip"@,
        "done"@,
        "compact"@,
        "todos"@,
        "memory_list"@,
        "memory_read"@,
        "memory_write"@,
        "memory_search"@,
    ]
}

/// The tools of the main agent (see `main_tool_names`).
pub fn main_tools() -> (r: Vec<&'static str>)
    ensures
        r@.len() == main_tool_names().len(),
        forall|i: int| 0 <= i < r@.len() ==> (#[trigger] r@[i])@ == main_tool_names()[i],
{
    let r = vec![
        "comment",
        "dispatch",
        "skip",
        "done",
        "compact",
        "todos",
        "memory_list",
        "memory_read",
        "memory_write",
        "memory_search",
    ];
    r
}

/// A tool that the tool dispatcher of a ticket's agents runs.
#[derive(Debug, Clone, Copy, PartialEq, Eq, Structural)]
pub enum TicketTool {
    Comment,
    CreateSub,
    Compact,
    Done,
    Skip,
    Return,
    Bash,
    Todos,
    MemoryList,
    MemoryRead,
    MemoryWrite,
    MemorySearch,
}

/// The tool that a name stands for.
pub open spec fn ticket_tool_of(name: Seq<char>) -> Option<TicketTool> {
    if name == "comment"@ {
        Some(TicketTool::Comment)
    } else if name == "create_sub"@ {
        Some(TicketTool::CreateSub)
    } else if name == "compact"@ {
        Some(TicketTool::Compact)
    } else if name == "done"@ {
        Some(TicketTool::Done)
    } else if name == "skip"@ {
        Some(TicketTool::Skip)
    } else if name == "return"@ {
        Some(TicketTool::Return)
    } else if name == "bash"@ {
        Some(TicketTool::Bash)
    } else if name == "todos"@ {
        Some(TicketTool::Todos)
    } else if name == "memory_list"@ {
        Some(TicketTool::MemoryList)
    } else if name == "memory_read"@ {
        Some(TicketTool::MemoryRead)
    } else if name == "memory_write"@ {
        Some(TicketTool::MemoryWrite)
    } else if name == "memory_search"@ {
        Some(TicketTool::MemorySearch)
    } else {
        None
    }
}

/// The tool that a name stands for, where it names one.
pub fn ticket_tool(name: &str) -> (r: Option<TicketTool>)
    ensures
        r == ticket_tool_of(name@),
{
    if str_eq(name, "comment") {
        Some(TicketTool::Comment)
    } else if str_eq(name, "create_sub") {
        Some(TicketTool::CreateSub)
    } else if str_eq(name, "compact") {
        Some(TicketTool::Compact)
    } else if str_eq(name, "done") {
        Some(TicketTool::Done)
    } else if str_eq(name, "skip") {
        Some(TicketTool::Skip)
    } else if str_eq(name, "return") {
        Some(TicketTool::Return)
    } else if str_eq(name, "bash") {
        Some(TicketTool::Bash)
    } else if str_eq(name, "todos") {
        Some(TicketTool::Todos)
    } else if str_eq(name, "memory_list") {
        Some(TicketTool::MemoryList)
    } else if str_eq(name, "memory_read") {
        Some(TicketTool::MemoryRead)
    } else if str_eq(name, "memory_write") {
        Some(TicketTool::MemoryWrite)
    } else if str_eq(name, "memory_search") {
        Some(TicketTool::MemorySearch)
    } else {
        None
    }
}

/// A tool of the reflection and clean-up agents.
#[derive(Debug, Clone, Copy, PartialEq, Eq, Structural)]
pub enum SleepTool {
    MemoryList,
    MemoryRead,
    MemoryWrite,
    MemoryDelete,
}

/// The reflection tool that a name stands for.
pub open spec fn sleep_tool_of(name: Seq<char>) -> Option<SleepTool> {
    if name == "memory_list"@ {
        Some(SleepTool::MemoryList)
    } else if name == "memory_read"@ {
        Some(SleepTool::MemoryRead)
    } else if name == "memory_write"@ {
        Some(SleepTool::MemoryWrite)
    } else if name == "memory_delete"@ {
        Some(SleepTool::MemoryDelete)
    } else {
        None
    }
}

/// The reflection tool that a name stands for, where it names one.
pub fn sleep_tool(name: &str) -> (r: Option<SleepTool>)
    ensures
        r == sleep_tool_of(name@),
{
    if str_eq(name, "memory_list") {
        Some(SleepTool::MemoryList)
    } else if str_eq(name, "memory_read") {
        Some(SleepTool::MemoryRead)
    } else if str_eq(name, "memory_write") {
        Some(SleepTool::MemoryWrite)
    } else if str_eq(name, "memory_delete") {
        Some(SleepTool::MemoryDelete)
    } else {
        None
    }
}

/// The answer to a call of a tool that does not exist.
pub fn unknown_tool_message(name: &str) -> (r: String)
    ensures
        r@ == "error: unknown tool '"@ + name@ + "'"@,
{
    let mut out = String::new();
    push_str(&mut out, "error: unknown tool '");
    push_str(&mut out, name);
    push_str(&mut out, "'");
    out
}

/// The answer to a call of a reflection tool that does not exist.
pub fn unknown_sleep_tool_message(name: &str) -> (r: String)
    ensures
        r@ == "error: unknown sleep tool '"@ + name@ + "'"@,
{
    let mut out = String::new();
    push_str(&mut out, "error: unknown sleep tool '");
    push_str(&mut out, name);
    push_str(&mut out, "'");
    out
}

/// The answer to a call that a dry run leaves out.
pub fn dry_run_msg(action: &str) -> (r: String)
    ensures
        r@ == "[dry-run] "@ + action@ + " would have been executed"@,
{
    let mut out = String::new();
    push_str(&mut out, "[dry-run] ");
    push_str(&mut out, action);
    push_str(&mut out, " would have been executed");
    out
}

/// The answer to a call that failed with the error text `e`.
pub fn error_answer(e: &str) -> (r: String)
    ensures
        r@ == "error: "@ + e@,
{
    let mut out = String::new();
    push_str(&mut out, "error: ");
    push_str(&mut out, e);
    out
}

/// The answer to a call whose arguments did not parse, with the parser's
/// error text `e`.
pub fn invalid_args_answer(e: &str) -> (r: String)
    ensures
        r@ == "error: invalid args: "@ + e@,
{
    let mut out = String::new();
    push_str(&mut out, "error: invalid args: ");
    push_str(&mut out, e);
    out
}

/// The answer to a sub-ticket that was made.
pub fn created_sub_answer(title: &str, url: &str) -> (r: String)
    ensures
        r@ == "created sub-ticket: "@ + title@ + " ("@ + url@ + ")"@,
{
    let mut out = String::new();
    push_str(&mut out, "created sub-ticket: ");
    push_str(&mut out, title);
    push_str(&mut out, " (");
    push_str(&mut out, url);
    push_str(&mut out, ")");
    out
}

/// What a tool call of a ticket's agent would have done, as a dry run
/// reports it, for the tools that change the board or the memory; `detail`
/// is the sub-ticket's title or the note's path. Other tools run in a dry
/// run too.
pub open spec fn dry_run_action_text(tool: TicketTool, ticket_id: Seq<char>, detail: Seq<char>) -> Option<Seq<char>> {
    match tool {
        TicketTool::Comment => Some("comment on "@ + ticket_id),
        TicketTool::CreateSub => Some("create sub-ticket '"@ + detail + "' under "@ + ticket_id),
        TicketTool::MemoryWrite => Some("memory_write "@ + detail),
        TicketTool::Compact => Some("compact comments for "@ + ticket_id),
        TicketTool::Done => Some("return ticket "@ + ticket_id + " to creator"@),
        _ => None,
    }
}

/// What a tool call would have done, in a dry run (see
/// `dry_run_action_text`).
pub fn dry_run_action(tool: TicketTool, ticket_id: &str, detail: &str) -> (r: Option<String>)
    ensures
        match r {
            Some(a) => dry_run_action_text(tool, ticket_id@, detail@) == Some(a@),
            None => dry_run_action_text(tool, ticket_id@, detail@) is None,
        },
{
    let mut s = String::new();
    match tool {
        TicketTool::Comment => {
            push_str(&mut s, "comment on ");
            push_str(&mut s, ticket_id);
        },
        TicketTool::CreateSub => {
            push_str(&mut s, "create sub-ticket '");
            push_str(&mut s, detail);
            push_str(&mut s, "' under ");
            push_str(&mut s, ticket_id);
        },
        TicketTool::MemoryWrite => {
            push_str(&mut s, "memory_write ");
            push_str(&mut s, detail);
        },
        TicketTool::Compact => {
            push_str(&mut s, "compact comments for ");
            push_str(&mut s, ticket_id);
        },
        TicketTool::Done => {
            push_str(&mut s, "return ticket ");
            push_str(&mut s, ticket_id);
            push_str(&mut s, " to creator");
        },
        _ => {
            return None;
        },
    }
    Some(s)
}

/// A change that a tool call made.
#[derive(Debug, Clone, Copy, PartialEq, Eq, Structural)]
pub enum Effect {
    Commented,
    Written,
    Deleted,
    Compacted,
    Returned,
}

/// The answer to a tool call that made the change; `path` is the note's path.
pub open spec fn effect_text(effect: Effect, path: Seq<char>) -> Seq<char> {
    match effect {
        Effect::Commented => "comment posted"@,
        Effect::Written => "written: "@ + path,
        Effect::Deleted => "deleted: "@ + path,
        Effect::Compacted => "compaction stored"@,
        Effect::Returned => "ticket returned to creator"@,
    }
}

/// The answer to a tool call that made the change (see `effect_text`).
pub fn effect_answer(effect: Effect, path: &str) -> (r: String)
    ensures
        r@ == effect_text(effect, path@),
{
    let mut s = String::new();
    match effect {
        Effect::Commented => push_str(&mut s, "comment posted"),
        Effect::Written => {
            push_str(&mut s, "written: ");
            push_str(&mut s, path);
        },
        Effect::Deleted => {
            push_str(&mut s, "deleted: ");
            push_str(&mut s, path);
        },
        Effect::Compacted => push_str(&mut s, "compaction stored"),
        Effect::Returned => push_str(&mut s, "ticket returned to creator"),
    }
    s
}

/// The line of a note in a memory listing: its path, and its description
/// after a dash where it has one.
pub open spec fn entry_line(e: ContextEntry) -> Seq<char> {
    if e.description@.len() == 0 {
        "- "@ + e.path@
    } else {
        "- "@ + e.path@ + " — "@ + e.description@
    }
}

/// The lines of the notes from index `k` on, each after a newline but the
/// first.
pub open spec fn entry_lines_from(es: Seq<ContextEntry>, k: int) -> Seq<char>
    decreases es.len() - k,
{
    if k < 0 || k >= es.len() {
        seq![]
    } else if k + 1 < es.len() {
        entry_line(es[k]) + "\n"@ + entry_lines_from(es, k + 1)
    } else {
        entry_line(es[k])
    }
}

/// The index of the notes of the repository: a line per note (see
/// `entry_line`), empty where there are none.
pub fn format_tree_index(entries: &Vec<ContextEntry>) -> (r: String)
    ensures
        r@ == entry_lines_from(entries@, 0),
{
    let mut k: usize = entries.len();
    let mut tail = String::new();
    while k > 0
        invariant
            k <= entries@.len(),
            tail@ == entry_lines_from(entries@, k as int),
        decreases k,
    {
        k = k - 1;
        let e = &entries[k];
        let mut line = String::new();
        push_str(&mut line, "- ");
        push_str(&mut line, e.path.as_str());
        if !e.description.as_str().is_empty() {
            push_str(&mut line, " — ");
            push_str(&mut line, e.description.as_str());
        }
        if k + 1 < entries.len() {
            push_str(&mut line, "\n");
            push_str(&mut line, tail.as_str());
        }
        tail = line;
    }
    tail
}

/// The answer to `memory_list`: a line per note, or the text for an empty
/// repository, which names the missing files for the ticket's agents
/// (`sleep` false) and not for the reflection agents.
pub open spec fn memory_list_text(es: Seq<ContextEntry>, sleep: bool) -> Seq<char> {
    if es.len() == 0 {
        if sleep {
            "(empty repository)"@
        } else {
            "(empty repository — no memory files yet)"@
        }
    } else {
        entry_lines_from(es, 0)
    }
}

/// The answer to `memory_list` (see `memory_list_text`).
pub fn memory_list_answer(entries: &Vec<ContextEntry>, sleep: bool) -> (r: String)
    ensures
        r@ == memory_list_text(entries@, sleep),
{
    if entries.len() == 0 {
        let mut out = String::new();
        if sleep {
            push_str(&mut out, "(empty repository)");
        } else {
            push_str(&mut out, "(empty repository — no memory files yet)");
        }
        return out;
    }
    format_tree_index(entries)
}

/// The lines of search results from index `k` on: `path:line: text`, each
/// line after the first on a line of its own.
pub open spec fn search_lines_from(results: Seq<(String, usize, String)>, k: int) -> Seq<char>
    decreases results.len() - k,
{
    if k < 0 || k >= results.len() {
        seq![]
    } else {
        let line = results[k].0@ + ":"@ + decimal(results[k].1 as nat) + ": "@ + results[k].2@;
        if k + 1 < results.len() {
            line + "\n"@ + search_lines_from(results, k + 1)
        } else {
            line
        }
    }
}

/// The answer to a memory search: `(no matches)`, or one line per result.
pub open spec fn search_answer_text(results: Seq<(String, usize, String)>) -> Seq<char> {
    if results.len() == 0 {
        "(no matches)"@
    } else {
        search_lines_from(results, 0)
    }
}

/// The answer to a memory search (see `search_answer_text`).
pub fn search_answer(results: &Vec<(String, usize, String)>) -> (r: String)
    ensures
        r@ == search_answer_text(results@),
{
    let mut out = String::new();
    if results.len() == 0 {
        push_str(&mut out, "(no matches)");
        return out;
    }
    let mut k: usize = results.len();
    let mut tail = String::new();
    while k > 0
        invariant
            k <= results@.len(),
            results@.len() > 0,
            k < results@.len() ==> tail@ == search_lines_from(results@, k as int),
        decreases k,
    {
        k = k - 1;
        let mut line = String::new();
        push_str(&mut line, results[k].0.as_str());
        push_str(&mut line, ":");
        let n = decimal_string(results[k].1 as u64);
        push_str(&mut line, n.as_str());
        push_str(&mut line, ": ");
        push_str(&mut line, results[k].2.as_str());
        if k + 1 < results.len() {
            push_str(&mut line, "\n");
            push_str(&mut line, tail.as_str());
        }
        tail = line;
    }
    tail
}

/// An item of the todo list as the `todos` tool gets it.
pub struct TodosItem {
    pub content: String,
    pub status: String,
    pub active_form: Option<String>,
}

/// An item of the todo list as it is stored.
pub struct StoredTodoItem {
    pub content: String,
    pub status: String,
    pub active_form: String,
}

/// A status that a todo item may have.
pub open spec fn valid_status(s: Seq<char>) -> bool {
    s == "pending"@ || s == "in_progress"@ || s == "completed"@
}

/// How many items of the list from index `k` on have the status `s`.
pub open spec fn count_status(items: Seq<TodosItem>, s: Seq<char>, k: int) -> nat
    decreases items.len() - k,
{
    if k < 0 || k >= items.len() {
        0
    } else if items[k].status@ == s {
        1 + count_status(items, s, k + 1)
    } else {
        count_status(items, s, k + 1)
    }
}

/// The index of the first item with an invalid status, from index `k` on.
pub open spec fn first_invalid(items: Seq<TodosItem>, k: int) -> Option<int>
    decreases items.len() - k,
{
    if k < 0 || k >= items.len() {
        None
    } else if !valid_status(items[k].status@) {
        Some(k)
    } else {
        first_invalid(items, k + 1)
    }
}

/// The error answer for an item with an invalid status.
pub open spec fn invalid_status_text(item: TodosItem) -> Seq<char> {
    "error: invalid status "@ + debug_text(item.status@) + " for todo "@ + debug_text(item.content@)
}

/// The summary of an updated todo list, with the numbers of pending, running
/// and completed items.
pub open spec fn todos_summary_text(pending: nat, in_progress: nat, completed: nat) -> Seq<char> {
    "Todo list updated successfully.\n\nStatus: "@ + decimal(pending) + " pending, "@ + decimal(
        in_progress,
    ) + " in progress, "@ + decimal(completed)
        + " completed\nTodos have been modified successfully. Ensure that you continue to use the todo list to track your progress. Please proceed with the current tasks if applicable."@
}

proof fn lemma_counts_cover_from(items: Seq<TodosItem>, k: int)
    requires
        0 <= k,
        first_invalid(items, k) is None,
    ensures
        count_status(items, "pending"@, k) + count_status(items, "in_progress"@, k) + count_status(
            items,
            "completed"@,
            k,
        ) == if k < items.len() {
            items.len() - k
        } else {
            0
        },
    decreases items.len() - k,
{
    reveal_strlit("pending");
    reveal_strlit("in_progress");
    reveal_strlit("completed");
    assert("pending"@.len() != "in_progress"@.len());
    assert("pending"@.len() != "completed"@.len());
    assert("in_progress"@.len() != "completed"@.len());
    if k < items.len() {
        lemma_counts_cover_from(items, k + 1);
    }
}

/// Law of the todo counts: where every status is valid, every item is
/// counted once, as pending, in progress or completed.
pub proof fn lemma_todo_counts_cover_the_list(items: Seq<TodosItem>)
    requires
        first_invalid(items, 0) is None,
    ensures
        count_status(items, "pending"@, 0) + count_status(items, "in_progress"@, 0) + count_status(
            items,
            "completed"@,
            0,
        ) == items.len(),
{
    lemma_counts_cover_from(items, 0);
}

/// A todo list to store: each item as it came, a missing active form being
/// empty; with the answer that reports the counts of each status. Where an
/// item has a status other than `pending`, `in_progress` and `completed`, the
/// error answer for the first such item instead.
pub fn plan_todos(items: &Vec<TodosItem>) -> (r: Result<(Vec<StoredTodoItem>, String), String>)
    ensures
        match r {
            Ok((stored, answer)) => first_invalid(items@, 0) is None && stored@.len() == items@.len()
                && (forall|i: int|
                0 <= i < stored@.len() ==> (#[trigger] stored@[i]).content@ == items@[i].content@
                    && stored@[i].status@ == items@[i].status@ && stored@[i].active_form@ == match items@[i].active_form {
                    Some(a) => a@,
                    None => Seq::<char>::empty(),
                }) && answer@ == todos_summary_text(
                count_status(items@, "pending"@, 0),
                count_status(items@, "in_progress"@, 0),
                count_status(items@, "completed"@, 0),
            ),
            Err(e) => first_invalid(items@, 0) matches Some(k) && e@ == invalid_status_text(items@[k]),
        },
{
    let mut k: usize = 0;
    while k < items.len()
        invariant
            k <= items@.len(),
            first_invalid(items@, 0) == first_invalid(items@, k as int),
        decreases items@.len() - k,
    {
        let st = items[k].status.as_str();
        if !(str_eq(st, "pending") || str_eq(st, "in_progress") || str_eq(st, "completed")) {
            let mut e = String::new();
            push_str(&mut e, "error: invalid status ");
            let a = debug_string(st);
            push_str(&mut e, a.as_str());
            push_str(&mut e, " for todo ");
            let b = debug_string(items[k].content.as_str());
            push_str(&mut e, b.as_str());
            return Err(e);
        }
        k = k + 1;
    }
    let mut stored: Vec<StoredTodoItem> = Vec::new();
    let mut pending: usize = 0;
    let mut in_progress: usize = 0;
    let mut completed: usize = 0;
    proof {
        reveal_strlit("pending");
        reveal_strlit("in_progress");
        reveal_strlit("completed");
        assert("pending"@.len() != "in_progress"@.len());
        assert("pending"@.len() != "completed"@.len());
        assert("in_progress"@.len() != "completed"@.len());
    }
    let n = items.len();
    let mut i: usize = n;
    while i > 0
        invariant
            n == items@.len(),
            i <= items@.len(),
            "pending"@ != "in_progress"@,
            "pending"@ != "completed"@,
            "in_progress"@ != "completed"@,
            pending == count_status(items@, "pending"@, i as int),
            in_progress == count_status(items@, "in_progress"@, i as int),
            completed == count_status(items@, "completed"@, i as int),
            pending + in_progress + completed <= items@.len() - i,
        decreases i,
    {
        i = i - 1;
        let st = items[i].status.as_str();
        if str_eq(st, "pending") {
            pending = pending + 1;
        } else if str_eq(st, "in_progress") {
            in_progress = in_progress + 1;
        } else if str_eq(st, "completed") {
            completed = completed + 1;
        }
    }
    let mut j: usize = 0;
    while j < items.len()
        invariant
            j <= items@.len(),
            stored@.len() == j,
            forall|m: int|
                0 <= m < j ==> (#[trigger] stored@[m]).content@ == items@[m].content@
                    && stored@[m].status@ == items@[m].status@ && stored@[m].active_form@ == match items@[m].active_form {
                    Some(a) => a@,
                    None => Seq::<char>::empty(),
                },
        decreases items@.len() - j,
    {
        let it = &items[j];
        let active_form = match &it.active_form {
            Some(a) => a.clone(),
            None => String::new(),
        };
        stored.push(
            StoredTodoItem {
                content: it.content.clone(),
                status: it.status.clone(),
                active_form,
            },
        );
        j = j + 1;
    }
    let mut answer = String::new();
    push_str(&mut answer, "Todo list updated successfully.\n\nStatus: ");
    let p = decimal_string(pending as u64);
    push_str(&mut answer, p.as_str());
    push_str(&mut answer, " pending, ");
    let q = decimal_string(in_progress as u64);
    push_str(&mut answer, q.as_str());
    push_str(&mut answer, " in progress, ");
    let c = decimal_string(completed as u64);
    push_str(&mut answer, c.as_str());
    push_str(
        &mut answer,
        " completed\nTodos have been modified successfully. Ensure that you continue to use the todo list to track your progress. Please proceed with the current tasks if applicable.",
    );
    Ok((stored, answer))
}

/// The key under which an agent's todo list is stored: its scope with every
/// character that is not alphanumeric replaced by `_`.
pub open spec fn scope_key(scope: Seq<char>) -> Seq<char> {
    Seq::new(scope.len(), |i: int| if alphanumeric(scope[i]) { scope[i] } else { '_' })
}

/// The storage key of an agent's todo list (see `scope_key`).
pub fn todos_scope_key(scope: &str) -> (r: String)
    ensures
        r@ == scope_key(scope@),
{
    let cs = chars_of(scope);
    let mut out: Vec<char> = Vec::new();
    let mut i: usize = 0;
    while i < cs.len()
        invariant
            i <= cs@.len(),
            cs@ == scope@,
            out@ == scope_key(cs@).subrange(0, i as int),
        decreases cs@.len() - i,
    {
        let c = cs[i];
        if is_alphanumeric(c) {
            out.push(c);
        } else {
            out.push('_');
        }
        i = i + 1;
        assert(out@ =~= scope_key(cs@).subrange(0, i as int));
    }
    assert(scope_key(cs@).subrange(0, cs@.len() as int) =~= scope_key(cs@));
    string_of(out.as_slice())
}

} // verus!
