//! The labels under which the agent's work is counted, and the token counts
//! of an LLM call.

use vstd::prelude::*;

use crate::text::{chars_of, starts_with, starts_with_seq};

verus! {

broadcast use vstd::string::group_string_axioms;

/// Which agent called a tool.
#[derive(Debug, Clone, Copy, PartialEq, Eq, Structural)]
pub enum ToolScope {
    Main,
    Subagent,
    Sleep,
}

/// The label of a tool scope.
pub open spec fn scope_label(s: ToolScope) -> Seq<char> {
    match s {
        ToolScope::Main => "main"@,
        ToolScope::Subagent => "subagent"@,
        ToolScope::Sleep => "sleep"@,
    }
}

impl ToolScope {
    /// The label of the scope.
    pub fn as_label(self) -> (r: &'static str)
        ensures
            r@ == scope_label(self),
    {
        match self {
            ToolScope::Main => "main",
            ToolScope::Subagent => "subagent",
            ToolScope::Sleep => "sleep",
        }
    }
}

/// How a tool call ended (labelled `ok` or `error`).
#[derive(Debug, Clone, Copy, PartialEq, Eq, Structural)]
pub enum ToolOutcome {
    Success,
    Error,
}

/// The label of a tool outcome.
pub open spec fn tool_outcome_label(o: ToolOutcome) -> Seq<char> {
    match o {
        ToolOutcome::Success => "ok"@,
        ToolOutcome::Error => "error"@,
    }
}

impl ToolOutcome {
    /// The label of the outcome.
    pub fn as_label(self) -> (r: &'static str)
        ensures
            r@ == tool_outcome_label(self),
    {
        match self {
            ToolOutcome::Success => "ok",
            ToolOutcome::Error => "error",
        }
    }

    /// The outcome of a tool call by its result text: an error where the text
    /// starts with `error:`.
    pub fn of_result(result: &str) -> (r: ToolOutcome)
        ensures
            r == (if starts_with_seq(result@, "error:"@) {
                ToolOutcome::Error
            } else {
                ToolOutcome::Success
            }),
    {
        let rc = chars_of(result);
        let prefix = chars_of("error:");
        if starts_with(rc.as_slice(), prefix.as_slice()) {
            ToolOutcome::Error
        } else {
            ToolOutcome::Success
        }
    }
}

/// How the processing of a ticket ended.
#[derive(Debug, Clone, Copy, PartialEq, Eq, Structural)]
pub enum TicketOutcome {
    Success,
    Error,
    Skipped,
    CapReached,
}

/// The label of a ticket outcome.
pub open spec fn ticket_outcome_label(o: TicketOutcome) -> Seq<char> {
    match o {
        TicketOutcome::Success => "success"@,
        TicketOutcome::Error => "error"@,
        TicketOutcome::Skipped => "skipped"@,
        TicketOutcome::CapReached => "cap_reached"@,
    }
}

impl TicketOutcome {
    /// The label of the outcome.
    pub fn as_label(self) -> (r: &'static str)
        ensures
            r@ == ticket_outcome_label(self),
    {
        match self {
            TicketOutcome::Success => "success",
            TicketOutcome::Error => "error",
            TicketOutcome::Skipped => "skipped",
            TicketOutcome::CapReached => "cap_reached",
        }
    }
}

/// The tokens that one LLM call used.
#[derive(Debug, Clone, Copy, PartialEq, Eq, Structural)]
pub struct TokenUsage {
    pub input_tokens: u64,
    pub output_tokens: u64,
    pub total_tokens: u64,
    pub cached_input_tokens: u64,
    pub cache_creation_input_tokens: u64,
    pub reasoning_tokens: u64,
}

/// The token counts of a call under their labels: input, output, cached
/// (cached input and cache creation together), reasoning and total.
pub fn token_counts(usage: &TokenUsage) -> (r: Vec<(&'static str, u64)>)
    requires
        usage.cached_input_tokens + usage.cache_creation_input_tokens <= u64::MAX,
    ensures
        r@.len() == 5,
        r@[0].0@ == "input"@ && r@[0].1 == usage.input_tokens,
        r@[1].0@ == "output"@ && r@[1].1 == usage.output_tokens,
        r@[2].0@ == "cached"@ && r@[2].1 == usage.cached_input_tokens
            + usage.cache_creation_input_tokens,
        r@[3].0@ == "reasoning"@ && r@[3].1 == usage.reasoning_tokens,
        r@[4].0@ == "total"@ && r@[4].1 == usage.total_tokens,
{
    let cached = usage.cached_input_tokens + usage.cache_creation_input_tokens;
    vec![
        ("input", usage.input_tokens),
        ("output", usage.output_tokens),
        ("cached", cached),
        ("reasoning", usage.reasoning_tokens),
        ("total", usage.total_tokens),
    ]
}

} // verus!
