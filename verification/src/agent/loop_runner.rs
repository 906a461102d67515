//! The decisions of the LLM tool-call loop: when to ask the model again, and
//! when the loop is over and why.

use vstd::prelude::*;

verus! {

/// Why the tool-call loop ended.
#[derive(Debug, Clone, Copy, PartialEq, Eq, Structural)]
pub enum LoopOutcome {
    /// The model answered without tool calls.
    NoToolCalls,
    /// The tool calls reached the step limit before a terminal tool.
    CapReached,
    /// A tool call ended the loop.
    Terminal,
}

/// The progress of a tool-call loop: how many tool calls it made, and how
/// many it may make.
pub struct LoopState {
    steps: usize,
    max_steps: usize,
}

impl LoopState {
    #[verifier::type_invariant]
    spec fn within_limit(self) -> bool {
        self.steps <= self.max_steps
    }

    /// The tool calls made so far.
    pub closed spec fn steps_taken(&self) -> nat {
        self.steps as nat
    }

    /// The most tool calls the loop may make.
    pub closed spec fn limit(&self) -> nat {
        self.max_steps as nat
    }

    /// A loop that may make `max_steps` tool calls and made none yet.
    pub fn new(max_steps: usize) -> (r: Self)
        ensures
            r.steps_taken() == 0,
            r.limit() == max_steps,
    {
        LoopState { steps: 0, max_steps }
    }

    /// The tool calls made so far.
    pub fn steps(&self) -> (r: usize)
        ensures
            r == self.steps_taken(),
            r <= self.limit(),
    {
        proof {
            use_type_invariant(self);
        }
        self.steps
    }

    /// The most tool calls the loop may make.
    pub fn max_steps(&self) -> (r: usize)
        ensures
            r == self.limit(),
    {
        self.max_steps
    }

    /// Before asking the model: the loop ends where the limit is reached.
    pub fn before_request(&self) -> (r: Option<LoopOutcome>)
        ensures
            r == (if self.steps_taken() >= self.limit() {
                Some(LoopOutcome::CapReached)
            } else {
                None
            }),
    {
        if self.steps >= self.max_steps {
            Some(LoopOutcome::CapReached)
        } else {
            None
        }
    }

    /// After the model answered with `tool_calls` tool calls: the loop ends
    /// where there are none.
    pub fn after_response(&self, tool_calls: usize) -> (r: Option<LoopOutcome>)
        ensures
            r == (if tool_calls == 0 {
                Some(LoopOutcome::NoToolCalls)
            } else {
                None
            }),
    {
        if tool_calls == 0 {
            Some(LoopOutcome::NoToolCalls)
        } else {
            None
        }
    }

    /// After one tool call, `is_terminal` where it ends the loop: the call
    /// counts as a step, and the loop ends where it was terminal or the limit
    /// is reached.
    pub fn after_dispatch(&mut self, is_terminal: bool) -> (r: Option<LoopOutcome>)
        requires
            old(self).steps_taken() < old(self).limit(),
        ensures
            final(self).steps_taken() == old(self).steps_taken() + 1,
            final(self).limit() == old(self).limit(),
            final(self).steps_taken() <= final(self).limit(),
            r == (if is_terminal {
                Some(LoopOutcome::Terminal)
            } else if final(self).steps_taken() >= final(self).limit() {
                Some(LoopOutcome::CapReached)
            } else {
                None
            }),
    {
        self.steps = self.steps + 1;
        if is_terminal {
            Some(LoopOutcome::Terminal)
        } else if self.steps >= self.max_steps {
            Some(LoopOutcome::CapReached)
        } else {
            None
        }
    }
}

} // verus!
