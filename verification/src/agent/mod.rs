//! The agent: its skills, its prompts, its tools and the decisions of its
//! work on a ticket.

pub mod agents;
pub mod catalog;
pub mod context;
pub mod loop_runner;
pub mod skills;
pub mod tools;
pub mod work;

pub use work::TicketProcessingOutcome;
