//! The boards the agent works on, and the tag that marks its comments.

pub mod agent_tag;
pub mod linear;
pub mod status;
pub mod trello;
pub mod common;
pub mod requests;
