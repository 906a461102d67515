//! What the agent remembers: the context repository of markdown notes.

pub mod context_repo;
pub mod defrag;

use vstd::prelude::*;

verus! {

/// The working context saved for a ticket, and when it was saved (RFC 3339).
pub struct MemoryEntry {
    pub ticket_id: String,
    pub context: String,
    pub updated_at: String,
}

} // verus!
