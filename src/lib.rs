//! A focus trap over a model of the document: candidate queries, focus
//! filters, event target resolution and the trap's state machine.

pub mod dom;
pub mod events;
pub mod filter;
pub mod query;
pub mod trap;
pub mod id;
