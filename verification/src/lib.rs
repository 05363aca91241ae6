//! The parts of a mail client that must not be wrong: what a search means,
//! which conversation a message belongs to, what a triage action changes and
//! what undoing it puts back, what is sent again and what is not, when a
//! message is purged, and how a mailbox is written out.
//!
//! Nothing here reads a clock, a file, a socket or a database. Each function
//! takes what was read and gives back what follows from it, with a contract
//! that says what that is.

pub mod actions;
pub mod autoconfig;
pub mod blob;
pub mod keywords;
pub mod mbox;
pub mod message;
pub mod order;
pub mod outbox;
pub mod retention;
pub mod rules;
pub mod search_query;
pub mod store;
pub mod text;
pub mod threading;
