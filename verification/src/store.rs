//! The metadata and search store, apart from the database it is kept in.
use vstd::prelude::*;

pub mod accounts;
pub mod drafts;
pub mod error;
pub mod folders;
pub mod index_text;
pub mod ingest;
pub mod like;
pub mod listing;
pub mod maintenance;
pub mod paging;
pub mod positions;
pub mod rows;
pub mod saved_search;
pub mod search;
pub mod shown;
pub mod sync_state;
pub mod threads;
pub mod triage;
pub mod views;

verus! {

} // verus!
