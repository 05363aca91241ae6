//! Saved searches: a question, pinned under a name.
//!
//! What a saved search finds is never stored, so nothing here can fall out of
//! step with the mail. The query is kept as it was typed: the field is meant
//! to give back what it was given.

use crate::text::{chars_of, same, string_of, trim, trimmed};
use vstd::prelude::*;

verus! {

#[derive(Debug, Clone, PartialEq, Eq)]
pub struct SavedSearch {
    pub id: i64,
    /// What the sidebar calls it. Never the query text.
    pub name: String,
    /// What goes back into the search field, character for character.
    pub query: String,
    pub position: i64,
}

/// A name as it is kept, without the white space round it.
pub fn kept_name(typed: &str) -> (name: String)
    ensures
        name@ == trim(typed@),
{
    string_of(trimmed(&chars_of(typed)))
}

/// The query a saved search holds once something it can name was renamed,
/// where that changes it. A query that still reads as it did is left alone.
pub fn rewritten(search: &SavedSearch, renamed: Option<String>) -> (query: Option<String>)
    ensures
        match query {
            Some(q) => renamed matches Some(next) && q@ == next@ && next@ != search.query@,
            None => match renamed {
                Some(next) => next@ == search.query@,
                None => true,
            },
        },
{
    match renamed {
        Some(next) => if same(&next, &search.query) {
            None
        } else {
            Some(next)
        },
        None => None,
    }
}

} // verus!
