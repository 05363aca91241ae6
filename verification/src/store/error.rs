//! What the store refuses, and what went wrong.

use crate::text::{chars_of, put, string_of};
use vstd::prelude::*;

verus! {

#[derive(Debug, Clone, PartialEq, Eq)]
pub enum StoreError {
    Integrity(String),
    Ingest(String),
    /// Somebody asked for what the store will not do, as distinct from
    /// something going wrong while doing it.
    Rejected(String),
}

impl StoreError {
    /// What is wrong, in words.
    pub fn to_text(&self) -> (out: String)
        ensures
            out@ == match *self {
                StoreError::Integrity(why) => "fts integrity check failed: "@ + why@,
                StoreError::Ingest(why) => "ingest failed: "@ + why@,
                StoreError::Rejected(why) => why@,
            },
    {
        let mut out: Vec<char> = Vec::new();
        match self {
            StoreError::Integrity(why) => {
                put(&mut out, "fts integrity check failed: ");
                put(&mut out, why);
                assert(out@ =~= "fts integrity check failed: "@ + why@);
            },
            StoreError::Ingest(why) => {
                put(&mut out, "ingest failed: ");
                put(&mut out, why);
                assert(out@ =~= "ingest failed: "@ + why@);
            },
            StoreError::Rejected(why) => {
                put(&mut out, why);
                assert(out@ =~= why@);
            },
        }
        string_of(&out)
    }
}

pub open spec fn is_rejected(e: StoreError, why: Seq<char>) -> bool {
    e matches StoreError::Rejected(said) && said@ == why
}

/// A refusal.
pub fn refused(why: &str) -> (e: StoreError)
    ensures
        is_rejected(e, why@),
{
    StoreError::Rejected(string_of(&chars_of(why)))
}

/// A refusal made of two halves.
pub fn rejected(first: &str, second: &str) -> (e: StoreError)
    ensures
        is_rejected(e, first@ + second@),
{
    let mut out: Vec<char> = Vec::new();
    put(&mut out, first);
    put(&mut out, second);
    assert(out@ =~= first@ + second@);
    StoreError::Rejected(string_of(&out))
}

} // verus!
