//! Search: what a query asks, as statements a database can answer.
use vstd::prelude::*;

pub mod answers;
pub mod bind;
pub mod conditions;
pub mod hits;
pub mod marks;
pub mod meaning;
pub mod plan;
pub mod sql;
pub mod statements;

verus! {

} // verus!
