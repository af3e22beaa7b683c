//! Storage rules that do not touch the database: documents read back from
//! row columns, full-text query quoting,
//! the rows that seed a project from a template or an import, tag-set
//! normalisation, codex updates and search patterns, citation fields, and the writing-streak bookkeeping.
use vstd::prelude::*;

pub mod citations;
pub mod codex;
pub mod rows;
pub mod search;
pub mod seed;
pub mod tags;
pub mod stats;

verus! {
} // verus!
