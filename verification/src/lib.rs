//! A document tree editor's core: the tree of titled text documents, the open
//! editor tabs, literal find and replace, persisted settings, and the text
//! conversions used for import and export.
use vstd::prelude::*;

pub mod cli;
pub mod decimal;
pub mod domain;
pub mod error;
pub mod infra;
pub mod launch;
pub mod search;
pub mod text;

verus! {

} // verus!
