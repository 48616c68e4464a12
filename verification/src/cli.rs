//! The command-line interface's argument handling and input checks.
use vstd::prelude::*;

pub mod args;
pub mod content;
pub mod output;
pub mod parser;
pub mod request;

verus! {

} // verus!
