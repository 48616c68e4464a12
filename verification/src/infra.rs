//! The application's edges that are still plain computation: text file encodings,
//! the text tree export layout, the desktop entry files and the about text.
use vstd::prelude::*;

pub mod sqlite;
pub mod desktop_entry;
pub mod text_file;
pub mod text_tree_export;

verus! {

} // verus!
