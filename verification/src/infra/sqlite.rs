//! The document database: where it lives, and the decisions taken between its queries.
use vstd::prelude::*;

pub mod ordering;
pub mod path;
pub mod rules;
pub mod schema;
pub mod subtree;

verus! {

/// What a rename stored: the title, normalized, and the new timestamp.
#[derive(Debug, Clone, PartialEq, Eq)]
pub struct RenamedNodeUpdate {
    pub title: String,
    pub updated_at: String,
}

/// What a delete changed: the nodes moved to the trash, and the siblings renumbered
/// to close the gap.
#[derive(Debug, Clone, PartialEq, Eq)]
pub struct DeleteNodeUpdate {
    pub removed_node_ids: Vec<i64>,
    pub sibling_orders: Vec<crate::domain::document_tree::NodeSiblingOrderUpdate>,
}

} // verus!
