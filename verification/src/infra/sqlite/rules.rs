//! The decisions the document repository makes on plain values: turning stored rows
//! into nodes, numbering siblings, and which nodes may move.
use vstd::prelude::*;

use crate::domain::document_tree::{node_error, Node, NodeSiblingOrderUpdate, ROOT_NODE_ID};
use crate::domain::sibling_order::{
    is_permutation, key_view, keys_view, sibling_order_permutation, stably_sorted, SiblingKey,
};
use crate::domain::DomainError;
use crate::error::AppError;
use crate::search::is_internal_consistency_error;
use crate::text::to_owned;

verus! {

/// A node row as it was read from the database.
#[derive(Debug, Clone)]
pub struct NodeRecord {
    pub id: i64,
    pub parent_id: Option<i64>,
    pub title: String,
    pub sort_order: i64,
    pub content: String,
    pub created_at: String,
    pub updated_at: String,
    pub deleted_at: Option<String>,
}

pub open spec fn record_node(record: NodeRecord) -> Node {
    Node {
        id: record.id,
        parent_id: record.parent_id,
        title: record.title,
        sort_order: record.sort_order,
        content: record.content,
        created_at: record.created_at,
        updated_at: record.updated_at,
        deleted_at: record.deleted_at,
    }
}

/// The node a stored row describes, refused when the row breaks a node's rules.
pub fn node_from_record(record: NodeRecord) -> (r: Result<Node, AppError>)
    ensures
        match node_error(record_node(record)) {
            Some(e) => r == Err::<Node, AppError>(AppError::Domain(e)),
            None => r == Ok::<Node, AppError>(record_node(record)),
        },
{
    let node = Node {
        id: record.id,
        parent_id: record.parent_id,
        title: record.title,
        sort_order: record.sort_order,
        content: record.content,
        created_at: record.created_at,
        updated_at: record.updated_at,
        deleted_at: record.deleted_at,
    };
    match node.validate() {
        Ok(()) => Ok(node),
        Err(error) => Err(AppError::Domain(error)),
    }
}

/// Only a node below the root may move.
pub fn ensure_movable_node(node_id: i64, parent_id: Option<i64>) -> (r: Result<(), AppError>)
    ensures
        r is Ok <==> node_id != ROOT_NODE_ID && parent_id is Some,
        r is Err ==> r == Err::<(), AppError>(AppError::Domain(DomainError::CannotMoveRoot)),
{
    if node_id == ROOT_NODE_ID || parent_id.is_none() {
        return Err(AppError::Domain(DomainError::CannotMoveRoot));
    }
    Ok(())
}

/// The sort order after the largest one among the siblings, or the first one when
/// there are none.
pub fn next_sort_order_after(max_sort_order: Option<i64>) -> (r: Result<i64, AppError>)
    ensures
        match max_sort_order {
            None => r == Ok::<i64, AppError>(0),
            Some(m) => if m < i64::MAX {
                r == Ok::<i64, AppError>((m + 1) as i64)
            } else {
                r matches Err(e) && is_internal_consistency_error(e)
            },
        },
{
    match max_sort_order {
        None => Ok(0),
        Some(m) => {
            if m == i64::MAX {
                return Err(
                    AppError::internal_consistency(
                        "calculate next SQLite child sort order",
                        "SQLite child sort_order reached i64::MAX",
                    ),
                );
            }
            Ok(m + 1)
        },
    }
}

/// The updates that number the given siblings 0, 1, 2 ... in the given order.
pub fn sibling_order_updates(
    parent_id: Option<i64>,
    ordered_node_ids: &[i64],
    updated_at: &str,
) -> (r: Result<Vec<NodeSiblingOrderUpdate>, AppError>)
    ensures
        ordered_node_ids@.len() <= i64::MAX + 1 ==> (r matches Ok(updates) && updates@.len()
            == ordered_node_ids@.len() && forall|i: int|
            0 <= i < updates@.len() ==> {
                &&& #[trigger] updates@[i].node_id == ordered_node_ids@[i]
                &&& updates@[i].parent_id == parent_id
                &&& updates@[i].sort_order == i
                &&& updates@[i].updated_at@ == updated_at@
            }),
        ordered_node_ids@.len() > i64::MAX + 1 ==> (r matches Err(e) && is_internal_consistency_error(e)),
{
    let mut updates: Vec<NodeSiblingOrderUpdate> = Vec::new();
    let mut i: usize = 0;
    while i < ordered_node_ids.len()
        invariant
            0 <= i <= ordered_node_ids@.len(),
            updates@.len() == i,
            i <= i64::MAX + 1,
            forall|k: int|
                0 <= k < i ==> {
                    &&& #[trigger] updates@[k].node_id == ordered_node_ids@[k]
                    &&& updates@[k].parent_id == parent_id
                    &&& updates@[k].sort_order == k
                    &&& updates@[k].updated_at@ == updated_at@
                },
        decreases ordered_node_ids@.len() - i,
    {
        if i as u64 > i64::MAX as u64 {
            return Err(
                AppError::internal_consistency(
                    "build sibling sort order update",
                    "too many sibling nodes to sort",
                ),
            );
        }
        updates.push(
            NodeSiblingOrderUpdate {
                node_id: ordered_node_ids[i],
                parent_id,
                sort_order: i as i64,
                updated_at: to_owned(updated_at),
            },
        );
        i = i + 1;
    }
    Ok(updates)
}

/// A sibling's order update, with the title it is ordered by.
#[derive(Debug)]
pub struct SiblingOrderUpdateRow {
    pub title: String,
    pub update: NodeSiblingOrderUpdate,
}

pub open spec fn row_key(row: SiblingOrderUpdateRow) -> (i64, Seq<char>, i64) {
    (row.update.sort_order, row.title@, row.update.node_id)
}

pub open spec fn same_update(a: NodeSiblingOrderUpdate, b: NodeSiblingOrderUpdate) -> bool {
    &&& a.node_id == b.node_id
    &&& a.parent_id == b.parent_id
    &&& a.sort_order == b.sort_order
    &&& a.updated_at@ == b.updated_at@
}

fn copy_update(update: &NodeSiblingOrderUpdate) -> (r: NodeSiblingOrderUpdate)
    ensures
        same_update(r, *update),
{
    NodeSiblingOrderUpdate {
        node_id: update.node_id,
        parent_id: update.parent_id,
        sort_order: update.sort_order,
        updated_at: update.updated_at.clone(),
    }
}

/// The updates in sibling order: by sort order, title and id, as a stable sort lists them.
pub fn sorted_sibling_order_updates(updates: Vec<SiblingOrderUpdateRow>) -> (r: Vec<
    NodeSiblingOrderUpdate,
>)
    ensures
        exists|p: Seq<usize>|
            #![trigger is_permutation(p, updates@.len() as int)]
            {
                &&& is_permutation(p, updates@.len() as int)
                &&& stably_sorted(updates@.map_values(|row: SiblingOrderUpdateRow| row_key(row)), p)
                &&& r@.len() == updates@.len()
                &&& forall|i: int| 0 <= i < r@.len() ==> same_update(#[trigger] r@[i], updates@[p[i] as int].update)
            },
{
    let mut keys: Vec<SiblingKey> = Vec::new();
    let mut i: usize = 0;
    while i < updates.len()
        invariant
            0 <= i <= updates@.len(),
            keys@.len() == i,
            forall|a: int| 0 <= a < i ==> key_view(#[trigger] keys@[a]) == row_key(updates@[a]),
        decreases updates@.len() - i,
    {
        let row = &updates[i];
        keys.push(SiblingKey { sort_order: row.update.sort_order, title: row.title.as_str(), id: row.update.node_id });
        i = i + 1;
    }
    let perm = sibling_order_permutation(keys.as_slice());
    proof {
        assert(keys_view(keys@) =~= updates@.map_values(|row: SiblingOrderUpdateRow| row_key(row)));
    }
    let mut out: Vec<NodeSiblingOrderUpdate> = Vec::new();
    let mut k: usize = 0;
    while k < perm.len()
        invariant
            0 <= k <= perm@.len(),
            is_permutation(perm@, updates@.len() as int),
            out@.len() == k,
            forall|a: int| 0 <= a < k ==> same_update(#[trigger] out@[a], updates@[perm@[a] as int].update),
        decreases perm@.len() - k,
    {
        out.push(copy_update(&updates[perm[k]].update));
        k = k + 1;
    }
    out
}

/// Document content may not hold a NUL character.
pub fn reject_nul_document_content(node_id: i64, content: &str) -> (r: Result<(), AppError>)
    ensures
        r is Ok <==> !crate::text::has_char(content@, '\0'),
        r is Err ==> r == Err::<(), AppError>(AppError::Domain(DomainError::EmbeddedNulContent { node_id })),
{
    if crate::text::str_has_char(content, '\0') {
        return Err(AppError::Domain(DomainError::EmbeddedNulContent { node_id }));
    }
    Ok(())
}

/// A content write that changed no row either found a NUL in the stored content, when
/// that was checked, or lost a race with another save.
pub fn ensure_content_saved(updated: usize, node_id: i64, stored_content_has_nul: bool) -> (r: Result<
    (),
    AppError,
>)
    ensures
        updated != 0 ==> r is Ok,
        updated == 0 && stored_content_has_nul ==> r == Err::<(), AppError>(
            AppError::Domain(DomainError::EmbeddedNulContent { node_id }),
        ),
        updated == 0 && !stored_content_has_nul ==> r == Err::<(), AppError>(
            AppError::Domain(DomainError::DocumentSaveConflict { node_id }),
        ),
{
    if updated != 0 {
        return Ok(());
    }
    if stored_content_has_nul {
        return Err(AppError::Domain(DomainError::EmbeddedNulContent { node_id }));
    }
    Err(AppError::Domain(DomainError::DocumentSaveConflict { node_id }))
}

} // verus!
