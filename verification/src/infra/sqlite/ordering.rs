//! The decisions between the database steps that keep siblings in order: what a
//! reorder needs next, given what the last step read, and what its updates are.
use vstd::prelude::*;

use crate::domain::document_tree::{NodeSiblingOrderUpdate, SiblingMoveDirection};
use crate::domain::sibling_order::{is_permutation, stably_sorted};
use crate::domain::DomainError;
use crate::error::AppError;
use crate::infra::sqlite::rules::{
    row_key, same_update, sorted_sibling_order_updates, SiblingOrderUpdateRow,
};
use crate::search::is_internal_consistency_error;
use crate::text::to_owned;

verus! {

/// The updates `r` list the rows in sibling order, as a stable sort by sort order, title
/// and id lists them.
pub open spec fn in_sibling_order(
    rows: Seq<SiblingOrderUpdateRow>,
    r: Seq<NodeSiblingOrderUpdate>,
) -> bool {
    exists|p: Seq<usize>|
        #![trigger is_permutation(p, rows.len() as int)]
        {
            &&& is_permutation(p, rows.len() as int)
            &&& stably_sorted(rows.map_values(|row: SiblingOrderUpdateRow| row_key(row)), p)
            &&& r.len() == rows.len()
            &&& forall|i: int| 0 <= i < r.len() ==> same_update(#[trigger] r[i], rows[p[i] as int].update)
        }
}

/// Some row updates the node.
pub open spec fn rows_mention(rows: Seq<SiblingOrderUpdateRow>, node_id: i64) -> bool {
    exists|i: int| 0 <= i < rows.len() && #[trigger] rows[i].update.node_id == node_id
}

pub open spec fn is_node_not_found(error: AppError, node_id: i64) -> bool {
    error == AppError::Domain(DomainError::NodeNotFound { node_id })
}

/// How far one step moves a node among its siblings.
pub fn direction_delta(direction: &SiblingMoveDirection) -> (r: i64)
    ensures
        r == match direction {
            SiblingMoveDirection::Up => -1int,
            SiblingMoveDirection::Down => 1int,
        },
{
    match direction {
        SiblingMoveDirection::Up => -1,
        SiblingMoveDirection::Down => 1,
    }
}

/// What swapping two siblings that share one sort order takes.
#[derive(Debug, PartialEq, Eq)]
pub enum DuplicateBucketPlan {
    /// The bucket's numbers would pass the largest sort order: renumber every sibling.
    Recalculate,
    /// Number the bucket from its sort order up to `gap_upper`; the siblings after it
    /// move up by `shift_delta` first when one of the numbers from `gap_lower` to
    /// `gap_upper` is taken.
    Spread { shift_delta: i64, gap_lower: i64, gap_upper: i64 },
}

/// The plan for a bucket of `duplicate_count` siblings at `sort_order`. Fewer than two
/// siblings there means the stored order is not what the caller saw.
pub fn duplicate_bucket_plan(duplicate_count: i64, sort_order: i64) -> (r: Result<
    DuplicateBucketPlan,
    AppError,
>)
    ensures
        duplicate_count < 2 ==> (r matches Err(e) && is_internal_consistency_error(e)),
        duplicate_count >= 2 && sort_order + duplicate_count - 1 > i64::MAX ==> r == Ok::<
            DuplicateBucketPlan,
            AppError,
        >(DuplicateBucketPlan::Recalculate),
        duplicate_count >= 2 && sort_order + duplicate_count - 1 <= i64::MAX ==> r == Ok::<
            DuplicateBucketPlan,
            AppError,
        >(
            DuplicateBucketPlan::Spread {
                shift_delta: (duplicate_count - 1) as i64,
                gap_lower: (sort_order + 1) as i64,
                gap_upper: (sort_order + duplicate_count - 1) as i64,
            },
        ),
{
    if duplicate_count < 2 {
        return Err(
            AppError::internal_consistency(
                "reorder duplicate SQLite sibling sort order",
                "duplicate sibling reorder requires at least two siblings with the same sort order",
            ),
        );
    }
    let shift_delta = duplicate_count - 1;
    match sort_order.checked_add(shift_delta) {
        None => Ok(DuplicateBucketPlan::Recalculate),
        Some(last) => Ok(
            DuplicateBucketPlan::Spread { shift_delta, gap_lower: sort_order + 1, gap_upper: last },
        ),
    }
}

/// Whether a range of sort orders can hold a sibling at all; an empty range needs no look.
pub fn sort_order_range_is_empty(lower: i64, upper: i64) -> (r: bool)
    ensures
        r == (lower > upper),
{
    lower > upper
}

/// Whether the siblings after a bucket can move up by `shift_delta`: there are some, and
/// the largest sort order stays within range.
pub fn shift_fits(max_sort_order: Option<i64>, shift_delta: i64) -> (r: bool)
    ensures
        r == (max_sort_order matches Some(m) && i64::MIN <= m + shift_delta <= i64::MAX),
{
    match max_sort_order {
        None => false,
        Some(m) => m.checked_add(shift_delta).is_some(),
    }
}

/// The updates of a swap of `node_id` and `neighbor_node_id`, in sibling order, once
/// both of them are among the rows that changed.
pub fn finish_sibling_reorder(
    rows: Vec<SiblingOrderUpdateRow>,
    node_id: i64,
    neighbor_node_id: i64,
) -> (r: Result<Vec<NodeSiblingOrderUpdate>, AppError>)
    ensures
        !rows_mention(rows@, node_id) ==> (r matches Err(e) && is_node_not_found(e, node_id)),
        rows_mention(rows@, node_id) && !rows_mention(rows@, neighbor_node_id) ==> (r matches Err(
            e,
        ) && is_node_not_found(e, neighbor_node_id)),
        rows_mention(rows@, node_id) && rows_mention(rows@, neighbor_node_id) ==> (r matches Ok(
            updates,
        ) && in_sibling_order(rows@, updates@)),
{
    let mut has_node = false;
    let mut has_neighbor = false;
    let mut i: usize = 0;
    while i < rows.len()
        invariant
            0 <= i <= rows@.len(),
            has_node == (exists|k: int| 0 <= k < i && #[trigger] rows@[k].update.node_id == node_id),
            has_neighbor == (exists|k: int|
                0 <= k < i && #[trigger] rows@[k].update.node_id == neighbor_node_id),
        decreases rows@.len() - i,
    {
        if rows[i].update.node_id == node_id {
            has_node = true;
        }
        if rows[i].update.node_id == neighbor_node_id {
            has_neighbor = true;
        }
        i = i + 1;
    }
    if !has_node {
        return Err(AppError::Domain(DomainError::NodeNotFound { node_id }));
    }
    if !has_neighbor {
        return Err(AppError::Domain(DomainError::NodeNotFound { node_id: neighbor_node_id }));
    }
    let ghost all = rows@;
    let updates = sorted_sibling_order_updates(rows);
    assert(in_sibling_order(all, updates@));
    Ok(updates)
}

/// What moving a node to the end of its own siblings takes.
#[derive(Debug, PartialEq, Eq)]
pub enum ParentEndPlan {
    /// No sibling comes after it: nothing changes.
    AlreadyLast,
    /// It shares the largest sort order: renumber the siblings with it moved last.
    RotateToEnd,
    /// Close the gap it leaves, then give it the largest sort order.
    ShiftThenPlace { end_sort_order: i64 },
}

/// The plan, from what was read about the node's siblings: whether the node is one of
/// them, whether one comes after it, and their largest sort order.
pub fn parent_end_plan(
    node_id: i64,
    node_exists: bool,
    has_later_sibling: bool,
    end_sort_order: Option<i64>,
    current_sort_order: i64,
) -> (r: Result<ParentEndPlan, AppError>)
    ensures
        !node_exists ==> (r matches Err(e) && is_node_not_found(e, node_id)),
        node_exists && !has_later_sibling ==> r == Ok::<ParentEndPlan, AppError>(
            ParentEndPlan::AlreadyLast,
        ),
        node_exists && has_later_sibling && end_sort_order is None ==> (r matches Err(e)
            && is_internal_consistency_error(e)),
        node_exists && has_later_sibling && end_sort_order == Some(current_sort_order) ==> r
            == Ok::<ParentEndPlan, AppError>(ParentEndPlan::RotateToEnd),
        node_exists && has_later_sibling && (end_sort_order matches Some(end) && end
            != current_sort_order) ==> r == Ok::<ParentEndPlan, AppError>(
            ParentEndPlan::ShiftThenPlace { end_sort_order: end_sort_order->0 },
        ),
{
    if !node_exists {
        return Err(AppError::Domain(DomainError::NodeNotFound { node_id }));
    }
    if !has_later_sibling {
        return Ok(ParentEndPlan::AlreadyLast);
    }
    match end_sort_order {
        None => Err(
            AppError::internal_consistency(
                "move SQLite node to parent end",
                "active node is missing from its sibling set",
            ),
        ),
        Some(end) => if end == current_sort_order {
            Ok(ParentEndPlan::RotateToEnd)
        } else {
            Ok(ParentEndPlan::ShiftThenPlace { end_sort_order: end })
        },
    }
}

/// `i` is where `node_id` first stands in `order`.
pub open spec fn first_position(order: Seq<i64>, node_id: i64, i: int) -> bool {
    &&& 0 <= i < order.len()
    &&& order[i] == node_id
    &&& forall|j: int| 0 <= j < i ==> order[j] != node_id
}

/// The sibling order with `node_id` taken from where it first stands and put last.
pub fn rotated_to_end(order: Vec<i64>, node_id: i64) -> (r: Result<Vec<i64>, AppError>)
    ensures
        !order@.contains(node_id) ==> (r matches Err(e) && is_node_not_found(e, node_id)),
        order@.contains(node_id) ==> (r matches Ok(v) && exists|i: int|
            first_position(order@, node_id, i) && v@ == order@.remove(i).push(node_id)),
{
    let mut i: usize = 0;
    while i < order.len()
        invariant
            0 <= i <= order@.len(),
            forall|j: int| 0 <= j < i ==> order@[j] != node_id,
        decreases order@.len() - i,
    {
        if order[i] == node_id {
            let mut moved = order;
            let ghost before = moved@;
            let id = moved.remove(i);
            moved.push(id);
            assert(first_position(before, node_id, i as int));
            return Ok(moved);
        }
        i = i + 1;
    }
    Err(AppError::Domain(DomainError::NodeNotFound { node_id }))
}

/// The updates of a move to the parent's end: those of the siblings that moved up to
/// close the gap, then the node's own.
pub fn with_end_update(
    updates: Vec<NodeSiblingOrderUpdate>,
    node_id: i64,
    parent_id: Option<i64>,
    end_sort_order: i64,
    updated_at: &str,
) -> (r: Vec<NodeSiblingOrderUpdate>)
    ensures
        r@.len() == updates@.len() + 1,
        r@.drop_last() == updates@,
        r@.last().node_id == node_id,
        r@.last().parent_id == parent_id,
        r@.last().sort_order == end_sort_order,
        r@.last().updated_at@ == updated_at@,
{
    let mut updates = updates;
    updates.push(
        NodeSiblingOrderUpdate {
            node_id,
            parent_id,
            sort_order: end_sort_order,
            updated_at: to_owned(updated_at),
        },
    );
    updates
}

/// A write that changed no row found no such node.
pub fn ensure_row_updated(updated: usize, node_id: i64) -> (r: Result<(), AppError>)
    ensures
        r is Ok <==> updated != 0,
        r is Err ==> (r matches Err(e) && is_node_not_found(e, node_id)),
{
    if updated == 0 {
        return Err(AppError::Domain(DomainError::NodeNotFound { node_id }));
    }
    Ok(())
}

/// Why renumbering siblings found fewer of them than were listed: the first listed node
/// that is not an active sibling, or else a node listed twice.
pub fn recalculation_mismatch_error(ordered_node_ids: &[i64], found: &[bool]) -> (r: AppError)
    requires
        found@.len() == ordered_node_ids@.len(),
    ensures
        (exists|i: int| 0 <= i < found@.len() && !found@[i]) ==> exists|i: int|
            0 <= i < found@.len() && !found@[i] && (forall|j: int| 0 <= j < i ==> found@[j])
                && is_node_not_found(r, ordered_node_ids@[i]),
        (forall|i: int| 0 <= i < found@.len() ==> found@[i]) ==> is_internal_consistency_error(r),
{
    let mut i: usize = 0;
    while i < found.len()
        invariant
            0 <= i <= found@.len(),
            found@.len() == ordered_node_ids@.len(),
            forall|j: int| 0 <= j < i ==> found@[j],
        decreases found@.len() - i,
    {
        if !found[i] {
            return AppError::Domain(DomainError::NodeNotFound { node_id: ordered_node_ids[i] });
        }
        i = i + 1;
    }
    AppError::internal_consistency(
        "recalculate sibling sort order",
        "sibling order contains duplicate nodes",
    )
}

/// The next node id: one past the largest, or the first when there are none.
pub fn next_node_id_after(max_id: Option<i64>) -> (r: Result<i64, AppError>)
    ensures
        max_id is None ==> r == Ok::<i64, AppError>(1),
        max_id matches Some(m) && m < i64::MAX ==> r == Ok::<i64, AppError>((max_id->0 + 1) as i64),
        max_id == Some(i64::MAX) ==> (r matches Err(e) && is_internal_consistency_error(e)),
{
    match max_id {
        None => Ok(1),
        Some(m) => if m == i64::MAX {
            Err(
                AppError::internal_consistency(
                    "calculate next SQLite node id",
                    "SQLite node id reached i64::MAX",
                ),
            )
        } else {
            Ok(m + 1)
        },
    }
}

/// A node cannot become its own parent.
pub fn ensure_not_own_parent(node_id: i64, parent_id: i64) -> (r: Result<(), AppError>)
    ensures
        r is Ok <==> node_id != parent_id,
        r is Err ==> r == Err::<(), AppError>(
            AppError::Domain(DomainError::CannotMoveNodeIntoItself { node_id }),
        ),
{
    if node_id == parent_id {
        return Err(AppError::Domain(DomainError::CannotMoveNodeIntoItself { node_id }));
    }
    Ok(())
}

/// A node cannot move under one of its own descendants.
pub fn ensure_not_under_descendant(node_id: i64, parent_id: i64, parent_descends_from_node: bool) -> (r:
    Result<(), AppError>)
    ensures
        r is Ok <==> !parent_descends_from_node,
        r is Err ==> r == Err::<(), AppError>(
            AppError::Domain(DomainError::CannotMoveNodeIntoDescendant { node_id, parent_id }),
        ),
{
    if parent_descends_from_node {
        return Err(AppError::Domain(DomainError::CannotMoveNodeIntoDescendant { node_id, parent_id }));
    }
    Ok(())
}

/// What moving a node one step among its siblings takes, given the sibling next to it in
/// that direction.
#[derive(Debug, PartialEq, Eq)]
pub enum SiblingSwapPlan {
    /// No sibling there: nothing changes.
    Stay,
    /// The sibling shares the node's sort order: reorder within that bucket.
    ReorderDuplicates,
    /// Exchange the two sort orders.
    Swap,
}

pub fn sibling_swap_plan(neighbor_sort_order: Option<i64>, source_sort_order: i64) -> (r: SiblingSwapPlan)
    ensures
        neighbor_sort_order is None ==> r == SiblingSwapPlan::Stay,
        neighbor_sort_order == Some(source_sort_order) ==> r == SiblingSwapPlan::ReorderDuplicates,
        neighbor_sort_order matches Some(n) && n != source_sort_order ==> r == SiblingSwapPlan::Swap,
{
    match neighbor_sort_order {
        None => SiblingSwapPlan::Stay,
        Some(n) => if n == source_sort_order {
            SiblingSwapPlan::ReorderDuplicates
        } else {
            SiblingSwapPlan::Swap
        },
    }
}

pub open spec fn is_update(
    u: NodeSiblingOrderUpdate,
    node_id: i64,
    parent_id: Option<i64>,
    sort_order: i64,
    updated_at: Seq<char>,
) -> bool {
    u.node_id == node_id && u.parent_id == parent_id && u.sort_order == sort_order && u.updated_at@
        == updated_at
}

/// The updates of a swap of two siblings' sort orders, in their new sibling order: moving
/// up, the node comes first; moving down, the neighbor does.
pub fn swapped_sibling_updates(
    node_id: i64,
    parent_id: Option<i64>,
    source_sort_order: i64,
    neighbor_node_id: i64,
    neighbor_sort_order: i64,
    direction: &SiblingMoveDirection,
    updated_at: &str,
) -> (r: Vec<NodeSiblingOrderUpdate>)
    ensures
        r@.len() == 2,
        match direction {
            SiblingMoveDirection::Up => is_update(r@[0], node_id, parent_id, neighbor_sort_order, updated_at@)
                && is_update(r@[1], neighbor_node_id, parent_id, source_sort_order, updated_at@),
            SiblingMoveDirection::Down => is_update(r@[0], neighbor_node_id, parent_id, source_sort_order, updated_at@)
                && is_update(r@[1], node_id, parent_id, neighbor_sort_order, updated_at@),
        },
{
    let moved = NodeSiblingOrderUpdate {
        node_id,
        parent_id,
        sort_order: neighbor_sort_order,
        updated_at: to_owned(updated_at),
    };
    let displaced = NodeSiblingOrderUpdate {
        node_id: neighbor_node_id,
        parent_id,
        sort_order: source_sort_order,
        updated_at: to_owned(updated_at),
    };
    let mut updates: Vec<NodeSiblingOrderUpdate> = Vec::new();
    match direction {
        SiblingMoveDirection::Up => {
            updates.push(moved);
            updates.push(displaced);
        },
        SiblingMoveDirection::Down => {
            updates.push(displaced);
            updates.push(moved);
        },
    }
    updates
}

} // verus!
