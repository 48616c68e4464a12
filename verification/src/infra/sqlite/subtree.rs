//! The decisions around moving a whole subtree to the trash and back: whether a staged
//! subtree is still the one the caller saw, where a restored node goes, and the nodes a
//! restore gives back.
use vstd::prelude::*;

use crate::domain::document_tree::{node_error, Node, ROOT_NODE_ID};
use crate::domain::DomainError;
use crate::error::AppError;
use crate::search::{
    holds_title, is_internal_consistency_error, restored_title_result, unique_restored_child_title_from_titles,
};
use crate::text::to_owned;

verus! {

/// Whether the staged ids are the ones the caller prepared, in the same order, and hold
/// the node being deleted. An empty preparation never matches.
pub fn staged_ids_match(node_id: i64, expected_node_ids: &[i64], staged_node_ids: &[i64]) -> (r:
    bool)
    ensures
        r == (expected_node_ids@.len() > 0 && staged_node_ids@ == expected_node_ids@
            && staged_node_ids@.contains(node_id)),
{
    if expected_node_ids.len() == 0 || staged_node_ids.len() != expected_node_ids.len() {
        return false;
    }
    let mut i: usize = 0;
    let mut holds_node = false;
    while i < staged_node_ids.len()
        invariant
            0 <= i <= staged_node_ids@.len(),
            staged_node_ids@.len() == expected_node_ids@.len(),
            forall|j: int| 0 <= j < i ==> staged_node_ids@[j] == expected_node_ids@[j],
            holds_node == (exists|j: int| 0 <= j < i && staged_node_ids@[j] == node_id),
        decreases staged_node_ids@.len() - i,
    {
        if staged_node_ids[i] != expected_node_ids[i] {
            return false;
        }
        if staged_node_ids[i] == node_id {
            holds_node = true;
        }
        i = i + 1;
    }
    assert(staged_node_ids@ =~= expected_node_ids@);
    holds_node
}

/// Whether the database still agrees with a staged subtree of `staged_len` nodes: all of
/// them active, none but the root outside the subtree's own parents, and no active child
/// left out of it.
pub fn staged_subtree_intact(
    staged_len: usize,
    active_count: i64,
    detached_count: i64,
    extra_active_child_count: i64,
) -> (r: Result<bool, AppError>)
    ensures
        staged_len > i64::MAX ==> (r matches Err(e) && is_internal_consistency_error(e)),
        staged_len <= i64::MAX ==> r == Ok::<bool, AppError>(
            active_count == staged_len && detached_count == 0 && extra_active_child_count == 0,
        ),
{
    if staged_len as u64 > i64::MAX as u64 {
        return Err(
            AppError::internal_consistency(
                "validate staged SQLite subtree",
                "staged subtree length exceeded SQLite count range",
            ),
        );
    }
    let staged_count = staged_len as i64;
    Ok(active_count == staged_count && detached_count == 0 && extra_active_child_count == 0)
}

/// Where a restored node goes: back under its parent while that parent is active, else
/// under the root.
pub fn restore_target_parent_id(former_parent_id: Option<i64>, former_parent_active: bool) -> (r:
    i64)
    ensures
        r == match former_parent_id {
            Some(p) => if former_parent_active {
                p
            } else {
                ROOT_NODE_ID
            },
            None => ROOT_NODE_ID,
        },
{
    match former_parent_id {
        Some(parent_id) => if former_parent_active {
            parent_id
        } else {
            ROOT_NODE_ID
        },
        None => ROOT_NODE_ID,
    }
}

/// A deleted node's stored metadata, read for a restore.
#[derive(Debug, Clone)]
pub struct RestorableNodeMetadata {
    pub id: i64,
    pub parent_id: Option<i64>,
    pub title: String,
    pub sort_order: i64,
    pub created_at: String,
}

/// `n` is the node a restore gives back for `m`: active again, stamped with the restore
/// time, its content left to be loaded.
pub open spec fn is_restored_node(n: Node, m: RestorableNodeMetadata, restored_at: Seq<char>) -> bool {
    &&& n.id == m.id
    &&& n.parent_id == m.parent_id
    &&& n.title@ == m.title@
    &&& n.sort_order == m.sort_order
    &&& n.content@.len() == 0
    &&& n.created_at@ == m.created_at@
    &&& n.updated_at@ == restored_at
    &&& n.deleted_at is None
}

/// The nodes a restore gives back, in the order read; the first that breaks a node's
/// rules is reported.
pub fn restored_nodes(metadata: Vec<RestorableNodeMetadata>, restored_at: &str) -> (r: Result<
    Vec<Node>,
    AppError,
>)
    ensures
        r matches Ok(nodes) ==> nodes@.len() == metadata@.len() && forall|i: int|
            0 <= i < nodes@.len() ==> is_restored_node(#[trigger] nodes@[i], metadata@[i], restored_at@)
                && node_error(nodes@[i]) is None,
        r matches Err(e) ==> exists|i: int, n: Node|
            0 <= i < metadata@.len() && #[trigger] is_restored_node(n, metadata@[i], restored_at@)
                && (node_error(n) matches Some(d) && e == AppError::Domain(d)),
        (forall|i: int, n: Node|
            0 <= i < metadata@.len() && #[trigger] is_restored_node(n, metadata@[i], restored_at@)
                ==> node_error(n) is None) ==> r is Ok,
{
    let mut nodes: Vec<Node> = Vec::new();
    let mut i: usize = 0;
    while i < metadata.len()
        invariant
            0 <= i <= metadata@.len(),
            nodes@.len() == i,
            forall|j: int|
                0 <= j < i ==> is_restored_node(#[trigger] nodes@[j], metadata@[j], restored_at@)
                    && node_error(nodes@[j]) is None,
        decreases metadata@.len() - i,
    {
        let m = &metadata[i];
        let node = Node {
            id: m.id,
            parent_id: m.parent_id,
            title: to_owned(m.title.as_str()),
            sort_order: m.sort_order,
            content: String::new(),
            created_at: to_owned(m.created_at.as_str()),
            updated_at: to_owned(restored_at),
            deleted_at: None,
        };
        assert(is_restored_node(node, metadata@[i as int], restored_at@));
        match node.validate() {
            Ok(()) => {},
            Err(error) => {
                return Err(AppError::Domain(error));
            },
        }
        nodes.push(node);
        i = i + 1;
    }
    Ok(nodes)
}

/// The titles the active children of one parent already have.
#[derive(Debug, Clone)]
pub struct ParentTitles {
    pub parent_id: Option<i64>,
    pub titles: Vec<String>,
}

/// The active titles under `parent`: those of the first group for it, or none.
pub open spec fn active_titles_of(groups: Seq<ParentTitles>, parent: Option<i64>) -> Seq<String>
    decreases groups.len(),
{
    if groups.len() == 0 {
        Seq::empty()
    } else if groups[0].parent_id == parent {
        groups[0].titles@
    } else {
        active_titles_of(groups.drop_first(), parent)
    }
}

/// The titles chosen so far for restored nodes under `parent`, in their order.
pub open spec fn reserved_titles(
    nodes: Seq<RestorableNodeMetadata>,
    chosen: Seq<String>,
    parent: Option<i64>,
) -> Seq<String>
    decreases chosen.len(),
{
    if chosen.len() == 0 {
        Seq::empty()
    } else if nodes[chosen.len() - 1].parent_id == parent {
        reserved_titles(nodes, chosen.drop_last(), parent).push(chosen.last())
    } else {
        reserved_titles(nodes, chosen.drop_last(), parent)
    }
}

/// The restored title of node `i`, given the titles chosen before it.
pub open spec fn title_choice(
    nodes: Seq<RestorableNodeMetadata>,
    groups: Seq<ParentTitles>,
    before: Seq<String>,
    r: Result<String, AppError>,
) -> bool {
    let node = nodes[before.len() as int];
    restored_title_result(
        active_titles_of(groups, node.parent_id),
        node.title@,
        reserved_titles(nodes, before, node.parent_id),
        r,
    )
}

/// Where the group for `parent` stands, if there is one.
fn group_index(groups: &[ParentTitles], parent: Option<i64>) -> (r: Option<usize>)
    ensures
        match r {
            Some(j) => j < groups@.len() && groups@[j as int].titles@ == active_titles_of(groups@, parent),
            None => active_titles_of(groups@, parent) == Seq::<String>::empty(),
        },
{
    let mut j: usize = 0;
    assert(groups@.skip(0) =~= groups@);
    while j < groups.len()
        invariant
            0 <= j <= groups@.len(),
            active_titles_of(groups@, parent) == active_titles_of(groups@.skip(j as int), parent),
        decreases groups@.len() - j,
    {
        assert(groups@.skip(j as int)[0] == groups@[j as int]);
        if groups[j].parent_id == parent {
            return Some(j);
        }
        assert(groups@.skip(j as int).drop_first() =~= groups@.skip(j + 1));
        j = j + 1;
    }
    None
}

/// The titles chosen so far under `parent`.
fn reserved_for(nodes: &[RestorableNodeMetadata], chosen: &Vec<String>, parent: Option<i64>) -> (r: Vec<
    String,
>)
    requires
        chosen@.len() <= nodes@.len(),
    ensures
        r@ == reserved_titles(nodes@, chosen@, parent),
{
    let mut reserved: Vec<String> = Vec::new();
    let mut k: usize = 0;
    while k < chosen.len()
        invariant
            0 <= k <= chosen@.len(),
            chosen@.len() <= nodes@.len(),
            reserved@ == reserved_titles(nodes@, chosen@.take(k as int), parent),
        decreases chosen@.len() - k,
    {
        assert(chosen@.take(k + 1).drop_last() =~= chosen@.take(k as int));
        assert(chosen@.take(k + 1).last() == chosen@[k as int]);
        if nodes[k].parent_id == parent {
            reserved.push(chosen[k].clone());
        }
        k = k + 1;
    }
    assert(chosen@.take(chosen@.len() as int) =~= chosen@);
    reserved
}

/// The titles restored nodes take, in the order read: each keeps its title when no
/// active sibling and no node restored before it under the same parent has it, and
/// otherwise takes the first free `(restored)` title.
pub fn restored_subtree_titles(nodes: &[RestorableNodeMetadata], groups: &[ParentTitles]) -> (r:
    Result<Vec<String>, AppError>)
    ensures
        r matches Ok(v) ==> v@.len() == nodes@.len() && forall|i: int|
            0 <= i < v@.len() ==> title_choice(nodes@, groups@, v@.take(i), Ok(#[trigger] v@[i])),
        r matches Err(e) ==> exists|before: Seq<String>|
            before.len() < nodes@.len() && (forall|i: int|
                0 <= i < before.len() ==> title_choice(nodes@, groups@, before.take(i), Ok(#[trigger] before[i])))
                && title_choice(nodes@, groups@, before, Err(e)),
{
    let mut chosen: Vec<String> = Vec::new();
    let mut i: usize = 0;
    while i < nodes.len()
        invariant
            0 <= i <= nodes@.len(),
            chosen@.len() == i,
            forall|k: int| 0 <= k < i ==> title_choice(nodes@, groups@, chosen@.take(k), Ok(#[trigger] chosen@[k])),
        decreases nodes@.len() - i,
    {
        let parent = nodes[i].parent_id;
        let reserved = reserved_for(nodes, &chosen, parent);
        let empty: Vec<String> = Vec::new();
        let result = match group_index(groups, parent) {
            Some(j) => unique_restored_child_title_from_titles(
                groups[j].titles.as_slice(),
                nodes[i].title.as_str(),
                reserved.as_slice(),
            ),
            None => unique_restored_child_title_from_titles(
                empty.as_slice(),
                nodes[i].title.as_str(),
                reserved.as_slice(),
            ),
        };
        assert(empty@ =~= Seq::<String>::empty());
        let title = match result {
            Ok(title) => title,
            Err(error) => {
                assert(title_choice(nodes@, groups@, chosen@, Err(error)));
                return Err(error);
            },
        };
        assert(title_choice(nodes@, groups@, chosen@, Ok(title)));
        let ghost old_chosen = chosen@;
        chosen.push(title);
        assert(old_chosen.take(i as int) =~= old_chosen);
        assert forall|k: int| 0 <= k <= i implies #[trigger] chosen@.take(k) == old_chosen.take(k) by {
            assert(chosen@.take(k) =~= old_chosen.take(k));
        }
        assert forall|k: int| 0 <= k < i + 1 implies title_choice(nodes@, groups@, chosen@.take(k), Ok(#[trigger] chosen@[k])) by {
            assert(chosen@.take(k) == old_chosen.take(k));
            if k < i {
                assert(chosen@[k] == old_chosen[k]);
            }
        }
        i = i + 1;
    }
    Ok(chosen)
}

/// A title chosen earlier under a parent is reserved for every later node under it.
proof fn lemma_chosen_title_reserved(
    nodes: Seq<RestorableNodeMetadata>,
    chosen: Seq<String>,
    parent: Option<i64>,
    i: int,
)
    requires
        0 <= i < chosen.len(),
        chosen.len() <= nodes.len(),
        nodes[i].parent_id == parent,
    ensures
        holds_title(reserved_titles(nodes, chosen, parent), chosen[i]@),
    decreases chosen.len(),
{
    let reserved = reserved_titles(nodes, chosen, parent);
    if i == chosen.len() - 1 {
        assert(reserved.last() == chosen.last());
        assert(reserved[reserved.len() - 1]@ == chosen[i]@);
    } else {
        let shorter = chosen.drop_last();
        lemma_chosen_title_reserved(nodes, shorter, parent, i);
        let inner = reserved_titles(nodes, shorter, parent);
        let k = choose|k: int| 0 <= k < inner.len() && inner[k]@ == shorter[i]@;
        if nodes[chosen.len() - 1].parent_id == parent {
            assert(reserved == inner.push(chosen.last()));
            assert(reserved[k] == inner[k]);
        } else {
            assert(reserved == inner);
        }
        assert(reserved[k]@ == chosen[i]@);
    }
}

/// Titles chosen for restored nodes are free: two restored under the same parent never
/// share a title, and none takes the title of an active sibling.
pub proof fn lemma_restored_titles_distinct(
    nodes: Seq<RestorableNodeMetadata>,
    groups: Seq<ParentTitles>,
    titles: Seq<String>,
)
    requires
        titles.len() == nodes.len(),
        forall|i: int| 0 <= i < titles.len() ==> title_choice(nodes, groups, titles.take(i), Ok(#[trigger] titles[i])),
    ensures
        forall|i: int, j: int|
            #![trigger titles[i], titles[j]]
            0 <= i < j < titles.len() && nodes[i].parent_id == nodes[j].parent_id ==> titles[i]@ != titles[j]@,
        forall|i: int|
            0 <= i < titles.len() ==> !holds_title(active_titles_of(groups, nodes[i].parent_id), #[trigger] titles[i]@),
{
    assert forall|i: int, j: int|
        #![trigger titles[i], titles[j]]
        0 <= i < j < titles.len() && nodes[i].parent_id == nodes[j].parent_id implies titles[i]@ != titles[j]@ by {
        let before = titles.take(j);
        assert(title_choice(nodes, groups, before, Ok(titles[j])));
        assert(before.len() == j);
        lemma_chosen_title_reserved(nodes, before, nodes[j].parent_id, i);
        assert(before[i] == titles[i]);
    }
    assert forall|i: int|
        0 <= i < titles.len() implies !holds_title(active_titles_of(groups, nodes[i].parent_id), #[trigger] titles[i]@) by {
        assert(title_choice(nodes, groups, titles.take(i), Ok(titles[i])));
        assert(titles.take(i).len() == i);
    }
}

} // verus!
