//! The tree of titled documents: each node has an id, an optional parent, a title
//! unique among its siblings, a sort order and a text. A valid tree has one root, and
//! every node reaches the root through its parents.
use std::collections::{HashMap, HashSet};
use vstd::prelude::*;
use crate::domain::DomainError;
use crate::text::{has_char, is_blank, is_blank_str, str_eq, str_has_char, to_owned};

verus! {

broadcast use vstd::std_specs::hash::group_hash_axioms;

pub const ROOT_NODE_ID: i64 = 1;

pub const DEFAULT_DOCUMENT_ID: i64 = 2;

pub const ROOT_TITLE: &'static str = "Root";

pub const DEFAULT_DOCUMENT_TITLE: &'static str = "Untitled";

pub const SEARCH_RESULT_LIMIT: usize = 200;

#[derive(Debug, Clone, Copy, PartialEq, Eq, Structural)]
pub enum SiblingMoveDirection {
    Up,
    Down,
}

#[derive(Debug, Clone, PartialEq, Eq)]
pub struct Node {
    pub id: i64,
    pub parent_id: Option<i64>,
    pub title: String,
    pub sort_order: i64,
    pub content: String,
    pub created_at: String,
    pub updated_at: String,
    pub deleted_at: Option<String>,
}

/// A new place and sort order for a node among its siblings.
#[derive(Debug, Clone, PartialEq, Eq)]
pub struct NodeSiblingOrderUpdate {
    pub node_id: i64,
    pub parent_id: Option<i64>,
    pub sort_order: i64,
    pub updated_at: String,
}

/// A document found by a search, with the title of its parent.
#[derive(Debug, Clone, PartialEq, Eq)]
pub struct DocumentSearchResult {
    pub node: Node,
    pub parent_title: Option<String>,
    pub content_matched: bool,
}

/// Why `n` is not a valid node on its own, checked in this order: its id, its parent
/// id, its title, its content, its sort order, its timestamps.
pub open spec fn node_error(n: Node) -> Option<DomainError> {
    if n.id <= 0 {
        Some(DomainError::InvalidNodeId(n.id))
    } else if n.parent_id matches Some(p) && (p <= 0 || p == n.id) {
        Some(DomainError::InvalidParent { node_id: n.id, parent_id: n.parent_id->0 })
    } else if is_blank(n.title@) {
        Some(DomainError::EmptyTitle { node_id: n.id })
    } else if has_char(n.title@, '\0') {
        Some(DomainError::EmbeddedNulTitle { node_id: n.id })
    } else if has_char(n.content@, '\0') {
        Some(DomainError::EmbeddedNulContent { node_id: n.id })
    } else if n.sort_order < 0 {
        Some(DomainError::InvalidSortOrder { node_id: n.id, sort_order: n.sort_order })
    } else if is_blank(n.created_at@) || is_blank(n.updated_at@) {
        Some(DomainError::MissingTimestamp { node_id: n.id })
    } else {
        None
    }
}

/// Some node of `nodes` has the id `id`.
pub open spec fn has_id(nodes: Seq<Node>, id: i64) -> bool {
    exists|i: int| 0 <= i < nodes.len() && nodes[i].id == id
}

/// No two nodes share an id.
pub open spec fn ids_unique(nodes: Seq<Node>) -> bool {
    forall|i: int, j: int| 0 <= i < j < nodes.len() ==> nodes[i].id != nodes[j].id
}

/// The nodes `i` and `j` are siblings with the same title.
pub open spec fn same_sibling_title(a: Node, b: Node) -> bool {
    a.parent_id == b.parent_id && a.title@ == b.title@
}

/// No two siblings share a title.
pub open spec fn titles_unique(nodes: Seq<Node>) -> bool {
    forall|i: int, j: int|
        0 <= i < j < nodes.len() ==> !same_sibling_title(#[trigger] nodes[i], #[trigger] nodes[j])
}

/// The number of nodes without a parent among the first `n`.
pub open spec fn root_count(nodes: Seq<Node>, n: int) -> nat
    decreases n,
{
    if n <= 0 {
        0
    } else {
        root_count(nodes, n - 1) + if nodes[n - 1].parent_id is None {
            1nat
        } else {
            0nat
        }
    }
}

/// Every parent id names a node.
pub open spec fn parents_exist(nodes: Seq<Node>) -> bool {
    forall|i: int|
        0 <= i < nodes.len() ==> (#[trigger] nodes[i].parent_id matches Some(p) ==> has_id(nodes, p))
}

/// The index of a node with the id `id`.
#[verifier::opaque]
pub open spec fn index_of(nodes: Seq<Node>, id: i64) -> int {
    choose|i: int| 0 <= i < nodes.len() && nodes[i].id == id
}

/// The index of the parent of the node at `i`; a node without a parent is its own.
pub open spec fn parent_index(nodes: Seq<Node>, i: int) -> int {
    match nodes[i].parent_id {
        Some(p) => index_of(nodes, p),
        None => i,
    }
}

/// The index of the node `k` steps up from the node at `i`.
pub open spec fn ancestor(nodes: Seq<Node>, i: int, k: nat) -> int
    decreases k,
{
    if k == 0 {
        i
    } else {
        parent_index(nodes, ancestor(nodes, i, (k - 1) as nat))
    }
}

/// The node at `i` reaches a node without a parent through its parents.
pub open spec fn reaches_root(nodes: Seq<Node>, i: int) -> bool {
    exists|k: nat| #[trigger] nodes[ancestor(nodes, i, k)].parent_id is None
}

/// The walk up from the node at `s` comes back, at step `m`, to a node it passed.
pub open spec fn seen_before(nodes: Seq<Node>, s: int, m: nat) -> bool {
    exists|j: nat| j < m && ancestor(nodes, s, j) == ancestor(nodes, s, m)
}

/// The first step at which the walk up from the node at `s` comes back to a node.
#[verifier::opaque]
pub open spec fn first_repeat_step(nodes: Seq<Node>, s: int) -> nat {
    choose|m: nat| seen_before(nodes, s, m) && forall|m2: nat| m2 < m ==> !seen_before(nodes, s, m2)
}

/// A tree as the document keeps it: every node valid on its own, ids and sibling titles
/// unique, one root, every parent present and every node reaching the root.
pub open spec fn tree_valid(nodes: Seq<Node>) -> bool {
    &&& forall|i: int| 0 <= i < nodes.len() ==> node_error(#[trigger] nodes[i]) is None
    &&& ids_unique(nodes)
    &&& titles_unique(nodes)
    &&& root_count(nodes, nodes.len() as int) == 1
    &&& parents_exist(nodes)
    &&& forall|i: int| 0 <= i < nodes.len() ==> #[trigger] reaches_root(nodes, i)
}

/// The checks that a new document makes of each node, in this order.
#[derive(Clone, Copy, PartialEq, Eq, Structural)]
pub enum NodeCheck {
    Valid,
    UniqueId,
    UniqueTitle,
    ParentPresent,
    ReachesRoot,
}

/// The node at `i` fails the check `c`, given the nodes before it.
pub open spec fn fails_check(nodes: Seq<Node>, c: NodeCheck, i: int) -> bool {
    match c {
        NodeCheck::Valid => node_error(nodes[i]) is Some,
        NodeCheck::UniqueId => exists|j: int| 0 <= j < i && nodes[j].id == nodes[i].id,
        NodeCheck::UniqueTitle => exists|j: int|
            0 <= j < i && same_sibling_title(nodes[j], nodes[i]),
        NodeCheck::ParentPresent => nodes[i].parent_id matches Some(p) && !has_id(nodes, p),
        NodeCheck::ReachesRoot => !reaches_root(nodes, i),
    }
}

/// The index of the first node at or after `i` that fails the check `c`.
pub open spec fn first_failing(nodes: Seq<Node>, c: NodeCheck, i: int) -> Option<int>
    decreases nodes.len() - i,
{
    if i < 0 || i >= nodes.len() {
        None
    } else if fails_check(nodes, c, i) {
        Some(i)
    } else {
        first_failing(nodes, c, i + 1)
    }
}

/// Why a document of `nodes` is refused: the first failure of the checks in the order
/// in which they are made, each over the nodes in order.
pub open spec fn new_document_error(nodes: Seq<Node>) -> Option<DomainError> {
    if let Some(i) = first_failing(nodes, NodeCheck::Valid, 0) {
        node_error(nodes[i])
    } else if let Some(i) = first_failing(nodes, NodeCheck::UniqueId, 0) {
        Some(DomainError::DuplicateNodeId(nodes[i].id))
    } else if let Some(i) = first_failing(nodes, NodeCheck::UniqueTitle, 0) {
        Some(DomainError::DuplicateSiblingTitle { parent_id: nodes[i].parent_id, title: nodes[i].title })
    } else if root_count(nodes, nodes.len() as int) == 0 {
        Some(DomainError::MissingRoot)
    } else if root_count(nodes, nodes.len() as int) > 1 {
        Some(DomainError::MultipleRoots)
    } else if let Some(i) = first_failing(nodes, NodeCheck::ParentPresent, 0) {
        Some(DomainError::MissingParent { node_id: nodes[i].id, parent_id: nodes[i].parent_id->0 })
    } else if let Some(s) = first_failing(nodes, NodeCheck::ReachesRoot, 0) {
        Some(
            DomainError::ParentCycle {
                node_id: nodes[ancestor(nodes, s, first_repeat_step(nodes, s))].id,
            },
        )
    } else {
        None
    }
}

/// The first failure from `i` on is none exactly when no node from `i` on fails.
proof fn lemma_first_failing(nodes: Seq<Node>, c: NodeCheck, i: int)
    requires
        0 <= i <= nodes.len(),
    ensures
        first_failing(nodes, c, i) is None <==> forall|j: int|
            i <= j < nodes.len() ==> !fails_check(nodes, c, j),
        first_failing(nodes, c, i) matches Some(k) ==> i <= k < nodes.len() && fails_check(
            nodes,
            c,
            k,
        ) && forall|j: int| i <= j < k ==> !fails_check(nodes, c, j),
    decreases nodes.len() - i,
{
    if i < nodes.len() {
        lemma_first_failing(nodes, c, i + 1);
    }
}

/// With unique ids, the node with an id is found at its index.
proof fn lemma_index_of(nodes: Seq<Node>, j: int)
    requires
        ids_unique(nodes),
        0 <= j < nodes.len(),
    ensures
        index_of(nodes, nodes[j].id) == j,
{
    reveal(index_of);
    let k = choose|k: int| 0 <= k < nodes.len() && nodes[k].id == nodes[j].id;
    if k < j {
    } else if k > j {
    }
}

/// With every parent present, the walk up stays among the nodes.
proof fn lemma_ancestor_in_range(nodes: Seq<Node>, i: int, k: nat)
    requires
        parents_exist(nodes),
        0 <= i < nodes.len(),
    ensures
        0 <= ancestor(nodes, i, k) < nodes.len(),
    decreases k,
{
    if k > 0 {
        lemma_ancestor_in_range(nodes, i, (k - 1) as nat);
        let a = ancestor(nodes, i, (k - 1) as nat);
        if let Some(p) = nodes[a].parent_id {
            assert(has_id(nodes, p));
            reveal(index_of);
        }
    }
}

/// `b` steps up from `a` steps up are `a + b` steps up.
proof fn lemma_ancestor_add(nodes: Seq<Node>, i: int, a: nat, b: nat)
    ensures
        ancestor(nodes, ancestor(nodes, i, a), b) == ancestor(nodes, i, a + b),
    decreases b,
{
    if b > 0 {
        lemma_ancestor_add(nodes, i, a, (b - 1) as nat);
    }
}

/// A node whose ancestor reaches the root reaches it too.
proof fn lemma_reaches_through(nodes: Seq<Node>, i: int, a: nat)
    requires
        reaches_root(nodes, ancestor(nodes, i, a)),
    ensures
        reaches_root(nodes, i),
{
    let k = choose|k: nat| #[trigger] nodes[ancestor(nodes, ancestor(nodes, i, a), k)].parent_id is None;
    lemma_ancestor_add(nodes, i, a, k);
    assert(nodes[ancestor(nodes, i, a + k)].parent_id is None);
}

/// When the walk up from `s` comes back at step `m` to the node of step `j0`, every
/// step of it is one of the first `m`.
proof fn lemma_walk_periodic(nodes: Seq<Node>, s: int, m: nat, j0: nat, k: nat)
    requires
        j0 < m,
        ancestor(nodes, s, j0) == ancestor(nodes, s, m),
    ensures
        exists|j: nat| j < m && ancestor(nodes, s, k) == ancestor(nodes, s, j),
    decreases k,
{
    if k < m {
        assert(ancestor(nodes, s, k) == ancestor(nodes, s, k));
    } else {
        let c = (k - m) as nat;
        lemma_ancestor_add(nodes, s, m, c);
        lemma_ancestor_add(nodes, s, j0, c);
        lemma_walk_periodic(nodes, s, m, j0, (j0 + c) as nat);
    }
}

/// A distinct sequence of indices below `n` has at most `n` elements.
proof fn lemma_distinct_below(s: Seq<usize>, n: int)
    requires
        0 <= n,
        forall|i: int| 0 <= i < s.len() ==> s[i] < n,
        forall|i: int, j: int| 0 <= i < j < s.len() ==> s[i] != s[j],
    ensures
        s.len() <= n,
    decreases n,
{
    if n == 0 {
        if s.len() > 0 {
            assert(s[0] < 0);
        }
    } else if exists|k: int| 0 <= k < s.len() && s[k] == n - 1 {
        let k = choose|k: int| 0 <= k < s.len() && s[k] == n - 1;
        let t = s.remove(k);
        assert forall|i: int| 0 <= i < t.len() implies t[i] < n - 1 by {
            if i < k {
                assert(t[i] == s[i]);
            } else {
                assert(t[i] == s[i + 1]);
            }
        }
        assert forall|i: int, j: int| 0 <= i < j < t.len() implies t[i] != t[j] by {
            let a = if i < k { i } else { i + 1 };
            let b = if j < k { j } else { j + 1 };
            assert(t[i] == s[a]);
            assert(t[j] == s[b]);
        }
        lemma_distinct_below(t, n - 1);
    } else {
        lemma_distinct_below(s, n - 1);
    }
}


/// Every id of `nodes` maps to the index of its node, and nothing else is mapped.
pub open spec fn index_matches(nodes: Seq<Node>, m: Map<i64, usize>) -> bool {
    &&& forall|i: int|
        0 <= i < nodes.len() ==> #[trigger] m.contains_key(nodes[i].id) && m[nodes[i].id] == i
    &&& forall|id: i64|
        #[trigger] m.contains_key(id) ==> m[id] < nodes.len() && nodes[m[id] as int].id == id
}

proof fn lemma_index_matches_unique(nodes: Seq<Node>, m: Map<i64, usize>)
    requires
        index_matches(nodes, m),
    ensures
        ids_unique(nodes),
        forall|id: i64| has_id(nodes, id) <==> #[trigger] m.contains_key(id),
{
    assert forall|i: int, j: int| 0 <= i < j < nodes.len() implies nodes[i].id != nodes[j].id by {
        assert(m.contains_key(nodes[i].id));
        assert(m.contains_key(nodes[j].id));
    }
    assert forall|id: i64| has_id(nodes, id) <==> #[trigger] m.contains_key(id) by {
        if has_id(nodes, id) {
            let i = choose|i: int| 0 <= i < nodes.len() && nodes[i].id == id;
            assert(m.contains_key(nodes[i].id));
        }
        if m.contains_key(id) {
            assert(nodes[m[id] as int].id == id);
        }
    }
}

/// Two nodes without a parent make at least two roots.
proof fn lemma_two_roots(nodes: Seq<Node>, i: int, j: int, n: int)
    requires
        0 <= i < j < n <= nodes.len(),
        nodes[i].parent_id is None,
        nodes[j].parent_id is None,
    ensures
        root_count(nodes, n) >= 2,
    decreases n,
{
    if j < n - 1 {
        lemma_two_roots(nodes, i, j, n - 1);
    } else {
        lemma_one_root(nodes, i, n - 1);
    }
}

/// A node without a parent makes at least one root.
proof fn lemma_one_root(nodes: Seq<Node>, i: int, n: int)
    requires
        0 <= i < n <= nodes.len(),
        nodes[i].parent_id is None,
    ensures
        root_count(nodes, n) >= 1,
    decreases n,
{
    if i < n - 1 {
        lemma_one_root(nodes, i, n - 1);
    }
}

/// With no node without a parent there is no root.
proof fn lemma_no_root(nodes: Seq<Node>, n: int)
    requires
        0 <= n <= nodes.len(),
        forall|i: int| 0 <= i < n ==> nodes[i].parent_id is Some,
    ensures
        root_count(nodes, n) == 0,
    decreases n,
{
    if n > 0 {
        lemma_no_root(nodes, n - 1);
    }
}

/// A document is accepted exactly when its nodes form a valid tree.
pub proof fn lemma_new_document_accepts_valid_trees(nodes: Seq<Node>)
    ensures
        new_document_error(nodes) is None <==> tree_valid(nodes),
{
    lemma_first_failing(nodes, NodeCheck::Valid, 0);
    lemma_first_failing(nodes, NodeCheck::UniqueId, 0);
    lemma_first_failing(nodes, NodeCheck::UniqueTitle, 0);
    lemma_first_failing(nodes, NodeCheck::ParentPresent, 0);
    lemma_first_failing(nodes, NodeCheck::ReachesRoot, 0);
    if first_failing(nodes, NodeCheck::UniqueId, 0) is None {
        assert forall|i: int, j: int| 0 <= i < j < nodes.len() implies nodes[i].id != nodes[j].id by {
            assert(!fails_check(nodes, NodeCheck::UniqueId, j));
        }
    }
    if ids_unique(nodes) {
        assert forall|j: int| 0 <= j < nodes.len() implies !fails_check(nodes, NodeCheck::UniqueId, j) by {
            if exists|i: int| 0 <= i < j && nodes[i].id == nodes[j].id {
                let i = choose|i: int| 0 <= i < j && nodes[i].id == nodes[j].id;
                assert(nodes[i].id != nodes[j].id);
            }
        }
    }
    if first_failing(nodes, NodeCheck::UniqueTitle, 0) is None {
        assert forall|i: int, j: int| 0 <= i < j < nodes.len() implies !same_sibling_title(
            #[trigger] nodes[i],
            #[trigger] nodes[j],
        ) by {
            assert(!fails_check(nodes, NodeCheck::UniqueTitle, j));
        }
    }
    if titles_unique(nodes) {
        assert forall|j: int| 0 <= j < nodes.len() implies !fails_check(
            nodes,
            NodeCheck::UniqueTitle,
            j,
        ) by {
            if exists|i: int| 0 <= i < j && same_sibling_title(nodes[i], nodes[j]) {
                let i = choose|i: int| 0 <= i < j && same_sibling_title(nodes[i], nodes[j]);
                assert(!same_sibling_title(nodes[i], nodes[j]));
            }
        }
    }
    if first_failing(nodes, NodeCheck::ParentPresent, 0) is None {
        assert forall|i: int| 0 <= i < nodes.len() implies (#[trigger] nodes[i].parent_id matches Some(p)
            ==> has_id(nodes, p)) by {
            assert(!fails_check(nodes, NodeCheck::ParentPresent, i));
        }
    }
    if parents_exist(nodes) {
        assert forall|i: int| 0 <= i < nodes.len() implies !fails_check(
            nodes,
            NodeCheck::ParentPresent,
            i,
        ) by {
            assert(nodes[i].parent_id matches Some(p) ==> has_id(nodes, p));
        }
    }
    if first_failing(nodes, NodeCheck::ReachesRoot, 0) is None {
        assert forall|i: int| 0 <= i < nodes.len() implies #[trigger] reaches_root(nodes, i) by {
            assert(!fails_check(nodes, NodeCheck::ReachesRoot, i));
        }
    }
    if first_failing(nodes, NodeCheck::Valid, 0) is None {
        assert forall|i: int| 0 <= i < nodes.len() implies node_error(#[trigger] nodes[i]) is None by {
            assert(!fails_check(nodes, NodeCheck::Valid, i));
        }
    }
}

/// The walk up from the node at `start`, along the distinct nodes `path`, none of them
/// a root, came back to one of them: the node at `start` does not reach the root, and
/// when every node before it does, it is the first that does not, and the walk first
/// comes back at this step.
proof fn lemma_cycle_found(ns: Seq<Node>, start: int, path: Seq<usize>, m: nat, current: int)
    requires
        0 <= start < ns.len(),
        path.len() == m,
        current == ancestor(ns, start, m),
        forall|j: int| 0 <= j < m ==> path[j] == ancestor(ns, start, j as nat),
        forall|j1: int, j2: int| 0 <= j1 < j2 < m ==> path[j1] != path[j2],
        forall|j: int| 0 <= j < m ==> ns[path[j] as int].parent_id is Some,
        exists|j: int| 0 <= j < m && path[j] == current,
        forall|i: int| 0 <= i < start ==> reaches_root(ns, i),
    ensures
        first_repeat_step(ns, start) == m,
        first_failing(ns, NodeCheck::ReachesRoot, 0) == Some(start),
{
    let j0 = choose|j: int| 0 <= j < m && path[j] == current;
    assert(seen_before(ns, start, m)) by {
        assert(ancestor(ns, start, j0 as nat) == ancestor(ns, start, m));
    }
    assert forall|m2: nat| m2 < m implies !seen_before(ns, start, m2) by {
        if seen_before(ns, start, m2) {
            let j = choose|j: nat| j < m2 && ancestor(ns, start, j) == ancestor(ns, start, m2);
            assert(path[j as int] == path[m2 as int]);
        }
    }
    reveal(first_repeat_step);
    let c = choose|c: nat|
        seen_before(ns, start, c) && forall|m2: nat| m2 < c ==> !seen_before(ns, start, m2);
    if c < m {
    } else if c > m {
    }
    assert(!reaches_root(ns, start)) by {
        if reaches_root(ns, start) {
            let k = choose|k: nat| #[trigger] ns[ancestor(ns, start, k)].parent_id is None;
            lemma_walk_periodic(ns, start, m, j0 as nat, k);
            let j = choose|j: nat| j < m && ancestor(ns, start, k) == ancestor(ns, start, j);
            assert(path[j as int] == ancestor(ns, start, j));
        }
    }
    lemma_first_failing(ns, NodeCheck::ReachesRoot, 0);
    assert(fails_check(ns, NodeCheck::ReachesRoot, start));
    if let Some(k) = first_failing(ns, NodeCheck::ReachesRoot, 0) {
        if k < start {
            assert(reaches_root(ns, k));
        } else if k > start {
        }
    }
}


#[derive(Clone, Copy, PartialEq, Eq, Structural)]
enum ReachState {
    Unknown,
    Visiting,
    Reaches,
}

/// Checks that every node reaches the root, given one root and every parent present;
/// names the node where the walk up from the first node that does not reach it comes
/// back to a node it passed.
fn check_reaches_root(nodes: &Vec<Node>, index: &HashMap<i64, usize>, root_index: usize) -> (r:
    Result<(), DomainError>)
    requires
        index_matches(nodes@, index@),
        parents_exist(nodes@),
        root_index < nodes@.len(),
        nodes@[root_index as int].parent_id is None,
        forall|i: int| 0 <= i < nodes@.len() && nodes@[i].parent_id is None ==> i == root_index,
    ensures
        match first_failing(nodes@, NodeCheck::ReachesRoot, 0) {
            Some(s) => r == Err::<(), DomainError>(
                DomainError::ParentCycle {
                    node_id: nodes@[ancestor(nodes@, s, first_repeat_step(nodes@, s))].id,
                },
            ),
            None => r is Ok,
        },
{
    let ghost ns = nodes@;
    proof {
        lemma_index_matches_unique(ns, index@);
    }
    let n = nodes.len();
    let mut state: Vec<ReachState> = Vec::new();
    let mut t: usize = 0;
    while t < n
        invariant
            t <= n,
            state@.len() == t,
            forall|i: int| 0 <= i < t ==> state@[i] == ReachState::Unknown,
        decreases n - t,
    {
        state.push(ReachState::Unknown);
        t = t + 1;
    }
    state.set(root_index, ReachState::Reaches);
    proof {
        assert(reaches_root(ns, root_index as int)) by {
            assert(ns[ancestor(ns, root_index as int, 0)].parent_id is None);
        }
    }
    let mut start: usize = 0;
    while start < n
        invariant
            n == ns.len(),
            ns == nodes@,
            index_matches(ns, index@),
            ids_unique(ns),
            parents_exist(ns),
            root_index < n,
            ns[root_index as int].parent_id is None,
            forall|i: int| 0 <= i < n && ns[i].parent_id is None ==> i == root_index,
            state@.len() == n,
            start <= n,
            state@[root_index as int] == ReachState::Reaches,
            forall|i: int| 0 <= i < n ==> state@[i] != ReachState::Visiting,
            forall|i: int| 0 <= i < n && state@[i] == ReachState::Reaches ==> reaches_root(ns, i),
            forall|i: int| 0 <= i < start ==> reaches_root(ns, i),
        decreases n - start,
    {
        if state[start] != ReachState::Reaches {
            let mut path: Vec<usize> = Vec::new();
            let mut current = start;
            let ghost mut m: nat = 0;
            loop
                invariant_except_break
                    current < n,
                    current == ancestor(ns, start as int, m),
                    path@.len() == m,
                    forall|j: int| 0 <= j < m ==> path@[j] == ancestor(ns, start as int, j as nat),
                    forall|j1: int, j2: int| 0 <= j1 < j2 < m ==> path@[j1] != path@[j2],
                    forall|j: int|
                        0 <= j < m ==> path@[j] < n && state@[path@[j] as int] == ReachState::Visiting
                            && ns[path@[j] as int].parent_id is Some,
                    forall|i: int|
                        0 <= i < n && state@[i] == ReachState::Visiting ==> exists|j: int|
                            0 <= j < m && path@[j] == i,
                    m == 0 ==> state@[start as int] == ReachState::Unknown,
                invariant
                    n == ns.len(),
                    ns == nodes@,
                    index_matches(ns, index@),
                    ids_unique(ns),
                    parents_exist(ns),
                    root_index < n,
                    start < n,
                    ns[root_index as int].parent_id is None,
                    forall|i: int| 0 <= i < n && ns[i].parent_id is None ==> i == root_index,
                    state@.len() == n,
                    state@[root_index as int] == ReachState::Reaches,
                    forall|i: int|
                        0 <= i < n && state@[i] == ReachState::Reaches ==> reaches_root(ns, i),
                    forall|i: int| 0 <= i < start ==> reaches_root(ns, i),
                ensures
                    forall|i: int| 0 <= i < n ==> state@[i] != ReachState::Visiting,
                    reaches_root(ns, start as int),
                decreases n - m,
            {
                let st = state[current];
                if st == ReachState::Reaches {
                    proof {
                        assert forall|j: int| 0 <= j < m implies reaches_root(ns, path@[j] as int) by {
                            lemma_ancestor_add(ns, start as int, j as nat, (m - j) as nat);
                            lemma_reaches_through(ns, path@[j] as int, (m - j) as nat);
                        }
                    }
                    let mut q: usize = 0;
                    while q < path.len()
                        invariant
                            q <= path@.len() == m,
                            state@.len() == n,
                            n == ns.len(),
                            root_index < n,
                            state@[root_index as int] == ReachState::Reaches,
                            forall|j: int| 0 <= j < m ==> path@[j] < n,
                            forall|j: int| 0 <= j < m ==> reaches_root(ns, path@[j] as int),
                            forall|i: int|
                                0 <= i < n && state@[i] == ReachState::Reaches ==> reaches_root(ns, i),
                            forall|i: int|
                                0 <= i < n && state@[i] == ReachState::Visiting ==> exists|j: int|
                                    q <= j < m && path@[j] == i,
                        decreases m - q,
                    {
                        state.set(path[q], ReachState::Reaches);
                        q = q + 1;
                    }
                    proof {
                        if m == 0 {
                            assert(state@[start as int] == ReachState::Reaches);
                        } else {
                            assert(path@[0] == start);
                        }
                    }
                    break;
                } else if st == ReachState::Visiting {
                    proof {
                        lemma_cycle_found(ns, start as int, path@, m, current as int);
                    }
                    return Err(DomainError::ParentCycle { node_id: nodes[current].id });
                }
                proof {
                    assert forall|j: int| 0 <= j < m implies path@[j] != current by {}
                    lemma_distinct_below(path@.push(current), n as int);
                }
                let ghost old_state = state@;
                let ghost old_path = path@;
                state.set(current, ReachState::Visiting);
                path.push(current);
                assert(path@ == old_path.push(current));
                assert(state@ == old_state.update(current as int, ReachState::Visiting));
                let parent = nodes[current].parent_id;
                match parent {
                    Some(parent_id) => {
                        proof {
                            assert(ns[current as int].parent_id matches Some(p) ==> has_id(ns, p));
                            lemma_index_matches_unique(ns, index@);
                        }
                        match index.get(&parent_id) {
                            Some(parent_index) => {
                                proof {
                                    lemma_index_of(ns, *parent_index as int);
                                }
                                let ghost previous = current;
                                current = *parent_index;
                                proof {
                                    m = m + 1;
                                    assert forall|i: int|
                                        0 <= i < n && state@[i] == ReachState::Visiting implies exists|j: int|
                                        0 <= j < m && path@[j] == i by {
                                        if i == previous {
                                            assert(path@[m - 1] == i);
                                        } else {
                                            assert(old_state[i] == ReachState::Visiting);
                                            let j = choose|j: int| 0 <= j < m - 1 && old_path[j] == i;
                                            assert(path@[j] == old_path[j]);
                                        }
                                    }
                                }
                            },
                            None => {
                                return Err(
                                    DomainError::MissingParent {
                                        node_id: nodes[start].id,
                                        parent_id,
                                    },
                                );
                            },
                        }
                    },
                    None => {
                        return Err(DomainError::UnreachableNode { node_id: nodes[start].id });
                    },
                }
            }
        }
        start = start + 1;
    }
    proof {
        lemma_first_failing(ns, NodeCheck::ReachesRoot, 0);
    }
    Ok(())
}


impl Node {
    /// The root of a new tree.
    pub fn root_document(created_at: String, updated_at: String) -> (r: Self)
        ensures
            r.id == ROOT_NODE_ID,
            r.parent_id is None,
            r.title@ == ROOT_TITLE@,
            r.sort_order == 0,
            r.content@ == Seq::<char>::empty(),
            r.created_at == created_at,
            r.updated_at == updated_at,
            r.deleted_at is None,
    {
        Node {
            id: ROOT_NODE_ID,
            parent_id: None,
            title: to_owned(ROOT_TITLE),
            sort_order: 0,
            content: String::new(),
            created_at,
            updated_at,
            deleted_at: None,
        }
    }

    /// The first document of a new tree, under the root.
    pub fn default_document(created_at: String, updated_at: String) -> (r: Self)
        ensures
            r.id == DEFAULT_DOCUMENT_ID,
            r.parent_id == Some(ROOT_NODE_ID),
            r.title@ == DEFAULT_DOCUMENT_TITLE@,
            r.sort_order == 0,
            r.content@ == Seq::<char>::empty(),
            r.created_at == created_at,
            r.updated_at == updated_at,
            r.deleted_at is None,
    {
        Node {
            id: DEFAULT_DOCUMENT_ID,
            parent_id: Some(ROOT_NODE_ID),
            title: to_owned(DEFAULT_DOCUMENT_TITLE),
            sort_order: 0,
            content: String::new(),
            created_at,
            updated_at,
            deleted_at: None,
        }
    }

    /// Checks the node on its own: a positive id, a positive parent id other than its
    /// own, a title that is not blank and holds no NUL, a content without NUL, a sort
    /// order that is not negative, and timestamps that are not blank.
    pub fn validate(&self) -> (r: Result<(), DomainError>)
        ensures
            match node_error(*self) {
                Some(e) => r == Err::<(), DomainError>(e),
                None => r is Ok,
            },
    {
        if self.id <= 0 {
            return Err(DomainError::InvalidNodeId(self.id));
        }
        if let Some(parent_id) = self.parent_id {
            if parent_id <= 0 || parent_id == self.id {
                return Err(DomainError::InvalidParent { node_id: self.id, parent_id });
            }
        }
        if is_blank_str(self.title.as_str()) {
            return Err(DomainError::EmptyTitle { node_id: self.id });
        }
        if str_has_char(self.title.as_str(), '\0') {
            return Err(DomainError::EmbeddedNulTitle { node_id: self.id });
        }
        if str_has_char(self.content.as_str(), '\0') {
            return Err(DomainError::EmbeddedNulContent { node_id: self.id });
        }
        if self.sort_order < 0 {
            return Err(DomainError::InvalidSortOrder { node_id: self.id, sort_order: self.sort_order });
        }
        if is_blank_str(self.created_at.as_str()) || is_blank_str(self.updated_at.as_str()) {
            return Err(DomainError::MissingTimestamp { node_id: self.id });
        }
        Ok(())
    }
}

/// `a` and `b` have the same nodes in the same places, as far as ids and parents go.
pub open spec fn same_shape(a: Seq<Node>, b: Seq<Node>) -> bool {
    &&& a.len() == b.len()
    &&& forall|i: int|
        #![trigger a[i]]
        0 <= i < a.len() ==> a[i].id == b[i].id && a[i].parent_id == b[i].parent_id
}

proof fn lemma_same_shape_ancestor(a: Seq<Node>, b: Seq<Node>, i: int, k: nat)
    requires
        same_shape(a, b),
        ids_unique(a),
        parents_exist(a),
        0 <= i < a.len(),
    ensures
        ancestor(a, i, k) == ancestor(b, i, k),
    decreases k,
{
    if k > 0 {
        lemma_same_shape_ancestor(a, b, i, (k - 1) as nat);
        let x = ancestor(a, i, (k - 1) as nat);
        lemma_ancestor_in_range(a, i, (k - 1) as nat);
        if let Some(p) = a[x].parent_id {
            assert(has_id(a, p));
            let j = choose|j: int| 0 <= j < a.len() && a[j].id == p;
            lemma_index_of(a, j);
            assert(ids_unique(b)) by {
                assert forall|u: int, v: int| 0 <= u < v < b.len() implies b[u].id != b[v].id by {
                    assert(a[u].id == b[u].id && a[v].id == b[v].id);
                }
            }
            assert(b[j].id == p);
            lemma_index_of(b, j);
        }
    }
}

proof fn lemma_same_shape_root_count(a: Seq<Node>, b: Seq<Node>, n: int)
    requires
        same_shape(a, b),
        n <= a.len(),
    ensures
        root_count(a, n) == root_count(b, n),
    decreases n,
{
    if n > 0 {
        lemma_same_shape_root_count(a, b, n - 1);
        assert(a[n - 1].parent_id == b[n - 1].parent_id);
    }
}

/// Nodes of the same shape as a valid tree form a valid tree too when each of them is
/// valid on its own and no two siblings share a title.
proof fn lemma_same_shape_tree_valid(a: Seq<Node>, b: Seq<Node>)
    requires
        same_shape(a, b),
        tree_valid(a),
        forall|i: int| 0 <= i < b.len() ==> node_error(#[trigger] b[i]) is None,
        titles_unique(b),
    ensures
        tree_valid(b),
{
    assert forall|u: int, v: int| 0 <= u < v < b.len() implies b[u].id != b[v].id by {
        assert(a[u].id == b[u].id && a[v].id == b[v].id);
    }
    lemma_same_shape_root_count(a, b, a.len() as int);
    assert forall|i: int| 0 <= i < b.len() implies (#[trigger] b[i].parent_id matches Some(p)
        ==> has_id(b, p)) by {
        assert(a[i].parent_id == b[i].parent_id);
        if let Some(p) = b[i].parent_id {
            assert(a[i].parent_id matches Some(q) ==> has_id(a, q));
            let j = choose|j: int| 0 <= j < a.len() && a[j].id == p;
            assert(b[j].id == p);
        }
    }
    assert forall|i: int| 0 <= i < b.len() implies #[trigger] reaches_root(b, i) by {
        assert(reaches_root(a, i));
        let k = choose|k: nat| #[trigger] a[ancestor(a, i, k)].parent_id is None;
        lemma_same_shape_ancestor(a, b, i, k);
        lemma_ancestor_in_range(a, i, k);
        assert(b[ancestor(b, i, k)].parent_id is None);
    }
}

/// Why renaming the node `node_id` to `title` at `updated_at` is refused, checked in
/// this order: the title, the timestamp, the node, a sibling with the title.
pub open spec fn rename_error(nodes: Seq<Node>, node_id: i64, title: String, updated_at: Seq<char>) -> Option<
    DomainError,
> {
    if is_blank(title@) {
        Some(DomainError::EmptyTitle { node_id })
    } else if has_char(title@, '\0') {
        Some(DomainError::EmbeddedNulTitle { node_id })
    } else if is_blank(updated_at) {
        Some(DomainError::MissingTimestamp { node_id })
    } else if !has_id(nodes, node_id) {
        Some(DomainError::NodeNotFound { node_id })
    } else if exists|j: int|
        0 <= j < nodes.len() && nodes[j].id != node_id && nodes[j].parent_id == nodes[index_of(
            nodes,
            node_id,
        )].parent_id && nodes[j].title@ == title@ {
        Some(
            DomainError::DuplicateSiblingTitle {
                parent_id: nodes[index_of(nodes, node_id)].parent_id,
                title,
            },
        )
    } else {
        None
    }
}

/// Why replacing the content of the node `node_id` is refused, checked in this order:
/// the content, the timestamp, the node.
pub open spec fn content_error(nodes: Seq<Node>, node_id: i64, content: Seq<char>, updated_at: Seq<char>) -> Option<
    DomainError,
> {
    if has_char(content, '\0') {
        Some(DomainError::EmbeddedNulContent { node_id })
    } else if is_blank(updated_at) {
        Some(DomainError::MissingTimestamp { node_id })
    } else if !has_id(nodes, node_id) {
        Some(DomainError::NodeNotFound { node_id })
    } else {
        None
    }
}

/// The index of the first node without a parent from `i` on.
pub open spec fn first_root_from(nodes: Seq<Node>, i: int) -> Option<int>
    decreases nodes.len() - i,
{
    if i < 0 || i >= nodes.len() {
        None
    } else if nodes[i].parent_id is None {
        Some(i)
    } else {
        first_root_from(nodes, i + 1)
    }
}

/// The index in `inc` of the node `t` steps up from the incoming node at `i`, going
/// up only through incoming nodes.
pub open spec fn incoming_ancestor(inc: Seq<Node>, i: int, t: nat) -> int
    decreases t,
{
    if t == 0 {
        i
    } else {
        let prev = incoming_ancestor(inc, i, (t - 1) as nat);
        match inc[prev].parent_id {
            Some(p) => index_of(inc, p),
            None => prev,
        }
    }
}

/// What the walk up from the incoming node at `i` finds at step `t`: nothing yet, an
/// end without error (no parent, or a parent already in the tree), a parent that is
/// nowhere, or a node it passed before.
pub open spec fn incoming_walk_step(ex: Seq<Node>, inc: Seq<Node>, i: int, t: nat) -> Option<
    Option<DomainError>,
> {
    let c = incoming_ancestor(inc, i, t);
    match inc[c].parent_id {
        None => Some(None),
        Some(p) => if has_id(ex, p) {
            Some(None)
        } else if !has_id(inc, p) {
            Some(Some(DomainError::MissingParent { node_id: inc[i].id, parent_id: p }))
        } else if exists|u: nat| u < t && incoming_ancestor(inc, i, u) == c {
            Some(Some(DomainError::ParentCycle { node_id: inc[c].id }))
        } else {
            None
        },
    }
}

/// The step at which the walk up from the incoming node at `i` ends.
#[verifier::opaque]
pub open spec fn incoming_walk_end(ex: Seq<Node>, inc: Seq<Node>, i: int) -> nat {
    choose|t: nat|
        incoming_walk_step(ex, inc, i, t) is Some && forall|u: nat|
            u < t ==> incoming_walk_step(ex, inc, i, u) is None
}

/// How the walk up from the incoming node at `i` ends.
pub open spec fn incoming_walk_result(ex: Seq<Node>, inc: Seq<Node>, i: int) -> Option<DomainError> {
    incoming_walk_step(ex, inc, i, incoming_walk_end(ex, inc, i))->0
}

/// The checks that inserting nodes makes of each of them, in this order.
#[derive(Clone, Copy, PartialEq, Eq, Structural)]
pub enum InsertCheck {
    Fresh,
    ParentPath,
    UniqueTitle,
}

/// The incoming node at `i` fails the check `c`.
pub open spec fn fails_insert_check(ex: Seq<Node>, inc: Seq<Node>, c: InsertCheck, i: int) -> bool {
    match c {
        InsertCheck::Fresh => node_error(inc[i]) is Some || has_id(ex, inc[i].id) || exists|j: int|
            0 <= j < i && inc[j].id == inc[i].id,
        InsertCheck::ParentPath => (inc[i].parent_id matches Some(p) && !has_id(ex, p) && !has_id(
            inc,
            p,
        )) || incoming_walk_result(ex, inc, i) is Some,
        InsertCheck::UniqueTitle => (exists|j: int|
            0 <= j < ex.len() && same_sibling_title(ex[j], inc[i])) || (exists|j: int|
            0 <= j < i && same_sibling_title(inc[j], inc[i])),
    }
}

/// The index of the first incoming node at or after `i` that fails the check `c`.
pub open spec fn first_insert_failing(ex: Seq<Node>, inc: Seq<Node>, c: InsertCheck, i: int) -> Option<
    int,
>
    decreases inc.len() - i,
{
    if i < 0 || i >= inc.len() {
        None
    } else if fails_insert_check(ex, inc, c, i) {
        Some(i)
    } else {
        first_insert_failing(ex, inc, c, i + 1)
    }
}

/// Some node of `nodes` has no parent.
pub open spec fn has_root(nodes: Seq<Node>) -> bool {
    exists|i: int| 0 <= i < nodes.len() && nodes[i].parent_id is None
}

/// Why inserting `inc` into a document of `ex` is refused: the first failure of the
/// checks in the order in which they are made, each over the incoming nodes in order.
pub open spec fn insert_error(ex: Seq<Node>, inc: Seq<Node>) -> Option<DomainError> {
    if inc.len() == 0 {
        None
    } else if let Some(i) = first_insert_failing(ex, inc, InsertCheck::Fresh, 0) {
        if node_error(inc[i]) is Some {
            node_error(inc[i])
        } else {
            Some(DomainError::DuplicateNodeId(inc[i].id))
        }
    } else if (has_root(ex) && root_count(inc, inc.len() as int) > 0) || root_count(
        inc,
        inc.len() as int,
    ) > 1 {
        Some(DomainError::MultipleRoots)
    } else if let Some(i) = first_insert_failing(ex, inc, InsertCheck::ParentPath, 0) {
        if inc[i].parent_id matches Some(p) && !has_id(ex, p) && !has_id(inc, p) {
            Some(DomainError::MissingParent { node_id: inc[i].id, parent_id: inc[i].parent_id->0 })
        } else {
            incoming_walk_result(ex, inc, i)
        }
    } else if let Some(i) = first_insert_failing(ex, inc, InsertCheck::UniqueTitle, 0) {
        Some(DomainError::DuplicateSiblingTitle { parent_id: inc[i].parent_id, title: inc[i].title })
    } else {
        None
    }
}

proof fn lemma_first_insert_failing(ex: Seq<Node>, inc: Seq<Node>, c: InsertCheck, i: int)
    requires
        0 <= i <= inc.len(),
    ensures
        first_insert_failing(ex, inc, c, i) is None <==> forall|j: int|
            i <= j < inc.len() ==> !fails_insert_check(ex, inc, c, j),
        first_insert_failing(ex, inc, c, i) matches Some(k) ==> i <= k < inc.len()
            && fails_insert_check(ex, inc, c, k) && forall|j: int|
            i <= j < k ==> !fails_insert_check(ex, inc, c, j),
    decreases inc.len() - i,
{
    if i < inc.len() {
        lemma_first_insert_failing(ex, inc, c, i + 1);
    }
}

proof fn lemma_incoming_walk_end(ex: Seq<Node>, inc: Seq<Node>, i: int, t: nat)
    requires
        incoming_walk_step(ex, inc, i, t) is Some,
        forall|u: nat| u < t ==> incoming_walk_step(ex, inc, i, u) is None,
    ensures
        incoming_walk_end(ex, inc, i) == t,
{
    reveal(incoming_walk_end);
    let c = choose|c: nat|
        incoming_walk_step(ex, inc, i, c) is Some && forall|u: nat|
            u < c ==> incoming_walk_step(ex, inc, i, u) is None;
    if c < t {
    } else if c > t {
    }
}

/// The index of an update of the node `id`.
#[verifier::opaque]
pub open spec fn update_index(ups: Seq<NodeSiblingOrderUpdate>, id: i64) -> Option<int> {
    if exists|k: int| 0 <= k < ups.len() && ups[k].node_id == id {
        Some(choose|k: int| 0 <= k < ups.len() && ups[k].node_id == id)
    } else {
        None
    }
}

/// Why the update at `i` is refused, given the updates before it and the ids of
/// nodes that are being removed, checked in this order: a second update of the node,
/// the sort order, the timestamp, the node, the parent id, the parent.
pub open spec fn update_error(
    nodes: Seq<Node>,
    ups: Seq<NodeSiblingOrderUpdate>,
    removed: Set<i64>,
    i: int,
) -> Option<DomainError> {
    let u = ups[i];
    if exists|j: int| 0 <= j < i && ups[j].node_id == u.node_id {
        Some(DomainError::DuplicateNodeId(u.node_id))
    } else if u.sort_order < 0 {
        Some(DomainError::InvalidSortOrder { node_id: u.node_id, sort_order: u.sort_order })
    } else if is_blank(u.updated_at@) {
        Some(DomainError::MissingTimestamp { node_id: u.node_id })
    } else if removed.contains(u.node_id) || !has_id(nodes, u.node_id) {
        Some(DomainError::NodeNotFound { node_id: u.node_id })
    } else if u.parent_id matches Some(p) && (p <= 0 || p == u.node_id) {
        Some(DomainError::InvalidParent { node_id: u.node_id, parent_id: u.parent_id->0 })
    } else if u.parent_id matches Some(p) && (removed.contains(p) || !has_id(nodes, p)) {
        Some(DomainError::MissingParent { node_id: u.node_id, parent_id: u.parent_id->0 })
    } else {
        None
    }
}

/// The index of the first update at or after `i` that is refused.
pub open spec fn first_update_error(
    nodes: Seq<Node>,
    ups: Seq<NodeSiblingOrderUpdate>,
    removed: Set<i64>,
    i: int,
) -> Option<int>
    decreases ups.len() - i,
{
    if i < 0 || i >= ups.len() {
        None
    } else if update_error(nodes, ups, removed, i) is Some {
        Some(i)
    } else {
        first_update_error(nodes, ups, removed, i + 1)
    }
}

/// The first refusal among the updates.
pub open spec fn updates_error(nodes: Seq<Node>, ups: Seq<NodeSiblingOrderUpdate>, removed: Set<i64>) -> Option<
    DomainError,
> {
    match first_update_error(nodes, ups, removed, 0) {
        Some(i) => update_error(nodes, ups, removed, i),
        None => None,
    }
}

/// No two updates are of the same node.
pub open spec fn update_ids_unique(ups: Seq<NodeSiblingOrderUpdate>) -> bool {
    forall|j: int, k: int| 0 <= j < k < ups.len() ==> ups[j].node_id != ups[k].node_id
}

proof fn lemma_update_index(ups: Seq<NodeSiblingOrderUpdate>, id: i64)
    requires
        update_ids_unique(ups),
    ensures
        match update_index(ups, id) {
            Some(k) => 0 <= k < ups.len() && ups[k].node_id == id,
            None => forall|k: int| 0 <= k < ups.len() ==> ups[k].node_id != id,
        },
        forall|k: int| 0 <= k < ups.len() && ups[k].node_id == id ==> update_index(ups, id) == Some(k),
{
    reveal(update_index);
    if exists|k: int| 0 <= k < ups.len() && ups[k].node_id == id {
        let c = choose|k: int| 0 <= k < ups.len() && ups[k].node_id == id;
        assert forall|k: int| 0 <= k < ups.len() && ups[k].node_id == id implies update_index(ups, id) == Some(k) by {
            if c < k {
            } else if c > k {
            }
        }
    }
}

proof fn lemma_first_update_error(
    nodes: Seq<Node>,
    ups: Seq<NodeSiblingOrderUpdate>,
    removed: Set<i64>,
    i: int,
)
    requires
        0 <= i <= ups.len(),
    ensures
        first_update_error(nodes, ups, removed, i) is None <==> forall|j: int|
            i <= j < ups.len() ==> update_error(nodes, ups, removed, j) is None,
        first_update_error(nodes, ups, removed, i) matches Some(k) ==> i <= k < ups.len()
            && update_error(nodes, ups, removed, k) is Some && forall|j: int|
            i <= j < k ==> update_error(nodes, ups, removed, j) is None,
    decreases ups.len() - i,
{
    if i < ups.len() {
        lemma_first_update_error(nodes, ups, removed, i + 1);
    }
}

/// The node `n` after the updates: its parent, sort order and timestamp come from its
/// update, when it has one.
pub open spec fn updated_node(n: Node, ups: Seq<NodeSiblingOrderUpdate>) -> Node {
    match update_index(ups, n.id) {
        Some(k) => Node {
            parent_id: ups[k].parent_id,
            sort_order: ups[k].sort_order,
            updated_at: ups[k].updated_at,
            ..n
        },
        None => n,
    }
}

/// The nodes after the updates.
pub open spec fn updated_nodes(nodes: Seq<Node>, ups: Seq<NodeSiblingOrderUpdate>) -> Seq<Node> {
    nodes.map_values(|n: Node| updated_node(n, ups))
}

/// The update at `k` moves its node to another parent.
pub open spec fn is_parent_update(nodes: Seq<Node>, ups: Seq<NodeSiblingOrderUpdate>, k: int) -> bool {
    ups[k].parent_id != nodes[index_of(nodes, ups[k].node_id)].parent_id
}

/// The parent-updates at `j` and `k` move two nodes with the same title under the same
/// parent.
pub open spec fn incoming_title_clash(
    nodes: Seq<Node>,
    ups: Seq<NodeSiblingOrderUpdate>,
    j: int,
    k: int,
) -> bool {
    &&& is_parent_update(nodes, ups, j)
    &&& is_parent_update(nodes, ups, k)
    &&& ups[j].parent_id == ups[k].parent_id
    &&& nodes[index_of(nodes, ups[j].node_id)].title@ == nodes[index_of(nodes, ups[k].node_id)].title@
}

/// The index of the first update at or after `i` that moves a node under a parent to
/// which an earlier update moves a node with the same title.
pub open spec fn first_incoming_title_clash(
    nodes: Seq<Node>,
    ups: Seq<NodeSiblingOrderUpdate>,
    i: int,
) -> Option<int>
    decreases ups.len() - i,
{
    if i < 0 || i >= ups.len() {
        None
    } else if exists|j: int| 0 <= j < i && incoming_title_clash(nodes, ups, j, i) {
        Some(i)
    } else {
        first_incoming_title_clash(nodes, ups, i + 1)
    }
}

/// `p` is the parent a parent-update takes a node from or moves it to.
pub open spec fn is_affected_parent(nodes: Seq<Node>, ups: Seq<NodeSiblingOrderUpdate>, p: Option<i64>) -> bool {
    exists|k: int|
        0 <= k < ups.len() && is_parent_update(nodes, ups, k) && (ups[k].parent_id == p
            || nodes[index_of(nodes, ups[k].node_id)].parent_id == p)
}

/// After the updates, two nodes under the affected parent `p` have the title `t`.
pub open spec fn duplicate_after_updates(
    nodes: Seq<Node>,
    ups: Seq<NodeSiblingOrderUpdate>,
    p: Option<i64>,
    t: Seq<char>,
) -> bool {
    let after = updated_nodes(nodes, ups);
    &&& is_affected_parent(nodes, ups, p)
    &&& exists|x: int, y: int|
        0 <= x < y < after.len() && after[x].parent_id == p && after[y].parent_id == p
            && after[x].title@ == t && after[y].title@ == t
}

/// The number of roots after the parent-updates among the first `n` updates, counted
/// from one: a node taken out from under a parent adds one, a root put under a parent
/// takes one away.
pub open spec fn projected_root_count(nodes: Seq<Node>, ups: Seq<NodeSiblingOrderUpdate>, n: int) -> int
    decreases n,
{
    if n <= 0 {
        1
    } else {
        let k = n - 1;
        let old_parent = nodes[index_of(nodes, ups[k].node_id)].parent_id;
        projected_root_count(nodes, ups, k) + if old_parent is Some && ups[k].parent_id is None {
            1int
        } else if old_parent is None && ups[k].parent_id is Some {
            -1int
        } else {
            0int
        }
    }
}

/// The parent of the node `id` after the updates; none when there is no such node.
pub open spec fn projected_parent(nodes: Seq<Node>, ups: Seq<NodeSiblingOrderUpdate>, id: i64) -> Option<
    Option<i64>,
> {
    match update_index(ups, id) {
        Some(k) => Some(ups[k].parent_id),
        None => if has_id(nodes, id) {
            Some(nodes[index_of(nodes, id)].parent_id)
        } else {
            None
        },
    }
}

/// The id `t` steps up from the node `id` after the updates.
pub open spec fn projected_walk(nodes: Seq<Node>, ups: Seq<NodeSiblingOrderUpdate>, id: i64, t: nat) -> i64
    decreases t,
{
    if t == 0 {
        id
    } else {
        let c = projected_walk(nodes, ups, id, (t - 1) as nat);
        match projected_parent(nodes, ups, c) {
            Some(Some(q)) => q,
            _ => c,
        }
    }
}

/// What the walk up from the node `id` after the updates finds at step `t`: nothing
/// yet, a node it passed before, a node that is not there, or a root.
pub open spec fn projected_walk_step(nodes: Seq<Node>, ups: Seq<NodeSiblingOrderUpdate>, id: i64, t: nat) -> Option<
    Option<DomainError>,
> {
    let c = projected_walk(nodes, ups, id, t);
    if exists|u: nat| u < t && projected_walk(nodes, ups, id, u) == c {
        Some(Some(DomainError::ParentCycle { node_id: c }))
    } else {
        match projected_parent(nodes, ups, c) {
            None => Some(Some(DomainError::NodeNotFound { node_id: c })),
            Some(None) => Some(None),
            Some(Some(_)) => None,
        }
    }
}

/// The step at which the walk up from the node `id` after the updates ends.
#[verifier::opaque]
pub open spec fn projected_walk_end(nodes: Seq<Node>, ups: Seq<NodeSiblingOrderUpdate>, id: i64) -> nat {
    choose|t: nat|
        projected_walk_step(nodes, ups, id, t) is Some && forall|u: nat|
            u < t ==> projected_walk_step(nodes, ups, id, u) is None
}

/// How the walk up from the node `id` after the updates ends.
pub open spec fn projected_walk_result(nodes: Seq<Node>, ups: Seq<NodeSiblingOrderUpdate>, id: i64) -> Option<
    DomainError,
> {
    projected_walk_step(nodes, ups, id, projected_walk_end(nodes, ups, id))->0
}

/// The index of the first parent-update at or after `i` whose node's walk up after
/// the updates fails.
pub open spec fn first_path_failure(nodes: Seq<Node>, ups: Seq<NodeSiblingOrderUpdate>, i: int) -> Option<int>
    decreases ups.len() - i,
{
    if i < 0 || i >= ups.len() {
        None
    } else if is_parent_update(nodes, ups, i) && projected_walk_result(nodes, ups, ups[i].node_id) is Some {
        Some(i)
    } else {
        first_path_failure(nodes, ups, i + 1)
    }
}

proof fn lemma_projected_walk_end(nodes: Seq<Node>, ups: Seq<NodeSiblingOrderUpdate>, id: i64, t: nat)
    requires
        projected_walk_step(nodes, ups, id, t) is Some,
        forall|u: nat| u < t ==> projected_walk_step(nodes, ups, id, u) is None,
    ensures
        projected_walk_end(nodes, ups, id) == t,
{
    reveal(projected_walk_end);
    let c = choose|c: nat|
        projected_walk_step(nodes, ups, id, c) is Some && forall|u: nat|
            u < c ==> projected_walk_step(nodes, ups, id, u) is None;
    if c < t {
    } else if c > t {
    }
}

/// How applying the updates to a document of `nodes` ends, when every update passed on
/// its own: the first pair of parent-updates that move two nodes with one title under
/// one parent; else some duplicated title under an affected parent (which one is left
/// open); else a wrong number of roots; else the first parent-update whose node's walk
/// up fails.
pub open spec fn update_result_ok(
    nodes: Seq<Node>,
    ups: Seq<NodeSiblingOrderUpdate>,
    r: Result<(), DomainError>,
) -> bool {
    if let Some(k) = first_incoming_title_clash(nodes, ups, 0) {
        r == Err::<(), DomainError>(
            DomainError::DuplicateSiblingTitle {
                parent_id: ups[k].parent_id,
                title: nodes[index_of(nodes, ups[k].node_id)].title,
            },
        )
    } else if exists|p: Option<i64>, t: Seq<char>| duplicate_after_updates(nodes, ups, p, t) {
        r matches Err(DomainError::DuplicateSiblingTitle { parent_id, title })
            && duplicate_after_updates(nodes, ups, parent_id, title@)
    } else if projected_root_count(nodes, ups, ups.len() as int) == 0 {
        r == Err::<(), DomainError>(DomainError::MissingRoot)
    } else if projected_root_count(nodes, ups, ups.len() as int) > 1 {
        r == Err::<(), DomainError>(DomainError::MultipleRoots)
    } else if let Some(k) = first_path_failure(nodes, ups, 0) {
        r == Err::<(), DomainError>(projected_walk_result(nodes, ups, ups[k].node_id)->0)
    } else {
        r is Ok
    }
}

/// The first `n` nodes whose ids are not in `removed`, in order.
pub open spec fn nodes_kept(nodes: Seq<Node>, removed: Set<i64>, n: int) -> Seq<Node>
    decreases n,
{
    if n <= 0 {
        Seq::empty()
    } else {
        let before = nodes_kept(nodes, removed, n - 1);
        if removed.contains(nodes[n - 1].id) {
            before
        } else {
            before.push(nodes[n - 1])
        }
    }
}

/// The index of the first id at or after `i` that cannot be removed: the root's, or
/// one that names no node.
pub open spec fn first_bad_removal(nodes: Seq<Node>, ids: Seq<i64>, i: int) -> Option<int>
    decreases ids.len() - i,
{
    if i < 0 || i >= ids.len() {
        None
    } else if ids[i] == ROOT_NODE_ID || !has_id(nodes, ids[i]) {
        Some(i)
    } else {
        first_bad_removal(nodes, ids, i + 1)
    }
}

/// Why removing the nodes `ids` while applying `ups` is refused: the first id that
/// cannot be removed, else the first update refused on its own.
pub open spec fn removal_error(nodes: Seq<Node>, ids: Seq<i64>, ups: Seq<NodeSiblingOrderUpdate>) -> Option<
    DomainError,
> {
    if ids.len() == 0 && ups.len() == 0 {
        None
    } else if let Some(i) = first_bad_removal(nodes, ids, 0) {
        if ids[i] == ROOT_NODE_ID {
            Some(DomainError::CannotDeleteRoot)
        } else {
            Some(DomainError::NodeNotFound { node_id: ids[i] })
        }
    } else {
        updates_error(nodes, ups, ids.to_set())
    }
}

proof fn lemma_no_parent_updates(nodes: Seq<Node>, ups: Seq<NodeSiblingOrderUpdate>, i: int)
    requires
        0 <= i <= ups.len(),
        forall|k: int| 0 <= k < ups.len() ==> !is_parent_update(nodes, ups, k),
    ensures
        first_incoming_title_clash(nodes, ups, i) is None,
        first_path_failure(nodes, ups, i) is None,
    decreases ups.len() - i,
{
    if i < ups.len() {
        lemma_no_parent_updates(nodes, ups, i + 1);
    }
}

proof fn lemma_no_parent_updates_root_count(nodes: Seq<Node>, ups: Seq<NodeSiblingOrderUpdate>, n: int)
    requires
        0 <= n <= ups.len(),
        forall|k: int| 0 <= k < ups.len() ==> !is_parent_update(nodes, ups, k),
    ensures
        projected_root_count(nodes, ups, n) == 1,
    decreases n,
{
    if n > 0 {
        lemma_no_parent_updates_root_count(nodes, ups, n - 1);
        assert(!is_parent_update(nodes, ups, n - 1));
    }
}

/// No update is refused on its own, so no two are of the same node.
proof fn lemma_updates_accepted_unique(nodes: Seq<Node>, ups: Seq<NodeSiblingOrderUpdate>, removed: Set<i64>)
    requires
        updates_error(nodes, ups, removed) is None,
    ensures
        update_ids_unique(ups),
        forall|k: int| 0 <= k < ups.len() ==> !removed.contains(#[trigger] ups[k].node_id),
{
    lemma_first_update_error(nodes, ups, removed, 0);
    assert forall|j: int, k: int| 0 <= j < k < ups.len() implies ups[j].node_id != ups[k].node_id by {
        assert(update_error(nodes, ups, removed, k) is None);
    }
    assert forall|k: int| 0 <= k < ups.len() implies !removed.contains(#[trigger] ups[k].node_id) by {
        assert(update_error(nodes, ups, removed, k) is None);
    }
}

/// A tree of documents, with the index of each node by its id.
#[derive(Debug, Clone)]
pub struct Document {
    nodes: Vec<Node>,
    node_indices_by_id: HashMap<i64, usize>,
}

impl View for Document {
    type V = Seq<Node>;

    closed spec fn view(&self) -> Seq<Node> {
        self.nodes@
    }
}

impl Document {
    /// The index by id matches the nodes.
    pub closed spec fn wf(&self) -> bool {
        index_matches(self.nodes@, self.node_indices_by_id@)
    }

    /// A document keeps its node ids unique.
    pub proof fn lemma_ids_unique(&self)
        requires
            self.wf(),
        ensures
            ids_unique(self@),
    {
        lemma_index_matches_unique(self.nodes@, self.node_indices_by_id@);
    }

    /// The document of `nodes`, when they form a valid tree; else the first failure of
    /// the checks, made in this order: each node on its own, unique ids, unique sibling
    /// titles, one root, present parents, and every node reaching the root.
    pub fn new(nodes: Vec<Node>) -> (r: Result<Self, DomainError>)
        ensures
            match new_document_error(nodes@) {
                Some(e) => r == Err::<Document, DomainError>(e),
                None => r matches Ok(d) && d@ == nodes@ && d.wf(),
            },
            r is Ok <==> tree_valid(nodes@),
    {
        let ghost ns = nodes@;
        proof {
            lemma_new_document_accepts_valid_trees(ns);
        }
        let n = nodes.len();
        let mut i: usize = 0;
        while i < n
            invariant
                n == ns.len(),
                ns == nodes@,
                i <= n,
                first_failing(ns, NodeCheck::Valid, 0) == first_failing(ns, NodeCheck::Valid, i as int),
            decreases n - i,
        {
            if let Err(e) = nodes[i].validate() {
                return Err(e);
            }
            i = i + 1;
        }
        let mut index: HashMap<i64, usize> = HashMap::new();
        let mut i: usize = 0;
        while i < n
            invariant
                n == ns.len(),
                ns == nodes@,
                i <= n,
                first_failing(ns, NodeCheck::Valid, 0) is None,
                first_failing(ns, NodeCheck::UniqueId, 0) == first_failing(
                    ns,
                    NodeCheck::UniqueId,
                    i as int,
                ),
                index_matches(ns.subrange(0, i as int), index@),
            decreases n - i,
        {
            let id = nodes[i].id;
            if index.contains_key(&id) {
                proof {
                    let j = index@[id] as int;
                    assert(ns.subrange(0, i as int)[j].id == id);
                    assert(fails_check(ns, NodeCheck::UniqueId, i as int));
                }
                return Err(DomainError::DuplicateNodeId(id));
            }
            proof {
                assert forall|j: int| 0 <= j < i implies ns[j].id != ns[i as int].id by {
                    assert(ns.subrange(0, i as int)[j] == ns[j]);
                    assert(index@.contains_key(ns.subrange(0, i as int)[j].id));
                }
            }
            index.insert(id, i);
            proof {
                let sub = ns.subrange(0, i + 1);
                assert forall|j: int| 0 <= j < sub.len() implies #[trigger] index@.contains_key(
                    sub[j].id,
                ) && index@[sub[j].id] == j by {
                    if j < i {
                        assert(sub[j] == ns.subrange(0, i as int)[j]);
                    }
                }
                assert forall|k: i64| #[trigger] index@.contains_key(k) implies index@[k] < sub.len()
                    && sub[index@[k] as int].id == k by {
                    if k != id {
                        assert(sub[index@[k] as int] == ns.subrange(0, i as int)[index@[k] as int]);
                    }
                }
            }
            i = i + 1;
        }
        assert(ns.subrange(0, n as int) == ns);
        let mut i: usize = 0;
        while i < n
            invariant
                n == ns.len(),
                ns == nodes@,
                i <= n,
                first_failing(ns, NodeCheck::Valid, 0) is None,
                first_failing(ns, NodeCheck::UniqueId, 0) is None,
                first_failing(ns, NodeCheck::UniqueTitle, 0) == first_failing(
                    ns,
                    NodeCheck::UniqueTitle,
                    i as int,
                ),
                index_matches(ns, index@),
            decreases n - i,
        {
            let mut j: usize = 0;
            while j < i
                invariant
                    n == ns.len(),
                    ns == nodes@,
                    j <= i < n,
                    first_failing(ns, NodeCheck::Valid, 0) is None,
                    first_failing(ns, NodeCheck::UniqueId, 0) is None,
                    first_failing(ns, NodeCheck::UniqueTitle, 0) == first_failing(
                        ns,
                        NodeCheck::UniqueTitle,
                        i as int,
                    ),
                    forall|k: int| 0 <= k < j ==> !same_sibling_title(ns[k], ns[i as int]),
                decreases i - j,
            {
                if nodes[j].parent_id == nodes[i].parent_id && str_eq(
                    nodes[j].title.as_str(),
                    nodes[i].title.as_str(),
                ) {
                    proof {
                        assert(same_sibling_title(ns[j as int], ns[i as int]));
                        assert(fails_check(ns, NodeCheck::UniqueTitle, i as int));
                    }
                    return Err(
                        DomainError::DuplicateSiblingTitle {
                            parent_id: nodes[i].parent_id,
                            title: nodes[i].title.clone(),
                        },
                    );
                }
                j = j + 1;
            }
            i = i + 1;
        }
        let mut roots: usize = 0;
        let mut root_index: usize = 0;
        let mut i: usize = 0;
        while i < n
            invariant
                n == ns.len(),
                ns == nodes@,
                i <= n,
                roots == root_count(ns, i as int),
                roots <= i,
                roots > 0 ==> root_index < i && ns[root_index as int].parent_id is None,
                roots == 1 ==> forall|k: int| 0 <= k < i && ns[k].parent_id is None ==> k == root_index,
                roots == 0 ==> forall|k: int| 0 <= k < i ==> ns[k].parent_id is Some,
            decreases n - i,
        {
            if nodes[i].parent_id.is_none() {
                if roots == 0 {
                    root_index = i;
                }
                roots = roots + 1;
            }
            proof {
                if roots >= 2 && root_count(ns, i as int) == 1 {
                }
            }
            i = i + 1;
        }
        if roots == 0 {
            return Err(DomainError::MissingRoot);
        }
        if roots > 1 {
            return Err(DomainError::MultipleRoots);
        }
        let mut i: usize = 0;
        while i < n
            invariant
                n == ns.len(),
                ns == nodes@,
                i <= n,
                index_matches(ns, index@),
                first_failing(ns, NodeCheck::Valid, 0) is None,
                first_failing(ns, NodeCheck::UniqueId, 0) is None,
                first_failing(ns, NodeCheck::UniqueTitle, 0) is None,
                root_count(ns, n as int) == 1,
                root_index < n,
                ns[root_index as int].parent_id is None,
                forall|k: int| 0 <= k < n && ns[k].parent_id is None ==> k == root_index,
                first_failing(ns, NodeCheck::ParentPresent, 0) == first_failing(
                    ns,
                    NodeCheck::ParentPresent,
                    i as int,
                ),
            decreases n - i,
        {
            if let Some(parent_id) = nodes[i].parent_id {
                if !index.contains_key(&parent_id) {
                    proof {
                        lemma_index_matches_unique(ns, index@);
                    }
                    return Err(DomainError::MissingParent { node_id: nodes[i].id, parent_id });
                }
                proof {
                    lemma_index_matches_unique(ns, index@);
                }
            }
            i = i + 1;
        }
        proof {
            lemma_first_failing(ns, NodeCheck::ParentPresent, 0);
            assert forall|k: int| 0 <= k < n implies (#[trigger] ns[k].parent_id matches Some(p)
                ==> has_id(ns, p)) by {
                assert(!fails_check(ns, NodeCheck::ParentPresent, k));
            }
        }
        match check_reaches_root(&nodes, &index, root_index) {
            Err(e) => Err(e),
            Ok(()) => Ok(Document { nodes, node_indices_by_id: index }),
        }
    }

    /// The id lookup of a document finds exactly the node with that id: the ids of its
    /// nodes stay pairwise distinct, so the node `node_by_id` gives is the only one, and
    /// the first, that carries the id.
    pub proof fn lemma_lookup_finds_the_node_with_id(&self, node_id: i64)
        requires
            self.wf(),
        ensures
            ids_unique(self@),
            has_id(self@, node_id) ==> ({
                let i = index_of(self@, node_id);
                &&& 0 <= i < self@.len()
                &&& self@[i].id == node_id
                &&& forall|j: int| 0 <= j < self@.len() && #[trigger] self@[j].id == node_id ==> j == i
            }),
    {
        self.lemma_ids_unique();
        let nodes = self@;
        if has_id(nodes, node_id) {
            let k = choose|k: int| 0 <= k < nodes.len() && nodes[k].id == node_id;
            lemma_index_of(nodes, k);
            assert forall|j: int| 0 <= j < nodes.len() && #[trigger] nodes[j].id == node_id implies j == k by {
                if j < k {
                    assert(nodes[j].id != nodes[k].id);
                } else if k < j {
                    assert(nodes[k].id != nodes[j].id);
                }
            }
        }
    }

    /// The node with the id `node_id`.
    pub fn node_by_id(&self, node_id: i64) -> (r: Option<&Node>)
        requires
            self.wf(),
        ensures
            match r {
                Some(n) => has_id(self@, node_id) && *n == self@[index_of(self@, node_id)]
                    && n.id == node_id,
                None => !has_id(self@, node_id),
            },
    {
        match self.node_index_by_id(node_id) {
            Some(index) => Some(&self.nodes[index]),
            None => None,
        }
    }

    /// The number of nodes.
    pub fn node_count(&self) -> (r: usize)
        ensures
            r == self@.len(),
    {
        self.nodes.len()
    }

    /// The nodes in the order in which the document holds them.
    pub fn nodes(&self) -> (r: &[Node])
        ensures
            r@ == self@,
    {
        self.nodes.as_slice()
    }

    /// The first node without a parent.
    pub fn root(&self) -> (r: Option<&Node>)
        ensures
            match first_root_from(self@, 0) {
                Some(i) => r == Some(&self@[i]),
                None => r is None,
            },
    {
        let mut i: usize = 0;
        while i < self.nodes.len()
            invariant
                i <= self@.len(),
                first_root_from(self@, 0) == first_root_from(self@, i as int),
            decreases self@.len() - i,
        {
            if self.nodes[i].parent_id.is_none() {
                return Some(&self.nodes[i]);
            }
            i = i + 1;
        }
        None
    }

    /// The index of the node with the id `node_id`.
    fn node_index_by_id(&self, node_id: i64) -> (r: Option<usize>)
        requires
            self.wf(),
        ensures
            match r {
                Some(i) => i < self@.len() && self@[i as int].id == node_id && has_id(self@, node_id)
                    && index_of(self@, node_id) == i,
                None => !has_id(self@, node_id),
            },
    {
        proof {
            lemma_index_matches_unique(self.nodes@, self.node_indices_by_id@);
        }
        match self.node_indices_by_id.get(&node_id) {
            Some(index) => {
                proof {
                    lemma_index_of(self.nodes@, *index as int);
                }
                Some(*index)
            },
            None => None,
        }
    }

    /// Whether a node other than `excluded` under `parent_id` has the title `title`.
    fn has_sibling_title_except(&self, parent_id: Option<i64>, title: &str, excluded: Option<i64>) -> (r:
        bool)
        ensures
            r == exists|j: int|
                0 <= j < self@.len() && Some(self@[j].id) != excluded && self@[j].parent_id
                    == parent_id && self@[j].title@ == title@,
    {
        let mut j: usize = 0;
        while j < self.nodes.len()
            invariant
                j <= self@.len(),
                forall|k: int|
                    0 <= k < j ==> !(Some(self@[k].id) != excluded && self@[k].parent_id == parent_id
                        && self@[k].title@ == title@),
            decreases self@.len() - j,
        {
            if Some(self.nodes[j].id) != excluded && self.nodes[j].parent_id == parent_id && str_eq(
                self.nodes[j].title.as_str(),
                title,
            ) {
                return true;
            }
            j = j + 1;
        }
        false
    }

    /// Checks the walk up from the incoming node at `i`, through incoming nodes only: it
    /// ends without error at a node without a parent or at a parent already in the
    /// tree; it fails at a parent that is nowhere, or at a node it passed before.
    fn validate_incoming_parent_path(&self, nodes: &Vec<Node>, incoming: &HashMap<i64, usize>, i: usize) -> (r:
        Result<(), DomainError>)
        requires
            self.wf(),
            index_matches(nodes@, incoming@),
            i < nodes@.len(),
        ensures
            match incoming_walk_result(self@, nodes@, i as int) {
                Some(e) => r == Err::<(), DomainError>(e),
                None => r is Ok,
            },
    {
        let ghost ex = self@;
        let ghost inc = nodes@;
        proof {
            lemma_index_matches_unique(inc, incoming@);
            lemma_index_matches_unique(ex, self.node_indices_by_id@);
        }
        let n = nodes.len();
        let mut seen: Vec<bool> = Vec::new();
        let mut k: usize = 0;
        while k < n
            invariant
                k <= n,
                seen@.len() == k,
                forall|x: int| 0 <= x < k ==> !seen@[x],
            decreases n - k,
        {
            seen.push(false);
            k = k + 1;
        }
        let mut current = i;
        let ghost mut t: nat = 0;
        let ghost mut path: Seq<usize> = Seq::empty();
        loop
            invariant
                ex == self@,
                inc == nodes@,
                n == inc.len(),
                i < n,
                self.wf(),
                index_matches(inc, incoming@),
                ids_unique(inc),
                current < n,
                current == incoming_ancestor(inc, i as int, t),
                path.len() == t,
                forall|u: int| 0 <= u < t ==> path[u] == incoming_ancestor(inc, i as int, u as nat),
                forall|u: int| 0 <= u < t ==> path[u] < n,
                forall|u1: int, u2: int| 0 <= u1 < u2 < t ==> path[u1] != path[u2],
                seen@.len() == n,
                forall|x: int| 0 <= x < n ==> (seen@[x] <==> exists|u: int| 0 <= u < t && path[u] == x),
                forall|u: nat| u < t ==> incoming_walk_step(ex, inc, i as int, u) is None,
            decreases n - t,
        {
            match nodes[current].parent_id {
                None => {
                    proof {
                        lemma_incoming_walk_end(ex, inc, i as int, t);
                    }
                    return Ok(());
                },
                Some(parent_id) => {
                    proof {
                        lemma_index_matches_unique(ex, self.node_indices_by_id@);
                        lemma_index_matches_unique(inc, incoming@);
                    }
                    if self.node_indices_by_id.contains_key(&parent_id) {
                        proof {
                            lemma_incoming_walk_end(ex, inc, i as int, t);
                        }
                        return Ok(());
                    }
                    let next = match incoming.get(&parent_id) {
                        Some(next) => *next,
                        None => {
                            proof {
                                lemma_incoming_walk_end(ex, inc, i as int, t);
                            }
                            return Err(DomainError::MissingParent { node_id: nodes[i].id, parent_id });
                        },
                    };
                    if seen[current] {
                        proof {
                            let u = choose|u: int| 0 <= u < t && path[u] == current;
                            assert(incoming_ancestor(inc, i as int, u as nat) == current);
                            lemma_incoming_walk_end(ex, inc, i as int, t);
                        }
                        return Err(DomainError::ParentCycle { node_id: nodes[current].id });
                    }
                    proof {
                        assert forall|u: nat| u < t implies incoming_ancestor(inc, i as int, u)
                            != current by {
                            assert(path[u as int] == incoming_ancestor(inc, i as int, u));
                        }
                        assert(incoming_walk_step(ex, inc, i as int, t) is None);
                        lemma_distinct_below(path.push(current), n as int);
                        lemma_index_of(inc, next as int);
                    }
                    let ghost old_seen = seen@;
                    seen.set(current, true);
                    proof {
                        let old_path = path;
                        path = path.push(current);
                        assert forall|x: int| 0 <= x < n implies (seen@[x] <==> exists|u: int|
                            0 <= u < t + 1 && path[u] == x) by {
                            if x == current {
                                assert(path[t as int] == x);
                            } else if seen@[x] {
                                assert(old_seen[x]);
                                let u = choose|u: int| 0 <= u < t && old_path[u] == x;
                                assert(path[u] == x);
                            } else {
                                if exists|u: int| 0 <= u < t + 1 && path[u] == x {
                                    let u = choose|u: int| 0 <= u < t + 1 && path[u] == x;
                                    assert(old_path[u] == x);
                                }
                            }
                        }
                    }
                    current = next;
                    proof {
                        t = t + 1;
                    }
                },
            }
        }
    }

    /// Checks that no incoming node takes a title of a sibling, in the tree or among the
    /// incoming nodes before it.
    fn validate_sibling_titles_with_inserted_nodes(&self, nodes: &Vec<Node>) -> (r: Result<
        (),
        DomainError,
    >)
        ensures
            match first_insert_failing(self@, nodes@, InsertCheck::UniqueTitle, 0) {
                Some(i) => r == Err::<(), DomainError>(
                    DomainError::DuplicateSiblingTitle {
                        parent_id: nodes@[i].parent_id,
                        title: nodes@[i].title,
                    },
                ),
                None => r is Ok,
            },
    {
        let ghost ex = self@;
        let ghost inc = nodes@;
        let n = nodes.len();
        let mut i: usize = 0;
        while i < n
            invariant
                ex == self@,
                inc == nodes@,
                n == inc.len(),
                i <= n,
                first_insert_failing(ex, inc, InsertCheck::UniqueTitle, 0) == first_insert_failing(
                    ex,
                    inc,
                    InsertCheck::UniqueTitle,
                    i as int,
                ),
            decreases n - i,
        {
            let mut duplicate = self.has_sibling_title_except(
                nodes[i].parent_id,
                nodes[i].title.as_str(),
                None,
            );
            proof {
                if duplicate {
                    let j = choose|j: int|
                        0 <= j < ex.len() && Some(ex[j].id) != None::<i64> && ex[j].parent_id
                            == inc[i as int].parent_id && ex[j].title@ == inc[i as int].title@;
                    assert(same_sibling_title(ex[j], inc[i as int]));
                }
            }
            let mut k: usize = 0;
            while k < i && !duplicate
                invariant
                    inc == nodes@,
                    n == inc.len(),
                    k <= i < n,
                    duplicate ==> fails_insert_check(ex, inc, InsertCheck::UniqueTitle, i as int),
                    !duplicate ==> forall|j: int| 0 <= j < ex.len() ==> !same_sibling_title(ex[j], inc[i as int]),
                    !duplicate ==> forall|j: int| 0 <= j < k ==> !same_sibling_title(inc[j], inc[i as int]),
                decreases i - k,
            {
                if nodes[k].parent_id == nodes[i].parent_id && str_eq(
                    nodes[k].title.as_str(),
                    nodes[i].title.as_str(),
                ) {
                    duplicate = true;
                    proof {
                        assert(same_sibling_title(inc[k as int], inc[i as int]));
                    }
                }
                k = k + 1;
            }
            if duplicate {
                return Err(
                    DomainError::DuplicateSiblingTitle {
                        parent_id: nodes[i].parent_id,
                        title: nodes[i].title.clone(),
                    },
                );
            }
            i = i + 1;
        }
        Ok(())
    }

    /// Adds `node` to the tree, as `insert_nodes` does.
    pub fn insert_node(&mut self, node: Node) -> (r: Result<(), DomainError>)
        requires
            old(self).wf(),
        ensures
            final(self).wf(),
            match insert_error(old(self)@, seq![node]) {
                Some(e) => r == Err::<(), DomainError>(e) && final(self)@ == old(self)@,
                None => r is Ok && final(self)@ == old(self)@.push(node),
            },
    {
        let ghost n = node;
        let mut nodes: Vec<Node> = Vec::new();
        nodes.push(node);
        assert(nodes@ == seq![n]);
        let r = self.insert_nodes(nodes);
        proof {
            assert(old(self)@ + seq![n] == old(self)@.push(n));
        }
        r
    }

    /// Adds `nodes` to the tree, after the nodes it has; refused, with the tree left as
    /// it was, unless each is valid on its own with a new id, no second root comes in,
    /// each parent is in the tree or comes in and the walk up from each reaches the tree
    /// or a root, and no sibling title repeats.
    pub fn insert_nodes(&mut self, nodes: Vec<Node>) -> (r: Result<(), DomainError>)
        requires
            old(self).wf(),
        ensures
            final(self).wf(),
            match insert_error(old(self)@, nodes@) {
                Some(e) => r == Err::<(), DomainError>(e) && final(self)@ == old(self)@,
                None => r is Ok && final(self)@ == old(self)@ + nodes@,
            },
    {
        let ghost ex = self@;
        let ghost inc = nodes@;
        let n = nodes.len();
        if n == 0 {
            assert(ex + inc == ex);
            return Ok(());
        }
        proof {
            lemma_index_matches_unique(ex, self.node_indices_by_id@);
        }
        let mut incoming: HashMap<i64, usize> = HashMap::new();
        let mut i: usize = 0;
        while i < n
            invariant
                ex == self@,
                inc == nodes@,
                n == inc.len(),
                i <= n,
                self.wf(),
                index_matches(inc.subrange(0, i as int), incoming@),
                first_insert_failing(ex, inc, InsertCheck::Fresh, 0) == first_insert_failing(
                    ex,
                    inc,
                    InsertCheck::Fresh,
                    i as int,
                ),
            decreases n - i,
        {
            if let Err(e) = nodes[i].validate() {
                return Err(e);
            }
            let id = nodes[i].id;
            proof {
                lemma_index_matches_unique(ex, self.node_indices_by_id@);
                lemma_index_matches_unique(inc.subrange(0, i as int), incoming@);
                assert forall|j: int| 0 <= j < i implies (inc[j].id == id <==> has_id(
                    inc.subrange(0, i as int),
                    id,
                ) && inc[j].id == id) by {
                    assert(inc.subrange(0, i as int)[j] == inc[j]);
                }
                if has_id(inc.subrange(0, i as int), id) {
                    let j = choose|j: int| 0 <= j < i && inc.subrange(0, i as int)[j].id == id;
                    assert(inc[j].id == id);
                }
            }
            if self.node_indices_by_id.contains_key(&id) || incoming.contains_key(&id) {
                return Err(DomainError::DuplicateNodeId(id));
            }
            incoming.insert(id, i);
            proof {
                let sub = inc.subrange(0, i + 1);
                assert forall|j: int| 0 <= j < sub.len() implies #[trigger] incoming@.contains_key(
                    sub[j].id,
                ) && incoming@[sub[j].id] == j by {
                    if j < i {
                        assert(sub[j] == inc.subrange(0, i as int)[j]);
                    }
                }
                assert forall|k: i64| #[trigger] incoming@.contains_key(k) implies incoming@[k]
                    < sub.len() && sub[incoming@[k] as int].id == k by {
                    if k != id {
                        assert(sub[incoming@[k] as int] == inc.subrange(0, i as int)[incoming@[k] as int]);
                    }
                }
            }
            i = i + 1;
        }
        assert(inc.subrange(0, n as int) == inc);
        let mut existing_has_root = false;
        let mut j: usize = 0;
        while j < self.nodes.len()
            invariant
                ex == self@,
                j <= ex.len(),
                existing_has_root <==> exists|k: int| 0 <= k < j && ex[k].parent_id is None,
            decreases ex.len() - j,
        {
            if self.nodes[j].parent_id.is_none() {
                existing_has_root = true;
            }
            j = j + 1;
        }
        let mut incoming_roots: usize = 0;
        let mut j: usize = 0;
        while j < n
            invariant
                inc == nodes@,
                n == inc.len(),
                j <= n,
                incoming_roots == root_count(inc, j as int),
                incoming_roots <= j,
            decreases n - j,
        {
            if nodes[j].parent_id.is_none() {
                incoming_roots = incoming_roots + 1;
            }
            j = j + 1;
        }
        if existing_has_root && incoming_roots > 0 || incoming_roots > 1 {
            return Err(DomainError::MultipleRoots);
        }
        let mut i: usize = 0;
        while i < n
            invariant
                ex == self@,
                inc == nodes@,
                n == inc.len(),
                i <= n,
                self.wf(),
                index_matches(inc, incoming@),
                first_insert_failing(ex, inc, InsertCheck::Fresh, 0) is None,
                !((has_root(ex) && root_count(inc, n as int) > 0) || root_count(inc, n as int) > 1),
                first_insert_failing(ex, inc, InsertCheck::ParentPath, 0) == first_insert_failing(
                    ex,
                    inc,
                    InsertCheck::ParentPath,
                    i as int,
                ),
            decreases n - i,
        {
            proof {
                lemma_index_matches_unique(ex, self.node_indices_by_id@);
                lemma_index_matches_unique(inc, incoming@);
            }
            if let Some(parent_id) = nodes[i].parent_id {
                if !self.node_indices_by_id.contains_key(&parent_id) && !incoming.contains_key(
                    &parent_id,
                ) {
                    return Err(DomainError::MissingParent { node_id: nodes[i].id, parent_id });
                }
            }
            if let Err(e) = self.validate_incoming_parent_path(&nodes, &incoming, i) {
                return Err(e);
            }
            i = i + 1;
        }
        if let Err(e) = self.validate_sibling_titles_with_inserted_nodes(&nodes) {
            return Err(e);
        }
        proof {
            lemma_first_insert_failing(ex, inc, InsertCheck::Fresh, 0);
            assert forall|a: int| 0 <= a < inc.len() implies !has_id(ex, #[trigger] inc[a].id) by {
                assert(!fails_insert_check(ex, inc, InsertCheck::Fresh, a));
            }
            assert forall|a: int, b: int| 0 <= a < b < inc.len() implies inc[a].id != inc[b].id by {
                assert(!fails_insert_check(ex, inc, InsertCheck::Fresh, b));
            }
        }
        let start = self.nodes.len();
        let mut nodes = nodes;
        self.nodes.append(&mut nodes);
        let total = self.nodes.len();
        let mut k = start;
        assert(ex + inc == self.nodes@);
        assert((ex + inc).subrange(0, start as int) == ex);
        while k < total
            invariant
                self.nodes@ == ex + inc,
                start == ex.len(),
                total == self.nodes@.len(),
                start <= k <= total,
                index_matches(self.nodes@.subrange(0, k as int), self.node_indices_by_id@),
                forall|a: int| 0 <= a < inc.len() ==> !has_id(ex, #[trigger] inc[a].id),
                forall|a: int, b: int| 0 <= a < b < inc.len() ==> inc[a].id != inc[b].id,
            decreases total - k,
        {
            let id = self.nodes[k].id;
            let ghost sub = self.nodes@.subrange(0, k as int);
            proof {
                assert forall|a: int| 0 <= a < k implies sub[a].id != id by {
                    if a < start {
                        assert(sub[a] == ex[a]);
                        assert(!has_id(ex, inc[k - start].id));
                    } else {
                        assert(sub[a] == inc[a - start]);
                    }
                }
            }
            self.node_indices_by_id.insert(id, k);
            proof {
                let sub2 = self.nodes@.subrange(0, k + 1);
                assert forall|j: int| 0 <= j < sub2.len() implies #[trigger] self.node_indices_by_id@.contains_key(
                    sub2[j].id,
                ) && self.node_indices_by_id@[sub2[j].id] == j by {
                    if j < k {
                        assert(sub2[j] == sub[j]);
                    }
                }
                assert forall|key: i64| #[trigger] self.node_indices_by_id@.contains_key(key) implies self.node_indices_by_id@[key]
                    < sub2.len() && sub2[self.node_indices_by_id@[key] as int].id == key by {
                    if key != id {
                        assert(sub2[self.node_indices_by_id@[key] as int] == sub[self.node_indices_by_id@[key] as int]);
                    }
                }
            }
            k = k + 1;
        }
        assert(self.nodes@.subrange(0, total as int) == self.nodes@);
        Ok(())
    }

    /// Checks each update on its own, in order, against the tree and the nodes that
    /// are being removed; hands back the index of each update's node and the index of
    /// each update by its node's id.
    fn validate_sibling_order_updates(
        &self,
        updates: &[NodeSiblingOrderUpdate],
        removed_ids: Option<&HashSet<i64>>,
    ) -> (r: Result<(Vec<usize>, HashMap<i64, usize>), DomainError>)
        requires
            self.wf(),
        ensures
            ({
                let removed = match removed_ids {
                    Some(s) => s@,
                    None => Set::<i64>::empty(),
                };
                match updates_error(self@, updates@, removed) {
                    Some(e) => r matches Err(x) && x == e,
                    None => r matches Ok((indices, by_id)) && indices@.len() == updates@.len() && (
                    forall|k: int|
                        0 <= k < updates@.len() ==> indices@[k] < self@.len() && indices@[k]
                            == index_of(self@, updates@[k].node_id) && self@[indices@[k] as int].id
                            == updates@[k].node_id) && (forall|k: int|
                        0 <= k < updates@.len() ==> #[trigger] by_id@.contains_key(
                            updates@[k].node_id,
                        ) && by_id@[updates@[k].node_id] == k) && (forall|id: i64|
                        #[trigger] by_id@.contains_key(id) ==> by_id@[id] < updates@.len()
                            && updates@[by_id@[id] as int].node_id == id),
                }
            }),
    {
        let ghost ns = self@;
        let ghost ups = updates@;
        let ghost removed = match removed_ids {
            Some(s) => s@,
            None => Set::<i64>::empty(),
        };
        proof {
            lemma_index_matches_unique(ns, self.node_indices_by_id@);
        }
        let mut indices: Vec<usize> = Vec::new();
        let mut by_id: HashMap<i64, usize> = HashMap::new();
        let mut i: usize = 0;
        while i < updates.len()
            invariant
                ns == self@,
                ups == updates@,
                self.wf(),
                ids_unique(ns),
                removed == match removed_ids {
                    Some(s) => s@,
                    None => Set::<i64>::empty(),
                },
                i <= ups.len(),
                first_update_error(ns, ups, removed, 0) == first_update_error(ns, ups, removed, i as int),
                indices@.len() == i,
                forall|k: int|
                    0 <= k < i ==> indices@[k] < ns.len() && indices@[k] == index_of(ns, ups[k].node_id)
                        && ns[indices@[k] as int].id == ups[k].node_id,
                forall|k: int|
                    0 <= k < i ==> #[trigger] by_id@.contains_key(ups[k].node_id) && by_id@[ups[k].node_id] == k,
                forall|id: i64| #[trigger] by_id@.contains_key(id) ==> by_id@[id] < i && ups[by_id@[id] as int].node_id == id,
            decreases ups.len() - i,
        {
            proof {
                lemma_index_matches_unique(ns, self.node_indices_by_id@);
            }
            let update = &updates[i];
            let node_id = update.node_id;
            if by_id.contains_key(&node_id) {
                proof {
                    let j = by_id@[node_id] as int;
                    assert(ups[j].node_id == node_id);
                }
                return Err(DomainError::DuplicateNodeId(node_id));
            }
            if update.sort_order < 0 {
                return Err(DomainError::InvalidSortOrder { node_id, sort_order: update.sort_order });
            }
            if is_blank_str(update.updated_at.as_str()) {
                return Err(DomainError::MissingTimestamp { node_id });
            }
            let is_removed = match removed_ids {
                Some(ids) => ids.contains(&node_id),
                None => false,
            };
            let node_index = match self.node_indices_by_id.get(&node_id) {
                Some(index) => *index,
                None => return Err(DomainError::NodeNotFound { node_id }),
            };
            if is_removed {
                return Err(DomainError::NodeNotFound { node_id });
            }
            if let Some(parent_id) = update.parent_id {
                if parent_id <= 0 || parent_id == node_id {
                    return Err(DomainError::InvalidParent { node_id, parent_id });
                }
                let parent_removed = match removed_ids {
                    Some(ids) => ids.contains(&parent_id),
                    None => false,
                };
                if parent_removed || !self.node_indices_by_id.contains_key(&parent_id) {
                    return Err(DomainError::MissingParent { node_id, parent_id });
                }
            }
            proof {
                lemma_index_of(ns, node_index as int);
                assert forall|j: int| 0 <= j < i implies ups[j].node_id != node_id by {
                    assert(by_id@.contains_key(ups[j].node_id));
                }
                assert(update_error(ns, ups, removed, i as int) is None);
            }
            indices.push(node_index);
            by_id.insert(node_id, i);
            i = i + 1;
        }
        Ok((indices, by_id))
    }

    /// Checks each update on its own, in order, against the tree.
    fn validate_existing_sibling_order_updates(&self, updates: &[NodeSiblingOrderUpdate]) -> (r:
        Result<(Vec<usize>, HashMap<i64, usize>), DomainError>)
        requires
            self.wf(),
        ensures
            match updates_error(self@, updates@, Set::<i64>::empty()) {
                Some(e) => r matches Err(x) && x == e,
                None => r matches Ok((indices, by_id)) && indices@.len() == updates@.len() && (
                forall|k: int|
                    0 <= k < updates@.len() ==> indices@[k] < self@.len() && indices@[k] == index_of(
                        self@,
                        updates@[k].node_id,
                    ) && self@[indices@[k] as int].id == updates@[k].node_id) && (forall|k: int|
                    0 <= k < updates@.len() ==> #[trigger] by_id@.contains_key(updates@[k].node_id)
                        && by_id@[updates@[k].node_id] == k) && (forall|id: i64|
                    #[trigger] by_id@.contains_key(id) ==> by_id@[id] < updates@.len()
                        && updates@[by_id@[id] as int].node_id == id),
            },
    {
        self.validate_sibling_order_updates(updates, None)
    }

    /// Sets the parent, sort order and timestamp of the node of each update.
    fn apply_indexed_sibling_order_updates(&mut self, updates: &[NodeSiblingOrderUpdate], indices: &Vec<usize>)
        requires
            old(self).wf(),
            update_ids_unique(updates@),
            indices@.len() == updates@.len(),
            forall|k: int|
                0 <= k < updates@.len() ==> indices@[k] < old(self)@.len() && old(self)@[indices@[k] as int].id
                    == updates@[k].node_id,
        ensures
            final(self).wf(),
            final(self)@ == updated_nodes(old(self)@, updates@),
    {
        let ghost ns = self@;
        let ghost ups = updates@;
        proof {
            lemma_index_matches_unique(ns, self.node_indices_by_id@);
        }
        let mut k: usize = 0;
        while k < updates.len()
            invariant
                ups == updates@,
                indices@.len() == ups.len(),
                update_ids_unique(ups),
                ids_unique(ns),
                index_matches(ns, self.node_indices_by_id@),
                forall|j: int| 0 <= j < ups.len() ==> indices@[j] < ns.len() && ns[indices@[j] as int].id == ups[j].node_id,
                k <= ups.len(),
                self@.len() == ns.len(),
                forall|x: int|
                    0 <= x < ns.len() ==> #[trigger] self@[x] == if exists|j: int|
                        0 <= j < k && indices@[j] == x {
                        updated_node(ns[x], ups)
                    } else {
                        ns[x]
                    },
            decreases ups.len() - k,
        {
            let x = indices[k];
            let ghost before = self@;
            proof {
                lemma_update_index(ups, ups[k as int].node_id);
                assert forall|j: int| 0 <= j < k implies indices@[j] != x by {
                    assert(ns[indices@[j] as int].id == ups[j].node_id);
                }
            }
            self.nodes[x].parent_id = updates[k].parent_id;
            self.nodes[x].sort_order = updates[k].sort_order;
            self.nodes[x].updated_at = updates[k].updated_at.clone();
            proof {
                assert forall|y: int| 0 <= y < ns.len() implies #[trigger] self@[y] == if exists|j: int|
                    0 <= j < k + 1 && indices@[j] == y {
                    updated_node(ns[y], ups)
                } else {
                    ns[y]
                } by {
                    if y == x {
                        assert(indices@[k as int] == y);
                    } else {
                        assert(self@[y] == before[y]);
                        if exists|j: int| 0 <= j < k + 1 && indices@[j] == y {
                            let j = choose|j: int| 0 <= j < k + 1 && indices@[j] == y;
                            assert(j < k);
                        }
                    }
                }
            }
            k = k + 1;
        }
        proof {
            assert forall|x: int| 0 <= x < ns.len() implies self@[x] == updated_node(ns[x], ups) by {
                lemma_update_index(ups, ns[x].id);
                if exists|j: int| 0 <= j < ups.len() && indices@[j] == x {
                } else {
                    if let Some(j) = update_index(ups, ns[x].id) {
                        assert(ns[indices@[j] as int].id == ns[x].id);
                        assert(indices@[j] == x);
                    }
                }
            }
            assert(self@ == updated_nodes(ns, ups));
            assert forall|x: int| 0 <= x < ns.len() implies #[trigger] self@[x].id == ns[x].id by {}
        }
    }

    /// Checks the walk up from the node `node_id` as the updates would leave the tree:
    /// it fails at a node it passed before or at a node that is not there, and ends
    /// without error at a root.
    fn validate_projected_parent_path(
        &self,
        updates: &[NodeSiblingOrderUpdate],
        by_id: &HashMap<i64, usize>,
        node_id: i64,
    ) -> (r: Result<(), DomainError>)
        requires
            self.wf(),
            update_ids_unique(updates@),
            forall|k: int| 0 <= k < updates@.len() ==> has_id(self@, #[trigger] updates@[k].node_id),
            forall|k: int|
                0 <= k < updates@.len() ==> #[trigger] by_id@.contains_key(updates@[k].node_id)
                    && by_id@[updates@[k].node_id] == k,
            forall|id: i64|
                #[trigger] by_id@.contains_key(id) ==> by_id@[id] < updates@.len()
                    && updates@[by_id@[id] as int].node_id == id,
        ensures
            match projected_walk_result(self@, updates@, node_id) {
                Some(e) => r == Err::<(), DomainError>(e),
                None => r is Ok,
            },
    {
        let ghost ns = self@;
        let ghost ups = updates@;
        proof {
            lemma_index_matches_unique(ns, self.node_indices_by_id@);
        }
        let n = self.nodes.len();
        let mut seen: Vec<bool> = Vec::new();
        let mut k: usize = 0;
        while k < n
            invariant
                k <= n,
                seen@.len() == k,
                forall|x: int| 0 <= x < k ==> !seen@[x],
            decreases n - k,
        {
            seen.push(false);
            k = k + 1;
        }
        let mut current = node_id;
        let ghost mut t: nat = 0;
        let ghost mut path: Seq<usize> = Seq::empty();
        loop
            invariant
                ns == self@,
                ups == updates@,
                n == ns.len(),
                self.wf(),
                ids_unique(ns),
                update_ids_unique(ups),
                forall|k: int| 0 <= k < ups.len() ==> has_id(ns, #[trigger] ups[k].node_id),
                forall|k: int|
                    0 <= k < ups.len() ==> #[trigger] by_id@.contains_key(ups[k].node_id) && by_id@[ups[k].node_id] == k,
                forall|id: i64|
                    #[trigger] by_id@.contains_key(id) ==> by_id@[id] < ups.len() && ups[by_id@[id] as int].node_id == id,
                current == projected_walk(ns, ups, node_id, t),
                path.len() == t,
                forall|u: int|
                    0 <= u < t ==> path[u] < n && ns[path[u] as int].id == projected_walk(ns, ups, node_id, u as nat),
                forall|u1: int, u2: int| 0 <= u1 < u2 < t ==> path[u1] != path[u2],
                seen@.len() == n,
                forall|x: int| 0 <= x < n ==> (seen@[x] <==> exists|u: int| 0 <= u < t && path[u] == x),
                forall|u: nat| u < t ==> projected_walk_step(ns, ups, node_id, u) is None,
            decreases n - t,
        {
            proof {
                lemma_index_matches_unique(ns, self.node_indices_by_id@);
                lemma_update_index(ups, current);
            }
            let ix = match self.node_indices_by_id.get(&current) {
                Some(ix) => *ix,
                None => {
                    proof {
                        assert forall|u: nat| u < t implies projected_walk(ns, ups, node_id, u) != current by {
                            assert(ns[path[u as int] as int].id == projected_walk(ns, ups, node_id, u));
                        }
                        if let Some(k) = update_index(ups, current) {
                            assert(has_id(ns, ups[k].node_id));
                        }
                        lemma_projected_walk_end(ns, ups, node_id, t);
                    }
                    return Err(DomainError::NodeNotFound { node_id: current });
                },
            };
            proof {
                lemma_index_of(ns, ix as int);
            }
            if seen[ix] {
                proof {
                    let u = choose|u: int| 0 <= u < t && path[u] == ix;
                    assert(projected_walk(ns, ups, node_id, u as nat) == current);
                    lemma_projected_walk_end(ns, ups, node_id, t);
                }
                return Err(DomainError::ParentCycle { node_id: current });
            }
            proof {
                assert forall|u: nat| u < t implies projected_walk(ns, ups, node_id, u) != current by {
                    assert(ns[path[u as int] as int].id == projected_walk(ns, ups, node_id, u));
                    assert(path[u as int] != ix);
                }
                lemma_distinct_below(path.push(ix), n as int);
            }
            let ghost old_seen = seen@;
            seen.set(ix, true);
            proof {
                let old_path = path;
                path = path.push(ix);
                assert forall|x: int| 0 <= x < n implies (seen@[x] <==> exists|u: int|
                    0 <= u < t + 1 && path[u] == x) by {
                    if x == ix {
                        assert(path[t as int] == x);
                    } else if seen@[x] {
                        assert(old_seen[x]);
                        let u = choose|u: int| 0 <= u < t && old_path[u] == x;
                        assert(path[u] == x);
                    } else {
                        if exists|u: int| 0 <= u < t + 1 && path[u] == x {
                            let u = choose|u: int| 0 <= u < t + 1 && path[u] == x;
                            assert(old_path[u] == x);
                        }
                    }
                }
            }
            let parent = match by_id.get(&current) {
                Some(k) => updates[*k].parent_id,
                None => self.nodes[ix].parent_id,
            };
            match parent {
                None => {
                    proof {
                        lemma_projected_walk_end(ns, ups, node_id, t);
                    }
                    return Ok(());
                },
                Some(q) => {
                    current = q;
                    proof {
                        t = t + 1;
                    }
                },
            }
        }
    }

    /// Checks the titles under the parents that the parent-updates take nodes from or
    /// move them to: no two moved nodes with one title come under one parent, and no
    /// such parent ends up with two children of one title.
    fn validate_sibling_titles_after_parent_updates(
        &self,
        updates: &[NodeSiblingOrderUpdate],
        indices: &Vec<usize>,
        by_id: &HashMap<i64, usize>,
    ) -> (r: Result<(), DomainError>)
        requires
            self.wf(),
            update_ids_unique(updates@),
            indices@.len() == updates@.len(),
            forall|k: int|
                0 <= k < updates@.len() ==> indices@[k] < self@.len() && indices@[k] == index_of(
                    self@,
                    updates@[k].node_id,
                ) && self@[indices@[k] as int].id == updates@[k].node_id,
            forall|k: int|
                0 <= k < updates@.len() ==> #[trigger] by_id@.contains_key(updates@[k].node_id)
                    && by_id@[updates@[k].node_id] == k,
            forall|id: i64|
                #[trigger] by_id@.contains_key(id) ==> by_id@[id] < updates@.len()
                    && updates@[by_id@[id] as int].node_id == id,
        ensures
            match first_incoming_title_clash(self@, updates@, 0) {
                Some(k) => r == Err::<(), DomainError>(
                    DomainError::DuplicateSiblingTitle {
                        parent_id: updates@[k].parent_id,
                        title: self@[index_of(self@, updates@[k].node_id)].title,
                    },
                ),
                None => if exists|p: Option<i64>, t: Seq<char>|
                    duplicate_after_updates(self@, updates@, p, t) {
                    r matches Err(DomainError::DuplicateSiblingTitle { parent_id, title })
                        && duplicate_after_updates(self@, updates@, parent_id, title@)
                } else {
                    r is Ok
                },
            },
    {
        let ghost ns = self@;
        let ghost ups = updates@;
        proof {
            lemma_index_matches_unique(ns, self.node_indices_by_id@);
        }
        let u = updates.len();
        let mut k: usize = 0;
        while k < u
            invariant
                ns == self@,
                ups == updates@,
                u == ups.len(),
                indices@.len() == u,
                forall|k: int|
                    0 <= k < u ==> indices@[k] < ns.len() && indices@[k] == index_of(ns, ups[k].node_id),
                k <= u,
                first_incoming_title_clash(ns, ups, 0) == first_incoming_title_clash(ns, ups, k as int),
            decreases u - k,
        {
            if self.nodes[indices[k]].parent_id != updates[k].parent_id {
                let mut j: usize = 0;
                while j < k
                    invariant
                        ns == self@,
                        ups == updates@,
                        u == ups.len(),
                        indices@.len() == u,
                        forall|k: int|
                            0 <= k < u ==> indices@[k] < ns.len() && indices@[k] == index_of(ns, ups[k].node_id),
                        j <= k < u,
                        is_parent_update(ns, ups, k as int),
                        first_incoming_title_clash(ns, ups, 0) == first_incoming_title_clash(ns, ups, k as int),
                        forall|i: int| 0 <= i < j ==> !incoming_title_clash(ns, ups, i, k as int),
                    decreases k - j,
                {
                    if self.nodes[indices[j]].parent_id != updates[j].parent_id
                        && updates[j].parent_id == updates[k].parent_id && str_eq(
                        self.nodes[indices[j]].title.as_str(),
                        self.nodes[indices[k]].title.as_str(),
                    ) {
                        proof {
                            assert(incoming_title_clash(ns, ups, j as int, k as int));
                        }
                        return Err(
                            DomainError::DuplicateSiblingTitle {
                                parent_id: updates[k].parent_id,
                                title: self.nodes[indices[k]].title.clone(),
                            },
                        );
                    }
                    j = j + 1;
                }
            }
            k = k + 1;
        }
        let n = self.nodes.len();
        let ghost after = updated_nodes(ns, ups);
        let mut new_parent: Vec<Option<i64>> = Vec::new();
        let mut x: usize = 0;
        while x < n
            invariant
                ns == self@,
                ups == updates@,
                n == ns.len(),
                after == updated_nodes(ns, ups),
                update_ids_unique(ups),
                forall|k: int|
                    0 <= k < ups.len() ==> #[trigger] by_id@.contains_key(ups[k].node_id) && by_id@[ups[k].node_id] == k,
                forall|id: i64|
                    #[trigger] by_id@.contains_key(id) ==> by_id@[id] < ups.len() && ups[by_id@[id] as int].node_id == id,
                x <= n,
                new_parent@.len() == x,
                forall|y: int| 0 <= y < x ==> new_parent@[y] == after[y].parent_id,
            decreases n - x,
        {
            proof {
                lemma_update_index(ups, ns[x as int].id);
            }
            let parent = match by_id.get(&self.nodes[x].id) {
                Some(k) => updates[*k].parent_id,
                None => self.nodes[x].parent_id,
            };
            new_parent.push(parent);
            x = x + 1;
        }
        let mut affected: Vec<bool> = Vec::new();
        let mut x: usize = 0;
        while x < n
            invariant
                ns == self@,
                ups == updates@,
                n == ns.len(),
                indices@.len() == ups.len(),
                forall|k: int|
                    0 <= k < ups.len() ==> indices@[k] < ns.len() && indices@[k] == index_of(ns, ups[k].node_id),
                new_parent@.len() == n,
                x <= n,
                affected@.len() == x,
                forall|y: int| 0 <= y < x ==> affected@[y] == is_affected_parent(ns, ups, new_parent@[y]),
            decreases n - x,
        {
            let p = new_parent[x];
            let mut hit = false;
            let mut k: usize = 0;
            while k < updates.len() && !hit
                invariant
                    ns == self@,
                    ups == updates@,
                    indices@.len() == ups.len(),
                    forall|k: int|
                        0 <= k < ups.len() ==> indices@[k] < ns.len() && indices@[k] == index_of(ns, ups[k].node_id),
                    k <= ups.len(),
                    hit ==> is_affected_parent(ns, ups, p),
                    !hit ==> forall|i: int| 0 <= i < k ==> !(is_parent_update(ns, ups, i) && (ups[i].parent_id == p
                        || ns[index_of(ns, ups[i].node_id)].parent_id == p)),
                decreases ups.len() - k,
            {
                let old_parent = self.nodes[indices[k]].parent_id;
                if old_parent != updates[k].parent_id && (updates[k].parent_id == p || old_parent == p) {
                    hit = true;
                    proof {
                        assert(is_parent_update(ns, ups, k as int));
                        assert(0 <= k < ups.len() && is_parent_update(ns, ups, k as int) && (
                        ups[k as int].parent_id == p || ns[index_of(ns, ups[k as int].node_id)].parent_id
                            == p));
                    }
                }
                k = k + 1;
            }
            affected.push(hit);
            x = x + 1;
        }
        let mut x: usize = 0;
        while x < n
            invariant
                ns == self@,
                ups == updates@,
                n == ns.len(),
                after == updated_nodes(ns, ups),
                new_parent@.len() == n,
                affected@.len() == n,
                forall|y: int| 0 <= y < n ==> new_parent@[y] == after[y].parent_id,
                forall|y: int| 0 <= y < n ==> affected@[y] == is_affected_parent(ns, ups, new_parent@[y]),
                first_incoming_title_clash(ns, ups, 0) is None,
                x <= n,
                forall|a: int, b: int|
                    0 <= a < x && a < b < n && is_affected_parent(ns, ups, after[a].parent_id) ==> !(
                    after[b].parent_id == after[a].parent_id && after[b].title@ == after[a].title@),
            decreases n - x,
        {
            if affected[x] {
                let mut y = x + 1;
                while y < n
                    invariant
                        ns == self@,
                        ups == updates@,
                        n == ns.len(),
                        after == updated_nodes(ns, ups),
                        new_parent@.len() == n,
                        forall|y: int| 0 <= y < n ==> new_parent@[y] == after[y].parent_id,
                        x < y <= n,
                        first_incoming_title_clash(ns, ups, 0) is None,
                        is_affected_parent(ns, ups, after[x as int].parent_id),
                        forall|b: int| x < b < y ==> !(after[b].parent_id == after[x as int].parent_id
                            && after[b].title@ == after[x as int].title@),
                    decreases n - y,
                {
                    if new_parent[y] == new_parent[x] && str_eq(
                        self.nodes[y].title.as_str(),
                        self.nodes[x].title.as_str(),
                    ) {
                        proof {
                            assert(after[x as int].title == ns[x as int].title);
                            assert(after[y as int].title == ns[y as int].title);
                            assert(duplicate_after_updates(ns, ups, after[x as int].parent_id, ns[x as int].title@));
                        }
                        return Err(
                            DomainError::DuplicateSiblingTitle {
                                parent_id: new_parent[x],
                                title: self.nodes[x].title.clone(),
                            },
                        );
                    }
                    proof {
                        assert(after[x as int].title == ns[x as int].title);
                        assert(after[y as int].title == ns[y as int].title);
                    }
                    y = y + 1;
                }
            }
            x = x + 1;
        }
        proof {
            assert forall|p: Option<i64>, t: Seq<char>| !duplicate_after_updates(ns, ups, p, t) by {
                if duplicate_after_updates(ns, ups, p, t) {
                    let (a, b) = choose|a: int, b: int|
                        0 <= a < b < after.len() && after[a].parent_id == p && after[b].parent_id == p
                            && after[a].title@ == t && after[b].title@ == t;
                }
            }
        }
        Ok(())
    }

    /// Checks that the parent-updates leave one root, counting from one.
    fn validate_root_count_after_parent_updates(&self, updates: &[NodeSiblingOrderUpdate], indices: &Vec<usize>) -> (r:
        Result<(), DomainError>)
        requires
            indices@.len() == updates@.len(),
            forall|k: int|
                0 <= k < updates@.len() ==> indices@[k] < self@.len() && indices@[k] == index_of(
                    self@,
                    updates@[k].node_id,
                ),
        ensures
            r == if projected_root_count(self@, updates@, updates@.len() as int) == 0 {
                Err::<(), DomainError>(DomainError::MissingRoot)
            } else if projected_root_count(self@, updates@, updates@.len() as int) > 1 {
                Err::<(), DomainError>(DomainError::MultipleRoots)
            } else {
                Ok::<(), DomainError>(())
            },
    {
        let ghost ns = self@;
        let ghost ups = updates@;
        let mut root_count: i128 = 1;
        let mut k: usize = 0;
        while k < updates.len()
            invariant
                ns == self@,
                ups == updates@,
                indices@.len() == ups.len(),
                forall|k: int|
                    0 <= k < ups.len() ==> indices@[k] < ns.len() && indices@[k] == index_of(ns, ups[k].node_id),
                k <= ups.len(),
                root_count == projected_root_count(ns, ups, k as int),
                1 - k <= root_count <= 1 + k,
            decreases ups.len() - k,
        {
            let old_parent = self.nodes[indices[k]].parent_id;
            if old_parent.is_some() && updates[k].parent_id.is_none() {
                root_count = root_count + 1;
            } else if old_parent.is_none() && updates[k].parent_id.is_some() {
                root_count = root_count - 1;
            }
            k = k + 1;
        }
        if root_count == 0 {
            return Err(DomainError::MissingRoot);
        }
        if root_count > 1 {
            return Err(DomainError::MultipleRoots);
        }
        Ok(())
    }

    /// Checks the walk up from the node of each parent-update, in order, as the updates
    /// would leave the tree.
    fn validate_parent_paths_after_parent_updates(
        &self,
        updates: &[NodeSiblingOrderUpdate],
        indices: &Vec<usize>,
        by_id: &HashMap<i64, usize>,
    ) -> (r: Result<(), DomainError>)
        requires
            self.wf(),
            update_ids_unique(updates@),
            indices@.len() == updates@.len(),
            forall|k: int|
                0 <= k < updates@.len() ==> indices@[k] < self@.len() && indices@[k] == index_of(
                    self@,
                    updates@[k].node_id,
                ) && self@[indices@[k] as int].id == updates@[k].node_id,
            forall|k: int|
                0 <= k < updates@.len() ==> #[trigger] by_id@.contains_key(updates@[k].node_id)
                    && by_id@[updates@[k].node_id] == k,
            forall|id: i64|
                #[trigger] by_id@.contains_key(id) ==> by_id@[id] < updates@.len()
                    && updates@[by_id@[id] as int].node_id == id,
        ensures
            match first_path_failure(self@, updates@, 0) {
                Some(k) => r == Err::<(), DomainError>(
                    projected_walk_result(self@, updates@, updates@[k].node_id)->0,
                ),
                None => r is Ok,
            },
    {
        let ghost ns = self@;
        let ghost ups = updates@;
        proof {
            assert forall|k: int| 0 <= k < ups.len() implies has_id(ns, #[trigger] ups[k].node_id) by {
                assert(ns[indices@[k] as int].id == ups[k].node_id);
            }
        }
        let mut k: usize = 0;
        while k < updates.len()
            invariant
                ns == self@,
                ups == updates@,
                self.wf(),
                update_ids_unique(ups),
                indices@.len() == ups.len(),
                forall|k: int|
                    0 <= k < ups.len() ==> indices@[k] < ns.len() && indices@[k] == index_of(ns, ups[k].node_id),
                forall|k: int| 0 <= k < ups.len() ==> has_id(ns, #[trigger] ups[k].node_id),
                forall|k: int|
                    0 <= k < ups.len() ==> #[trigger] by_id@.contains_key(ups[k].node_id) && by_id@[ups[k].node_id] == k,
                forall|id: i64|
                    #[trigger] by_id@.contains_key(id) ==> by_id@[id] < ups.len() && ups[by_id@[id] as int].node_id == id,
                k <= ups.len(),
                first_path_failure(ns, ups, 0) == first_path_failure(ns, ups, k as int),
            decreases ups.len() - k,
        {
            if self.nodes[indices[k]].parent_id != updates[k].parent_id {
                if let Err(e) = self.validate_projected_parent_path(updates, by_id, updates[k].node_id) {
                    return Err(e);
                }
            }
            k = k + 1;
        }
        Ok(())
    }

    /// Checks what the updates would leave: titles under the parents they change,
    /// the number of roots, and the walks up from the nodes they move.
    fn validate_sibling_order_update_result(
        &self,
        updates: &[NodeSiblingOrderUpdate],
        indices: &Vec<usize>,
        by_id: &HashMap<i64, usize>,
    ) -> (r: Result<(), DomainError>)
        requires
            self.wf(),
            update_ids_unique(updates@),
            indices@.len() == updates@.len(),
            forall|k: int|
                0 <= k < updates@.len() ==> indices@[k] < self@.len() && indices@[k] == index_of(
                    self@,
                    updates@[k].node_id,
                ) && self@[indices@[k] as int].id == updates@[k].node_id,
            forall|k: int|
                0 <= k < updates@.len() ==> #[trigger] by_id@.contains_key(updates@[k].node_id)
                    && by_id@[updates@[k].node_id] == k,
            forall|id: i64|
                #[trigger] by_id@.contains_key(id) ==> by_id@[id] < updates@.len()
                    && updates@[by_id@[id] as int].node_id == id,
        ensures
            update_result_ok(self@, updates@, r),
    {
        let ghost ns = self@;
        let ghost ups = updates@;
        let mut any_parent_update = false;
        let mut k: usize = 0;
        while k < updates.len()
            invariant
                ns == self@,
                ups == updates@,
                indices@.len() == ups.len(),
                forall|k: int|
                    0 <= k < ups.len() ==> indices@[k] < ns.len() && indices@[k] == index_of(ns, ups[k].node_id),
                k <= ups.len(),
                any_parent_update <==> exists|j: int| 0 <= j < k && is_parent_update(ns, ups, j),
            decreases ups.len() - k,
        {
            if self.nodes[indices[k]].parent_id != updates[k].parent_id {
                any_parent_update = true;
                proof {
                    assert(is_parent_update(ns, ups, k as int));
                }
            }
            k = k + 1;
        }
        if !any_parent_update {
            proof {
                lemma_no_parent_updates(ns, ups, 0);
                lemma_no_parent_updates_root_count(ns, ups, ups.len() as int);
                assert forall|p: Option<i64>, t: Seq<char>| !duplicate_after_updates(ns, ups, p, t) by {}
            }
            return Ok(());
        }
        if let Err(e) = self.validate_sibling_titles_after_parent_updates(updates, indices, by_id) {
            return Err(e);
        }
        if let Err(e) = self.validate_root_count_after_parent_updates(updates, indices) {
            return Err(e);
        }
        self.validate_parent_paths_after_parent_updates(updates, indices, by_id)
    }

    /// Applies the updates of parent, sort order and timestamp; refused, with the tree
    /// left as it was, unless each update is valid on its own and the tree they leave
    /// keeps unique sibling titles, one root, and every moved node reaching a root.
    pub fn apply_sibling_order_updates(&mut self, updates: &[NodeSiblingOrderUpdate]) -> (r: Result<
        (),
        DomainError,
    >)
        requires
            old(self).wf(),
        ensures
            final(self).wf(),
            match updates_error(old(self)@, updates@, Set::<i64>::empty()) {
                Some(e) => r == Err::<(), DomainError>(e) && final(self)@ == old(self)@,
                None => update_result_ok(old(self)@, updates@, r) && if r is Ok {
                    final(self)@ == updated_nodes(old(self)@, updates@)
                } else {
                    final(self)@ == old(self)@
                },
            },
    {
        let ghost ns = self@;
        let ghost ups = updates@;
        if updates.len() == 0 {
            proof {
                lemma_no_parent_updates(ns, ups, 0);
                lemma_no_parent_updates_root_count(ns, ups, 0);
                assert forall|p: Option<i64>, t: Seq<char>| !duplicate_after_updates(ns, ups, p, t) by {}
                assert forall|x: int| 0 <= x < ns.len() implies updated_nodes(ns, ups)[x] == ns[x] by {
                    reveal(update_index);
                }
                assert(updated_nodes(ns, ups) == ns);
            }
            return Ok(());
        }
        let (indices, by_id) = match self.validate_existing_sibling_order_updates(updates) {
            Ok(v) => v,
            Err(e) => return Err(e),
        };
        proof {
            lemma_updates_accepted_unique(ns, ups, Set::<i64>::empty());
        }
        if let Err(e) = self.validate_sibling_order_update_result(updates, &indices, &by_id) {
            return Err(e);
        }
        self.apply_indexed_sibling_order_updates(updates, &indices);
        Ok(())
    }

    /// Removes the nodes whose ids are in `removed_ids`, keeping the others in order.
    fn remove_nodes_by_id_preserving_metadata(&mut self, removed_ids: &HashSet<i64>)
        requires
            old(self).wf(),
        ensures
            final(self).wf(),
            final(self)@ == nodes_kept(old(self)@, removed_ids@, old(self)@.len() as int),
    {
        broadcast use vstd::std_specs::hash::group_hash_axioms;

        let ghost ns = self@;
        proof {
            lemma_index_matches_unique(ns, self.node_indices_by_id@);
        }
        let mut old_nodes: Vec<Node> = Vec::new();
        std::mem::swap(&mut self.nodes, &mut old_nodes);
        let n = old_nodes.len();
        let mut i: usize = 0;
        while i < n
            invariant
                n == ns.len(),
                old_nodes@.len() == n,
                i <= n,
                forall|j: int| i <= j < n ==> old_nodes@[j] == ns[j],
                self.nodes@ == nodes_kept(ns, removed_ids@, i as int),
            decreases n - i,
        {
            let mut taken = Node {
                id: 0,
                parent_id: None,
                title: String::new(),
                sort_order: 0,
                content: String::new(),
                created_at: String::new(),
                updated_at: String::new(),
                deleted_at: None,
            };
            std::mem::swap(&mut old_nodes[i], &mut taken);
            if !removed_ids.contains(&taken.id) {
                self.nodes.push(taken);
            }
            i = i + 1;
        }
        let mut index: HashMap<i64, usize> = HashMap::new();
        let total = self.nodes.len();
        let ghost kept = self.nodes@;
        proof {
            lemma_nodes_kept_ids(ns, removed_ids@, n as int);
        }
        let mut k: usize = 0;
        while k < total
            invariant
                kept == self.nodes@,
                total == kept.len(),
                ids_unique(kept),
                k <= total,
                index_matches(kept.subrange(0, k as int), index@),
            decreases total - k,
        {
            let id = self.nodes[k].id;
            let ghost sub = kept.subrange(0, k as int);
            proof {
                assert forall|a: int| 0 <= a < k implies sub[a].id != id by {
                    assert(sub[a] == kept[a]);
                }
            }
            let ghost before_index = index@;
            index.insert(id, k);
            proof {
                let sub2 = kept.subrange(0, k + 1);
                assert(sub2[k as int] == kept[k as int]);
                assert(index@ == before_index.insert(id, k));
                assert forall|j: int| 0 <= j < sub2.len() implies #[trigger] index@.contains_key(sub2[j].id)
                    && index@[sub2[j].id] == j by {
                    if j < k {
                        assert(sub2[j] == sub[j]);
                    }
                }
                assert forall|key: i64| #[trigger] index@.contains_key(key) implies index@[key] < sub2.len()
                    && sub2[index@[key] as int].id == key by {
                    if key != id {
                        assert(sub2[index@[key] as int] == sub[index@[key] as int]);
                    }
                }
            }
            k = k + 1;
        }
        assert(kept.subrange(0, total as int) == kept);
        self.node_indices_by_id = index;
    }

    /// Removes the nodes `node_ids` and applies the updates of parent, sort order and
    /// timestamp; refused, with the tree left as it was, for the root's id or an id that
    /// names no node, or for an update refused on its own or about a removed node.
    pub fn remove_nodes_and_apply_sibling_order_updates(
        &mut self,
        node_ids: &[i64],
        updates: &[NodeSiblingOrderUpdate],
    ) -> (r: Result<(), DomainError>)
        requires
            old(self).wf(),
        ensures
            final(self).wf(),
            match removal_error(old(self)@, node_ids@, updates@) {
                Some(e) => r == Err::<(), DomainError>(e) && final(self)@ == old(self)@,
                None => r is Ok && final(self)@ == nodes_kept(
                    updated_nodes(old(self)@, updates@),
                    node_ids@.to_set(),
                    old(self)@.len() as int,
                ),
            },
    {
        broadcast use vstd::std_specs::hash::group_hash_axioms;

        let ghost ns = self@;
        let ghost ups = updates@;
        if node_ids.len() == 0 && updates.len() == 0 {
            proof {
                lemma_nodes_kept_none(ns, node_ids@.to_set(), ns.len() as int);
                assert forall|x: int| 0 <= x < ns.len() implies updated_nodes(ns, ups)[x] == ns[x] by {
                    reveal(update_index);
                }
                assert(updated_nodes(ns, ups) == ns);
            }
            return Ok(());
        }
        proof {
            lemma_index_matches_unique(ns, self.node_indices_by_id@);
        }
        let mut removed_ids: HashSet<i64> = HashSet::new();
        let mut i: usize = 0;
        while i < node_ids.len()
            invariant
                ns == self@,
                self.wf(),
                i <= node_ids@.len(),
                removed_ids@ == node_ids@.subrange(0, i as int).to_set(),
                first_bad_removal(ns, node_ids@, 0) == first_bad_removal(ns, node_ids@, i as int),
            decreases node_ids@.len() - i,
        {
            let node_id = node_ids[i];
            if node_id == ROOT_NODE_ID {
                return Err(DomainError::CannotDeleteRoot);
            }
            proof {
                lemma_index_matches_unique(ns, self.node_indices_by_id@);
            }
            if !self.node_indices_by_id.contains_key(&node_id) {
                return Err(DomainError::NodeNotFound { node_id });
            }
            proof {
                assert(node_ids@.subrange(0, i + 1) == node_ids@.subrange(0, i as int).push(node_id));
                node_ids@.subrange(0, i as int).lemma_push_to_set_commute(node_id);
            }
            removed_ids.insert(node_id);
            i = i + 1;
        }
        assert(node_ids@.subrange(0, node_ids@.len() as int) == node_ids@);
        let (indices, _by_id) = match self.validate_sibling_order_updates(updates, Some(&removed_ids)) {
            Ok(v) => v,
            Err(e) => return Err(e),
        };
        proof {
            lemma_updates_accepted_unique(ns, ups, removed_ids@);
        }
        self.apply_indexed_sibling_order_updates(updates, &indices);
        if node_ids.len() > 0 {
            self.remove_nodes_by_id_preserving_metadata(&removed_ids);
        } else {
            proof {
                lemma_nodes_kept_none(updated_nodes(ns, ups), node_ids@.to_set(), ns.len() as int);
            }
        }
        Ok(())
    }

    /// Renames the node `node_id` to `title` at `updated_at`; refused for a blank title
    /// or one with NUL, a blank timestamp, a missing node, or a sibling with the title.
    pub fn rename_node(&mut self, node_id: i64, title: String, updated_at: String) -> (r: Result<
        (),
        DomainError,
    >)
        requires
            old(self).wf(),
        ensures
            final(self).wf(),
            match rename_error(old(self)@, node_id, title, updated_at@) {
                Some(e) => r == Err::<(), DomainError>(e) && final(self)@ == old(self)@,
                None => r is Ok && final(self)@ == old(self)@.update(
                    index_of(old(self)@, node_id),
                    Node { title, updated_at, ..old(self)@[index_of(old(self)@, node_id)] },
                ),
            },
    {
        if is_blank_str(title.as_str()) {
            return Err(DomainError::EmptyTitle { node_id });
        }
        if str_has_char(title.as_str(), '\0') {
            return Err(DomainError::EmbeddedNulTitle { node_id });
        }
        if is_blank_str(updated_at.as_str()) {
            return Err(DomainError::MissingTimestamp { node_id });
        }
        let index = match self.node_index_by_id(node_id) {
            Some(index) => index,
            None => return Err(DomainError::NodeNotFound { node_id }),
        };
        let parent_id = self.nodes[index].parent_id;
        if self.has_sibling_title_except(parent_id, title.as_str(), Some(node_id)) {
            return Err(DomainError::DuplicateSiblingTitle { parent_id, title });
        }
        let ghost before = self.nodes@;
        let ghost t = title;
        let ghost u = updated_at;
        self.nodes[index].title = title;
        self.nodes[index].updated_at = updated_at;
        proof {
            assert(self.nodes@ == before.update(
                index as int,
                Node { title: t, updated_at: u, ..before[index as int] },
            ));
        }
        Ok(())
    }

    /// Replaces the content of the node `node_id` at `updated_at`; refused for a content
    /// with NUL, a blank timestamp or a missing node.
    pub fn replace_node_content(&mut self, node_id: i64, content: String, updated_at: String) -> (r:
        Result<(), DomainError>)
        requires
            old(self).wf(),
        ensures
            final(self).wf(),
            match content_error(old(self)@, node_id, content@, updated_at@) {
                Some(e) => r == Err::<(), DomainError>(e) && final(self)@ == old(self)@,
                None => r is Ok && final(self)@ == old(self)@.update(
                    index_of(old(self)@, node_id),
                    Node { content, updated_at, ..old(self)@[index_of(old(self)@, node_id)] },
                ),
            },
    {
        if str_has_char(content.as_str(), '\0') {
            return Err(DomainError::EmbeddedNulContent { node_id });
        }
        if is_blank_str(updated_at.as_str()) {
            return Err(DomainError::MissingTimestamp { node_id });
        }
        let index = match self.node_index_by_id(node_id) {
            Some(index) => index,
            None => return Err(DomainError::NodeNotFound { node_id }),
        };
        let ghost before = self.nodes@;
        let ghost c = content;
        let ghost u = updated_at;
        self.nodes[index].content = content;
        self.nodes[index].updated_at = updated_at;
        proof {
            assert(self.nodes@ == before.update(
                index as int,
                Node { content: c, updated_at: u, ..before[index as int] },
            ));
        }
        Ok(())
    }
}

/// Renaming a node of a valid tree keeps the tree valid.
pub proof fn lemma_rename_keeps_tree_valid(
    nodes: Seq<Node>,
    node_id: i64,
    title: String,
    updated_at: String,
)
    requires
        tree_valid(nodes),
        rename_error(nodes, node_id, title, updated_at@) is None,
    ensures
        tree_valid(
            nodes.update(
                index_of(nodes, node_id),
                Node { title, updated_at, ..nodes[index_of(nodes, node_id)] },
            ),
        ),
{
    let j = choose|j: int| 0 <= j < nodes.len() && nodes[j].id == node_id;
    lemma_index_of(nodes, j);
    let b = nodes.update(j, Node { title, updated_at, ..nodes[j] });
    assert(same_shape(nodes, b));
    assert forall|i: int| 0 <= i < b.len() implies node_error(#[trigger] b[i]) is None by {
        assert(node_error(nodes[i]) is None);
    }
    assert forall|u: int, v: int| 0 <= u < v < b.len() implies !same_sibling_title(
        #[trigger] b[u],
        #[trigger] b[v],
    ) by {
        assert(!same_sibling_title(nodes[u], nodes[v]));
        if u == j {
            assert(nodes[v].id != node_id);
        } else if v == j {
            assert(nodes[u].id != node_id);
        }
    }
    lemma_same_shape_tree_valid(nodes, b);
}

/// Replacing the content of a node of a valid tree keeps the tree valid.
pub proof fn lemma_replace_content_keeps_tree_valid(
    nodes: Seq<Node>,
    node_id: i64,
    content: String,
    updated_at: String,
)
    requires
        tree_valid(nodes),
        content_error(nodes, node_id, content@, updated_at@) is None,
    ensures
        tree_valid(
            nodes.update(
                index_of(nodes, node_id),
                Node { content, updated_at, ..nodes[index_of(nodes, node_id)] },
            ),
        ),
{
    let j = choose|j: int| 0 <= j < nodes.len() && nodes[j].id == node_id;
    lemma_index_of(nodes, j);
    let b = nodes.update(j, Node { content, updated_at, ..nodes[j] });
    assert(same_shape(nodes, b));
    assert forall|i: int| 0 <= i < b.len() implies node_error(#[trigger] b[i]) is None by {
        assert(node_error(nodes[i]) is None);
    }
    assert forall|u: int, v: int| 0 <= u < v < b.len() implies !same_sibling_title(
        #[trigger] b[u],
        #[trigger] b[v],
    ) by {
        assert(!same_sibling_title(nodes[u], nodes[v]));
    }
    lemma_same_shape_tree_valid(nodes, b);
}

/// Keeping nodes keeps their ids unique.
proof fn lemma_nodes_kept_ids(nodes: Seq<Node>, removed: Set<i64>, n: int)
    requires
        ids_unique(nodes),
        0 <= n <= nodes.len(),
    ensures
        ids_unique(nodes_kept(nodes, removed, n)),
        forall|a: int| 0 <= a < nodes_kept(nodes, removed, n).len() ==> exists|j: int|
            0 <= j < n && #[trigger] nodes_kept(nodes, removed, n)[a] == nodes[j],
    decreases n,
{
    if n > 0 {
        lemma_nodes_kept_ids(nodes, removed, n - 1);
        let before = nodes_kept(nodes, removed, n - 1);
        let kept = nodes_kept(nodes, removed, n);
        assert forall|a: int| 0 <= a < kept.len() implies exists|j: int| 0 <= j < n && #[trigger] kept[a] == nodes[j] by {
            if a < before.len() {
                assert(kept[a] == before[a]);
                let j = choose|j: int| 0 <= j < n - 1 && before[a] == nodes[j];
                assert(kept[a] == nodes[j]);
            } else {
                assert(kept[a] == nodes[n - 1]);
            }
        }
        assert forall|a: int, b: int| 0 <= a < b < kept.len() implies kept[a].id != kept[b].id by {
            let ja = choose|j: int| 0 <= j < n && kept[a] == nodes[j];
            let jb = choose|j: int| 0 <= j < n && kept[b] == nodes[j];
            if b < before.len() {
                assert(kept[a] == before[a] && kept[b] == before[b]);
            } else {
                assert(kept[b] == nodes[n - 1]);
                assert(kept[a] == before[a]);
                let j = choose|j: int| 0 <= j < n - 1 && before[a] == nodes[j];
                assert(nodes[j].id != nodes[n - 1].id);
            }
        }
    }
}

/// With none of them removed, every node is kept.
proof fn lemma_nodes_kept_none(nodes: Seq<Node>, removed: Set<i64>, n: int)
    requires
        0 <= n <= nodes.len(),
        removed =~= Set::<i64>::empty(),
    ensures
        nodes_kept(nodes, removed, n) == nodes.subrange(0, n),
    decreases n,
{
    if n > 0 {
        lemma_nodes_kept_none(nodes, removed, n - 1);
        assert(nodes.subrange(0, n) == nodes.subrange(0, n - 1).push(nodes[n - 1]));
    }
}

/// The roots of two sequences of nodes put together.
proof fn lemma_root_count_concat(a: Seq<Node>, c: Seq<Node>, n: int)
    requires
        0 <= n <= c.len(),
    ensures
        root_count(a + c, a.len() + n) == root_count(a, a.len() as int) + root_count(c, n),
    decreases n,
{
    if n == 0 {
        lemma_root_count_prefix(a, c, a.len() as int);
    } else {
        lemma_root_count_concat(a, c, n - 1);
        assert((a + c)[a.len() + n - 1] == c[n - 1]);
    }
}

proof fn lemma_root_count_prefix(a: Seq<Node>, c: Seq<Node>, n: int)
    requires
        0 <= n <= a.len(),
    ensures
        root_count(a + c, n) == root_count(a, n),
    decreases n,
{
    if n > 0 {
        lemma_root_count_prefix(a, c, n - 1);
        assert((a + c)[n - 1] == a[n - 1]);
    }
}

/// A tree with one root has a node without a parent.
proof fn lemma_has_root(nodes: Seq<Node>)
    requires
        root_count(nodes, nodes.len() as int) >= 1,
    ensures
        has_root(nodes),
{
    if !has_root(nodes) {
        lemma_no_root(nodes, nodes.len() as int);
    }
}

/// The walk up from a node of `ex` stays in `ex` when more nodes follow it.
proof fn lemma_prefix_ancestor(ex: Seq<Node>, b: Seq<Node>, i: int, k: nat)
    requires
        ex.len() <= b.len(),
        forall|j: int| 0 <= j < ex.len() ==> #[trigger] b[j] == ex[j],
        ids_unique(b),
        ids_unique(ex),
        parents_exist(ex),
        0 <= i < ex.len(),
    ensures
        ancestor(b, i, k) == ancestor(ex, i, k),
        0 <= ancestor(ex, i, k) < ex.len(),
    decreases k,
{
    lemma_ancestor_in_range(ex, i, k);
    if k > 0 {
        lemma_prefix_ancestor(ex, b, i, (k - 1) as nat);
        let x = ancestor(ex, i, (k - 1) as nat);
        lemma_ancestor_in_range(ex, i, (k - 1) as nat);
        assert(b[x] == ex[x]);
        if let Some(p) = ex[x].parent_id {
            assert(has_id(ex, p));
            let j = choose|j: int| 0 <= j < ex.len() && ex[j].id == p;
            lemma_index_of(ex, j);
            assert(b[j] == ex[j]);
            lemma_index_of(b, j);
        }
    }
}

/// A node of `ex` that reaches the root in `ex` reaches it when more nodes follow.
proof fn lemma_prefix_reaches_root(ex: Seq<Node>, b: Seq<Node>, i: int)
    requires
        ex.len() <= b.len(),
        forall|j: int| 0 <= j < ex.len() ==> #[trigger] b[j] == ex[j],
        ids_unique(b),
        ids_unique(ex),
        parents_exist(ex),
        0 <= i < ex.len(),
        reaches_root(ex, i),
    ensures
        reaches_root(b, i),
{
    let k = choose|k: nat| #[trigger] ex[ancestor(ex, i, k)].parent_id is None;
    lemma_prefix_ancestor(ex, b, i, k);
    assert(b[ancestor(b, i, k)] == ex[ancestor(ex, i, k)]);
}

/// A walk up that takes a step exists only if a first such step exists.
proof fn lemma_incoming_first_end(ex: Seq<Node>, inc: Seq<Node>, i: int, t: nat)
    requires
        incoming_walk_step(ex, inc, i, t) is Some,
    ensures
        exists|t0: nat|
            t0 <= t && incoming_walk_step(ex, inc, i, t0) is Some && forall|u: nat|
                u < t0 ==> incoming_walk_step(ex, inc, i, u) is None,
    decreases t,
{
    if exists|u: nat| u < t && incoming_walk_step(ex, inc, i, u) is Some {
        let u = choose|u: nat| u < t && incoming_walk_step(ex, inc, i, u) is Some;
        lemma_incoming_first_end(ex, inc, i, u);
    }
}

/// A distinct sequence of integers in `0..n` has at most `n` elements.
proof fn lemma_distinct_ints_below(s: Seq<int>, n: int)
    requires
        0 <= n,
        forall|i: int| 0 <= i < s.len() ==> 0 <= #[trigger] s[i] < n,
        forall|i: int, j: int| 0 <= i < j < s.len() ==> s[i] != s[j],
    ensures
        s.len() <= n,
    decreases n,
{
    if n == 0 {
        if s.len() > 0 {
            assert(0 <= s[0] < n);
        }
    } else if exists|k: int| 0 <= k < s.len() && s[k] == n - 1 {
        let k = choose|k: int| 0 <= k < s.len() && s[k] == n - 1;
        let t = s.remove(k);
        assert forall|i: int| 0 <= i < t.len() implies 0 <= #[trigger] t[i] < n - 1 by {
            if i < k {
                assert(t[i] == s[i]);
            } else {
                assert(t[i] == s[i + 1]);
            }
        }
        assert forall|i: int, j: int| 0 <= i < j < t.len() implies t[i] != t[j] by {
            let a = if i < k { i } else { i + 1 };
            let b = if j < k { j } else { j + 1 };
            assert(t[i] == s[a]);
            assert(t[j] == s[b]);
        }
        lemma_distinct_ints_below(t, n - 1);
    } else {
        assert forall|i: int| 0 <= i < s.len() implies 0 <= #[trigger] s[i] < n - 1 by {}
        lemma_distinct_ints_below(s, n - 1);
    }
}

/// The walk up through incoming nodes stops within as many steps as there are of them.
proof fn lemma_incoming_walk_ends(ex: Seq<Node>, inc: Seq<Node>, i: int)
    requires
        ids_unique(inc),
        0 <= i < inc.len(),
    ensures
        incoming_walk_step(ex, inc, i, incoming_walk_end(ex, inc, i)) is Some,
        forall|u: nat| u < incoming_walk_end(ex, inc, i) ==> incoming_walk_step(ex, inc, i, u) is None,
{
    let n = inc.len();
    if forall|t: nat| t <= n ==> incoming_walk_step(ex, inc, i, t) is None {
        assert forall|t: nat| t <= n implies 0 <= #[trigger] incoming_ancestor(inc, i, t) < n by {
            lemma_incoming_in_range(ex, inc, i, t);
        }
        let s = Seq::new((n + 1) as nat, |u: int| incoming_ancestor(inc, i, u as nat));
        assert forall|a: int, b: int| 0 <= a < b < s.len() implies s[a] != s[b] by {
            assert(incoming_walk_step(ex, inc, i, b as nat) is None);
            assert(0 <= incoming_ancestor(inc, i, a as nat) < n);
            assert(0 <= incoming_ancestor(inc, i, b as nat) < n);
            if s[a] == s[b] {
                assert(incoming_ancestor(inc, i, a as nat) == incoming_ancestor(inc, i, b as nat));
                let c = incoming_ancestor(inc, i, b as nat);
                assert(exists|u: nat| u < b && incoming_ancestor(inc, i, u) == c);
            }
        }
        assert forall|a: int| 0 <= a < s.len() implies 0 <= #[trigger] s[a] < n by {
            assert(0 <= incoming_ancestor(inc, i, a as nat) < n);
        }
        lemma_distinct_ints_below(s, n as int);
        assert(false);
    }
    let t = choose|t: nat| t <= n && incoming_walk_step(ex, inc, i, t) is Some;
    lemma_incoming_first_end(ex, inc, i, t);
    let t0 = choose|t0: nat|
        t0 <= t && incoming_walk_step(ex, inc, i, t0) is Some && forall|u: nat|
            u < t0 ==> incoming_walk_step(ex, inc, i, u) is None;
    lemma_incoming_walk_end(ex, inc, i, t0);
}

/// While the walk goes on, it stays among the incoming nodes.
proof fn lemma_incoming_in_range(ex: Seq<Node>, inc: Seq<Node>, i: int, t: nat)
    requires
        0 <= i < inc.len(),
        forall|u: nat| u < t ==> incoming_walk_step(ex, inc, i, u) is None,
    ensures
        0 <= incoming_ancestor(inc, i, t) < inc.len(),
    decreases t,
{
    if t > 0 {
        lemma_incoming_in_range(ex, inc, i, (t - 1) as nat);
        let c = incoming_ancestor(inc, i, (t - 1) as nat);
        assert(incoming_walk_step(ex, inc, i, (t - 1) as nat) is None);
        if let Some(p) = inc[c].parent_id {
            assert(has_id(inc, p));
            reveal(index_of);
        }
    }
}

/// While the walk goes on through incoming nodes, it is the walk up in the tree that
/// holds them after the others.
proof fn lemma_incoming_ancestor_in_tree(ex: Seq<Node>, inc: Seq<Node>, i: int, t: nat)
    requires
        ids_unique(ex + inc),
        ids_unique(inc),
        0 <= i < inc.len(),
        forall|u: nat| u < t ==> incoming_walk_step(ex, inc, i, u) is None,
    ensures
        ancestor(ex + inc, ex.len() + i, t) == ex.len() + incoming_ancestor(inc, i, t),
    decreases t,
{
    if t > 0 {
        let b = ex + inc;
        lemma_incoming_ancestor_in_tree(ex, inc, i, (t - 1) as nat);
        lemma_incoming_in_range(ex, inc, i, (t - 1) as nat);
        let c = incoming_ancestor(inc, i, (t - 1) as nat);
        assert(b[ex.len() + c] == inc[c]);
        assert(incoming_walk_step(ex, inc, i, (t - 1) as nat) is None);
        if let Some(p) = inc[c].parent_id {
            assert(has_id(inc, p));
            let j = choose|j: int| 0 <= j < inc.len() && inc[j].id == p;
            lemma_index_of(inc, j);
            assert(b[ex.len() + j] == inc[j]);
            lemma_index_of(b, ex.len() + j);
        }
    }
}

/// What an accepted insertion into a valid tree says of the incoming nodes.
proof fn lemma_insert_accepted(ex: Seq<Node>, inc: Seq<Node>)
    requires
        tree_valid(ex),
        insert_error(ex, inc) is None,
        inc.len() > 0,
    ensures
        forall|i: int| 0 <= i < inc.len() ==> node_error(#[trigger] inc[i]) is None,
        forall|i: int| 0 <= i < inc.len() ==> !has_id(ex, #[trigger] inc[i].id),
        ids_unique(inc),
        root_count(inc, inc.len() as int) == 0,
        forall|i: int|
            0 <= i < inc.len() ==> (#[trigger] inc[i].parent_id matches Some(p) ==> has_id(ex, p)
                || has_id(inc, p)),
        forall|i: int| 0 <= i < inc.len() ==> #[trigger] incoming_walk_result(ex, inc, i) is None,
        forall|i: int, j: int|
            0 <= j < ex.len() && 0 <= i < inc.len() ==> !same_sibling_title(#[trigger] ex[j], #[trigger] inc[i]),
        forall|i: int, j: int| 0 <= j < i < inc.len() ==> !same_sibling_title(#[trigger] inc[j], #[trigger] inc[i]),
{
    lemma_first_insert_failing(ex, inc, InsertCheck::Fresh, 0);
    lemma_first_insert_failing(ex, inc, InsertCheck::ParentPath, 0);
    lemma_first_insert_failing(ex, inc, InsertCheck::UniqueTitle, 0);
    lemma_has_root(ex);
    assert forall|i: int| 0 <= i < inc.len() implies node_error(#[trigger] inc[i]) is None && !has_id(
        ex,
        inc[i].id,
    ) by {
        assert(!fails_insert_check(ex, inc, InsertCheck::Fresh, i));
    }
    assert forall|u: int, v: int| 0 <= u < v < inc.len() implies inc[u].id != inc[v].id by {
        assert(!fails_insert_check(ex, inc, InsertCheck::Fresh, v));
    }
    assert forall|i: int| 0 <= i < inc.len() implies (#[trigger] inc[i].parent_id matches Some(p)
        ==> has_id(ex, p) || has_id(inc, p)) && incoming_walk_result(ex, inc, i) is None by {
        assert(!fails_insert_check(ex, inc, InsertCheck::ParentPath, i));
    }
    assert forall|i: int, j: int|
        0 <= j < ex.len() && 0 <= i < inc.len() implies !same_sibling_title(#[trigger] ex[j], #[trigger] inc[i]) by {
        assert(!fails_insert_check(ex, inc, InsertCheck::UniqueTitle, i));
    }
    assert forall|i: int, j: int| 0 <= j < i < inc.len() implies !same_sibling_title(
        #[trigger] inc[j],
        #[trigger] inc[i],
    ) by {
        assert(!fails_insert_check(ex, inc, InsertCheck::UniqueTitle, i));
    }
}

/// Every incoming node reaches the root of the tree it was accepted into.
proof fn lemma_insert_reaches_root(ex: Seq<Node>, inc: Seq<Node>, ii: int)
    requires
        tree_valid(ex),
        ids_unique(ex + inc),
        ids_unique(inc),
        root_count(inc, inc.len() as int) == 0,
        0 <= ii < inc.len(),
        incoming_walk_result(ex, inc, ii) is None,
    ensures
        reaches_root(ex + inc, ex.len() + ii),
{
    let b = ex + inc;
    let m = ex.len();
    let i = m + ii;
    assert forall|j: int| 0 <= j < m implies #[trigger] b[j] == ex[j] by {}
    lemma_incoming_walk_ends(ex, inc, ii);
    let t = incoming_walk_end(ex, inc, ii);
    lemma_incoming_in_range(ex, inc, ii, t);
    lemma_incoming_ancestor_in_tree(ex, inc, ii, t);
    let c = incoming_ancestor(inc, ii, t);
    assert(b[m + c] == inc[c]);
    match inc[c].parent_id {
        None => {
            lemma_one_root(inc, c, inc.len() as int);
        },
        Some(p) => {
            assert(has_id(ex, p));
            let j = choose|j: int| 0 <= j < m && ex[j].id == p;
            assert(b[j] == ex[j]);
            lemma_index_of(b, j);
            assert(ancestor(b, i, t + 1) == j);
            assert(reaches_root(ex, j));
            lemma_prefix_reaches_root(ex, b, j);
            lemma_reaches_through(b, i, t + 1);
        },
    }
}

proof fn lemma_insert_ids(ex: Seq<Node>, inc: Seq<Node>)
    requires
        forall|i: int| 0 <= i < ex.len() ==> node_error(#[trigger] ex[i]) is None,
        ids_unique(ex),
        forall|i: int| 0 <= i < inc.len() ==> node_error(#[trigger] inc[i]) is None,
        forall|i: int| 0 <= i < inc.len() ==> !has_id(ex, #[trigger] inc[i].id),
        ids_unique(inc),
    ensures
        ids_unique(ex + inc),
        forall|i: int| 0 <= i < (ex + inc).len() ==> node_error(#[trigger] (ex + inc)[i]) is None,
{
    let b = ex + inc;
    let m = ex.len();
    assert forall|i: int| 0 <= i < b.len() implies node_error(#[trigger] b[i]) is None by {
        if i >= m {
            assert(b[i] == inc[i - m]);
        }
    }
    assert forall|u: int, v: int| 0 <= u < v < b.len() implies b[u].id != b[v].id by {
        if v >= m {
            assert(b[v] == inc[v - m]);
            if u < m {
                assert(b[u] == ex[u]);
            } else {
                assert(b[u] == inc[u - m]);
            }
        } else {
            assert(b[u] == ex[u] && b[v] == ex[v]);
        }
    }
}

proof fn lemma_insert_titles(ex: Seq<Node>, inc: Seq<Node>)
    requires
        titles_unique(ex),
        forall|i: int, j: int|
            0 <= j < ex.len() && 0 <= i < inc.len() ==> !same_sibling_title(#[trigger] ex[j], #[trigger] inc[i]),
        forall|i: int, j: int| 0 <= j < i < inc.len() ==> !same_sibling_title(#[trigger] inc[j], #[trigger] inc[i]),
    ensures
        titles_unique(ex + inc),
{
    let b = ex + inc;
    let m = ex.len();
    assert forall|u: int, v: int| 0 <= u < v < b.len() implies !same_sibling_title(
        #[trigger] b[u],
        #[trigger] b[v],
    ) by {
        if v >= m {
            assert(b[v] == inc[v - m]);
            if u < m {
                assert(b[u] == ex[u]);
            } else {
                assert(b[u] == inc[u - m]);
            }
        } else {
            assert(b[u] == ex[u]);
            assert(b[v] == ex[v]);
        }
    }
}

proof fn lemma_insert_parents(ex: Seq<Node>, inc: Seq<Node>)
    requires
        parents_exist(ex),
        forall|i: int|
            0 <= i < inc.len() ==> (#[trigger] inc[i].parent_id matches Some(p) ==> has_id(ex, p)
                || has_id(inc, p)),
    ensures
        parents_exist(ex + inc),
{
    let b = ex + inc;
    let m = ex.len();
    assert forall|i: int| 0 <= i < b.len() implies (#[trigger] b[i].parent_id matches Some(p)
        ==> has_id(b, p)) by {
        if i < m {
            assert(b[i] == ex[i]);
            if let Some(p) = ex[i].parent_id {
                assert(ex[i].parent_id matches Some(q) ==> has_id(ex, q));
                let j = choose|j: int| 0 <= j < m && ex[j].id == p;
                assert(b[j] == ex[j]);
            }
        } else {
            assert(b[i] == inc[i - m]);
            if let Some(p) = inc[i - m].parent_id {
                if has_id(ex, p) {
                    let j = choose|j: int| 0 <= j < m && ex[j].id == p;
                    assert(b[j] == ex[j]);
                } else {
                    let j = choose|j: int| 0 <= j < inc.len() && inc[j].id == p;
                    assert(b[m + j] == inc[j]);
                }
            }
        }
    }
}

/// Incoming nodes with what an accepted insertion says of them make a valid tree with
/// the valid tree they come into.
/// Every node reaches the root once accepted incoming nodes joined a valid tree.
proof fn lemma_insert_all_reach(ex: Seq<Node>, inc: Seq<Node>)
    requires
        tree_valid(ex),
        ids_unique(ex + inc),
        ids_unique(inc),
        root_count(inc, inc.len() as int) == 0,
        forall|i: int| 0 <= i < inc.len() ==> #[trigger] incoming_walk_result(ex, inc, i) is None,
    ensures
        forall|i: int| 0 <= i < (ex + inc).len() ==> #[trigger] reaches_root(ex + inc, i),
{
    let b = ex + inc;
    let m = ex.len();
    assert forall|i: int| 0 <= i < b.len() implies #[trigger] reaches_root(b, i) by {
        if i < m {
            assert forall|j: int| 0 <= j < m implies #[trigger] b[j] == ex[j] by {}
            assert(reaches_root(ex, i));
            lemma_prefix_reaches_root(ex, b, i);
        } else {
            assert(incoming_walk_result(ex, inc, i - m) is None);
            lemma_insert_reaches_root(ex, inc, i - m);
        }
    }
}

/// Incoming nodes with what an accepted insertion says of them make a valid tree with
/// the valid tree they come into.
proof fn lemma_insert_valid_from_facts(ex: Seq<Node>, inc: Seq<Node>)
    requires
        tree_valid(ex),
        inc.len() > 0,
        forall|i: int| 0 <= i < inc.len() ==> node_error(#[trigger] inc[i]) is None,
        forall|i: int| 0 <= i < inc.len() ==> !has_id(ex, #[trigger] inc[i].id),
        ids_unique(inc),
        root_count(inc, inc.len() as int) == 0,
        forall|i: int|
            0 <= i < inc.len() ==> (#[trigger] inc[i].parent_id matches Some(p) ==> has_id(ex, p)
                || has_id(inc, p)),
        forall|i: int| 0 <= i < inc.len() ==> #[trigger] incoming_walk_result(ex, inc, i) is None,
        forall|i: int, j: int|
            0 <= j < ex.len() && 0 <= i < inc.len() ==> !same_sibling_title(#[trigger] ex[j], #[trigger] inc[i]),
        forall|i: int, j: int| 0 <= j < i < inc.len() ==> !same_sibling_title(#[trigger] inc[j], #[trigger] inc[i]),
    ensures
        tree_valid(ex + inc),
{
    lemma_insert_ids(ex, inc);
    lemma_insert_titles(ex, inc);
    lemma_insert_parents(ex, inc);
    lemma_root_count_concat(ex, inc, inc.len() as int);
    lemma_insert_all_reach(ex, inc);
}

/// Inserting nodes into a valid tree, when it is accepted, leaves a valid tree.
pub proof fn lemma_insert_keeps_tree_valid(ex: Seq<Node>, inc: Seq<Node>)
    requires
        tree_valid(ex),
        insert_error(ex, inc) is None,
    ensures
        tree_valid(ex + inc),
{
    if inc.len() == 0 {
        assert(ex + inc == ex);
    } else {
        lemma_insert_accepted(ex, inc);
        lemma_insert_valid_from_facts(ex, inc);
    }
}

/// With every update's node present, each step of the walk up after the updates that
/// does not end it is at a node that is present.
proof fn lemma_projected_walk_present(nodes: Seq<Node>, ups: Seq<NodeSiblingOrderUpdate>, id: i64, t: nat)
    requires
        update_ids_unique(ups),
        forall|k: int| 0 <= k < ups.len() ==> has_id(nodes, #[trigger] ups[k].node_id),
        projected_walk_step(nodes, ups, id, t) is None,
    ensures
        has_id(nodes, projected_walk(nodes, ups, id, t)),
        projected_parent(nodes, ups, projected_walk(nodes, ups, id, t)) matches Some(Some(q))
            && projected_walk(nodes, ups, id, t + 1) == q,
{
    let c = projected_walk(nodes, ups, id, t);
    lemma_update_index(ups, c);
    if let Some(k) = update_index(ups, c) {
        assert(has_id(nodes, ups[k].node_id));
    }
}

proof fn lemma_projected_first_end(nodes: Seq<Node>, ups: Seq<NodeSiblingOrderUpdate>, id: i64, t: nat)
    requires
        projected_walk_step(nodes, ups, id, t) is Some,
    ensures
        exists|t0: nat|
            t0 <= t && projected_walk_step(nodes, ups, id, t0) is Some && forall|u: nat|
                u < t0 ==> projected_walk_step(nodes, ups, id, u) is None,
    decreases t,
{
    if exists|u: nat| u < t && projected_walk_step(nodes, ups, id, u) is Some {
        let u = choose|u: nat| u < t && projected_walk_step(nodes, ups, id, u) is Some;
        lemma_projected_first_end(nodes, ups, id, u);
    }
}

/// The walk up after the updates stops within as many steps as there are nodes.
proof fn lemma_projected_walk_ends(nodes: Seq<Node>, ups: Seq<NodeSiblingOrderUpdate>, id: i64)
    requires
        ids_unique(nodes),
        update_ids_unique(ups),
        forall|k: int| 0 <= k < ups.len() ==> has_id(nodes, #[trigger] ups[k].node_id),
    ensures
        projected_walk_step(nodes, ups, id, projected_walk_end(nodes, ups, id)) is Some,
        forall|u: nat|
            u < projected_walk_end(nodes, ups, id) ==> projected_walk_step(nodes, ups, id, u) is None,
{
    let n = nodes.len();
    if forall|t: nat| t <= n ==> projected_walk_step(nodes, ups, id, t) is None {
        let s = Seq::new((n + 1) as nat, |u: int| index_of(nodes, projected_walk(nodes, ups, id, u as nat)));
        assert forall|a: int| 0 <= a < s.len() implies 0 <= #[trigger] s[a] < n by {
            lemma_projected_walk_present(nodes, ups, id, a as nat);
            let c = projected_walk(nodes, ups, id, a as nat);
            let j = choose|j: int| 0 <= j < n && nodes[j].id == c;
            lemma_index_of(nodes, j);
        }
        assert forall|a: int, b: int| 0 <= a < b < s.len() implies s[a] != s[b] by {
            let ca = projected_walk(nodes, ups, id, a as nat);
            let cb = projected_walk(nodes, ups, id, b as nat);
            lemma_projected_walk_present(nodes, ups, id, a as nat);
            lemma_projected_walk_present(nodes, ups, id, b as nat);
            let ja = choose|j: int| 0 <= j < n && nodes[j].id == ca;
            let jb = choose|j: int| 0 <= j < n && nodes[j].id == cb;
            lemma_index_of(nodes, ja);
            lemma_index_of(nodes, jb);
            assert(projected_walk_step(nodes, ups, id, b as nat) is None);
            if ja == jb {
                assert(exists|u: nat| u < b && projected_walk(nodes, ups, id, u) == cb);
            }
        }
        lemma_distinct_ints_below(s, n as int);
        assert(false);
    }
    let t = choose|t: nat| t <= n && projected_walk_step(nodes, ups, id, t) is Some;
    lemma_projected_first_end(nodes, ups, id, t);
    let t0 = choose|t0: nat|
        t0 <= t && projected_walk_step(nodes, ups, id, t0) is Some && forall|u: nat|
            u < t0 ==> projected_walk_step(nodes, ups, id, u) is None;
    lemma_projected_walk_end(nodes, ups, id, t0);
}

/// After the updates, the parent of a present node is its projected parent.
proof fn lemma_after_parent(nodes: Seq<Node>, ups: Seq<NodeSiblingOrderUpdate>, j: int)
    requires
        ids_unique(nodes),
        update_ids_unique(ups),
        0 <= j < nodes.len(),
    ensures
        updated_nodes(nodes, ups)[j].id == nodes[j].id,
        projected_parent(nodes, ups, nodes[j].id) == Some(updated_nodes(nodes, ups)[j].parent_id),
{
    lemma_index_of(nodes, j);
    lemma_update_index(ups, nodes[j].id);
}

/// The nodes after the updates have the ids of the nodes before.
proof fn lemma_after_ids(nodes: Seq<Node>, ups: Seq<NodeSiblingOrderUpdate>)
    ensures
        updated_nodes(nodes, ups).len() == nodes.len(),
        forall|j: int| 0 <= j < nodes.len() ==> #[trigger] updated_nodes(nodes, ups)[j].id == nodes[j].id,
        ids_unique(nodes) ==> ids_unique(updated_nodes(nodes, ups)),
{
    let after = updated_nodes(nodes, ups);
    assert forall|j: int| 0 <= j < nodes.len() implies #[trigger] after[j].id == nodes[j].id by {}
    if ids_unique(nodes) {
        assert forall|u: int, v: int| 0 <= u < v < after.len() implies after[u].id != after[v].id by {
            assert(after[u].id == nodes[u].id && after[v].id == nodes[v].id);
        }
    }
}

/// While the walk up after the updates goes on, it is the walk up in the updated tree.
proof fn lemma_projected_walk_in_tree(nodes: Seq<Node>, ups: Seq<NodeSiblingOrderUpdate>, x: int, t: nat)
    requires
        ids_unique(nodes),
        update_ids_unique(ups),
        forall|k: int| 0 <= k < ups.len() ==> has_id(nodes, #[trigger] ups[k].node_id),
        0 <= x < nodes.len(),
        forall|u: nat| u < t ==> projected_walk_step(nodes, ups, nodes[x].id, u) is None,
        has_id(nodes, projected_walk(nodes, ups, nodes[x].id, t)),
    ensures
        0 <= ancestor(updated_nodes(nodes, ups), x, t) < nodes.len(),
        nodes[ancestor(updated_nodes(nodes, ups), x, t)].id == projected_walk(nodes, ups, nodes[x].id, t),
    decreases t,
{
    let after = updated_nodes(nodes, ups);
    lemma_after_ids(nodes, ups);
    if t > 0 {
        lemma_projected_walk_present(nodes, ups, nodes[x].id, (t - 1) as nat);
        lemma_projected_walk_in_tree(nodes, ups, x, (t - 1) as nat);
        let a = ancestor(after, x, (t - 1) as nat);
        lemma_after_parent(nodes, ups, a);
        let q = after[a].parent_id->0;
        assert(q == projected_walk(nodes, ups, nodes[x].id, t));
        let j = choose|j: int| 0 <= j < nodes.len() && nodes[j].id == q;
        assert(after[j].id == q);
        lemma_index_of(after, j);
    } else {
        lemma_index_of(nodes, x);
    }
}

/// A node whose walk up after the updates ends without error reaches a root in the
/// updated tree.
proof fn lemma_walk_ok_reaches(nodes: Seq<Node>, ups: Seq<NodeSiblingOrderUpdate>, x: int)
    requires
        ids_unique(nodes),
        update_ids_unique(ups),
        forall|k: int| 0 <= k < ups.len() ==> has_id(nodes, #[trigger] ups[k].node_id),
        0 <= x < nodes.len(),
        projected_walk_result(nodes, ups, nodes[x].id) is None,
    ensures
        reaches_root(updated_nodes(nodes, ups), x),
{
    let after = updated_nodes(nodes, ups);
    let id = nodes[x].id;
    lemma_projected_walk_ends(nodes, ups, id);
    let t = projected_walk_end(nodes, ups, id);
    let c = projected_walk(nodes, ups, id, t);
    lemma_update_index(ups, c);
    assert(has_id(nodes, c)) by {
        if let Some(k) = update_index(ups, c) {
            assert(has_id(nodes, ups[k].node_id));
        }
    }
    lemma_projected_walk_in_tree(nodes, ups, x, t);
    let a = ancestor(after, x, t);
    lemma_after_parent(nodes, ups, a);
    assert(after[ancestor(after, x, t)].parent_id is None);
}

/// A node is the node of a parent-update.
pub open spec fn is_moved(nodes: Seq<Node>, ups: Seq<NodeSiblingOrderUpdate>, x: int) -> bool {
    exists|k: int| 0 <= k < ups.len() && is_parent_update(nodes, ups, k) && ups[k].node_id == nodes[x].id
}

/// A node that is not moved keeps its parent.
proof fn lemma_unmoved_parent(nodes: Seq<Node>, ups: Seq<NodeSiblingOrderUpdate>, x: int)
    requires
        ids_unique(nodes),
        update_ids_unique(ups),
        forall|k: int| 0 <= k < ups.len() ==> has_id(nodes, #[trigger] ups[k].node_id),
        0 <= x < nodes.len(),
        !is_moved(nodes, ups, x),
    ensures
        updated_nodes(nodes, ups)[x].parent_id == nodes[x].parent_id,
{
    lemma_update_index(ups, nodes[x].id);
    lemma_index_of(nodes, x);
    if let Some(k) = update_index(ups, nodes[x].id) {
        assert(!is_parent_update(nodes, ups, k));
    }
}

/// A node whose walk up in the tree before the updates reaches the root in `k` steps
/// reaches a root after them, when every moved node's walk ends without error.
proof fn lemma_reaches_after_updates(nodes: Seq<Node>, ups: Seq<NodeSiblingOrderUpdate>, x: int, k: nat)
    requires
        ids_unique(nodes),
        parents_exist(nodes),
        update_ids_unique(ups),
        forall|j: int| 0 <= j < ups.len() ==> has_id(nodes, #[trigger] ups[j].node_id),
        forall|y: int|
            0 <= y < nodes.len() && is_moved(nodes, ups, y) ==> #[trigger] projected_walk_result(
                nodes,
                ups,
                nodes[y].id,
            ) is None,
        0 <= x < nodes.len(),
        nodes[ancestor(nodes, x, k)].parent_id is None,
    ensures
        reaches_root(updated_nodes(nodes, ups), x),
    decreases k,
{
    let after = updated_nodes(nodes, ups);
    lemma_after_ids(nodes, ups);
    if is_moved(nodes, ups, x) {
        lemma_walk_ok_reaches(nodes, ups, x);
    } else {
        lemma_unmoved_parent(nodes, ups, x);
        match nodes[x].parent_id {
            None => {
                assert(after[ancestor(after, x, 0)].parent_id is None);
            },
            Some(p) => {
                if k == 0 {
                    assert(ancestor(nodes, x, 0) == x);
                } else {
                    lemma_ancestor_add(nodes, x, 1, (k - 1) as nat);
                    assert(nodes[x].parent_id matches Some(q) ==> has_id(nodes, q));
                    let j = choose|j: int| 0 <= j < nodes.len() && nodes[j].id == p;
                    lemma_index_of(nodes, j);
                    assert(ancestor(nodes, x, 0) == x);
                    assert(ancestor(nodes, x, 1) == j);
                    lemma_reaches_after_updates(nodes, ups, j, (k - 1) as nat);
                    assert(after[j].id == p);
                    lemma_index_of(after, j);
                    assert(ancestor(after, x, 0) == x);
                    assert(ancestor(after, x, 1) == j);
                    lemma_reaches_through(after, x, 1);
                }
            },
        }
    }
}

/// The nodes after the first `k` updates.
pub open spec fn partially_updated(nodes: Seq<Node>, ups: Seq<NodeSiblingOrderUpdate>, k: int) -> Seq<Node> {
    updated_nodes(nodes, ups.subrange(0, k))
}

/// One more update changes one node, the node of that update.
proof fn lemma_partially_updated_step(nodes: Seq<Node>, ups: Seq<NodeSiblingOrderUpdate>, k: int)
    requires
        ids_unique(nodes),
        update_ids_unique(ups),
        0 <= k < ups.len(),
        has_id(nodes, ups[k].node_id),
    ensures
        partially_updated(nodes, ups, k)[index_of(nodes, ups[k].node_id)] == nodes[index_of(
            nodes,
            ups[k].node_id,
        )],
        partially_updated(nodes, ups, k + 1) == partially_updated(nodes, ups, k).update(
            index_of(nodes, ups[k].node_id),
            Node {
                parent_id: ups[k].parent_id,
                sort_order: ups[k].sort_order,
                updated_at: ups[k].updated_at,
                ..nodes[index_of(nodes, ups[k].node_id)]
            },
        ),
{
    let a = ups.subrange(0, k);
    let b = ups.subrange(0, k + 1);
    let j = choose|j: int| 0 <= j < nodes.len() && nodes[j].id == ups[k].node_id;
    lemma_index_of(nodes, j);
    assert(update_ids_unique(a));
    assert(update_ids_unique(b));
    lemma_update_index(a, ups[k].node_id);
    lemma_update_index(b, ups[k].node_id);
    assert(b[k] == ups[k]);
    assert forall|y: int| 0 <= y < nodes.len() && y != j implies #[trigger] updated_node(nodes[y], b)
        == updated_node(nodes[y], a) by {
        lemma_update_index(a, nodes[y].id);
        lemma_update_index(b, nodes[y].id);
        if let Some(i) = update_index(b, nodes[y].id) {
            assert(b[i] == a[i]);
        }
        if let Some(i) = update_index(a, nodes[y].id) {
            assert(b[i] == a[i]);
        }
    }
    assert(partially_updated(nodes, ups, k + 1) =~= partially_updated(nodes, ups, k).update(
        j,
        Node {
            parent_id: ups[k].parent_id,
            sort_order: ups[k].sort_order,
            updated_at: ups[k].updated_at,
            ..nodes[j]
        },
    ));
}

/// Changing one node changes the number of roots by whether it is a root before and
/// after.
proof fn lemma_root_count_update(a: Seq<Node>, x: int, n: Node, m: int)
    requires
        0 <= x < a.len(),
        0 <= m <= a.len(),
    ensures
        root_count(a.update(x, n), m) == root_count(a, m) + if x < m {
            (if n.parent_id is None {
                1int
            } else {
                0int
            }) - (if a[x].parent_id is None {
                1int
            } else {
                0int
            })
        } else {
            0int
        },
    decreases m,
{
    if m > 0 {
        lemma_root_count_update(a, x, n, m - 1);
    }
}

/// After the first `k` updates, the tree has as many roots as counted from one.
proof fn lemma_partial_root_count(nodes: Seq<Node>, ups: Seq<NodeSiblingOrderUpdate>, k: int)
    requires
        ids_unique(nodes),
        update_ids_unique(ups),
        forall|j: int| 0 <= j < ups.len() ==> has_id(nodes, #[trigger] ups[j].node_id),
        root_count(nodes, nodes.len() as int) == 1,
        0 <= k <= ups.len(),
    ensures
        root_count(partially_updated(nodes, ups, k), nodes.len() as int) == projected_root_count(
            nodes,
            ups,
            k,
        ),
    decreases k,
{
    if k == 0 {
        assert forall|y: int| 0 <= y < nodes.len() implies partially_updated(nodes, ups, 0)[y] == nodes[y] by {
            reveal(update_index);
        }
        assert(partially_updated(nodes, ups, 0) =~= nodes);
    } else {
        lemma_partial_root_count(nodes, ups, k - 1);
        lemma_partially_updated_step(nodes, ups, k - 1);
        let x = index_of(nodes, ups[k - 1].node_id);
        let j = choose|j: int| 0 <= j < nodes.len() && nodes[j].id == ups[k - 1].node_id;
        lemma_index_of(nodes, j);
        lemma_root_count_update(
            partially_updated(nodes, ups, k - 1),
            x,
            Node {
                parent_id: ups[k - 1].parent_id,
                sort_order: ups[k - 1].sort_order,
                updated_at: ups[k - 1].updated_at,
                ..nodes[x]
            },
            nodes.len() as int,
        );
    }
}

/// No update is refused, so each is of a node that is there, with a valid parent id.
proof fn lemma_updates_accepted_facts(nodes: Seq<Node>, ups: Seq<NodeSiblingOrderUpdate>)
    requires
        updates_error(nodes, ups, Set::<i64>::empty()) is None,
    ensures
        update_ids_unique(ups),
        forall|k: int|
            0 <= k < ups.len() ==> {
                &&& has_id(nodes, #[trigger] ups[k].node_id)
                &&& ups[k].sort_order >= 0
                &&& !is_blank(ups[k].updated_at@)
                &&& ups[k].parent_id matches Some(p) ==> p > 0 && p != ups[k].node_id && has_id(nodes, p)
            },
{
    lemma_updates_accepted_unique(nodes, ups, Set::<i64>::empty());
    lemma_first_update_error(nodes, ups, Set::<i64>::empty(), 0);
    assert forall|k: int| 0 <= k < ups.len() implies {
        &&& has_id(nodes, #[trigger] ups[k].node_id)
        &&& ups[k].sort_order >= 0
        &&& !is_blank(ups[k].updated_at@)
        &&& ups[k].parent_id matches Some(p) ==> p > 0 && p != ups[k].node_id && has_id(nodes, p)
    } by {
        assert(update_error(nodes, ups, Set::<i64>::empty(), k) is None);
    }
}

proof fn lemma_first_path_failure_none(nodes: Seq<Node>, ups: Seq<NodeSiblingOrderUpdate>, i: int)
    requires
        0 <= i <= ups.len(),
        first_path_failure(nodes, ups, i) is None,
    ensures
        forall|k: int|
            i <= k < ups.len() && is_parent_update(nodes, ups, k) ==> #[trigger] projected_walk_result(
                nodes,
                ups,
                ups[k].node_id,
            ) is None,
    decreases ups.len() - i,
{
    if i < ups.len() {
        lemma_first_path_failure_none(nodes, ups, i + 1);
    }
}

/// The moved node's parent after the updates is the one its update gives it.
proof fn lemma_moved_parent(nodes: Seq<Node>, ups: Seq<NodeSiblingOrderUpdate>, x: int, k: int)
    requires
        update_ids_unique(ups),
        0 <= x < nodes.len(),
        0 <= k < ups.len(),
        ups[k].node_id == nodes[x].id,
    ensures
        updated_nodes(nodes, ups)[x].parent_id == ups[k].parent_id,
{
    lemma_update_index(ups, nodes[x].id);
}

proof fn lemma_after_titles(nodes: Seq<Node>, ups: Seq<NodeSiblingOrderUpdate>)
    requires
        ids_unique(nodes),
        titles_unique(nodes),
        update_ids_unique(ups),
        forall|j: int| 0 <= j < ups.len() ==> has_id(nodes, #[trigger] ups[j].node_id),
        !exists|p: Option<i64>, t: Seq<char>| duplicate_after_updates(nodes, ups, p, t),
    ensures
        titles_unique(updated_nodes(nodes, ups)),
{
    let after = updated_nodes(nodes, ups);
    assert forall|u: int, v: int| 0 <= u < v < after.len() implies !same_sibling_title(
        #[trigger] after[u],
        #[trigger] after[v],
    ) by {
        if same_sibling_title(after[u], after[v]) {
            let p = after[u].parent_id;
            assert(after[u].title == nodes[u].title);
            assert(after[v].title == nodes[v].title);
            if is_affected_parent(nodes, ups, p) {
                assert(duplicate_after_updates(nodes, ups, p, after[u].title@));
            } else {
                assert forall|y: int| 0 <= y < nodes.len() && after[y].parent_id == p implies !is_moved(
                    nodes,
                    ups,
                    y,
                ) by {
                    if is_moved(nodes, ups, y) {
                        let k = choose|k: int|
                            0 <= k < ups.len() && is_parent_update(nodes, ups, k) && ups[k].node_id
                                == nodes[y].id;
                        lemma_moved_parent(nodes, ups, y, k);
                        assert(ups[k].parent_id == p);
                    }
                }
                lemma_unmoved_parent(nodes, ups, u);
                lemma_unmoved_parent(nodes, ups, v);
                assert(same_sibling_title(nodes[u], nodes[v]));
            }
        }
    }
}

proof fn lemma_after_node_valid(nodes: Seq<Node>, ups: Seq<NodeSiblingOrderUpdate>)
    requires
        forall|i: int| 0 <= i < nodes.len() ==> node_error(#[trigger] nodes[i]) is None,
        update_ids_unique(ups),
        forall|k: int|
            0 <= k < ups.len() ==> {
                &&& has_id(nodes, #[trigger] ups[k].node_id)
                &&& ups[k].sort_order >= 0
                &&& !is_blank(ups[k].updated_at@)
                &&& ups[k].parent_id matches Some(p) ==> p > 0 && p != ups[k].node_id && has_id(nodes, p)
            },
    ensures
        forall|i: int|
            0 <= i < nodes.len() ==> node_error(#[trigger] updated_nodes(nodes, ups)[i]) is None,
        forall|i: int|
            0 <= i < nodes.len() ==> (#[trigger] updated_nodes(nodes, ups)[i].parent_id matches Some(p)
                ==> has_id(nodes, p) || nodes[i].parent_id == Some(p)),
{
    let after = updated_nodes(nodes, ups);
    assert forall|i: int| 0 <= i < nodes.len() implies node_error(#[trigger] after[i]) is None && (
    after[i].parent_id matches Some(p) ==> has_id(nodes, p) || nodes[i].parent_id == Some(p)) by {
        assert(node_error(nodes[i]) is None);
        lemma_update_index(ups, nodes[i].id);
        if let Some(k) = update_index(ups, nodes[i].id) {
            assert(ups[k].node_id == nodes[i].id);
        }
    }
}

/// Applying sibling order updates to a valid tree, when it is accepted, leaves a valid
/// tree.
pub proof fn lemma_sibling_updates_keep_tree_valid(nodes: Seq<Node>, ups: Seq<NodeSiblingOrderUpdate>)
    requires
        tree_valid(nodes),
        updates_error(nodes, ups, Set::<i64>::empty()) is None,
        update_result_ok(nodes, ups, Ok(())),
    ensures
        tree_valid(updated_nodes(nodes, ups)),
{
    let after = updated_nodes(nodes, ups);
    lemma_updates_accepted_facts(nodes, ups);
    lemma_after_ids(nodes, ups);
    lemma_after_node_valid(nodes, ups);
    assert(first_incoming_title_clash(nodes, ups, 0) is None);
    assert(!exists|p: Option<i64>, t: Seq<char>| duplicate_after_updates(nodes, ups, p, t));
    lemma_after_titles(nodes, ups);
    lemma_partial_root_count(nodes, ups, ups.len() as int);
    assert(ups.subrange(0, ups.len() as int) == ups);
    assert(first_path_failure(nodes, ups, 0) is None);
    lemma_first_path_failure_none(nodes, ups, 0);
    assert(parents_exist(after)) by {
        assert forall|i: int| 0 <= i < after.len() implies (#[trigger] after[i].parent_id matches Some(p)
            ==> has_id(after, p)) by {
            if let Some(p) = after[i].parent_id {
                assert(nodes[i].parent_id matches Some(q) ==> has_id(nodes, q));
                assert(has_id(nodes, p));
                let j = choose|j: int| 0 <= j < nodes.len() && nodes[j].id == p;
                assert(after[j].id == p);
            }
        }
    }
    assert forall|y: int|
        0 <= y < nodes.len() && is_moved(nodes, ups, y) implies #[trigger] projected_walk_result(
        nodes,
        ups,
        nodes[y].id,
    ) is None by {
        let k = choose|k: int|
            0 <= k < ups.len() && is_parent_update(nodes, ups, k) && ups[k].node_id == nodes[y].id;
        assert(projected_walk_result(nodes, ups, ups[k].node_id) is None);
    }
    assert forall|x: int| 0 <= x < after.len() implies #[trigger] reaches_root(after, x) by {
        assert(reaches_root(nodes, x));
        let k = choose|k: nat| #[trigger] nodes[ancestor(nodes, x, k)].parent_id is None;
        lemma_reaches_after_updates(nodes, ups, x, k);
    }
}

} // verus!
