//! Walking a document tree depth first: the children of each node in the order they
//! are listed, a stack of pending nodes, and each node id taken once.
use vstd::prelude::*;

use crate::domain::document_tree::Node;
use crate::domain::sibling_order::{arrange_siblings, child_indices, child_positions, sorted_children};

verus! {

/// Whether siblings are printed in sibling order or in the order given.
#[derive(Debug, Clone, Copy, PartialEq, Eq, Structural)]
pub enum SiblingOrder {
    Sorted,
    Input,
}

/// The children of `parent` in the order they are printed.
pub open spec fn printed_children(nodes: Seq<Node>, order: SiblingOrder, parent: Option<i64>) -> Seq<
    usize,
> {
    if order == SiblingOrder::Sorted {
        sorted_children(nodes, parent)
    } else {
        child_indices(nodes, parent, nodes.len())
    }
}

/// Children put on the stack of pending nodes: the last is taken first.
pub open spec fn pushed(children: Seq<usize>, depth: int) -> Seq<(usize, int)> {
    Seq::new(children.len(), |k: int| (children[children.len() - 1 - k], depth))
}

/// The nodes printed, with their depths, starting from a stack of pending nodes and a
/// set of ids already printed: the top is taken, skipped when its id was printed, else
/// printed, and its children pushed one level deeper.
pub open spec fn walk(
    nodes: Seq<Node>,
    order: SiblingOrder,
    stack: Seq<(usize, int)>,
    visited: Set<i64>,
    fuel: nat,
) -> Seq<(usize, int)>
    decreases fuel,
{
    if fuel == 0 || stack.len() == 0 {
        Seq::empty()
    } else {
        let top = stack.last();
        let rest = stack.drop_last();
        let id = nodes[top.0 as int].id;
        if visited.contains(id) {
            walk(nodes, order, rest, visited, (fuel - 1) as nat)
        } else {
            seq![top] + walk(
                nodes,
                order,
                rest + pushed(printed_children(nodes, order, Some(id)), top.1 + 1),
                visited.insert(id),
                (fuel - 1) as nat,
            )
        }
    }
}

/// The number of nodes whose parent has not been printed yet: each can still be pushed once.
pub open spec fn waiting(nodes: Seq<Node>, visited: Set<i64>, n: nat) -> nat
    decreases n,
{
    if n == 0 {
        0
    } else {
        waiting(nodes, visited, (n - 1) as nat) + (if nodes[n - 1].parent_id matches Some(p)
            && !visited.contains(p) {
            1nat
        } else {
            0nat
        })
    }
}

pub fn ids_contain(ids: &Vec<i64>, id: i64) -> (r: bool)
    ensures
        r == ids@.contains(id),
{
    let mut i: usize = 0;
    while i < ids.len()
        invariant
            0 <= i <= ids@.len(),
            forall|k: int| 0 <= k < i ==> ids@[k] != id,
        decreases ids@.len() - i,
    {
        if ids[i] == id {
            return true;
        }
        i = i + 1;
    }
    false
}

/// The printed children of a node.
pub fn children_to_print(nodes: &[Node], order: SiblingOrder, parent: Option<i64>) -> (r: Vec<usize>)
    ensures
        r@ == printed_children(nodes@, order, parent),
        r@.len() == child_indices(nodes@, parent, nodes@.len()).len(),
        forall|a: int| 0 <= a < r@.len() ==> #[trigger] r@[a] < nodes@.len(),
{
    let c = child_positions(nodes, parent);
    let count = nodes.len();
    proof {
        assert(nodes@.len() == count);
        crate::domain::sibling_order::lemma_child_indices_increasing(nodes@, parent, nodes@.len());
    }
    if order == SiblingOrder::Sorted {
        let s = arrange_siblings(nodes, parent, &c);
        proof {
            assert forall|a: int| 0 <= a < s@.len() implies #[trigger] s@[a] < nodes@.len() by {
                assert(s@.contains(s@[a]));
                assert(c@.contains(s@[a]));
            }
        }
        s
    } else {
        c
    }
}

/// Printing the children of a node releases exactly the nodes that waited for it.
pub proof fn lemma_waiting_visit(nodes: Seq<Node>, visited: Set<i64>, v: i64, n: nat)
    requires
        !visited.contains(v),
        n <= nodes.len(),
    ensures
        waiting(nodes, visited, n) == waiting(nodes, visited.insert(v), n) + child_indices(
            nodes,
            Some(v),
            n,
        ).len(),
    decreases n,
{
    if n > 0 {
        lemma_waiting_visit(nodes, visited, v, (n - 1) as nat);
    }
}

pub open spec fn stack_view(stack: Seq<(usize, usize)>) -> Seq<(usize, int)> {
    stack.map_values(|e: (usize, usize)| (e.0, e.1 as int))
}

/// Pushes the children so that the first comes off the stack first.
pub fn push_children(stack: &mut Vec<(usize, usize)>, children: &Vec<usize>, depth: usize)
    ensures
        stack_view(final(stack)@) == stack_view(old(stack)@) + pushed(children@, depth as int),
        forall|a: int| 0 <= a < old(stack)@.len() ==> #[trigger] final(stack)@[a] == old(stack)@[a],
        forall|a: int| old(stack)@.len() <= a < final(stack)@.len() ==> #[trigger] final(stack)@[a]
            == (children@[children@.len() - 1 - (a - old(stack)@.len())], depth),
{
    let ghost start = stack@;
    let mut j: usize = children.len();
    while j > 0
        invariant
            0 <= j <= children@.len(),
            stack@.len() == start.len() + (children@.len() - j),
            forall|a: int| 0 <= a < start.len() ==> #[trigger] stack@[a] == start[a],
            forall|a: int| start.len() <= a < stack@.len() ==> #[trigger] stack@[a] == (
                children@[children@.len() - 1 - (a - start.len())],
                depth,
            ),
        decreases j,
    {
        j = j - 1;
        stack.push((children[j], depth));
    }
    assert(stack_view(stack@) =~= stack_view(start) + pushed(children@, depth as int));
}


/// The nodes a walk visits from the given first stack, with their depths.
pub open spec fn visits_from(nodes: Seq<Node>, order: SiblingOrder, first: Seq<(usize, int)>) -> Seq<
    (usize, int),
> {
    walk(nodes, order, first, Set::empty(), first.len() + waiting(nodes, Set::empty(), nodes.len()))
}

} // verus!
