//! The order in which siblings are listed: by sort order, then by title, then by id.
use vstd::prelude::*;

use crate::domain::document_tree::Node;

verus! {

broadcast use vstd::utf8::char_is_scalar;

/// Text order: character by character, a proper prefix first; the order of `str`'s
/// `Ord`, since UTF-8 keeps the order of code points.
pub open spec fn text_less(a: Seq<char>, b: Seq<char>) -> bool
    decreases a.len(),
{
    if a.len() == 0 {
        b.len() > 0
    } else if b.len() == 0 {
        false
    } else if a[0] != b[0] {
        (a[0] as u32) < (b[0] as u32)
    } else {
        text_less(a.drop_first(), b.drop_first())
    }
}

/// The key a sibling is ordered by.
pub struct SiblingKey<'a> {
    pub sort_order: i64,
    pub title: &'a str,
    pub id: i64,
}

pub open spec fn key_view(key: SiblingKey) -> (i64, Seq<char>, i64) {
    (key.sort_order, key.title@, key.id)
}

pub open spec fn key_less(a: (i64, Seq<char>, i64), b: (i64, Seq<char>, i64)) -> bool {
    a.0 < b.0 || (a.0 == b.0 && (text_less(a.1, b.1) || (a.1 == b.1 && a.2 < b.2)))
}

proof fn lemma_char_order(a: char, b: char)
    ensures
        a != b ==> (a as u32) != (b as u32),
{
    vstd::utf8::char_u32_cast(a, a as u32);
    vstd::utf8::char_u32_cast(b, b as u32);
}

pub proof fn lemma_text_less_irreflexive(a: Seq<char>)
    ensures
        !text_less(a, a),
    decreases a.len(),
{
    if a.len() > 0 {
        lemma_text_less_irreflexive(a.drop_first());
    }
}

pub proof fn lemma_text_less_total(a: Seq<char>, b: Seq<char>)
    ensures
        a == b || text_less(a, b) || text_less(b, a),
        !(text_less(a, b) && text_less(b, a)),
    decreases a.len(),
{
    if a.len() > 0 && b.len() > 0 {
        lemma_char_order(a[0], b[0]);
        lemma_text_less_total(a.drop_first(), b.drop_first());
        if a[0] == b[0] && a.drop_first() == b.drop_first() {
            assert(a =~= seq![a[0]] + a.drop_first());
            assert(b =~= seq![b[0]] + b.drop_first());
        }
    } else if a.len() == 0 && b.len() == 0 {
        assert(a =~= b);
    }
}

pub proof fn lemma_text_less_transitive(a: Seq<char>, b: Seq<char>, c: Seq<char>)
    requires
        text_less(a, b),
        text_less(b, c),
    ensures
        text_less(a, c),
    decreases a.len(),
{
    if a.len() > 0 && b.len() > 0 && c.len() > 0 {
        if a[0] == b[0] && b[0] == c[0] {
            lemma_text_less_transitive(a.drop_first(), b.drop_first(), c.drop_first());
        }
    }
}

pub proof fn lemma_key_less_order(
    a: (i64, Seq<char>, i64),
    b: (i64, Seq<char>, i64),
    c: (i64, Seq<char>, i64),
)
    ensures
        !key_less(a, a),
        a == b || key_less(a, b) || key_less(b, a),
        !(key_less(a, b) && key_less(b, a)),
        key_less(a, b) && key_less(b, c) ==> key_less(a, c),
        key_less(a, b) && !key_less(c, b) ==> key_less(a, c),
{
    lemma_text_less_irreflexive(a.1);
    lemma_text_less_total(a.1, b.1);
    lemma_text_less_total(b.1, c.1);
    lemma_text_less_total(a.1, c.1);
    if text_less(a.1, b.1) && text_less(b.1, c.1) {
        lemma_text_less_transitive(a.1, b.1, c.1);
    }
    if a.0 == b.0 && a.1 == b.1 && a.2 == b.2 {
        assert(a == b);
    }
    if b.0 == c.0 && b.1 == c.1 && b.2 == c.2 {
        assert(b == c);
    }
}

/// Compares two texts in text order: negative, zero or positive.
pub fn compare_text(a: &str, b: &str) -> (r: i8)
    ensures
        r < 0 <==> text_less(a@, b@),
        r == 0 <==> a@ == b@,
        r > 0 <==> text_less(b@, a@),
{
    let x = crate::decimal::chars_of(a);
    let y = crate::decimal::chars_of(b);
    let mut i: usize = 0;
    while i < x.len() && i < y.len()
        invariant
            0 <= i <= x.len(),
            i <= y.len(),
            x@ == a@,
            y@ == b@,
            x@.take(i as int) == y@.take(i as int),
        decreases x.len() - i,
    {
        if x[i] != y[i] {
            let r: i8 = if (x[i] as u32) < (y[i] as u32) {
                -1
            } else {
                1
            };
            proof {
                lemma_text_less_prefix(x@, y@, i as int);
                lemma_char_order(x@[i as int], y@[i as int]);
                lemma_text_less_total(a@, b@);
                assert(x@ != y@);
            }
            return r;
        }
        assert(x@.take(i + 1) =~= x@.take(i as int).push(x@[i as int]));
        assert(y@.take(i + 1) =~= y@.take(i as int).push(y@[i as int]));
        i = i + 1;
    }
    proof {
        lemma_text_less_prefix(x@, y@, i as int);
        lemma_text_less_total(a@, b@);
        if x.len() == y.len() {
            assert(x@ =~= x@.take(i as int));
            assert(y@ =~= y@.take(i as int));
        }
    }
    if x.len() < y.len() {
        -1
    } else if x.len() == y.len() {
        0
    } else {
        1
    }
}

/// Text order after a common prefix is decided by what follows it.
proof fn lemma_text_less_prefix(a: Seq<char>, b: Seq<char>, i: int)
    requires
        0 <= i <= a.len(),
        i <= b.len(),
        a.take(i) == b.take(i),
    ensures
        text_less(a, b) == text_less(a.skip(i), b.skip(i)),
        text_less(b, a) == text_less(b.skip(i), a.skip(i)),
    decreases i,
{
    if i > 0 {
        assert(a[0] == a.take(i)[0]);
        assert(b[0] == b.take(i)[0]);
        assert(a.drop_first().take(i - 1) =~= a.take(i).drop_first());
        assert(b.drop_first().take(i - 1) =~= b.take(i).drop_first());
        lemma_text_less_prefix(a.drop_first(), b.drop_first(), i - 1);
        assert(a.drop_first().skip(i - 1) =~= a.skip(i));
        assert(b.drop_first().skip(i - 1) =~= b.skip(i));
    } else {
        assert(a.skip(0) =~= a);
        assert(b.skip(0) =~= b);
    }
}

/// Whether the first key comes strictly before the second.
pub fn key_precedes(a: &SiblingKey, b: &SiblingKey) -> (r: bool)
    ensures
        r == key_less(key_view(*a), key_view(*b)),
{
    if a.sort_order != b.sort_order {
        return a.sort_order < b.sort_order;
    }
    let c = compare_text(a.title, b.title);
    if c != 0 {
        return c < 0;
    }
    a.id < b.id
}

/// Positions `0..n`, each once.
pub open spec fn is_permutation(p: Seq<usize>, n: int) -> bool {
    &&& p.len() == n
    &&& forall|i: int| 0 <= i < n ==> #[trigger] p[i] < n
    &&& forall|i: int, j: int| 0 <= i < j < n ==> p[i] != p[j]
    &&& forall|k: int| 0 <= k < n ==> #[trigger] lists(p, k)
}

/// Some entry of `p` is `k`.
pub open spec fn lists(p: Seq<usize>, k: int) -> bool {
    exists|i: int| 0 <= i < p.len() && p[i] == k
}

/// `p` lists the keys in key order, equal keys in the order they were given: what a
/// stable sort of the keys gives.
pub open spec fn stably_sorted(keys: Seq<(i64, Seq<char>, i64)>, p: Seq<usize>) -> bool {
    forall|i: int, j: int|
        #![trigger p[i], p[j]]
        0 <= i < j < p.len() ==> !key_less(keys[p[j] as int], keys[p[i] as int]) && (keys[p[i] as int]
            == keys[p[j] as int] ==> p[i] < p[j])
}

pub open spec fn keys_view(keys: Seq<SiblingKey>) -> Seq<(i64, Seq<char>, i64)> {
    keys.map_values(|k: SiblingKey| key_view(k))
}


/// Inserting a key after every key it does not precede, and before the first it
/// precedes, keeps a stable sort.
proof fn lemma_insert_keeps_sorted(
    kv: Seq<(i64, Seq<char>, i64)>,
    before: Seq<usize>,
    pos: int,
    idx: int,
)
    requires
        0 <= pos <= before.len(),
        0 <= idx < kv.len(),
        idx <= usize::MAX,
        stably_sorted(kv, before),
        forall|i: int| 0 <= i < before.len() ==> #[trigger] before[i] < idx,
        forall|t: int| 0 <= t < pos ==> !key_less(kv[idx], #[trigger] kv[before[t] as int]),
        pos < before.len() ==> key_less(kv[idx], kv[before[pos] as int]),
    ensures
        stably_sorted(kv, before.take(pos).push(idx as usize) + before.skip(pos)),
{
    let after = before.take(pos).push(idx as usize) + before.skip(pos);
    assert forall|i: int, j: int| 0 <= i < j < after.len() implies !key_less(
        kv[after[j] as int],
        kv[after[i] as int],
    ) && (kv[after[i] as int] == kv[after[j] as int] ==> after[i] < after[j]) by {
        lemma_insert_pair(kv, before, pos, idx, i, j);
    }
}

proof fn lemma_sorted_pair(kv: Seq<(i64, Seq<char>, i64)>, p: Seq<usize>, a: int, b: int)
    requires
        stably_sorted(kv, p),
        0 <= a < b < p.len(),
    ensures
        !key_less(kv[p[b] as int], kv[p[a] as int]),
        kv[p[a] as int] == kv[p[b] as int] ==> p[a] < p[b],
{
}

proof fn lemma_insert_pair(
    kv: Seq<(i64, Seq<char>, i64)>,
    before: Seq<usize>,
    pos: int,
    idx: int,
    i: int,
    j: int,
)
    requires
        0 <= pos <= before.len(),
        0 <= idx < kv.len(),
        idx <= usize::MAX,
        stably_sorted(kv, before),
        forall|i: int| 0 <= i < before.len() ==> #[trigger] before[i] < idx,
        forall|t: int| 0 <= t < pos ==> !key_less(kv[idx], #[trigger] kv[before[t] as int]),
        pos < before.len() ==> key_less(kv[idx], kv[before[pos] as int]),
        0 <= i < j < before.len() + 1,
    ensures
        ({
            let after = before.take(pos).push(idx as usize) + before.skip(pos);
            !key_less(kv[after[j] as int], kv[after[i] as int]) && (kv[after[i] as int]
                == kv[after[j] as int] ==> after[i] < after[j])
        }),
{
    let after = before.take(pos).push(idx as usize) + before.skip(pos);
    let k = kv[idx];
    if j < pos {
        assert(after[i] == before[i] && after[j] == before[j]);
        lemma_sorted_pair(kv, before, i, j);
    } else if i < pos && j == pos {
        assert(after[i] == before[i]);
        assert(after[j] == idx);
        assert(!key_less(k, kv[before[i] as int]));
    } else if i < pos {
        assert(after[i] == before[i] && after[j] == before[j - 1]);
        lemma_sorted_pair(kv, before, i, j - 1);
    } else if i == pos {
        assert(after[i] == idx);
        assert(after[j] == before[j - 1]);
        let first = kv[before[pos] as int];
        let other = kv[before[j - 1] as int];
        lemma_key_less_order(k, first, other);
        lemma_key_less_order(other, k, first);
        lemma_key_less_order(k, k, k);
        if j - 1 > pos {
            lemma_sorted_pair(kv, before, pos, j - 1);
        }
    } else {
        assert(after[i] == before[i - 1] && after[j] == before[j - 1]);
        lemma_sorted_pair(kv, before, i - 1, j - 1);
    }
}

/// The positions of the keys in sibling order, as a stable sort lists them.
pub fn sibling_order_permutation(keys: &[SiblingKey]) -> (r: Vec<usize>)
    ensures
        is_permutation(r@, keys@.len() as int),
        stably_sorted(keys_view(keys@), r@),
{
    let ghost kv = keys_view(keys@);
    let mut out: Vec<usize> = Vec::new();
    let mut idx: usize = 0;
    while idx < keys.len()
        invariant
            0 <= idx <= keys@.len(),
            kv == keys_view(keys@),
            kv.len() == keys@.len(),
            out@.len() == idx,
            forall|i: int| 0 <= i < idx ==> #[trigger] out@[i] < idx,
            forall|i: int, j: int| 0 <= i < j < idx ==> out@[i] != out@[j],
            forall|k: int| 0 <= k < idx ==> #[trigger] lists(out@, k),
            stably_sorted(kv, out@),
        decreases keys@.len() - idx,
    {
        let mut pos: usize = 0;
        while pos < out.len() && !key_precedes(&keys[idx], &keys[out[pos]])
            invariant
                0 <= pos <= out@.len(),
                out@.len() == idx,
                idx < keys@.len(),
                kv == keys_view(keys@),
                forall|i: int| 0 <= i < idx ==> #[trigger] out@[i] < idx,
                forall|t: int| 0 <= t < pos ==> !key_less(kv[idx as int], #[trigger] kv[out@[t] as int]),
            decreases out@.len() - pos,
        {
            pos = pos + 1;
        }
        let ghost before = out@;
        proof {
            assert(kv[idx as int] == key_view(keys@[idx as int]));
            if pos < before.len() {
                assert(kv[before[pos as int] as int] == key_view(keys@[before[pos as int] as int]));
                assert(key_less(kv[idx as int], kv[before[pos as int] as int]));
            }
        }
        out.insert(pos, idx);
        proof {
            let after = out@;
            assert(after =~= before.take(pos as int).push(idx) + before.skip(pos as int));
            assert forall|i: int| 0 <= i <= idx implies #[trigger] after[i] < idx + 1 by {
                if i < pos {
                    assert(after[i] == before[i]);
                } else if i > pos {
                    assert(after[i] == before[i - 1]);
                }
            }
            assert forall|k: int| 0 <= k < idx + 1 implies #[trigger] lists(after, k) by {
                if k == idx {
                    assert(after[pos as int] == k);
                } else {
                    assert(lists(before, k));
                    let i = choose|i: int| 0 <= i < before.len() && before[i] == k;
                    if i < pos {
                        assert(after[i] == k);
                    } else {
                        assert(after[i + 1] == k);
                    }
                }
            }
            assert forall|i: int, j: int| 0 <= i < j < idx + 1 implies after[i] != after[j] by {
                if i < pos && j < pos {
                    assert(after[i] == before[i] && after[j] == before[j]);
                } else if i < pos && j == pos {
                    assert(after[i] == before[i]);
                } else if i < pos && j > pos {
                    assert(after[i] == before[i] && after[j] == before[j - 1]);
                } else if i == pos {
                    assert(after[j] == before[j - 1]);
                } else {
                    assert(after[i] == before[i - 1] && after[j] == before[j - 1]);
                }
            }
            lemma_insert_keeps_sorted(kv, before, pos as int, idx as int);
        }
        idx = idx + 1;
    }
    out
}

/// The key a node is ordered by among its siblings.
pub open spec fn node_key(node: Node) -> (i64, Seq<char>, i64) {
    (node.sort_order, node.title@, node.id)
}

/// Node `i` comes before node `j`: by key, and by position when the keys are equal.
pub open spec fn index_before(nodes: Seq<Node>, i: usize, j: usize) -> bool {
    key_less(node_key(nodes[i as int]), node_key(nodes[j as int])) || (node_key(nodes[i as int])
        == node_key(nodes[j as int]) && i < j)
}

pub open spec fn in_sibling_order(nodes: Seq<Node>, s: Seq<usize>) -> bool {
    forall|a: int, b: int| 0 <= a < b < s.len() ==> index_before(nodes, #[trigger] s[a], #[trigger] s[b])
}

/// `s` and `c` hold the same positions, each once.
pub open spec fn same_members(s: Seq<usize>, c: Seq<usize>) -> bool {
    &&& s.len() == c.len()
    &&& s.no_duplicates()
    &&& c.no_duplicates()
    &&& forall|x: usize| s.contains(x) <==> c.contains(x)
}

/// `s` lists the nodes at the positions of `c` in sibling order.
pub open spec fn sibling_arrangement(nodes: Seq<Node>, c: Seq<usize>, s: Seq<usize>) -> bool {
    same_members(s, c) && in_sibling_order(nodes, s)
}

proof fn lemma_index_before_order(nodes: Seq<Node>, i: usize, j: usize)
    ensures
        !index_before(nodes, i, i),
        i != j ==> index_before(nodes, i, j) || index_before(nodes, j, i),
        !(index_before(nodes, i, j) && index_before(nodes, j, i)),
{
    lemma_key_less_order(node_key(nodes[i as int]), node_key(nodes[j as int]), node_key(nodes[i as int]));
}

/// There is only one way to list the same positions in sibling order.
pub proof fn lemma_sibling_arrangement_unique(nodes: Seq<Node>, s1: Seq<usize>, s2: Seq<usize>)
    requires
        same_members(s1, s2),
        in_sibling_order(nodes, s1),
        in_sibling_order(nodes, s2),
    ensures
        s1 == s2,
    decreases s1.len(),
{
    if s1.len() > 0 {
        let x = s1[0];
        assert(s1.contains(x));
        assert(s2.contains(x));
        let m = choose|m: int| 0 <= m < s2.len() && s2[m] == x;
        if m > 0 {
            let y = s2[0];
            assert(s2.contains(y));
            assert(s1.contains(y));
            let k = choose|k: int| 0 <= k < s1.len() && s1[k] == y;
            assert(index_before(nodes, s2[0], s2[m]));
            if k == 0 {
                assert(s2[0] == s2[m]);
            } else {
                assert(index_before(nodes, s1[0], s1[k]));
            }
            lemma_index_before_order(nodes, x, y);
        }
        assert(s1[0] == s2[0]);
        let t1 = s1.drop_first();
        let t2 = s2.drop_first();
        assert forall|z: usize| t1.contains(z) <==> t2.contains(z) by {
            if t1.contains(z) {
                let a = choose|a: int| 0 <= a < t1.len() && t1[a] == z;
                assert(s1[a + 1] == z);
                assert(z != s1[0]);
                assert(s1.contains(z));
                assert(s2.contains(z));
                let b = choose|b: int| 0 <= b < s2.len() && s2[b] == z;
                assert(b != 0);
                assert(t2[b - 1] == z);
            }
            if t2.contains(z) {
                let a = choose|a: int| 0 <= a < t2.len() && t2[a] == z;
                assert(s2[a + 1] == z);
                assert(z != s2[0]);
                assert(s2.contains(z));
                assert(s1.contains(z));
                let b = choose|b: int| 0 <= b < s1.len() && s1[b] == z;
                assert(b != 0);
                assert(t1[b - 1] == z);
            }
        }
        assert forall|a: int, b: int| 0 <= a < b < t1.len() implies index_before(nodes, #[trigger] t1[a], #[trigger] t1[b]) by {
            assert(t1[a] == s1[a + 1] && t1[b] == s1[b + 1]);
        }
        assert forall|a: int, b: int| 0 <= a < b < t2.len() implies index_before(nodes, #[trigger] t2[a], #[trigger] t2[b]) by {
            assert(t2[a] == s2[a + 1] && t2[b] == s2[b + 1]);
        }
        lemma_sibling_arrangement_unique(nodes, t1, t2);
        assert(s1 =~= seq![s1[0]] + t1);
        assert(s2 =~= seq![s2[0]] + t2);
    } else {
        assert(s1 =~= s2);
    }
}

/// The positions of the nodes whose parent is `parent`, among the first `n`, in order.
pub open spec fn child_indices(nodes: Seq<Node>, parent: Option<i64>, n: nat) -> Seq<usize>
    decreases n,
{
    if n == 0 {
        Seq::empty()
    } else {
        let rest = child_indices(nodes, parent, (n - 1) as nat);
        if nodes[n - 1].parent_id == parent {
            rest.push((n - 1) as usize)
        } else {
            rest
        }
    }
}

/// The nodes at the positions of `c`, in sibling order.
pub open spec fn arranged(nodes: Seq<Node>, c: Seq<usize>) -> Seq<usize> {
    choose|s: Seq<usize>| sibling_arrangement(nodes, c, s)
}

/// The children of `parent`, in sibling order.
pub open spec fn sorted_children(nodes: Seq<Node>, parent: Option<i64>) -> Seq<usize> {
    arranged(nodes, child_indices(nodes, parent, nodes.len()))
}

/// Positions in increasing order, all of nodes.
pub open spec fn increasing_positions(nodes: Seq<Node>, c: Seq<usize>) -> bool {
    &&& forall|a: int, b: int| 0 <= a < b < c.len() ==> c[a] < c[b]
    &&& forall|a: int| 0 <= a < c.len() ==> #[trigger] c[a] < nodes.len()
}

/// The children's positions increase, and each is a child of `parent`.
pub proof fn lemma_child_indices_increasing(nodes: Seq<Node>, parent: Option<i64>, n: nat)
    requires
        n <= nodes.len(),
        nodes.len() <= usize::MAX,
    ensures
        forall|a: int, b: int|
            0 <= a < b < child_indices(nodes, parent, n).len() ==> child_indices(nodes, parent, n)[a]
                < child_indices(nodes, parent, n)[b],
        forall|a: int|
            0 <= a < child_indices(nodes, parent, n).len() ==> #[trigger] child_indices(nodes, parent, n)[a] < n
                && nodes[child_indices(nodes, parent, n)[a] as int].parent_id == parent,
        forall|i: usize| i < n && nodes[i as int].parent_id == parent ==> #[trigger] child_indices(nodes, parent, n).contains(i),
    decreases n,
{
    if n > 0 {
        lemma_child_indices_increasing(nodes, parent, (n - 1) as nat);
        let rest = child_indices(nodes, parent, (n - 1) as nat);
        assert forall|i: usize| i < n && nodes[i as int].parent_id == parent implies #[trigger] child_indices(nodes, parent, n).contains(i) by {
            if i < n - 1 {
                assert(rest.contains(i));
                let k = choose|k: int| 0 <= k < rest.len() && rest[k] == i;
                assert(child_indices(nodes, parent, n)[k] == i);
            } else {
                assert(child_indices(nodes, parent, n)[rest.len() as int] == i);
            }
        }
    }
}

/// The positions of the nodes whose parent is `parent`, in the order given.
pub fn child_positions(nodes: &[Node], parent: Option<i64>) -> (r: Vec<usize>)
    ensures
        r@ == child_indices(nodes@, parent, nodes@.len()),
{
    let mut out: Vec<usize> = Vec::new();
    let mut i: usize = 0;
    while i < nodes.len()
        invariant
            0 <= i <= nodes@.len(),
            out@ == child_indices(nodes@, parent, i as nat),
        decreases nodes@.len() - i,
    {
        if nodes[i].parent_id == parent {
            out.push(i);
        }
        i = i + 1;
    }
    out
}

/// Lists the positions of `c`, all children of `parent`, in sibling order.
pub fn arrange_siblings(nodes: &[Node], parent: Option<i64>, c: &Vec<usize>) -> (r: Vec<usize>)
    requires
        c@ == child_indices(nodes@, parent, nodes@.len()),
    ensures
        sibling_arrangement(nodes@, c@, r@),
        r@ == sorted_children(nodes@, parent),
{
    let count = nodes.len();
    proof {
        assert(nodes@.len() == count);
        lemma_child_indices_increasing(nodes@, parent, nodes@.len());
    }
    arrange_positions(nodes, c)
}

/// Lists the nodes at the positions of `c` in sibling order.
pub fn arrange_positions(nodes: &[Node], c: &Vec<usize>) -> (r: Vec<usize>)
    requires
        increasing_positions(nodes@, c@),
    ensures
        sibling_arrangement(nodes@, c@, r@),
        r@ == arranged(nodes@, c@),
{
    let mut keys: Vec<SiblingKey> = Vec::new();
    let mut i: usize = 0;
    while i < c.len()
        invariant
            0 <= i <= c@.len(),
            increasing_positions(nodes@, c@),
            keys@.len() == i,
            forall|a: int| 0 <= a < i ==> key_view(#[trigger] keys@[a]) == node_key(nodes@[c@[a] as int]),
        decreases c@.len() - i,
    {
        let node = &nodes[c[i]];
        keys.push(SiblingKey { sort_order: node.sort_order, title: node.title.as_str(), id: node.id });
        i = i + 1;
    }
    let perm = sibling_order_permutation(keys.as_slice());
    let ghost kv = keys_view(keys@);
    let mut out: Vec<usize> = Vec::new();
    let mut k: usize = 0;
    while k < perm.len()
        invariant
            0 <= k <= perm@.len(),
            perm@.len() == c@.len(),
            is_permutation(perm@, c@.len() as int),
            out@.len() == k,
            forall|a: int| 0 <= a < k ==> #[trigger] out@[a] == c@[perm@[a] as int],
        decreases perm@.len() - k,
    {
        out.push(c[perm[k]]);
        k = k + 1;
    }
    proof {
        let s = out@;
        let cs = c@;
        assert forall|a: int, b: int| 0 <= a < b < cs.len() implies cs[a] < cs[b] by {}
        assert forall|a: int, b: int| 0 <= a < b < s.len() implies index_before(nodes@, #[trigger] s[a], #[trigger] s[b]) by {
            let pa = perm@[a] as int;
            let pb = perm@[b] as int;
            assert(kv[pa] == key_view(keys@[pa]));
            assert(kv[pb] == key_view(keys@[pb]));
            lemma_key_less_order(kv[pa], kv[pb], kv[pa]);
            if kv[pa] == kv[pb] {
                assert(pa < pb);
                assert(cs[pa] < cs[pb]);
            }
        }
        assert forall|x: usize| s.contains(x) <==> cs.contains(x) by {
            if s.contains(x) {
                let a = choose|a: int| 0 <= a < s.len() && s[a] == x;
                assert(cs[perm@[a] as int] == x);
            }
            if cs.contains(x) {
                let m = choose|m: int| 0 <= m < cs.len() && cs[m] == x;
                assert(lists(perm@, m));
                let a = choose|a: int| 0 <= a < perm@.len() && perm@[a] == m;
                assert(s[a] == x);
            }
        }
        assert forall|a: int, b: int| 0 <= a < b < s.len() implies s[a] != s[b] by {
            assert(perm@[a] != perm@[b]);
            if perm@[a] < perm@[b] {
                assert(cs[perm@[a] as int] < cs[perm@[b] as int]);
            } else {
                assert(cs[perm@[b] as int] < cs[perm@[a] as int]);
            }
        }
        assert forall|a: int, b: int| 0 <= a < b < cs.len() implies cs[a] != cs[b] by {}
        assert(sibling_arrangement(nodes@, cs, s));
        let chosen = arranged(nodes@, cs);
        assert(sibling_arrangement(nodes@, cs, chosen));
        assert(same_members(s, chosen));
        lemma_sibling_arrangement_unique(nodes@, s, chosen);
    }
    out
}

} // verus!
