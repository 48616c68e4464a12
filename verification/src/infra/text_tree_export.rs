//! Exporting the document tree as text files: one file per document, named by its id
//! and title, in folders that follow the tree.
use vstd::prelude::*;

use crate::decimal::{chars_of, decimal, format_i64};
use crate::domain::document_tree::{ids_unique, Node};
use crate::domain::sibling_order::sorted_children;
use crate::domain::tree_walk::{
    children_to_print, ids_contain, lemma_waiting_visit, printed_children, push_children, pushed,
    stack_view, visits_from, waiting, walk, SiblingOrder,
};
use crate::domain::ui_settings::TextEncoding;
use crate::error::AppError;
use crate::text::{is_blank, is_blank_str, push_char, push_str, to_owned};

verus! {

/// The name used for a title with nothing usable in it.
pub const DEFAULT_EXPORT_TITLE: &'static str = "Untitled";

/// The most characters of a title that go into a file name.
pub const MAX_EXPORT_TITLE_CHARS: usize = 96;

/// A control character: general category Cc.
pub open spec fn is_control_char(c: char) -> bool {
    (c as u32) <= 0x1f || (0x7f <= (c as u32) && (c as u32) <= 0x9f)
}

/// A character that cannot stand in a file name on every platform.
pub open spec fn invalid_path_char(c: char) -> bool {
    is_control_char(c) || c == '<' || c == '>' || c == ':' || c == '"' || c == '/' || c == '\\'
        || c == '|' || c == '?' || c == '*'
}

/// The first characters of a title with unusable ones replaced by `_`.
pub open spec fn replaced_title(title: Seq<char>) -> Seq<char> {
    let n = if title.len() < MAX_EXPORT_TITLE_CHARS {
        title.len() as int
    } else {
        MAX_EXPORT_TITLE_CHARS as int
    };
    title.take(n).map_values(|c: char| if invalid_path_char(c) { '_' } else { c })
}

/// The text without trailing spaces and dots, which Windows drops from names.
pub open spec fn without_trailing_dots(s: Seq<char>) -> Seq<char>
    decreases s.len(),
{
    if s.len() > 0 && (s.last() == ' ' || s.last() == '.') {
        without_trailing_dots(s.drop_last())
    } else {
        s
    }
}

/// The title as it appears in file and folder names.
pub open spec fn export_title(title: Seq<char>) -> Seq<char> {
    let safe = without_trailing_dots(replaced_title(title));
    if is_blank(safe) {
        DEFAULT_EXPORT_TITLE@
    } else {
        safe
    }
}

/// The name of a node's file (without extension) and folder.
pub open spec fn export_component(node: Node) -> Seq<char> {
    decimal(node.id as int) + " - "@ + export_title(node.title@)
}

pub fn is_invalid_path_component_char(c: char) -> (r: bool)
    ensures
        r == invalid_path_char(c),
{
    let v = c as u32;
    v <= 0x1f || (0x7f <= v && v <= 0x9f) || c == '<' || c == '>' || c == ':' || c == '"' || c
        == '/' || c == '\\' || c == '|' || c == '?' || c == '*'
}

/// The title as it appears in file and folder names: at most the first characters,
/// unusable ones replaced, without trailing spaces and dots, and a default when
/// nothing is left.
pub fn sanitize_export_title(title: &str) -> (r: String)
    ensures
        r@ == export_title(title@),
{
    let chars = chars_of(title);
    let n: usize = if chars.len() < MAX_EXPORT_TITLE_CHARS {
        chars.len()
    } else {
        MAX_EXPORT_TITLE_CHARS
    };
    let mut safe: Vec<char> = Vec::new();
    let mut i: usize = 0;
    while i < n
        invariant
            0 <= i <= n,
            n <= chars@.len(),
            chars@ == title@,
            n == (if title@.len() < MAX_EXPORT_TITLE_CHARS { title@.len() as int } else { MAX_EXPORT_TITLE_CHARS as int }),
            safe@ == title@.take(i as int).map_values(|c: char| if invalid_path_char(c) { '_' } else { c }),
        decreases n - i,
    {
        let c = chars[i];
        if is_invalid_path_component_char(c) {
            safe.push('_');
        } else {
            safe.push(c);
        }
        assert(title@.take(i + 1).map_values(|c: char| if invalid_path_char(c) { '_' } else { c })
            =~= title@.take(i as int).map_values(|c: char| if invalid_path_char(c) { '_' } else { c }).push(
            if invalid_path_char(c) { '_' } else { c },
        ));
        i = i + 1;
    }
    assert(safe@ == replaced_title(title@));
    assert(safe@.take(safe@.len() as int) =~= safe@);
    let mut end: usize = safe.len();
    while end > 0 && (safe[end - 1] == ' ' || safe[end - 1] == '.')
        invariant
            0 <= end <= safe@.len(),
            without_trailing_dots(safe@.take(end as int)) == without_trailing_dots(safe@),
        decreases end,
    {
        assert(safe@.take(end as int).drop_last() =~= safe@.take(end - 1));
        end = end - 1;
    }
    assert(without_trailing_dots(safe@.take(end as int)) == safe@.take(end as int));
    let mut out = String::new();
    let mut k: usize = 0;
    while k < end
        invariant
            0 <= k <= end,
            end <= safe@.len(),
            out@ == safe@.take(k as int),
        decreases end - k,
    {
        push_char(&mut out, safe[k]);
        assert(safe@.take(k + 1) =~= safe@.take(k as int).push(safe@[k as int]));
        k = k + 1;
    }
    if is_blank_str(out.as_str()) {
        to_owned(DEFAULT_EXPORT_TITLE)
    } else {
        out
    }
}

/// The file and folder name of a node: its id, a dash and its title.
pub fn export_path_component(node: &Node) -> (r: String)
    ensures
        r@ == export_component(*node),
{
    let mut out = format_i64(node.id);
    push_str(&mut out, " - ");
    let title = sanitize_export_title(node.title.as_str());
    push_str(&mut out, title.as_str());
    out
}

/// Encodings other than UTF-8 may refuse a text, so every document is encoded before
/// any folder is made.
pub fn text_encoding_needs_prevalidation(encoding: TextEncoding) -> (r: bool)
    ensures
        r == (encoding != TextEncoding::Utf8),
{
    encoding != TextEncoding::Utf8
}

/// The outcome of an export: the first error of the writing, else that of finishing it.
pub fn finish_text_tree_export_write(
    result: Result<(), AppError>,
    finish_result: Result<(), AppError>,
) -> (r: Result<(), AppError>)
    ensures
        finish_result is Err ==> r == finish_result,
        finish_result is Ok ==> r == result,
{
    match finish_result {
        Err(error) => Err(error),
        Ok(()) => result,
    }
}

/// One planned file: the node, the folders it lies in below the destination, and the
/// file name.
pub struct PlannedTextExport {
    pub node_index: usize,
    pub directory: Vec<String>,
    pub file_name: String,
}

/// The documents that are exported, in order, with their depths: the tree from its
/// roots, depth first, siblings in sibling order.
pub open spec fn export_visits(nodes: Seq<Node>) -> Seq<(usize, int)> {
    visits_from(nodes, SiblingOrder::Sorted, pushed(sorted_children(nodes, None), 0))
}

/// The last visit before `k` at depth `level`; negative when there is none.
pub open spec fn last_at_depth(visits: Seq<(usize, int)>, k: int, level: int) -> int
    decreases k,
{
    if k <= 0 {
        -1
    } else if visits[k - 1].1 == level {
        k - 1
    } else {
        last_at_depth(visits, k - 1, level)
    }
}

/// The folders of visit `k`: the names of the nodes it lies below, the nearest last.
pub open spec fn export_directory(nodes: Seq<Node>, visits: Seq<(usize, int)>, k: int) -> Seq<
    Seq<char>,
> {
    Seq::new(
        visits[k].1 as nat,
        |level: int| export_component(nodes[visits[last_at_depth(visits, k, level)].0 as int]),
    )
}

/// Distinct positions below `n` number at most `n`.
proof fn lemma_distinct_positions(s: Seq<int>, n: int)
    requires
        0 <= n,
        s.no_duplicates(),
        forall|a: int| 0 <= a < s.len() ==> 0 <= #[trigger] s[a] < n,
    ensures
        s.len() <= n,
{
    s.unique_seq_to_set();
    vstd::set_lib::lemma_int_range(0, n);
    assert(s.to_set().subset_of(vstd::set_lib::set_int_range(0, n)));
    vstd::set_lib::lemma_len_subset(s.to_set(), vstd::set_lib::set_int_range(0, n));
}

proof fn lemma_last_prefix(a: Seq<(usize, int)>, b: Seq<(usize, int)>, k: int, level: int)
    requires
        0 <= k <= a.len(),
        k <= b.len(),
        a.take(k) == b.take(k),
    ensures
        last_at_depth(a, k, level) == last_at_depth(b, k, level),
    decreases k,
{
    if k > 0 {
        assert(a[k - 1] == a.take(k)[k - 1]);
        assert(b[k - 1] == b.take(k)[k - 1]);
        assert(a.take(k - 1) =~= a.take(k).take(k - 1));
        assert(b.take(k - 1) =~= b.take(k).take(k - 1));
        lemma_last_prefix(a, b, k - 1, level);
    }
}

proof fn lemma_last_bounds(visits: Seq<(usize, int)>, k: int, level: int)
    requires
        0 <= k <= visits.len(),
    ensures
        last_at_depth(visits, k, level) < k,
        last_at_depth(visits, k, level) >= 0 ==> visits[last_at_depth(visits, k, level)].1 == level,
    decreases k,
{
    if k > 0 {
        lemma_last_bounds(visits, k - 1, level);
    }
}

/// The files of an export of the tree, in the order they are written.
pub fn plan_document_tree_text_exports(nodes: &[Node]) -> (r: Vec<PlannedTextExport>)
    requires
        ids_unique(nodes@),
    ensures
        r@.len() == export_visits(nodes@).len(),
        forall|k: int|
            0 <= k < r@.len() ==> {
                let visits = export_visits(nodes@);
                &&& (#[trigger] r@[k]).node_index == visits[k].0
                &&& r@[k].node_index < nodes@.len()
                &&& r@[k].file_name@ == export_component(nodes@[visits[k].0 as int]) + ".txt"@
                &&& r@[k].directory@.map_values(|s: String| s@) == export_directory(nodes@, visits, k)
            },
{
    let roots = children_to_print(nodes, SiblingOrder::Sorted, None);
    let mut stack: Vec<(usize, usize)> = Vec::new();
    push_children(&mut stack, &roots, 0);
    let ghost first = pushed(sorted_children(nodes@, None), 0);
    let ghost mut fuel: nat = first.len() + waiting(nodes@, Set::empty(), nodes@.len());
    let ghost mut visited_set: Set<i64> = Set::empty();
    let ghost mut produced: Seq<(usize, int)> = Seq::empty();
    let ghost mut path_src: Seq<int> = Seq::empty();
    let mut visited: Vec<i64> = Vec::new();
    let mut path: Vec<String> = Vec::new();
    let mut plan: Vec<PlannedTextExport> = Vec::new();
    assert(stack_view(stack@) == first);
    while stack.len() > 0
        invariant
            export_visits(nodes@) == produced + walk(
                nodes@,
                SiblingOrder::Sorted,
                stack_view(stack@),
                visited_set,
                fuel,
            ),
            fuel >= stack@.len() + waiting(nodes@, visited_set, nodes@.len()),
            forall|a: int| 0 <= a < stack@.len() ==> #[trigger] stack@[a].0 < nodes@.len(),
            forall|a: int| 0 <= a < stack@.len() ==> #[trigger] stack@[a].1 <= path@.len(),
            forall|a: int, b: int| 0 <= a < b < stack@.len() ==> stack@[a].1 <= stack@[b].1,
            visited@.to_set() == visited_set,
            path_src.len() == path@.len(),
            forall|l: int| 0 <= l < path@.len() ==> #[trigger] path_src[l] == last_at_depth(produced, produced.len() as int, l),
            forall|l: int| 0 <= l < path@.len() ==> 0 <= #[trigger] path_src[l] < produced.len(),
            forall|l: int| 0 <= l < path@.len() ==> (#[trigger] path@[l])@ == export_component(nodes@[produced[path_src[l]].0 as int]),
            plan@.len() == produced.len(),
            forall|k: int| 0 <= k < produced.len() ==> (#[trigger] produced[k]).0 < nodes@.len() && 0 <= produced[k].1,
            visited@ == produced.map_values(|p: (usize, int)| nodes@[p.0 as int].id),
            visited@.no_duplicates(),
            path@.len() <= produced.len(),
            ids_unique(nodes@),
            forall|j: int, lv: int| 0 <= j < produced.len() && 0 <= lv < produced[j].1 ==> #[trigger] last_at_depth(produced, j, lv) >= 0,
            forall|k: int|
                0 <= k < plan@.len() ==> {
                    &&& (#[trigger] plan@[k]).node_index == produced[k].0
                    &&& plan@[k].file_name@ == export_component(nodes@[produced[k].0 as int]) + ".txt"@
                    &&& plan@[k].directory@.map_values(|s: String| s@) == export_directory(nodes@, produced, k)
                },
        decreases stack@.len() + waiting(nodes@, visited_set, nodes@.len()),
    {
        let ghost sv = stack_view(stack@);
        let (i, depth) = stack.pop().unwrap();
        let ghost rest = stack_view(stack@);
        assert(sv.last() == (i, depth as int));
        assert(sv.drop_last() =~= rest);
        assert(fuel > 0);
        let id = nodes[i].id;
        if ids_contain(&visited, id) {
            proof {
                assert(visited@.to_set().contains(id));
                assert(walk(nodes@, SiblingOrder::Sorted, sv, visited_set, fuel) == walk(
                    nodes@,
                    SiblingOrder::Sorted,
                    rest,
                    visited_set,
                    (fuel - 1) as nat,
                ));
                fuel = (fuel - 1) as nat;
            }
            continue;
        }
        proof {
            assert(!visited_set.contains(id));
            let idx = produced.map_values(|p: (usize, int)| p.0 as int).push(i as int);
            assert forall|a: int, b: int| 0 <= a < b < idx.len() implies idx[a] != idx[b] by {
                if b < produced.len() {
                    assert(visited@[a] != visited@[b]);
                } else {
                    assert(visited@[a] == nodes@[produced[a].0 as int].id);
                    assert(visited@.contains(visited@[a]));
                    assert(visited@.to_set().contains(visited@[a]));
                }
            }
            assert forall|a: int| 0 <= a < idx.len() implies 0 <= #[trigger] idx[a] < nodes@.len() by {}
            lemma_distinct_positions(idx, nodes@.len() as int);
            assert(nodes@.len() == nodes.len());
        }
        path.truncate(depth);
        let ghost kept_src = path_src.take(depth as int);
        let mut directory: Vec<String> = Vec::new();
        let mut l: usize = 0;
        while l < path.len()
            invariant
                0 <= l <= path@.len(),
                directory@.len() == l,
                forall|m: int| 0 <= m < l ==> (#[trigger] directory@[m])@ == path@[m]@,
            decreases path@.len() - l,
        {
            directory.push(path[l].clone());
            l = l + 1;
        }
        let component = export_path_component(&nodes[i]);
        let mut file_name = component.clone();
        push_str(&mut file_name, ".txt");
        let ghost k = produced.len() as int;
        proof {
            let extended = produced.push((i, depth as int));
            assert forall|lv: int| 0 <= lv < depth implies last_at_depth(extended, k, lv) == path_src[lv] by {
                assert(extended.take(k) =~= produced.take(k));
                assert(produced.take(k) =~= produced);
                lemma_last_prefix(extended, produced, k, lv);
            }
            assert(directory@.map_values(|s: String| s@) =~= export_directory(nodes@, extended, k));
        }
        plan.push(PlannedTextExport { node_index: i, directory, file_name });
        path.push(component);
        let children = children_to_print(nodes, SiblingOrder::Sorted, Some(id));
        proof {
            lemma_waiting_visit(nodes@, visited_set, id, nodes@.len());
            let w = walk(nodes@, SiblingOrder::Sorted, sv, visited_set, fuel);
            let next_stack = rest + pushed(
                printed_children(nodes@, SiblingOrder::Sorted, Some(id)),
                depth as int + 1,
            );
            assert(w == seq![(i, depth as int)] + walk(
                nodes@,
                SiblingOrder::Sorted,
                next_stack,
                visited_set.insert(id),
                (fuel - 1) as nat,
            ));
            assert(produced + w =~= produced.push((i, depth as int)) + walk(
                nodes@,
                SiblingOrder::Sorted,
                next_stack,
                visited_set.insert(id),
                (fuel - 1) as nat,
            ));
            let old_produced = produced;
            let old_src = path_src;
            produced = produced.push((i, depth as int));
            path_src = kept_src.push(k);
            visited_set = visited_set.insert(id);
            fuel = (fuel - 1) as nat;
            assert forall|j: int| 0 <= j < old_produced.len() implies export_directory(nodes@, produced, j)
                == export_directory(nodes@, old_produced, j) by {
                assert(produced[j] == old_produced[j]);
                assert forall|lv: int| 0 <= lv < produced[j].1 implies last_at_depth(produced, j, lv)
                    == last_at_depth(old_produced, j, lv) && produced[last_at_depth(produced, j, lv)]
                    == old_produced[last_at_depth(old_produced, j, lv)] by {
                    assert(produced.take(j) =~= old_produced.take(j));
                    lemma_last_prefix(produced, old_produced, j, lv);
                    lemma_last_bounds(old_produced, j, lv);
                    assert(last_at_depth(old_produced, j, lv) >= 0);
                }
                assert forall|lv: int| 0 <= lv < produced[j].1 implies export_directory(nodes@, produced, j)[lv]
                    == export_directory(nodes@, old_produced, j)[lv] by {
                    assert(produced.take(j) =~= old_produced.take(j));
                    lemma_last_prefix(produced, old_produced, j, lv);
                    lemma_last_bounds(old_produced, j, lv);
                    assert(last_at_depth(old_produced, j, lv) >= 0);
                }
                assert(export_directory(nodes@, produced, j) =~= export_directory(nodes@, old_produced, j));
            }
            assert forall|j: int, lv: int| 0 <= j < produced.len() && 0 <= lv < produced[j].1 implies #[trigger] last_at_depth(produced, j, lv) >= 0 by {
                if j < old_produced.len() {
                    assert(produced.take(j) =~= old_produced.take(j));
                    lemma_last_prefix(produced, old_produced, j, lv);
                } else {
                    assert(produced.take(k) =~= old_produced.take(k));
                    assert(old_produced.take(k) =~= old_produced);
                    lemma_last_prefix(produced, old_produced, k, lv);
                    assert(old_src[lv] == last_at_depth(old_produced, k, lv));
                    assert(0 <= old_src[lv]);
                }
            }
            assert forall|lv: int| 0 <= lv < path_src.len() implies #[trigger] path_src[lv] == last_at_depth(produced, produced.len() as int, lv) by {
                if lv < depth {
                    assert(produced.take(k) =~= old_produced.take(k));
                    assert(old_produced.take(k) =~= old_produced);
                    lemma_last_prefix(produced, old_produced, k, lv);
                }
            }
        }
        let ghost visited_before = visited@;
        visited.push(id);
        push_children(&mut stack, &children, depth + 1);
        proof {
            let old_visited = visited_before;
            assert(visited@ =~= old_visited.push(id));
            assert forall|x: i64| visited@.to_set().contains(x) <==> visited_set.contains(x) by {
                if visited@.contains(x) && x != id {
                    let q = choose|q: int| 0 <= q < visited@.len() && visited@[q] == x;
                    assert(q < visited@.len() - 1);
                    assert(old_visited[q] == x);
                    assert(old_visited.contains(x));
                }
                if x != id && visited_set.contains(x) {
                    assert(old_visited.to_set().contains(x));
                    let q = choose|q: int| 0 <= q < old_visited.len() && old_visited[q] == x;
                    assert(visited@[q] == x);
                }
                if x == id {
                    assert(visited@[visited@.len() - 1] == id);
                }
            }
            assert(visited@.to_set() =~= visited_set);
        }
    }
    proof {
        assert(stack_view(stack@) =~= Seq::<(usize, int)>::empty());
        assert(produced =~= export_visits(nodes@));
    }
    plan
}

} // verus!
