//! The document tree as the command line prints it: one line per document, indented
//! by depth, depth first, each document once.
use vstd::prelude::*;

use crate::decimal::{decimal, format_i64};
use crate::domain::document_tree::{DocumentSearchResult, Node};
use crate::domain::sibling_order::{arrange_positions, arranged, sibling_arrangement};
use crate::domain::tree_walk::{
    children_to_print, ids_contain, lemma_waiting_visit, printed_children, push_children, pushed,
    stack_view, visits_from, waiting, walk, SiblingOrder,
};
use crate::error::AppError;
use crate::text::{push_str, to_owned};

verus! {

/// The deepest level that is printed.
pub const MAX_TREE_RENDER_DEPTH: usize = 1024;

/// What each level of depth is indented by.
pub const TREE_INDENT: &'static str = "  ";

/// Which tree is printed: the active documents or the trash.
#[derive(Debug, Clone, Copy, PartialEq, Eq, Structural)]
pub enum TreeMode {
    Active,
    Trash,
}

/// Whether some node has the id.
pub open spec fn some_node_has_id(nodes: Seq<Node>, id: i64) -> bool {
    exists|j: int| 0 <= j < nodes.len() && nodes[j].id == id
}

/// A deleted node whose parent is not in the trash heads a tree of the trash.
pub open spec fn is_trash_root(nodes: Seq<Node>, i: int) -> bool {
    match nodes[i].parent_id {
        None => true,
        Some(p) => !some_node_has_id(nodes, p),
    }
}

pub open spec fn trash_candidates(nodes: Seq<Node>, n: nat) -> Seq<usize>
    decreases n,
{
    if n == 0 {
        Seq::empty()
    } else {
        let rest = trash_candidates(nodes, (n - 1) as nat);
        if is_trash_root(nodes, n - 1) {
            rest.push((n - 1) as usize)
        } else {
            rest
        }
    }
}

/// The trees that are printed, first on top.
pub open spec fn first_stack(nodes: Seq<Node>, mode: TreeMode, order: SiblingOrder) -> Seq<(usize, int)> {
    if mode == TreeMode::Active {
        pushed(printed_children(nodes, order, None), 0)
    } else {
        pushed(arranged(nodes, trash_candidates(nodes, nodes.len())), 0)
    }
}

/// Every node printed, in order, with its depth.
pub open spec fn tree_visits(nodes: Seq<Node>, mode: TreeMode, order: SiblingOrder) -> Seq<(usize, int)> {
    visits_from(nodes, order, first_stack(nodes, mode, order))
}

pub open spec fn indent(depth: nat) -> Seq<char>
    decreases depth,
{
    if depth == 0 {
        Seq::empty()
    } else {
        indent((depth - 1) as nat) + "  "@
    }
}

/// The printed line of a node.
pub open spec fn line_text(node: Node, depth: nat, mode: TreeMode) -> Seq<char> {
    indent(depth) + "- ["@ + decimal(node.id as int) + "] "@ + node.title@ + (if mode
        == TreeMode::Trash && node.deleted_at is Some {
        " (deleted: "@ + node.deleted_at->0@ + ")"@
    } else {
        Seq::empty()
    }) + "\n"@
}

pub open spec fn tree_depth_message() -> Seq<char> {
    "문서 트리가 너무 깊어 CLI에서 출력할 수 없습니다. 최대 출력 깊이: "@ + decimal(
        MAX_TREE_RENDER_DEPTH as int,
    )
}

fn tree_depth_error() -> (r: AppError)
    ensures
        r matches AppError::User { message } && message@ == tree_depth_message(),
{
    let mut message = to_owned("문서 트리가 너무 깊어 CLI에서 출력할 수 없습니다. 최대 출력 깊이: ");
    let digits = crate::decimal::format_usize(MAX_TREE_RENDER_DEPTH);
    push_str(&mut message, digits.as_str());
    AppError::user(message.as_str())
}

fn tree_line(node: &Node, depth: usize, mode: TreeMode) -> (r: String)
    ensures
        r@ == line_text(*node, depth as nat, mode),
{
    let mut out = String::new();
    let mut k: usize = 0;
    while k < depth
        invariant
            0 <= k <= depth,
            out@ == indent(k as nat),
        decreases depth - k,
    {
        push_str(&mut out, TREE_INDENT);
        k = k + 1;
    }
    push_str(&mut out, "- [");
    let digits = format_i64(node.id);
    push_str(&mut out, digits.as_str());
    push_str(&mut out, "] ");
    push_str(&mut out, node.title.as_str());
    if mode == TreeMode::Trash && node.deleted_at.is_some() {
        let deleted_at = node.deleted_at.as_ref().unwrap();
        push_str(&mut out, " (deleted: ");
        push_str(&mut out, deleted_at.as_str());
        push_str(&mut out, ")");
    } else {
        assert(out@ + Seq::<char>::empty() =~= out@);
    }
    push_str(&mut out, "\n");
    out
}

/// The positions of the trash roots, in the order given.
fn trash_candidate_positions(nodes: &[Node]) -> (r: Vec<usize>)
    ensures
        r@ == trash_candidates(nodes@, nodes@.len()),
        forall|a: int, b: int| 0 <= a < b < r@.len() ==> r@[a] < r@[b],
        forall|a: int| 0 <= a < r@.len() ==> #[trigger] r@[a] < nodes@.len(),
{
    let mut out: Vec<usize> = Vec::new();
    let mut i: usize = 0;
    while i < nodes.len()
        invariant
            0 <= i <= nodes@.len(),
            out@ == trash_candidates(nodes@, i as nat),
            forall|a: int, b: int| 0 <= a < b < out@.len() ==> out@[a] < out@[b],
            forall|a: int| 0 <= a < out@.len() ==> #[trigger] out@[a] < i,
        decreases nodes@.len() - i,
    {
        let root = match nodes[i].parent_id {
            None => true,
            Some(p) => {
                let mut found = false;
                let mut j: usize = 0;
                while j < nodes.len()
                    invariant
                        0 <= j <= nodes@.len(),
                        found == exists|k: int| 0 <= k < j && nodes@[k].id == p,
                    decreases nodes@.len() - j,
                {
                    if nodes[j].id == p {
                        found = true;
                    }
                    j = j + 1;
                }
                !found
            },
        };
        if root {
            out.push(i);
        }
        i = i + 1;
    }
    out
}

/// The roots of the trash trees in sibling order.
pub fn trash_roots(nodes: &[Node]) -> (r: Vec<usize>)
    ensures
        r@ == arranged(nodes@, trash_candidates(nodes@, nodes@.len())),
        sibling_arrangement(nodes@, trash_candidates(nodes@, nodes@.len()), r@),
        forall|a: int| 0 <= a < r@.len() ==> #[trigger] r@[a] < nodes@.len(),
{
    let c = trash_candidate_positions(nodes);
    let r = arrange_positions(nodes, &c);
    proof {
        assert forall|a: int| 0 <= a < r@.len() implies #[trigger] r@[a] < nodes@.len() by {
            assert(r@.contains(r@[a]));
            assert(c@.contains(r@[a]));
        }
    }
    r
}

/// The lines of the tree, in the order printed; when a node lies deeper than the limit,
/// the lines before it and the error.
pub fn tree_lines(nodes: &[Node], mode: TreeMode, order: SiblingOrder) -> (r: (
    Vec<String>,
    Result<(), AppError>,
))
    ensures
        ({
            let visits = tree_visits(nodes@, mode, order);
            &&& r.0@.len() <= visits.len()
            &&& forall|k: int| 0 <= k < r.0@.len() ==> (#[trigger] visits[k]).1 <= MAX_TREE_RENDER_DEPTH
            &&& forall|k: int|
                0 <= k < r.0@.len() ==> (#[trigger] r.0@[k])@ == line_text(
                    nodes@[visits[k].0 as int],
                    visits[k].1 as nat,
                    mode,
                )
            &&& (r.1 is Ok <==> r.0@.len() == visits.len())
            &&& r.1 matches Err(e) ==> visits[r.0@.len() as int].1 > MAX_TREE_RENDER_DEPTH && (
            e matches AppError::User { message } && message@ == tree_depth_message())
        }),
{
    let mut stack: Vec<(usize, usize)> = Vec::new();
    let firsts = if mode == TreeMode::Active {
        children_to_print(nodes, order, None)
    } else {
        trash_roots(nodes)
    };
    push_children(&mut stack, &firsts, 0);
    let ghost first = first_stack(nodes@, mode, order);
    let ghost fuel0: nat = first.len() + waiting(nodes@, Set::empty(), nodes@.len());
    let ghost mut fuel: nat = fuel0;
    let ghost mut visited_set: Set<i64> = Set::empty();
    let ghost mut produced: Seq<(usize, int)> = Seq::empty();
    let mut visited: Vec<i64> = Vec::new();
    let mut lines: Vec<String> = Vec::new();
    assert(stack_view(stack@) == first);
    while stack.len() > 0
        invariant
            tree_visits(nodes@, mode, order) == produced + walk(
                nodes@,
                order,
                stack_view(stack@),
                visited_set,
                fuel,
            ),
            fuel >= stack@.len() + waiting(nodes@, visited_set, nodes@.len()),
            forall|a: int| 0 <= a < stack@.len() ==> #[trigger] stack@[a].0 < nodes@.len(),
            forall|a: int| 0 <= a < stack@.len() ==> #[trigger] stack@[a].1 <= MAX_TREE_RENDER_DEPTH + 1,
            visited@.to_set() == visited_set,
            lines@.len() == produced.len(),
            forall|k: int| 0 <= k < produced.len() ==> (#[trigger] produced[k]).1 <= MAX_TREE_RENDER_DEPTH,
            forall|k: int|
                0 <= k < lines@.len() ==> (#[trigger] lines@[k])@ == line_text(
                    nodes@[produced[k].0 as int],
                    produced[k].1 as nat,
                    mode,
                ),
        decreases stack@.len() + waiting(nodes@, visited_set, nodes@.len()),
    {
        let ghost sv = stack_view(stack@);
        let (i, depth) = stack.pop().unwrap();
        let ghost rest = stack_view(stack@);
        assert(sv.last() == (i, depth as int));
        assert(sv.drop_last() =~= rest);
        assert(fuel > 0);
        assert(sv.len() > 0);
        let id = nodes[i].id;
        if ids_contain(&visited, id) {
            proof {
                assert(visited@.to_set().contains(id));
                assert(walk(nodes@, order, sv, visited_set, fuel) == walk(
                    nodes@,
                    order,
                    rest,
                    visited_set,
                    (fuel - 1) as nat,
                ));
                fuel = (fuel - 1) as nat;
            }
            continue;
        }
        proof {
            assert(!visited_set.contains(id));
        }
        if depth > MAX_TREE_RENDER_DEPTH {
            proof {
                let w = walk(nodes@, order, sv, visited_set, fuel);
                assert(w[0] == (i, depth as int));
                assert((produced + w)[produced.len() as int] == w[0]);
            }
            return (lines, Err(tree_depth_error()));
        }
        lines.push(tree_line(&nodes[i], depth, mode));
        let children = children_to_print(nodes, order, Some(id));
        proof {
            lemma_waiting_visit(nodes@, visited_set, id, nodes@.len());
            let w = walk(nodes@, order, sv, visited_set, fuel);
            assert(w == seq![(i, depth as int)] + walk(
                nodes@,
                order,
                rest + pushed(printed_children(nodes@, order, Some(id)), depth as int + 1),
                visited_set.insert(id),
                (fuel - 1) as nat,
            ));
            assert(produced + w =~= produced.push((i, depth as int)) + walk(
                nodes@,
                order,
                rest + pushed(printed_children(nodes@, order, Some(id)), depth as int + 1),
                visited_set.insert(id),
                (fuel - 1) as nat,
            ));
            produced = produced.push((i, depth as int));
            visited_set = visited_set.insert(id);
            fuel = (fuel - 1) as nat;
        }
        let ghost old_visited = visited@;
        visited.push(id);
        push_children(&mut stack, &children, depth + 1);
        proof {
            assert forall|x: i64| visited@.to_set().contains(x) <==> visited_set.contains(x) by {
                if visited@.contains(x) && x != id {
                    let k = choose|k: int| 0 <= k < visited@.len() && visited@[k] == x;
                    assert(k < visited@.len() - 1);
                    assert(old_visited.contains(x));
                }
                if x != id && visited_set.contains(x) {
                    assert(old_visited.to_set().contains(x));
                    let k = choose|k: int| 0 <= k < old_visited.len() && old_visited[k] == x;
                    assert(visited@[k] == x);
                }
                if x == id {
                    assert(visited@[visited@.len() - 1] == id);
                }
            }
            assert(visited@.to_set() =~= visited_set);
        }
    }
    proof {
        assert(stack_view(stack@) =~= Seq::<(usize, int)>::empty());
        assert(produced =~= tree_visits(nodes@, mode, order));
    }
    (lines, Ok(()))
}

/// The usage text of the command line.
pub const HELP_TEXT: &'static str = "j3TreeTextCli - SQLite document tree CLI

Usage:
  j3TreeTextCli [--db <path>] <command> [args]
  j3TreeTextCli --help

Commands:
  tree
      Print the active document tree.
  show [--trash] <node_id>
      Print one document and its content. Without --trash, active nodes are checked first.
  create --parent <node_id> --title <title> [--content <text> | --content-file <path> | --stdin]
      Create a child document.
  edit <node_id> (--content <text> | --content-file <path> | --stdin) [--append]
      Replace or append document content.
  rename <node_id> --title <title>
      Rename an active document.
  search <query>
      Search active document titles and content.
  delete <node_id>
      Soft-delete a document subtree.
  trash
      Print deleted documents.
  restore <node_id>
      Restore a deleted document subtree.
  purge <node_id>
      Permanently delete a deleted document subtree.
  move <node_id> --parent <node_id>
      Move a document to the end of another document's children.
  move-up <node_id>
      Move a document one position up within its parent.
  move-down <node_id>
      Move a document one position down within its parent.
";

/// How a parent id is shown: its number, or a dash for none.
pub open spec fn shown_parent_id(parent_id: Option<i64>) -> Seq<char> {
    match parent_id {
        Some(p) => decimal(p as int),
        None => "-"@,
    }
}

/// The content as printed: a line break is added unless it ends with one.
pub open spec fn printed_content(content: Seq<char>) -> Seq<char> {
    if content.len() > 0 && content.last() == '\n' {
        content
    } else {
        content + "\n"@
    }
}

/// What `show` prints for a document: its fields, one per line, then its content.
pub open spec fn node_text_spec(node: Node) -> Seq<char> {
    "id: "@ + decimal(node.id as int) + "\n"@ + "parent_id: "@ + shown_parent_id(node.parent_id)
        + "\n"@ + "title: "@ + node.title@ + "\n"@ + "created_at: "@ + node.created_at@ + "\n"@
        + "updated_at: "@ + node.updated_at@ + "\n"@ + match node.deleted_at {
        Some(d) => "deleted_at: "@ + d@ + "\n"@,
        None => Seq::empty(),
    } + "content:\n"@ + printed_content(node.content@)
}

fn ends_with_line_break(text: &str) -> (r: bool)
    ensures
        r == (text@.len() > 0 && text@.last() == '\n'),
{
    let mut last_is_break = false;
    for c in it: text.chars()
        invariant
            it.seq() == text@,
            last_is_break == (it.index() > 0 && text@[it.index() - 1] == '\n'),
    {
        last_is_break = c == '\n';
    }
    last_is_break
}

/// What `show` prints for a document.
pub fn node_text(node: &Node) -> (r: String)
    ensures
        r@ == node_text_spec(*node),
{
    let mut out = to_owned("id: ");
    push_str(&mut out, format_i64(node.id).as_str());
    push_str(&mut out, "\nparent_id: ");
    match node.parent_id {
        Some(parent_id) => push_str(&mut out, format_i64(parent_id).as_str()),
        None => push_str(&mut out, "-"),
    }
    push_str(&mut out, "\ntitle: ");
    push_str(&mut out, node.title.as_str());
    push_str(&mut out, "\ncreated_at: ");
    push_str(&mut out, node.created_at.as_str());
    push_str(&mut out, "\nupdated_at: ");
    push_str(&mut out, node.updated_at.as_str());
    push_str(&mut out, "\n");
    let ghost fields = out@;
    match &node.deleted_at {
        Some(deleted_at) => {
            push_str(&mut out, "deleted_at: ");
            push_str(&mut out, deleted_at.as_str());
            push_str(&mut out, "\n");
        },
        None => {},
    }
    let ghost with_deleted = out@;
    push_str(&mut out, "content:\n");
    push_str(&mut out, node.content.as_str());
    if !ends_with_line_break(node.content.as_str()) {
        push_str(&mut out, "\n");
    }
    proof {
        reveal_strlit("id: ");
        reveal_strlit("\nparent_id: ");
        reveal_strlit("-");
        reveal_strlit("\ntitle: ");
        reveal_strlit("\ncreated_at: ");
        reveal_strlit("\nupdated_at: ");
        reveal_strlit("\n");
        reveal_strlit("parent_id: ");
        reveal_strlit("title: ");
        reveal_strlit("created_at: ");
        reveal_strlit("updated_at: ");
        assert(fields =~= "id: "@ + decimal(node.id as int) + "\n"@ + "parent_id: "@ + shown_parent_id(
            node.parent_id,
        ) + "\n"@ + "title: "@ + node.title@ + "\n"@ + "created_at: "@ + node.created_at@ + "\n"@
            + "updated_at: "@ + node.updated_at@ + "\n"@);
        assert(with_deleted =~= fields + match node.deleted_at {
            Some(d) => "deleted_at: "@ + d@ + "\n"@,
            None => Seq::empty(),
        });
        assert(out@ =~= node_text_spec(*node));
    }
    out
}

/// The line `search` prints for a result: id, title and parent title.
pub open spec fn search_result_line(result: DocumentSearchResult) -> Seq<char> {
    "["@ + decimal(result.node.id as int) + "] "@ + result.node.title@ + " (parent: "@ + match result.parent_title {
        Some(t) => t@,
        None => "-"@,
    } + ")\n"@
}

pub open spec fn search_results_text_spec(results: Seq<DocumentSearchResult>) -> Seq<char>
    decreases results.len(),
{
    if results.len() == 0 {
        Seq::empty()
    } else {
        search_results_text_spec(results.drop_last()) + search_result_line(results.last())
    }
}

/// What `search` prints: one line per result, in order.
pub fn search_results_text(results: &[DocumentSearchResult]) -> (r: String)
    ensures
        r@ == search_results_text_spec(results@),
{
    let mut out = String::new();
    let mut i: usize = 0;
    while i < results.len()
        invariant
            0 <= i <= results@.len(),
            out@ == search_results_text_spec(results@.take(i as int)),
        decreases results@.len() - i,
    {
        let result = &results[i];
        let ghost before = out@;
        push_str(&mut out, "[");
        push_str(&mut out, format_i64(result.node.id).as_str());
        push_str(&mut out, "] ");
        push_str(&mut out, result.node.title.as_str());
        push_str(&mut out, " (parent: ");
        match &result.parent_title {
            Some(title) => push_str(&mut out, title.as_str()),
            None => push_str(&mut out, "-"),
        }
        push_str(&mut out, ")\n");
        proof {
            reveal_strlit("-");
            assert(results@.take(i + 1).drop_last() =~= results@.take(i as int));
            assert(results@.take(i + 1).last() == results@[i as int]);
            assert(out@ =~= before + search_result_line(results@[i as int]));
        }
        i = i + 1;
    }
    assert(results@.take(results@.len() as int) =~= results@);
    out
}

/// A confirmation line: the verb, then the node id in brackets.
pub open spec fn id_line(verb: Seq<char>, node_id: i64) -> Seq<char> {
    verb + " ["@ + decimal(node_id as int) + "]"@
}

/// `verb [id]`, as `delete`, `restore`, `purge` and the moves confirm.
pub fn node_id_line(verb: &str, node_id: i64) -> (r: String)
    ensures
        r@ == id_line(verb@, node_id) + "\n"@,
{
    let mut out = to_owned(verb);
    push_str(&mut out, " [");
    push_str(&mut out, format_i64(node_id).as_str());
    push_str(&mut out, "]\n");
    proof {
        reveal_strlit(" [");
        reveal_strlit("]\n");
        reveal_strlit("]");
        reveal_strlit("\n");
    }
    assert(out@ =~= id_line(verb@, node_id) + "\n"@);
    out
}

/// `verb [id] text`, as `create`, `edit` and `rename` confirm.
pub fn node_id_text_line(verb: &str, node_id: i64, text: &str) -> (r: String)
    ensures
        r@ == id_line(verb@, node_id) + " "@ + text@ + "\n"@,
{
    let mut out = to_owned(verb);
    push_str(&mut out, " [");
    push_str(&mut out, format_i64(node_id).as_str());
    push_str(&mut out, "] ");
    push_str(&mut out, text);
    push_str(&mut out, "\n");
    proof {
        reveal_strlit(" [");
        reveal_strlit("] ");
        reveal_strlit("]");
        reveal_strlit(" ");
        reveal_strlit("\n");
    }
    assert(out@ =~= id_line(verb@, node_id) + " "@ + text@ + "\n"@);
    out
}

/// `moved [id] to parent [parent]`.
pub fn moved_to_parent_line(node_id: i64, parent_id: i64) -> (r: String)
    ensures
        r@ == id_line("moved"@, node_id) + " to parent ["@ + decimal(parent_id as int) + "]\n"@,
{
    let mut head = to_owned("moved [");
    push_str(&mut head, format_i64(node_id).as_str());
    push_str(&mut head, "] to parent [");
    push_str(&mut head, format_i64(parent_id).as_str());
    push_str(&mut head, "]\n");
    proof {
        reveal_strlit("moved [");
        reveal_strlit("] to parent [");
        reveal_strlit("]\n");
        reveal_strlit("moved");
        reveal_strlit(" [");
        reveal_strlit("]");
        reveal_strlit(" to parent [");
        assert(head@ =~= id_line("moved"@, node_id) + " to parent ["@ + decimal(parent_id as int) + "]\n"@);
    }
    head
}

} // verus!
