use j3treetext::cli::output::{tree_lines, TreeMode, MAX_TREE_RENDER_DEPTH};
use j3treetext::domain::tree_walk::SiblingOrder;
use j3treetext::domain::document_tree::Node;
use j3treetext::error::AppError;

fn render(nodes: &[Node], mode: TreeMode, order: SiblingOrder) -> Result<String, AppError> {
    let (lines, result) = tree_lines(nodes, mode, order);
    result?;
    Ok(lines.concat())
}

fn render_tree(nodes: &[Node], mode: TreeMode) -> Result<String, AppError> {
    render(nodes, mode, SiblingOrder::Sorted)
}

fn render_tree_preserving_input_order(nodes: &[Node], mode: TreeMode) -> Result<String, AppError> {
    render(nodes, mode, SiblingOrder::Input)
}

fn node(id: i64, parent_id: Option<i64>, title: &str, sort_order: i64, deleted_at: Option<&str>) -> Node {
    Node {
        id,
        parent_id,
        title: title.to_owned(),
        sort_order,
        content: String::new(),
        created_at: "2026-05-01T00:00:00Z".to_owned(),
        updated_at: "2026-05-01T00:00:00Z".to_owned(),
        deleted_at: deleted_at.map(str::to_owned),
    }
}

fn deep_tree_nodes(count: usize, deleted_at: Option<&str>) -> Vec<Node> {
    (0..count)
        .map(|index| {
            let id = (index + 1) as i64;
            let parent_id = if index == 0 { None } else { Some(index as i64) };
            node(id, parent_id, "Node", 0, deleted_at)
        })
        .collect()
}

#[test]
fn active_tree_lines_are_indented_by_parent() {
    let nodes = vec![
        node(1, None, "Root", 0, None),
        node(2, Some(1), "Alpha", 0, None),
        node(3, Some(2), "Child", 0, None),
        node(4, Some(1), "Beta", 1, None),
    ];

    assert_eq!(
        render_tree(&nodes, TreeMode::Active).expect("active tree should render"),
        "- [1] Root\n  - [2] Alpha\n    - [3] Child\n  - [4] Beta\n"
    );
}

#[test]
fn active_tree_sorts_arbitrary_sibling_input() {
    let nodes = vec![
        node(1, None, "Root", 0, None),
        node(3, Some(1), "Beta", 1, None),
        node(2, Some(1), "Alpha", 0, None),
    ];

    assert_eq!(
        render_tree(&nodes, TreeMode::Active).expect("active tree should render"),
        "- [1] Root\n  - [2] Alpha\n  - [3] Beta\n"
    );
}

#[test]
fn active_tree_can_preserve_trusted_display_order() {
    let nodes = vec![
        node(1, None, "Root", 0, None),
        node(3, Some(1), "Beta", 1, None),
        node(2, Some(1), "Alpha", 0, None),
    ];

    assert_eq!(
        render_tree_preserving_input_order(&nodes, TreeMode::Active)
            .expect("active tree should render"),
        "- [1] Root\n  - [3] Beta\n  - [2] Alpha\n"
    );
}

#[test]
fn trash_tree_keeps_deleted_parent_hierarchy() {
    let nodes = vec![
        node(10, Some(1), "Deleted Parent", 0, Some("deleted")),
        node(11, Some(10), "Deleted Child", 0, Some("deleted")),
        node(12, Some(1), "Deleted Sibling", 1, Some("deleted")),
    ];

    assert_eq!(
        render_tree(&nodes, TreeMode::Trash).expect("trash tree should render"),
        "- [10] Deleted Parent (deleted: deleted)\n  - [11] Deleted Child (deleted: deleted)\n- [12] Deleted Sibling (deleted: deleted)\n"
    );
}

#[test]
fn active_tree_lines_reject_depth_beyond_render_limit() {
    let nodes = deep_tree_nodes(MAX_TREE_RENDER_DEPTH + 2, None);

    let error = render_tree(&nodes, TreeMode::Active)
        .expect_err("overly deep active tree should be rejected");

    assert_eq!(
        error.user_message(),
        "문서 트리가 너무 깊어 CLI에서 출력할 수 없습니다. 최대 출력 깊이: 1024"
    );
}

#[test]
fn trash_tree_lines_reject_depth_beyond_render_limit() {
    let nodes = deep_tree_nodes(MAX_TREE_RENDER_DEPTH + 2, Some("deleted"));

    let error = render_tree(&nodes, TreeMode::Trash)
        .expect_err("overly deep trash tree should be rejected");

    assert_eq!(
        error.user_message(),
        "문서 트리가 너무 깊어 CLI에서 출력할 수 없습니다. 최대 출력 깊이: 1024"
    );
}

#[test]
fn lines_before_the_depth_limit_are_kept() {
    let nodes = deep_tree_nodes(MAX_TREE_RENDER_DEPTH + 2, None);
    let (lines, result) = tree_lines(&nodes, TreeMode::Active, SiblingOrder::Sorted);
    assert!(result.is_err());
    assert_eq!(lines.len(), MAX_TREE_RENDER_DEPTH + 1);
}

#[test]
fn siblings_with_equal_order_sort_by_title_then_id() {
    let nodes = vec![
        node(1, None, "Root", 0, None),
        node(5, Some(1), "b", 0, None),
        node(4, Some(1), "a", 0, None),
        node(3, Some(1), "a", 0, None),
    ];
    assert_eq!(
        render_tree(&nodes, TreeMode::Active).expect("tree should render"),
        "- [1] Root\n  - [3] a\n  - [4] a\n  - [5] b\n"
    );
}

#[test]
fn nodes_in_a_parent_cycle_are_printed_once() {
    let nodes = vec![
        node(1, None, "Root", 0, None),
        node(2, Some(1), "Loop", 0, None),
        node(2, Some(2), "Again", 0, None),
    ];
    let text = render_tree(&nodes, TreeMode::Active).expect("tree should render");
    assert_eq!(text, "- [1] Root\n  - [2] Loop\n");
}
