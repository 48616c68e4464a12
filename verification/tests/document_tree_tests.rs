use j3treetext::domain::document_tree::{Document, Node, NodeSiblingOrderUpdate, ROOT_NODE_ID, ROOT_TITLE};
use j3treetext::domain::DomainError;

fn node(id: i64, parent_id: Option<i64>, title: &str, sort_order: i64) -> Node {
    Node {
        id,
        parent_id,
        title: title.to_owned(),
        sort_order,
        content: String::new(),
        created_at: "2026-05-22T00:00:00Z".to_owned(),
        updated_at: "2026-05-22T00:00:00Z".to_owned(),
        deleted_at: None,
    }
}

fn sibling_update(
    node_id: i64,
    parent_id: Option<i64>,
    sort_order: i64,
) -> NodeSiblingOrderUpdate {
    NodeSiblingOrderUpdate {
        node_id,
        parent_id,
        sort_order,
        updated_at: "2026-05-22T00:00:01Z".to_owned(),
    }
}

#[test]
fn rename_node_updates_sibling_title_metadata() -> Result<(), DomainError> {
    let mut document = Document::new(vec![
        node(ROOT_NODE_ID, None, ROOT_TITLE, 0),
        node(2, Some(ROOT_NODE_ID), "Alpha", 0),
        node(3, Some(ROOT_NODE_ID), "Beta", 1),
    ])?;

    document.rename_node(2, "Gamma".to_owned(), "2026-05-22T00:00:02Z".to_owned())?;
    document.rename_node(3, "Alpha".to_owned(), "2026-05-22T00:00:03Z".to_owned())?;

    assert_eq!(
        Some("Alpha"),
        document.node_by_id(3).map(|node| node.title.as_str())
    );
    assert!(matches!(
        document.rename_node(2, "Alpha".to_owned(), "2026-05-22T00:00:04Z".to_owned()),
        Err(DomainError::DuplicateSiblingTitle {
            parent_id: Some(ROOT_NODE_ID),
            title,
        }) if title == "Alpha"
    ));
    Ok(())
}

#[test]
fn sibling_order_updates_validate_titles_with_cached_metadata() -> Result<(), DomainError> {
    let mut document = Document::new(vec![
        node(ROOT_NODE_ID, None, ROOT_TITLE, 0),
        node(2, Some(ROOT_NODE_ID), "Left", 0),
        node(3, Some(ROOT_NODE_ID), "Right", 1),
        node(4, Some(2), "Leaf", 0),
        node(5, Some(3), "Leaf", 0),
    ])?;

    document.apply_sibling_order_updates(&[
        sibling_update(4, Some(3), 0),
        sibling_update(5, Some(2), 0),
    ])?;

    assert_eq!(
        Some(3),
        document.node_by_id(4).and_then(|node| node.parent_id)
    );
    assert_eq!(
        Some(2),
        document.node_by_id(5).and_then(|node| node.parent_id)
    );
    assert!(matches!(
        document.apply_sibling_order_updates(&[sibling_update(4, Some(2), 1)]),
        Err(DomainError::DuplicateSiblingTitle {
            parent_id: Some(2),
            title,
        }) if title == "Leaf"
    ));
    Ok(())
}

#[test]
fn remove_nodes_updates_cached_metadata_for_remaining_nodes() -> Result<(), DomainError> {
    let mut document = Document::new(vec![
        node(ROOT_NODE_ID, None, ROOT_TITLE, 0),
        node(2, Some(ROOT_NODE_ID), "Alpha", 0),
        node(3, Some(ROOT_NODE_ID), "Beta", 1),
        node(4, Some(ROOT_NODE_ID), "Gamma", 2),
    ])?;

    document.remove_nodes_and_apply_sibling_order_updates(
        &[2],
        &[sibling_update(3, Some(ROOT_NODE_ID), 0)],
    )?;

    assert!(document.node_by_id(2).is_none());
    assert_eq!(document.node_by_id(3).map(|node| node.sort_order), Some(0));
    document.rename_node(3, "Alpha".to_owned(), "2026-05-22T00:00:02Z".to_owned())?;
    assert_eq!(
        document.node_by_id(3).map(|node| node.title.as_str()),
        Some("Alpha")
    );
    assert!(matches!(
        document.rename_node(4, "Alpha".to_owned(), "2026-05-22T00:00:03Z".to_owned()),
        Err(DomainError::DuplicateSiblingTitle {
            parent_id: Some(ROOT_NODE_ID),
            title,
        }) if title == "Alpha"
    ));
    Ok(())
}
