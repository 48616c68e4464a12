use j3treetext::infra::sqlite::{DeleteNodeUpdate, RenamedNodeUpdate};
use j3treetext::domain::document_tree::{NodeSiblingOrderUpdate, ROOT_NODE_ID};
use j3treetext::domain::DomainError;
use j3treetext::error::AppError;
use j3treetext::infra::sqlite::rules::{
    ensure_movable_node, next_sort_order_after, node_from_record, sibling_order_updates,
    sorted_sibling_order_updates, NodeRecord, SiblingOrderUpdateRow,
};

fn update(node_id: i64, sort_order: i64) -> NodeSiblingOrderUpdate {
    NodeSiblingOrderUpdate {
        node_id,
        parent_id: Some(ROOT_NODE_ID),
        sort_order,
        updated_at: "t".to_owned(),
    }
}

#[test]
fn siblings_are_numbered_in_the_given_order() {
    let updates = sibling_order_updates(Some(7), &[30, 10, 20], "now").expect("small lists fit");
    let ids: Vec<(i64, i64)> = updates.iter().map(|u| (u.node_id, u.sort_order)).collect();
    assert_eq!(ids, vec![(30, 0), (10, 1), (20, 2)]);
    assert!(updates.iter().all(|u| u.parent_id == Some(7) && u.updated_at == "now"));
}

#[test]
fn sibling_updates_are_sorted_by_order_title_and_id() {
    let rows = vec![
        SiblingOrderUpdateRow { title: "b".to_owned(), update: update(3, 1) },
        SiblingOrderUpdateRow { title: "z".to_owned(), update: update(9, 0) },
        SiblingOrderUpdateRow { title: "a".to_owned(), update: update(5, 1) },
        SiblingOrderUpdateRow { title: "a".to_owned(), update: update(4, 1) },
    ];
    let sorted = sorted_sibling_order_updates(rows);
    let ids: Vec<i64> = sorted.iter().map(|u| u.node_id).collect();
    assert_eq!(ids, vec![9, 4, 5, 3]);
}

#[test]
fn only_nodes_below_the_root_move() {
    assert!(matches!(
        ensure_movable_node(ROOT_NODE_ID, Some(3)),
        Err(AppError::Domain(DomainError::CannotMoveRoot))
    ));
    assert!(ensure_movable_node(5, None).is_err());
    assert!(ensure_movable_node(5, Some(1)).is_ok());
}

#[test]
fn next_sort_order_follows_the_largest() {
    assert_eq!(next_sort_order_after(None).ok(), Some(0));
    assert_eq!(next_sort_order_after(Some(4)).ok(), Some(5));
    assert!(next_sort_order_after(Some(i64::MAX)).is_err());
}

#[test]
fn stored_rows_become_valid_nodes() {
    let record = NodeRecord {
        id: 4,
        parent_id: Some(1),
        title: "Doc".to_owned(),
        sort_order: 0,
        content: "body".to_owned(),
        created_at: "c".to_owned(),
        updated_at: "u".to_owned(),
        deleted_at: None,
    };
    let node = node_from_record(record.clone()).expect("valid row");
    assert_eq!(node.title, "Doc");
    let bad = NodeRecord { title: " ".to_owned(), ..record };
    assert!(matches!(
        node_from_record(bad),
        Err(AppError::Domain(DomainError::EmptyTitle { node_id: 4 }))
    ));
}

#[test]
fn repository_updates_carry_what_changed() {
    let renamed = RenamedNodeUpdate { title: "t".to_owned(), updated_at: "now".to_owned() };
    assert_eq!(renamed.clone(), renamed);
    let deleted = DeleteNodeUpdate { removed_node_ids: vec![4, 5], sibling_orders: vec![update(6, 0)] };
    assert_eq!(deleted.removed_node_ids, vec![4, 5]);
    assert_eq!(deleted.sibling_orders[0].node_id, 6);
}
