use j3treetext::domain::document_tree::ROOT_NODE_ID;
use j3treetext::domain::DomainError;
use j3treetext::error::AppError;
use j3treetext::infra::sqlite::schema::{
    columns_contain, current_migration_pending, missing_node_columns, node_backfill_needed,
    search_rebuild_needed_after_refresh, NodeColumn, LEGACY_NODE_SCHEMA_MESSAGE,
};
use j3treetext::infra::sqlite::subtree::{
    restore_target_parent_id, restored_nodes, restored_subtree_titles, staged_ids_match,
    staged_subtree_intact, ParentTitles, RestorableNodeMetadata,
};

fn names(values: &[&str]) -> Vec<String> {
    values.iter().map(|v| (*v).to_owned()).collect()
}

#[test]
fn current_table_needs_no_column() {
    let columns = names(&[
        "id", "parent_id", "title", "sort_order", "content", "created_at", "updated_at", "deleted_at",
    ]);
    assert!(missing_node_columns(&columns).unwrap().is_empty());
}

#[test]
fn older_table_gets_missing_columns_in_order_ignoring_case() {
    let columns = names(&["ID", "Title", "CONTENT"]);
    let missing = missing_node_columns(&columns).unwrap();
    assert_eq!(
        missing,
        vec![
            NodeColumn::ParentId,
            NodeColumn::SortOrder,
            NodeColumn::CreatedAt,
            NodeColumn::UpdatedAt,
            NodeColumn::DeletedAt,
        ]
    );
    assert_eq!(missing[0].name(), "parent_id");
    assert_eq!(
        NodeColumn::Title.add_column_sql(),
        "ALTER TABLE nodes ADD COLUMN title TEXT NOT NULL DEFAULT 'Untitled'"
    );
    assert!(columns_contain(&columns, "content"));
    assert!(!columns_contain(&columns, "deleted_at"));
}

#[test]
fn legacy_kind_column_is_refused() {
    let error = missing_node_columns(&names(&["id", "Kind", "title"])).expect_err("legacy schema");
    assert_eq!(error.user_message(), LEGACY_NODE_SCHEMA_MESSAGE);
}

#[test]
fn backfill_and_search_rebuild_follow_the_migration_state() {
    assert!(current_migration_pending(0));
    assert!(!current_migration_pending(1));
    assert!(node_backfill_needed(true, 0));
    assert!(node_backfill_needed(false, 2));
    assert!(!node_backfill_needed(false, 0));
    assert!(search_rebuild_needed_after_refresh(false, true));
    assert!(!search_rebuild_needed_after_refresh(true, true));
    assert!(!search_rebuild_needed_after_refresh(false, false));
}

#[test]
fn staged_subtree_must_match_what_was_prepared() {
    assert!(staged_ids_match(3, &[3, 4, 5], &[3, 4, 5]));
    assert!(!staged_ids_match(3, &[], &[]));
    assert!(!staged_ids_match(3, &[3, 4], &[3, 5]));
    assert!(!staged_ids_match(9, &[3, 4], &[3, 4]));
    assert!(staged_subtree_intact(3, 3, 0, 0).unwrap());
    assert!(!staged_subtree_intact(3, 2, 0, 0).unwrap());
    assert!(!staged_subtree_intact(3, 3, 1, 0).unwrap());
    assert!(!staged_subtree_intact(3, 3, 0, 1).unwrap());
}

#[test]
fn restore_goes_back_to_an_active_parent_or_the_root() {
    assert_eq!(restore_target_parent_id(Some(7), true), 7);
    assert_eq!(restore_target_parent_id(Some(7), false), ROOT_NODE_ID);
    assert_eq!(restore_target_parent_id(None, true), ROOT_NODE_ID);
}

#[test]
fn restored_nodes_are_active_and_stamped() {
    let metadata = vec![RestorableNodeMetadata {
        id: 5,
        parent_id: Some(ROOT_NODE_ID),
        title: "복원".to_owned(),
        sort_order: 2,
        created_at: "2026-01-01T00:00:00.000Z".to_owned(),
    }];
    let nodes = restored_nodes(metadata, "2026-02-01T00:00:00.000Z").expect("valid node");
    assert_eq!(nodes.len(), 1);
    assert_eq!(nodes[0].updated_at, "2026-02-01T00:00:00.000Z");
    assert!(nodes[0].deleted_at.is_none());
    assert!(nodes[0].content.is_empty());

    let bad = vec![RestorableNodeMetadata {
        id: 6,
        parent_id: Some(ROOT_NODE_ID),
        title: "  ".to_owned(),
        sort_order: 0,
        created_at: "2026-01-01T00:00:00.000Z".to_owned(),
    }];
    assert!(matches!(
        restored_nodes(bad, "2026-02-01T00:00:00.000Z"),
        Err(AppError::Domain(DomainError::EmptyTitle { node_id: 6 }))
    ));
}

fn restorable(id: i64, parent_id: Option<i64>, title: &str) -> RestorableNodeMetadata {
    RestorableNodeMetadata {
        id,
        parent_id,
        title: title.to_owned(),
        sort_order: 0,
        created_at: "2026-01-01T00:00:00.000Z".to_owned(),
    }
}

#[test]
fn restored_titles_avoid_active_and_earlier_restored_siblings() {
    let nodes = vec![
        restorable(10, Some(1), "a"),
        restorable(11, Some(1), "a"),
        restorable(12, Some(10), "a"),
        restorable(13, Some(1), "b"),
    ];
    let groups = vec![ParentTitles { parent_id: Some(1), titles: vec!["a".to_owned()] }];
    let titles = restored_subtree_titles(&nodes, &groups).expect("titles are available");
    assert_eq!(titles, vec!["a (restored)", "a (restored) 2", "a", "b"]);
}
