use j3treetext::domain::document_tree::{NodeSiblingOrderUpdate, SiblingMoveDirection};
use j3treetext::domain::DomainError;
use j3treetext::error::AppError;
use j3treetext::infra::sqlite::ordering::{
    direction_delta, duplicate_bucket_plan, ensure_not_own_parent, ensure_not_under_descendant,
    ensure_row_updated, finish_sibling_reorder, next_node_id_after, parent_end_plan,
    recalculation_mismatch_error, rotated_to_end, shift_fits, sibling_swap_plan,
    sort_order_range_is_empty, swapped_sibling_updates, with_end_update, DuplicateBucketPlan,
    ParentEndPlan, SiblingSwapPlan,
};
use j3treetext::infra::sqlite::rules::{
    ensure_content_saved, next_sort_order_after, reject_nul_document_content, SiblingOrderUpdateRow,
};

fn row(node_id: i64, sort_order: i64, title: &str) -> SiblingOrderUpdateRow {
    SiblingOrderUpdateRow {
        title: title.to_owned(),
        update: NodeSiblingOrderUpdate {
            node_id,
            parent_id: Some(1),
            sort_order,
            updated_at: "t".to_owned(),
        },
    }
}

#[test]
fn next_node_id_returns_app_error_when_max_id_is_i64_max() -> Result<(), AppError> {
    match next_node_id_after(Some(i64::MAX)) {
        Err(AppError::User { .. }) => Ok(()),
        Err(error) => Err(error),
        Ok(id) => Err(AppError::user(&format!(
            "next_node_id returned {id} instead of an overflow error"
        ))),
    }
}

#[test]
fn next_child_sort_order_returns_app_error_when_max_sort_order_is_i64_max() -> Result<(), AppError> {
    match next_sort_order_after(Some(i64::MAX)) {
        Err(AppError::User { .. }) => Ok(()),
        Err(error) => Err(error),
        Ok(sort_order) => Err(AppError::user(&format!(
            "next_child_sort_order returned {sort_order} instead of an overflow error"
        ))),
    }
}

#[test]
fn next_node_id_starts_at_one_and_follows_the_largest() {
    assert_eq!(next_node_id_after(None).unwrap(), 1);
    assert_eq!(next_node_id_after(Some(41)).unwrap(), 42);
}

#[test]
fn duplicate_bucket_plan_spreads_or_recalculates() {
    assert!(duplicate_bucket_plan(1, 3).is_err());
    assert_eq!(
        duplicate_bucket_plan(3, 4).unwrap(),
        DuplicateBucketPlan::Spread { shift_delta: 2, gap_lower: 5, gap_upper: 6 }
    );
    assert_eq!(
        duplicate_bucket_plan(2, i64::MAX).unwrap(),
        DuplicateBucketPlan::Recalculate
    );
    assert!(sort_order_range_is_empty(5, 4));
    assert!(!sort_order_range_is_empty(5, 5));
    assert!(shift_fits(Some(10), 2));
    assert!(!shift_fits(Some(i64::MAX - 1), 2));
    assert!(!shift_fits(None, 1));
    assert_eq!(direction_delta(&SiblingMoveDirection::Up), -1);
    assert_eq!(direction_delta(&SiblingMoveDirection::Down), 1);
}

#[test]
fn finished_reorder_lists_updates_in_sibling_order_and_needs_both_nodes() {
    let updates = finish_sibling_reorder(vec![row(7, 5, "b"), row(8, 4, "z"), row(6, 5, "a")], 7, 8)
        .expect("both nodes changed");
    let ids: Vec<i64> = updates.iter().map(|u| u.node_id).collect();
    assert_eq!(ids, vec![8, 6, 7]);

    let error = finish_sibling_reorder(vec![row(8, 4, "z")], 7, 8).expect_err("node missing");
    assert!(matches!(error, AppError::Domain(DomainError::NodeNotFound { node_id: 7 })));
    let error = finish_sibling_reorder(vec![row(7, 4, "z")], 7, 8).expect_err("neighbor missing");
    assert!(matches!(error, AppError::Domain(DomainError::NodeNotFound { node_id: 8 })));
}

#[test]
fn parent_end_plan_follows_what_was_read() {
    assert!(matches!(
        parent_end_plan(3, false, true, Some(2), 1),
        Err(AppError::Domain(DomainError::NodeNotFound { node_id: 3 }))
    ));
    assert_eq!(parent_end_plan(3, true, false, Some(2), 1).unwrap(), ParentEndPlan::AlreadyLast);
    assert!(parent_end_plan(3, true, true, None, 1).is_err());
    assert_eq!(parent_end_plan(3, true, true, Some(1), 1).unwrap(), ParentEndPlan::RotateToEnd);
    assert_eq!(
        parent_end_plan(3, true, true, Some(4), 1).unwrap(),
        ParentEndPlan::ShiftThenPlace { end_sort_order: 4 }
    );
}

#[test]
fn rotation_moves_the_node_last_and_end_update_comes_last() {
    assert_eq!(rotated_to_end(vec![4, 5, 6], 4).unwrap(), vec![5, 6, 4]);
    assert!(matches!(
        rotated_to_end(vec![4, 5], 9),
        Err(AppError::Domain(DomainError::NodeNotFound { node_id: 9 }))
    ));
    let updates = with_end_update(Vec::new(), 4, Some(1), 7, "now");
    assert_eq!(updates.len(), 1);
    assert_eq!(updates[0].sort_order, 7);
    assert_eq!(updates[0].updated_at, "now");
}

#[test]
fn write_and_move_checks_name_the_node() {
    assert!(ensure_row_updated(1, 5).is_ok());
    assert!(matches!(
        ensure_row_updated(0, 5),
        Err(AppError::Domain(DomainError::NodeNotFound { node_id: 5 }))
    ));
    assert!(matches!(
        ensure_not_own_parent(5, 5),
        Err(AppError::Domain(DomainError::CannotMoveNodeIntoItself { node_id: 5 }))
    ));
    assert!(ensure_not_own_parent(5, 6).is_ok());
    assert!(matches!(
        ensure_not_under_descendant(5, 6, true),
        Err(AppError::Domain(DomainError::CannotMoveNodeIntoDescendant { node_id: 5, parent_id: 6 }))
    ));
    assert!(ensure_not_under_descendant(5, 6, false).is_ok());
    assert!(matches!(
        recalculation_mismatch_error(&[3, 4, 5], &[true, false, false]),
        AppError::Domain(DomainError::NodeNotFound { node_id: 4 })
    ));
    assert!(matches!(
        recalculation_mismatch_error(&[3, 3], &[true, true]),
        AppError::User { .. }
    ));
}

#[test]
fn a_step_among_siblings_swaps_or_reorders_duplicates() {
    assert_eq!(sibling_swap_plan(None, 3), SiblingSwapPlan::Stay);
    assert_eq!(sibling_swap_plan(Some(3), 3), SiblingSwapPlan::ReorderDuplicates);
    assert_eq!(sibling_swap_plan(Some(2), 3), SiblingSwapPlan::Swap);

    let up = swapped_sibling_updates(7, Some(1), 3, 8, 2, &SiblingMoveDirection::Up, "now");
    assert_eq!((up[0].node_id, up[0].sort_order), (7, 2));
    assert_eq!((up[1].node_id, up[1].sort_order), (8, 3));
    let down = swapped_sibling_updates(7, Some(1), 3, 9, 4, &SiblingMoveDirection::Down, "now");
    assert_eq!((down[0].node_id, down[0].sort_order), (9, 3));
    assert_eq!((down[1].node_id, down[1].sort_order), (7, 4));
    assert!(down.iter().all(|u| u.parent_id == Some(1) && u.updated_at == "now"));
}

#[test]
fn content_saves_refuse_nul_and_report_conflicts() {
    assert!(reject_nul_document_content(3, "plain").is_ok());
    assert!(matches!(
        reject_nul_document_content(3, "a\0b"),
        Err(AppError::Domain(DomainError::EmbeddedNulContent { node_id: 3 }))
    ));
    assert!(ensure_content_saved(1, 3, true).is_ok());
    assert!(matches!(
        ensure_content_saved(0, 3, true),
        Err(AppError::Domain(DomainError::EmbeddedNulContent { node_id: 3 }))
    ));
    assert!(matches!(
        ensure_content_saved(0, 3, false),
        Err(AppError::Domain(DomainError::DocumentSaveConflict { node_id: 3 }))
    ));
}
