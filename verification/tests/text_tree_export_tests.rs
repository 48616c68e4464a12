use j3treetext::domain::document_tree::Node;
use j3treetext::domain::ui_settings::TextEncoding;
use j3treetext::error::AppError;
use j3treetext::infra::text_tree_export::{
    export_path_component, finish_text_tree_export_write, is_invalid_path_component_char,
    plan_document_tree_text_exports, sanitize_export_title, text_encoding_needs_prevalidation,
};

fn node(id: i64, parent_id: Option<i64>, title: &str, sort_order: i64, content: &str) -> Node {
    Node {
        id,
        parent_id,
        title: title.to_owned(),
        sort_order,
        content: content.to_owned(),
        created_at: "2026-04-30T00:00:00Z".to_owned(),
        updated_at: "2026-04-30T00:00:00Z".to_owned(),
        deleted_at: None,
    }
}

fn planned_paths(nodes: &[Node]) -> Vec<String> {
    plan_document_tree_text_exports(nodes)
        .into_iter()
        .map(|planned| {
            let mut parts = planned.directory.clone();
            parts.push(planned.file_name.clone());
            format!("{}={}", parts.join("/"), nodes[planned.node_index].id)
        })
        .collect()
}

#[test]
fn active_document_tree_is_planned_as_nested_txt_files() {
    let nodes = vec![
        node(1, None, "Root", 0, "root body"),
        node(2, Some(1), "Alpha", 0, "alpha body"),
        node(3, Some(1), "Bad/Name", 1, "bad body"),
        node(4, Some(2), "Grand", 0, "grand body"),
    ];

    assert_eq!(
        planned_paths(&nodes),
        vec![
            "1 - Root.txt=1".to_owned(),
            "1 - Root/2 - Alpha.txt=2".to_owned(),
            "1 - Root/2 - Alpha/4 - Grand.txt=4".to_owned(),
            "1 - Root/3 - Bad_Name.txt=3".to_owned(),
        ]
    );
}

#[test]
fn siblings_are_planned_in_sibling_order() {
    let nodes = vec![
        node(1, None, "Root", 0, ""),
        node(5, Some(1), "Later", 2, ""),
        node(4, Some(1), "Earlier", 1, ""),
    ];
    assert_eq!(
        planned_paths(&nodes),
        vec![
            "1 - Root.txt=1".to_owned(),
            "1 - Root/4 - Earlier.txt=4".to_owned(),
            "1 - Root/5 - Later.txt=5".to_owned(),
        ]
    );
}

#[test]
fn titles_are_made_safe_for_file_names() {
    assert_eq!(sanitize_export_title("a<b>c:d\"e/f\\g|h?i*j"), "a_b_c_d_e_f_g_h_i_j");
    assert_eq!(sanitize_export_title("tab\there"), "tab_here");
    assert_eq!(sanitize_export_title("trailing. . "), "trailing");
    assert_eq!(sanitize_export_title(" ... "), "Untitled");
    assert_eq!(sanitize_export_title(&"가".repeat(100)), "가".repeat(96));
    assert!(is_invalid_path_component_char('\u{85}'));
    assert!(!is_invalid_path_component_char('é'));
}

#[test]
fn path_component_joins_id_and_title() {
    assert_eq!(export_path_component(&node(7, Some(1), "Notes?", 0, "")), "7 - Notes_");
}

#[test]
fn only_utf8_export_skips_prevalidation() {
    assert!(!text_encoding_needs_prevalidation(TextEncoding::Utf8));
    assert!(text_encoding_needs_prevalidation(TextEncoding::Utf8WithBom));
    assert!(text_encoding_needs_prevalidation(TextEncoding::KoreanEucKr));
}

#[test]
fn finishing_reports_its_own_error_first() {
    let write_error = AppError::user("write");
    let finish_error = AppError::user("finish");
    assert!(matches!(
        finish_text_tree_export_write(Err(write_error), Err(finish_error)),
        Err(AppError::User { message }) if message == "finish"
    ));
    assert!(matches!(
        finish_text_tree_export_write(Err(AppError::user("write")), Ok(())),
        Err(AppError::User { message }) if message == "write"
    ));
    assert!(finish_text_tree_export_write(Ok(()), Ok(())).is_ok());
}
