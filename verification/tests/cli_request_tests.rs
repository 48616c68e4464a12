use std::path::PathBuf;

use j3treetext::cli::args::{CliArg, CliArgs};
use j3treetext::cli::output::{
    moved_to_parent_line, node_id_line, node_id_text_line, node_text, search_results_text,
    HELP_TEXT,
};
use j3treetext::cli::request::{
    cli_request, command_kind, resolve_show_node, CliRequest, CommandKind,
};
use j3treetext::error::AppError;
use j3treetext::domain::document_tree::{DocumentSearchResult, Node};

fn args(values: &[&str]) -> CliArgs {
    CliArgs::new(values.iter().map(|v| CliArg::Text((*v).to_owned())).collect())
}

fn node(id: i64, parent_id: Option<i64>, title: &str, content: &str, deleted_at: Option<&str>) -> Node {
    Node {
        id,
        parent_id,
        title: title.to_owned(),
        sort_order: 0,
        content: content.to_owned(),
        created_at: "2026-01-01T00:00:00.000Z".to_owned(),
        updated_at: "2026-01-02T00:00:00.000Z".to_owned(),
        deleted_at: deleted_at.map(str::to_owned),
    }
}

#[test]
fn no_command_or_help_flag_asks_for_help() {
    assert!(matches!(cli_request(args(&[])), Ok(CliRequest::Help)));
    assert!(matches!(cli_request(args(&["--help"])), Ok(CliRequest::Help)));
    assert!(matches!(cli_request(args(&["--db", "x.db", "-h"])), Ok(CliRequest::Help)));
    assert!(matches!(cli_request(args(&["help", "tree"])), Ok(CliRequest::Help)));
    assert!(HELP_TEXT.starts_with("j3TreeTextCli - SQLite document tree CLI"));
}

#[test]
fn db_option_is_read_once_before_the_command() {
    match cli_request(args(&["--db", "notes.db", "show", "3"])) {
        Ok(CliRequest::Command { db_path, command, args }) => {
            match db_path {
                Some(CliArg::Text(text)) => assert_eq!(PathBuf::from(text), PathBuf::from("notes.db")),
                other => panic!("unexpected database argument: {other:?}"),
            }
            assert_eq!(command, "show");
            assert!(args.peek_is("3"));
        }
        _ => panic!("expected a command"),
    }
    let error = cli_request(args(&["--db", "a.db", "--db", "b.db", "tree"]))
        .err()
        .expect("repeated --db");
    assert_eq!(error.user_message(), "--db 옵션은 한 번만 사용할 수 있습니다.");
    let error = cli_request(args(&["--db"])).err().expect("missing value");
    assert_eq!(error.user_message(), "--db 값이 필요합니다.");
}

#[test]
fn command_names_map_to_commands() {
    assert_eq!(command_kind("move-down").unwrap(), CommandKind::MoveDown);
    assert_eq!(command_kind("tree").unwrap(), CommandKind::Tree);
    let error = command_kind("bogus").unwrap_err();
    assert_eq!(
        error.user_message(),
        "알 수 없는 CLI 명령입니다: bogus\n사용법을 보려면 --help를 실행하세요."
    );
}

#[test]
fn node_text_lists_fields_then_content_with_a_final_line_break() {
    assert_eq!(
        node_text(&node(5, Some(1), "제목", "본문", None)),
        "id: 5\nparent_id: 1\ntitle: 제목\ncreated_at: 2026-01-01T00:00:00.000Z\nupdated_at: 2026-01-02T00:00:00.000Z\ncontent:\n본문\n"
    );
    assert_eq!(
        node_text(&node(1, None, "root", "line\n", Some("2026-01-03T00:00:00.000Z"))),
        "id: 1\nparent_id: -\ntitle: root\ncreated_at: 2026-01-01T00:00:00.000Z\nupdated_at: 2026-01-02T00:00:00.000Z\ndeleted_at: 2026-01-03T00:00:00.000Z\ncontent:\nline\n"
    );
}

#[test]
fn search_results_and_confirmations_are_one_line_each() {
    let results = vec![
        DocumentSearchResult {
            node: node(7, Some(1), "메모", "", None),
            parent_title: Some("Root".to_owned()),
            content_matched: true,
        },
        DocumentSearchResult {
            node: node(1, None, "Root", "", None),
            parent_title: None,
            content_matched: false,
        },
    ];
    assert_eq!(search_results_text(&results), "[7] 메모 (parent: Root)\n[1] Root (parent: -)\n");
    assert_eq!(node_id_line("deleted", 4), "deleted [4]\n");
    assert_eq!(node_id_text_line("renamed", 4, "새 제목"), "renamed [4] 새 제목\n");
    assert_eq!(moved_to_parent_line(4, 2), "moved [4] to parent [2]\n");
}

#[test]
fn show_node_resolution_preserves_deleted_lookup_errors() {
    let error = match resolve_show_node(None, || Err(AppError::user("deleted lookup failed"))) {
        Ok(_) => panic!("deleted lookup error should be returned"),
        Err(error) => error,
    };

    assert_eq!(error.user_message(), "deleted lookup failed");
}

#[test]
fn show_node_resolution_prefers_active_node() {
    let active = Node {
        id: 1,
        parent_id: None,
        title: "Active".to_owned(),
        sort_order: 0,
        content: String::new(),
        created_at: "2026-05-01T00:00:00Z".to_owned(),
        updated_at: "2026-05-01T00:00:00Z".to_owned(),
        deleted_at: None,
    };

    let selected = resolve_show_node(Some(active), || {
        Err(AppError::user("deleted lookup should not run"))
    })
    .expect("active node should be returned");

    assert_eq!(selected.id, 1);
}
