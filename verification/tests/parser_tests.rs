use std::path::PathBuf;

use j3treetext::cli::args::{CliArg, CliArgs};
use j3treetext::cli::content::ContentSource;
use j3treetext::cli::parser::{
    parse_create_args, parse_edit_args, parse_move_args, parse_node_id_args, parse_rename_args,
    parse_search_args, parse_show_args,
};

fn args(values: &[&str]) -> CliArgs {
    CliArgs::new(values.iter().map(|v| CliArg::Text((*v).to_owned())).collect())
}

#[test]
fn show_takes_node_id_and_trash_flag_in_any_order() {
    let command = parse_show_args(args(&["--trash", "7"])).expect("show args");
    assert_eq!(command.node_id, 7);
    assert!(command.trash_only);
    let command = parse_show_args(args(&["3"])).expect("show args");
    assert_eq!(command.node_id, 3);
    assert!(!command.trash_only);
}

#[test]
fn show_requires_node_id_and_rejects_second_one() {
    let error = parse_show_args(args(&["--trash"])).expect_err("missing node id");
    assert_eq!(error.user_message(), "show 명령에는 <node_id>가 필요합니다.");
    let error = parse_show_args(args(&["1", "2"])).expect_err("second node id");
    assert_eq!(error.user_message(), "show 명령에서 알 수 없는 인수입니다: 2");
    let error = parse_show_args(args(&["--trash", "--trash", "1"])).expect_err("repeated flag");
    assert_eq!(error.user_message(), "--trash 옵션은 한 번만 사용할 수 있습니다.");
}

#[test]
fn create_reads_parent_title_and_content() {
    let command = parse_create_args(args(&["--parent", "1", "--title", "메모", "--content", "본문"]))
        .expect("create args");
    assert_eq!(command.parent_id, 1);
    assert_eq!(command.title, "메모");
    assert!(matches!(command.content, ContentSource::Literal(ref text) if text == "본문"));

    let command = parse_create_args(args(&["--title", "t", "--parent", "2"])).expect("create args");
    assert!(matches!(command.content, ContentSource::Absent));

    let command = parse_create_args(args(&["--parent", "2", "--title", "t", "--content-file", "a.txt"]))
        .expect("create args");
    assert!(matches!(command.content, ContentSource::File(CliArg::Text(ref path)) if PathBuf::from(path) == PathBuf::from("a.txt")));
}

#[test]
fn create_reports_missing_options_and_duplicate_sources() {
    let error = parse_create_args(args(&["--title", "t"])).expect_err("missing parent");
    assert_eq!(error.user_message(), "create 명령에는 --parent <node_id> 옵션이 필요합니다.");
    let error = parse_create_args(args(&["--parent", "1"])).expect_err("missing title");
    assert_eq!(error.user_message(), "create 명령에는 --title <title> 옵션이 필요합니다.");
    let error = parse_create_args(args(&["--parent", "1", "--title", "t", "--stdin", "--content", "x"]))
        .expect_err("two sources");
    assert_eq!(
        error.user_message(),
        "본문 입력 옵션은 --content, --content-file, --stdin 중 하나만 사용할 수 있습니다."
    );
    let error = parse_create_args(args(&["--parent", "0"])).expect_err("bad id");
    assert_eq!(error.user_message(), "--parent 값은 1 이상의 정수여야 합니다: 0");
    let error = parse_create_args(args(&["--bogus"])).expect_err("unknown option");
    assert_eq!(error.user_message(), "create 명령에서 알 수 없는 인수입니다: --bogus");
}

#[test]
fn edit_requires_one_content_source_and_accepts_append_once() {
    let command = parse_edit_args(args(&["5", "--stdin", "--append"])).expect("edit args");
    assert_eq!(command.node_id, 5);
    assert!(command.append);
    assert!(matches!(command.content, ContentSource::Stdin));

    let error = parse_edit_args(args(&["5", "--append"])).expect_err("no source");
    assert_eq!(
        error.user_message(),
        "edit 명령에는 --content, --content-file, --stdin 중 하나가 필요합니다."
    );
    let error = parse_edit_args(args(&["5", "--append", "--append"])).expect_err("twice");
    assert_eq!(error.user_message(), "--append 옵션은 한 번만 사용할 수 있습니다.");
    let error = parse_edit_args(args(&[])).expect_err("no node id");
    assert_eq!(error.user_message(), "node_id 값이 필요합니다.");
}

#[test]
fn rename_and_move_read_their_single_option() {
    let command = parse_rename_args(args(&["4", "--title", "새 제목"])).expect("rename args");
    assert_eq!(command.node_id, 4);
    assert_eq!(command.title, "새 제목");
    let error = parse_rename_args(args(&["4"])).expect_err("no title");
    assert_eq!(error.user_message(), "rename 명령에는 --title <title> 옵션이 필요합니다.");

    let command = parse_move_args(args(&["4", "--parent", "9"])).expect("move args");
    assert_eq!(command.node_id, 4);
    assert_eq!(command.parent_id, 9);
    let error = parse_move_args(args(&["4", "--parent", "9", "--parent", "8"])).expect_err("twice");
    assert_eq!(error.user_message(), "--parent 옵션은 한 번만 사용할 수 있습니다.");
    let error = parse_move_args(args(&["4", "--title", "x"])).expect_err("unknown");
    assert_eq!(error.user_message(), "move 명령에서 알 수 없는 인수입니다: --title");
}

#[test]
fn search_and_node_id_commands_take_one_argument() {
    assert_eq!(parse_search_args(args(&["질의"])).expect("query"), "질의");
    let error = parse_search_args(args(&["a", "b"])).expect_err("extra");
    assert_eq!(error.user_message(), "search 명령에서 알 수 없는 인수입니다: b");
    let error = parse_search_args(args(&[])).expect_err("missing");
    assert_eq!(error.user_message(), "query 값이 필요합니다.");

    assert_eq!(parse_node_id_args(args(&["12"]), "delete").expect("id"), 12);
    let error = parse_node_id_args(args(&["12", "x"]), "delete").expect_err("extra");
    assert_eq!(error.user_message(), "delete 명령에서 알 수 없는 인수입니다: x");
}
