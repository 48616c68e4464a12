use j3treetext::cli::args::{parse_node_id_text, set_once, CliArg, CliArgs};
use j3treetext::cli::content::{
    check_read_content, reject_combined_content_byte_len_over_limit,
    reject_content_byte_len_over_limit, reject_content_over_byte_limit,
    reject_embedded_nul_content, ContentSource,
};
use j3treetext::cli::parser::set_content_source;
use j3treetext::error::AppError;
use j3treetext::infra::text_file::TEXT_FILE_BYTE_LIMIT;

#[test]
fn content_read_from_external_source_accepts_text_without_nul() {
    reject_embedded_nul_content("plain text")
        .expect("content without embedded NUL should be accepted");
}

#[test]
fn content_read_from_external_source_rejects_embedded_nul() {
    let error = reject_embedded_nul_content("before\0after")
        .expect_err("embedded NUL content should be rejected");

    assert_eq!(
        error.user_message(),
        "본문에 NUL 문자가 포함되어 있어 저장할 수 없습니다."
    );
}

#[test]
fn duplicate_content_sources_are_rejected() {
    let mut source = ContentSource::Absent;
    set_content_source(&mut source, ContentSource::Literal("one".to_owned()))
        .expect("first content source should be accepted");

    assert!(set_content_source(&mut source, ContentSource::Stdin).is_err());
}

#[test]
fn content_over_byte_limit_is_rejected_with_import_message() {
    let error = reject_content_byte_len_over_limit(TEXT_FILE_BYTE_LIMIT as u64 + 1)
        .expect_err("oversized content should be rejected");

    assert_eq!(
        error.user_message(),
        "가져올 텍스트가 너무 큽니다. 16MiB 이하로 나누어 다시 시도하세요."
    );
    assert!(reject_content_byte_len_over_limit(TEXT_FILE_BYTE_LIMIT as u64).is_ok());
    assert!(reject_content_over_byte_limit("short").is_ok());
}

#[test]
fn combined_content_length_is_checked_without_overflow() {
    assert!(reject_combined_content_byte_len_over_limit(u64::MAX, 1).is_err());
    assert!(reject_combined_content_byte_len_over_limit(TEXT_FILE_BYTE_LIMIT as u64, 1).is_err());
    assert!(reject_combined_content_byte_len_over_limit(TEXT_FILE_BYTE_LIMIT as u64 - 1, 1).is_ok());
}

#[test]
fn read_content_checks_size_before_nul() {
    assert!(check_read_content("body").is_ok());
    let error = check_read_content("a\0b").expect_err("NUL should be refused");
    assert!(matches!(error, AppError::User { .. }));
}

#[test]
fn option_given_twice_is_rejected() {
    let mut parent = None;
    set_once(&mut parent, 3_i64, "--parent").expect("first value should be stored");
    let error = set_once(&mut parent, 4_i64, "--parent").expect_err("second value should fail");

    assert_eq!(parent, Some(3));
    assert_eq!(error.user_message(), "--parent 옵션은 한 번만 사용할 수 있습니다.");
}

#[test]
fn node_ids_must_be_positive_integers() {
    assert_eq!(parse_node_id_text("42", "node_id").ok(), Some(42));
    assert_eq!(
        parse_node_id_text("0", "node_id")
            .expect_err("zero should be refused")
            .user_message(),
        "node_id 값은 1 이상의 정수여야 합니다: 0"
    );
    assert!(parse_node_id_text("x1", "--parent").is_err());
    assert!(parse_node_id_text("-5", "--parent").is_err());
}

#[test]
fn arguments_are_taken_from_the_front() {
    let mut args = CliArgs::new(vec![
        CliArg::Text("--db".to_owned()),
        CliArg::Text("7".to_owned()),
        CliArg::Other(std::path::PathBuf::from("raw")),
    ]);

    assert!(args.peek_is("--db"));
    assert!(!args.peek_is("--help"));
    assert_eq!(args.pop_string("option").ok(), Some("--db".to_owned()));
    assert_eq!(args.pop_node_id("node_id").ok(), Some(7));
    assert!(args.pop_optional_string().is_err());
    assert!(args.is_empty());
    assert_eq!(args.pop_optional_string().ok(), Some(None));
    assert_eq!(
        args.pop_string("--title")
            .expect_err("no value is left")
            .user_message(),
        "--title 값이 필요합니다."
    );
}

#[test]
fn leftover_arguments_are_reported_by_command() {
    let args = CliArgs::new(vec![CliArg::Text("extra".to_owned())]);
    assert_eq!(
        args.ensure_empty("tree")
            .expect_err("extra argument should fail")
            .user_message(),
        "tree 명령에서 알 수 없는 인수입니다: extra"
    );
    assert!(CliArgs::new(Vec::new()).ensure_empty("tree").is_ok());
}

#[test]
fn read_content_over_limit_reports_import_size() {
    let content = "a".repeat(TEXT_FILE_BYTE_LIMIT + 1);
    let error = check_read_content(&content).expect_err("too large");
    assert_eq!(
        error.user_message(),
        "가져올 텍스트가 너무 큽니다. 16MiB 이하로 나누어 다시 시도하세요."
    );
}

#[test]
fn path_arguments_are_handed_back_as_given() {
    let mut args = CliArgs::new(vec![
        CliArg::Text("notes.db".to_owned()),
        CliArg::Other(std::path::PathBuf::from("raw.db")),
    ]);
    match args.pop_path("--db") {
        Ok(CliArg::Text(text)) => assert_eq!(text, "notes.db"),
        _ => panic!("the text argument should come back"),
    }
    match args.pop_path("--db") {
        Ok(CliArg::Other(path)) => assert_eq!(path, std::path::PathBuf::from("raw.db")),
        _ => panic!("the raw argument should come back"),
    }
    assert_eq!(
        args.pop_path("--db").expect_err("nothing is left").user_message(),
        "--db 값이 필요합니다."
    );
}
