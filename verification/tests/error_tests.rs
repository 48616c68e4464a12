use j3treetext::domain::ui_settings::TextEncoding;
use j3treetext::domain::DomainError;
use j3treetext::error::{
    platform_user_message, AppError, IoUserMessage, PlatformUserMessage, SqliteUserMessage,
    TextEncodingUserMessage, TextFileTooLargeUserMessage, INTERNAL_CONSISTENCY_USER_MESSAGE,
};

#[test]
fn platform_runtime_errors_do_not_claim_startup_failure() {
    let error = AppError::platform("handle editor change", "window state was not attached");

    assert_eq!(
        error.user_message(),
        "데스크톱 UI 오류입니다. 다시 시도하세요."
    );
}

#[test]
fn internal_consistency_errors_use_document_data_user_message() {
    let error = AppError::internal_consistency(
        "recalculate sibling sort order",
        "sibling order contains duplicate nodes",
    );

    assert_eq!(error.user_message(), INTERNAL_CONSISTENCY_USER_MESSAGE);
    assert!(!error.has_source());
}

#[test]
fn platform_font_errors_have_font_specific_user_message() {
    let error = AppError::platform_with_user_message(
        "choose editor font",
        PlatformUserMessage::Font,
        "window state was not attached",
    );

    assert_eq!(
        error.user_message(),
        "글꼴을 적용할 수 없습니다. 다른 글꼴을 선택하세요."
    );
}

#[test]
fn platform_startup_errors_keep_startup_user_message() {
    let error = AppError::platform_with_user_message(
        "create main window",
        PlatformUserMessage::Win32Startup,
        "Win32 error code 1",
    );

    assert_eq!(error.user_message(), "Windows 창을 시작하지 못했습니다.");
}

#[test]
fn rich_edit_startup_errors_have_editor_specific_user_message() {
    let error = AppError::platform_with_user_message(
        "load Rich Edit library",
        PlatformUserMessage::RichEditStartup,
        "Win32 error code 126",
    );

    assert_eq!(
        error.user_message(),
        "Windows 본문 편집기를 시작하지 못했습니다."
    );
}

#[test]
fn domain_errors_map_to_short_user_messages() {
    let error = AppError::from(DomainError::CannotMoveNodeIntoItself { node_id: 3 });
    assert_eq!(error.user_message(), "자기 자신이나 하위 문서로 이동할 수 없습니다.");
    assert!(error.has_source());
    assert_eq!(
        AppError::from(DomainError::MultipleRoots).user_message(),
        "문서 데이터가 올바르지 않습니다."
    );
    assert_eq!(
        AppError::from(DomainError::EmptyTitleInput).user_message(),
        "이름을 입력하세요."
    );
}

#[test]
fn io_and_sqlite_errors_use_their_user_message_kind() {
    let io = std::io::Error::new(std::io::ErrorKind::Other, "disk");
    let error = AppError::io_with_user_message("read", IoUserMessage::ReadTextFile, io);
    assert_eq!(error.user_message(), "텍스트 파일을 읽을 수 없습니다. 경로와 권한을 확인하세요.");

    let source = rusqlite::Error::InvalidQuery;
    let error = AppError::sqlite_with_user_message("save", SqliteUserMessage::SaveDocumentContent, source);
    assert_eq!(
        error.user_message(),
        "문서를 저장할 수 없습니다. DB 파일 권한과 디스크 용량을 확인하세요."
    );
}

#[test]
fn encoding_and_size_messages_name_the_encoding_and_limit() {
    let error = AppError::text_encoding_with_user_message(
        "decode",
        TextEncodingUserMessage::Decode,
        TextEncoding::KoreanEucKr,
        "bad bytes",
    );
    assert_eq!(
        error.user_message(),
        "선택한 인코딩(한국어 (EUC-KR/CP949))으로 읽을 수 없습니다.\n다른 인코딩을 선택하세요."
    );
    let error = AppError::text_file_too_large(TextFileTooLargeUserMessage::Export, 123);
    assert_eq!(
        error.user_message(),
        "내보낼 텍스트가 너무 큽니다. 123MiB 이하로 나누어 다시 시도하세요."
    );
    assert_eq!(TextFileTooLargeUserMessage::Generic.action(), "process");
    assert_eq!(
        platform_user_message(PlatformUserMessage::DesktopUiUnsupported),
        "현재 플랫폼에서 데스크톱 UI를 사용할 수 없습니다."
    );
}

#[test]
fn database_open_message_shows_the_path() {
    let error = AppError::database_open(
        std::path::PathBuf::from("data.db"),
        rusqlite::Error::InvalidQuery,
    );
    assert_eq!(
        error.user_message(),
        "문서 DB를 열 수 없습니다.\n경로: data.db\n쓰기 권한, 파일 잠금, 디스크 용량을 확인하세요."
    );
}

#[test]
fn domain_errors_describe_themselves() {
    assert_eq!(
        DomainError::MissingParent { node_id: 5, parent_id: -2 }.message(),
        "node 5 references missing parent -2"
    );
    assert_eq!(
        DomainError::DuplicateSiblingTitle { parent_id: Some(3), title: "Doc \"A\"".to_owned() }
            .message(),
        "parent node 3 already has an active child titled \"Doc \\\"A\\\"\""
    );
    assert_eq!(
        DomainError::DuplicateSiblingTitle { parent_id: None, title: "x".to_owned() }.message(),
        "root level already has an active node titled \"x\""
    );
    assert_eq!(DomainError::MissingRoot.message(), "document has no root node");
}

#[test]
fn app_errors_describe_their_cause() {
    assert_eq!(
        AppError::from(DomainError::CannotMoveRoot).describe(),
        "domain error: root document cannot be moved"
    );
    assert_eq!(
        AppError::platform("load font", "missing").describe(),
        "load font: missing"
    );
    assert_eq!(
        AppError::text_encoding("decode text file", TextEncoding::Utf8, "bad").describe(),
        "decode text file as UTF-8: bad"
    );
    assert_eq!(
        AppError::text_file_too_large(TextFileTooLargeUserMessage::Import, 16).describe(),
        "import text exceeds 16MiB"
    );
    assert_eq!(AppError::user("stop").describe(), "user action: stop");
    let io = std::io::Error::new(std::io::ErrorKind::Other, "disk full");
    assert_eq!(AppError::io("write stdout", io).describe(), "write stdout: disk full");
}
