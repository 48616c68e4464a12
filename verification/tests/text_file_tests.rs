use j3treetext::domain::ui_settings::TextEncoding;
use j3treetext::error::{AppError, TextFileTooLargeUserMessage};
use j3treetext::infra::text_file::{
    decode_text, encode_text, encode_text_file_for_export, ensure_regular_text_input_file,
    ensure_text_file_byte_len_within_limit, metadata_len_capacity,
    validate_text_file_export_encoding, TEXT_FILE_BYTE_LIMIT,
};

const UTF8_BOM: &[u8] = &[0xEF, 0xBB, 0xBF];
const UTF16_LE_BOM: &[u8] = &[0xFF, 0xFE];
const UTF16_BE_BOM: &[u8] = &[0xFE, 0xFF];

#[test]
fn utf8_without_bom_round_trips() -> Result<(), AppError> {
    let content = "Hello\nUTF-8 한글";

    let bytes = encode_text(content, TextEncoding::Utf8)?;
    let decoded = decode_text(&bytes, TextEncoding::Utf8)?;

    assert_eq!(bytes, content.as_bytes());
    assert_eq!(decoded.content, content);
    assert_eq!(decoded.encoding, TextEncoding::Utf8);
    Ok(())
}

#[test]
fn utf8_with_bom_round_trips() -> Result<(), AppError> {
    let content = "Hello with BOM";

    let bytes = encode_text(content, TextEncoding::Utf8WithBom)?;
    let decoded = decode_text(&bytes, TextEncoding::Utf8WithBom)?;

    assert!(bytes.starts_with(UTF8_BOM));
    assert_eq!(decoded.content, content);
    assert_eq!(decoded.encoding, TextEncoding::Utf8WithBom);
    Ok(())
}

#[test]
fn utf16_le_and_be_with_bom_decode() -> Result<(), AppError> {
    let content = "A한";

    let le = encode_text(content, TextEncoding::Utf16LeWithBom)?;
    let be = encode_text(content, TextEncoding::Utf16BeWithBom)?;

    assert_eq!(
        decode_text(&le, TextEncoding::Utf16LeWithBom)?.content,
        content
    );
    assert_eq!(
        decode_text(&be, TextEncoding::Utf16BeWithBom)?.content,
        content
    );
    Ok(())
}

#[test]
fn utf16_export_includes_required_bom() -> Result<(), AppError> {
    let content = "BOM";

    let le = encode_text(content, TextEncoding::Utf16LeWithBom)?;
    let be = encode_text(content, TextEncoding::Utf16BeWithBom)?;

    assert!(le.starts_with(UTF16_LE_BOM));
    assert!(be.starts_with(UTF16_BE_BOM));
    Ok(())
}

#[test]
fn auto_detect_falls_back_after_invalid_utf8() -> Result<(), AppError> {
    let korean = encode_text("한글", TextEncoding::KoreanEucKr)?;

    let decoded = decode_text(&korean, TextEncoding::AutoDetect)?;

    assert_eq!(decoded.content, "한글");
    assert_eq!(decoded.encoding, TextEncoding::KoreanEucKr);
    Ok(())
}

#[test]
fn auto_detect_uses_windows_1252_after_invalid_euc_kr() -> Result<(), AppError> {
    let decoded = decode_text(&[0xff], TextEncoding::AutoDetect)?;

    assert_eq!(decoded.content, "\u{00ff}");
    assert_eq!(decoded.encoding, TextEncoding::Windows1252);
    Ok(())
}

#[test]
fn windows_1252_round_trips_representable_text() -> Result<(), AppError> {
    let content = "Cafe \u{00e9}";

    let bytes = encode_text(content, TextEncoding::Windows1252)?;
    let decoded = decode_text(&bytes, TextEncoding::Windows1252)?;

    assert_eq!(decoded.content, content);
    Ok(())
}

#[test]
fn invalid_utf8_returns_decoding_error() {
    let error = decode_text(&[0xff], TextEncoding::Utf8);

    assert!(matches!(error, Err(AppError::TextEncoding { .. })));
}

#[test]
fn unrepresentable_legacy_export_returns_encoding_error() {
    let error = encode_text("emoji \u{1f600}", TextEncoding::Windows1252);

    assert!(matches!(error, Err(AppError::TextEncoding { .. })));
}

#[test]
fn euc_kr_export_limit_uses_encoded_byte_len_not_utf8_len() -> Result<(), AppError> {
    let content = "가".repeat(TEXT_FILE_BYTE_LIMIT / 2);

    assert!(content.len() > TEXT_FILE_BYTE_LIMIT);
    assert_eq!(
        encode_text_file_for_export(&content, TextEncoding::KoreanEucKr)?
            .as_bytes()
            .len(),
        TEXT_FILE_BYTE_LIMIT
    );
    Ok(())
}

#[test]
fn utf16_surrogate_pairs_round_trip_in_both_byte_orders() -> Result<(), AppError> {
    let content = "emoji \u{1f600} 한";
    let le = encode_text(content, TextEncoding::Utf16LeWithBom)?;
    let be = encode_text(content, TextEncoding::Utf16BeWithBom)?;

    assert_eq!(&le[..2], UTF16_LE_BOM);
    assert_eq!(&le[14..18], &[0x3D, 0xD8, 0x00, 0xDE]);
    assert_eq!(&be[14..18], &[0xD8, 0x3D, 0xDE, 0x00]);
    assert_eq!(le.len(), 2 + 2 * content.encode_utf16().count());
    assert_eq!(decode_text(&le, TextEncoding::AutoDetect)?.content, content);
    assert_eq!(
        decode_text(&be, TextEncoding::AutoDetect)?.encoding,
        TextEncoding::Utf16BeWithBom
    );
    Ok(())
}

#[test]
fn decoding_errors_name_the_encoding_and_reason() {
    match decode_text(b"plain", TextEncoding::Utf8WithBom) {
        Err(AppError::TextEncoding { detail, encoding, .. }) => {
            assert_eq!(detail, "missing UTF-8 BOM byte order mark");
            assert_eq!(encoding, TextEncoding::Utf8WithBom);
        }
        other => panic!("missing BOM should fail: {other:?}"),
    }
    match decode_text(&[0xFF, 0xFE, 0x41], TextEncoding::Utf16LeWithBom) {
        Err(AppError::TextEncoding { detail, .. }) => {
            assert_eq!(detail, "UTF-16 content has an odd byte length after the BOM");
        }
        other => panic!("odd length should fail: {other:?}"),
    }
    assert!(matches!(
        decode_text(&[0xFF, 0xFE, 0x00, 0xDC], TextEncoding::Utf16LeWithBom),
        Err(AppError::TextEncoding { .. })
    ));
    match decode_text(&[0x81], TextEncoding::KoreanEucKr) {
        Err(AppError::TextEncoding { detail, .. }) => {
            assert_eq!(detail, "legacy decoder reported malformed byte sequences");
        }
        other => panic!("truncated EUC-KR should fail: {other:?}"),
    }
}

#[test]
fn auto_detect_is_not_an_export_encoding() {
    let error = encode_text("text", TextEncoding::AutoDetect).expect_err("auto detect cannot export");
    assert_eq!(
        error.user_message(),
        "선택한 인코딩(자동 감지)으로 저장할 수 없는 문자가 있습니다.\nUTF-8 또는 UTF-16으로 내보내세요."
    );
    assert!(validate_text_file_export_encoding("text", TextEncoding::AutoDetect).is_err());
}

#[test]
fn export_refuses_output_over_the_limit() {
    let content = "a".repeat(TEXT_FILE_BYTE_LIMIT / 2 + 1);
    let error = encode_text_file_for_export(&content, TextEncoding::Utf16LeWithBom)
        .expect_err("UTF-16 output is over the limit");
    assert!(matches!(
        error,
        AppError::TextFileTooLarge {
            user_message: TextFileTooLargeUserMessage::Export,
            limit_mib: 16
        }
    ));
    assert!(validate_text_file_export_encoding(&content, TextEncoding::Utf8).is_ok());

    let exact = "a".repeat(TEXT_FILE_BYTE_LIMIT - 3);
    assert!(validate_text_file_export_encoding(&exact, TextEncoding::Utf8WithBom).is_ok());
    let over = "a".repeat(TEXT_FILE_BYTE_LIMIT - 2);
    assert!(validate_text_file_export_encoding(&over, TextEncoding::Utf8WithBom).is_err());
}

#[test]
fn read_size_checks_use_the_byte_limit() {
    assert!(ensure_text_file_byte_len_within_limit(TEXT_FILE_BYTE_LIMIT as u64, TextFileTooLargeUserMessage::Import).is_ok());
    let error = ensure_text_file_byte_len_within_limit(
        TEXT_FILE_BYTE_LIMIT as u64 + 1,
        TextFileTooLargeUserMessage::Import,
    )
    .expect_err("one byte over the limit");
    assert_eq!(
        error.user_message(),
        "가져올 텍스트가 너무 큽니다. 16MiB 이하로 나누어 다시 시도하세요."
    );
    assert_eq!(metadata_len_capacity(10), 10);
    assert_eq!(metadata_len_capacity(u64::MAX), TEXT_FILE_BYTE_LIMIT);
    assert_eq!(
        ensure_regular_text_input_file(false)
            .expect_err("a directory is not a text file")
            .user_message(),
        "텍스트 파일은 일반 파일이어야 합니다."
    );
}
