//! Where the body of a created or edited document comes from, and the checks that
//! every body passes before it is stored.
use vstd::prelude::*;

use crate::error::{AppError, TextFileTooLargeUserMessage};
use crate::infra::text_file::{TEXT_FILE_BYTE_LIMIT, TEXT_FILE_MIB_LIMIT};
use crate::text::{has_char, str_bytes, str_has_char};

verus! {

/// The message for a body with an embedded NUL character.
pub const EMBEDDED_NUL_CONTENT_MESSAGE: &'static str =
    "본문에 NUL 문자가 포함되어 있어 저장할 수 없습니다.";

/// Where a command reads a document body from.
#[derive(Debug)]
pub enum ContentSource {
    Absent,
    Literal(String),
    /// A file, named by its command-line argument.
    File(crate::cli::args::CliArg),
    Stdin,
}

pub open spec fn content_too_large(error: AppError) -> bool {
    error == (AppError::TextFileTooLarge {
        user_message: TextFileTooLargeUserMessage::Import,
        limit_mib: TEXT_FILE_MIB_LIMIT,
    })
}

fn content_too_large_error() -> (r: AppError)
    ensures
        content_too_large(r),
{
    AppError::text_file_too_large(TextFileTooLargeUserMessage::Import, TEXT_FILE_MIB_LIMIT)
}

/// Refuses a body of more than the text file limit, in bytes.
pub fn reject_content_byte_len_over_limit(len: u64) -> (r: Result<(), AppError>)
    ensures
        r is Ok <==> len <= TEXT_FILE_BYTE_LIMIT,
        r matches Err(e) ==> content_too_large(e),
{
    if len > TEXT_FILE_BYTE_LIMIT as u64 {
        return Err(content_too_large_error());
    }
    Ok(())
}

/// Refuses a body whose UTF-8 form is longer than the text file limit.
pub fn reject_content_over_byte_limit(content: &str) -> (r: Result<(), AppError>)
    ensures
        r is Ok <==> vstd::utf8::encode_utf8(content@).len() <= TEXT_FILE_BYTE_LIMIT,
        r matches Err(e) ==> content_too_large(e),
{
    let len = str_bytes(content).len();
    reject_content_byte_len_over_limit(len as u64)
}

/// Refuses a body that, appended to another, would be longer than the limit.
pub fn reject_combined_content_byte_len_over_limit(left: u64, right: u64) -> (r: Result<
    (),
    AppError,
>)
    ensures
        r is Ok <==> left + right <= TEXT_FILE_BYTE_LIMIT,
        r matches Err(e) ==> content_too_large(e),
{
    match left.checked_add(right) {
        Some(len) => reject_content_byte_len_over_limit(len),
        None => Err(content_too_large_error()),
    }
}

/// Refuses a body with an embedded NUL character.
pub fn reject_embedded_nul_content(content: &str) -> (r: Result<(), AppError>)
    ensures
        r is Ok <==> !has_char(content@, '\0'),
        r matches Err(e) ==> e matches AppError::User { message } && message@
            == EMBEDDED_NUL_CONTENT_MESSAGE@,
{
    if str_has_char(content, '\0') {
        return Err(AppError::user(EMBEDDED_NUL_CONTENT_MESSAGE));
    }
    Ok(())
}

/// A body that was read from a file or standard input is stored only within the
/// limit and without NUL characters.
pub fn check_read_content(content: &str) -> (r: Result<(), AppError>)
    ensures
        r is Ok <==> vstd::utf8::encode_utf8(content@).len() <= TEXT_FILE_BYTE_LIMIT && !has_char(
            content@,
            '\0',
        ),
        r matches Err(e) ==> (if vstd::utf8::encode_utf8(content@).len() > TEXT_FILE_BYTE_LIMIT {
            content_too_large(e)
        } else {
            e matches AppError::User { message } && message@ == EMBEDDED_NUL_CONTENT_MESSAGE@
        }),
{
    match reject_content_over_byte_limit(content) {
        Ok(()) => reject_embedded_nul_content(content),
        Err(error) => Err(error),
    }
}

} // verus!
