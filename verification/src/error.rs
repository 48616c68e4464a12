//! The application's error type and the message each error shows the user.
use vstd::prelude::*;

use crate::decimal::{decimal, format_usize};
use crate::domain::ui_settings::TextEncoding;
use crate::domain::{domain_error_text, DomainError};
use crate::text::{push_str, to_owned};

verus! {

#[verifier::external_type_specification]
#[verifier::external_body]
pub struct ExSqliteError(rusqlite::Error);

#[verifier::external_type_specification]
#[verifier::external_body]
pub struct ExIoError(std::io::Error);

#[verifier::external_type_specification]
#[verifier::external_body]
pub struct ExPathBuf(std::path::PathBuf);

/// What the user is told when the stored documents contradict themselves.
pub const INTERNAL_CONSISTENCY_USER_MESSAGE: &'static str =
    "문서 데이터가 올바르지 않습니다. 트리를 새로 고치거나 문서를 다시 여세요.";

#[derive(Debug, Clone, Copy, PartialEq, Eq, Structural)]
pub enum IoUserMessage {
    Generic,
    ReadTextFile,
    WriteTextFile,
}

#[derive(Debug, Clone, Copy, PartialEq, Eq, Structural)]
pub enum PlatformUserMessage {
    Generic,
    DesktopUiUnsupported,
    Win32Startup,
    RichEditStartup,
    Font,
}

#[derive(Debug, Clone, Copy, PartialEq, Eq, Structural)]
pub enum SqliteUserMessage {
    Generic,
    SaveDocumentContent,
}

#[derive(Debug, Clone, Copy, PartialEq, Eq, Structural)]
pub enum TextEncodingUserMessage {
    Decode,
    Encode,
}

#[derive(Debug, Clone, Copy, PartialEq, Eq, Structural)]
pub enum TextFileTooLargeUserMessage {
    Generic,
    Import,
    Export,
}

impl TextFileTooLargeUserMessage {
    pub open spec fn spec_action(self) -> Seq<char> {
        match self {
            TextFileTooLargeUserMessage::Generic => "process"@,
            TextFileTooLargeUserMessage::Import => "import"@,
            TextFileTooLargeUserMessage::Export => "export"@,
        }
    }

    /// The verb that a report of the failure uses.
    pub fn action(self) -> (r: &'static str)
        ensures
            r@ == self.spec_action(),
    {
        match self {
            TextFileTooLargeUserMessage::Generic => "process",
            TextFileTooLargeUserMessage::Import => "import",
            TextFileTooLargeUserMessage::Export => "export",
        }
    }
}

/// Everything that can go wrong in the application.
#[derive(Debug)]
pub enum AppError {
    DatabaseOpen { path: std::path::PathBuf, source: rusqlite::Error },
    Domain(DomainError),
    Io { action: &'static str, user_message: IoUserMessage, source: std::io::Error },
    Platform { action: &'static str, user_message: PlatformUserMessage, message: String },
    Sqlite { action: &'static str, user_message: SqliteUserMessage, source: rusqlite::Error },
    TextEncoding {
        action: &'static str,
        user_message: TextEncodingUserMessage,
        encoding: TextEncoding,
        detail: String,
    },
    TextFileTooLarge { user_message: TextFileTooLargeUserMessage, limit_mib: usize },
    User { message: String },
}

/// The message for a refused change to the documents.
pub open spec fn domain_error_message(error: DomainError) -> Seq<char> {
    match error {
        DomainError::CannotDeleteRoot => "루트 문서는 삭제할 수 없습니다."@,
        DomainError::CannotMoveNodeIntoDescendant { .. } => "자기 자신이나 하위 문서로 이동할 수 없습니다."@,
        DomainError::CannotMoveNodeIntoItself { .. } => "자기 자신이나 하위 문서로 이동할 수 없습니다."@,
        DomainError::CannotMoveRoot => "루트 문서는 이동할 수 없습니다."@,
        DomainError::DocumentSaveConflict { .. } => "다른 곳에서 먼저 저장되었습니다. 다시 불러오거나 새 문서로 저장하세요."@,
        DomainError::DuplicateSiblingTitle { .. } => "같은 위치에 같은 이름이 있습니다."@,
        DomainError::EmptyTitle { .. } => "이름을 입력하세요."@,
        DomainError::EmptyTitleInput => "이름을 입력하세요."@,
        DomainError::NodeNotFound { .. } => "선택한 문서를 찾을 수 없습니다. 트리를 새로 고치세요."@,
        DomainError::NodeNotDeleted { .. } => "선택한 문서가 휴지통에 없습니다."@,
        _ => "문서 데이터가 올바르지 않습니다."@,
    }
}

pub open spec fn io_message(user_message: IoUserMessage) -> Seq<char> {
    match user_message {
        IoUserMessage::ReadTextFile => "텍스트 파일을 읽을 수 없습니다. 경로와 권한을 확인하세요."@,
        IoUserMessage::WriteTextFile => "텍스트 파일을 저장할 수 없습니다. 경로, 권한, 디스크 용량을 확인하세요."@,
        IoUserMessage::Generic => "파일 작업에 실패했습니다. 쓰기 권한을 확인하세요."@,
    }
}

pub open spec fn platform_message(user_message: PlatformUserMessage) -> Seq<char> {
    match user_message {
        PlatformUserMessage::DesktopUiUnsupported => "현재 플랫폼에서 데스크톱 UI를 사용할 수 없습니다."@,
        PlatformUserMessage::Win32Startup => "Windows 창을 시작하지 못했습니다."@,
        PlatformUserMessage::RichEditStartup => "Windows 본문 편집기를 시작하지 못했습니다."@,
        PlatformUserMessage::Font => "글꼴을 적용할 수 없습니다. 다른 글꼴을 선택하세요."@,
        PlatformUserMessage::Generic => "데스크톱 UI 오류입니다. 다시 시도하세요."@,
    }
}

pub open spec fn sqlite_message(user_message: SqliteUserMessage) -> Seq<char> {
    match user_message {
        SqliteUserMessage::SaveDocumentContent => "문서를 저장할 수 없습니다. DB 파일 권한과 디스크 용량을 확인하세요."@,
        SqliteUserMessage::Generic => "문서 DB를 열거나 초기화할 수 없습니다."@,
    }
}

pub open spec fn text_encoding_message(
    user_message: TextEncodingUserMessage,
    encoding: TextEncoding,
) -> Seq<char> {
    match user_message {
        TextEncodingUserMessage::Encode => "선택한 인코딩("@ + encoding.spec_display_name()
            + ")으로 저장할 수 없는 문자가 있습니다.\nUTF-8 또는 UTF-16으로 내보내세요."@,
        TextEncodingUserMessage::Decode => "선택한 인코딩("@ + encoding.spec_display_name()
            + ")으로 읽을 수 없습니다.\n다른 인코딩을 선택하세요."@,
    }
}

pub open spec fn too_large_message(
    user_message: TextFileTooLargeUserMessage,
    limit_mib: usize,
) -> Seq<char> {
    let tail = decimal(limit_mib as int) + "MiB 이하로 나누어 다시 시도하세요."@;
    match user_message {
        TextFileTooLargeUserMessage::Import => "가져올 텍스트가 너무 큽니다. "@ + tail,
        TextFileTooLargeUserMessage::Export => "내보낼 텍스트가 너무 큽니다. "@ + tail,
        TextFileTooLargeUserMessage::Generic => "텍스트가 너무 큽니다. "@ + tail,
    }
}

/// The message for a database that cannot be opened, given how its path is shown.
pub open spec fn database_open_message(shown_path: Seq<char>) -> Seq<char> {
    "문서 DB를 열 수 없습니다.\n경로: "@ + shown_path
        + "\n쓰기 권한, 파일 잠금, 디스크 용량을 확인하세요."@
}

/// The text that `Path::display` shows for `path`.
pub uninterp spec fn path_shown(path: std::path::PathBuf) -> Seq<char>;

/// `Path::display` turned into a `String`: the path as text, with anything that is
/// not valid Unicode replaced. It depends on the path alone; the text (std's rules for
/// each platform) is left to the name `path_shown`.
#[verifier::external_body]
fn path_display_text(path: &std::path::PathBuf) -> (r: String)
    ensures
        r@ == path_shown(*path),
{
    path.display().to_string()
}

/// The user-facing message for a platform failure.
pub fn platform_user_message(user_message: PlatformUserMessage) -> (r: String)
    ensures
        r@ == platform_message(user_message),
{
    let text: &str = match user_message {
        PlatformUserMessage::DesktopUiUnsupported => "현재 플랫폼에서 데스크톱 UI를 사용할 수 없습니다.",
        PlatformUserMessage::Win32Startup => "Windows 창을 시작하지 못했습니다.",
        PlatformUserMessage::RichEditStartup => "Windows 본문 편집기를 시작하지 못했습니다.",
        PlatformUserMessage::Font => "글꼴을 적용할 수 없습니다. 다른 글꼴을 선택하세요.",
        PlatformUserMessage::Generic => "데스크톱 UI 오류입니다. 다시 시도하세요.",
    };
    to_owned(text)
}

fn domain_error_user_message(error: &DomainError) -> (r: String)
    ensures
        r@ == domain_error_message(*error),
{
    let text: &str = match error {
        DomainError::CannotDeleteRoot => "루트 문서는 삭제할 수 없습니다.",
        DomainError::CannotMoveNodeIntoDescendant { .. }
        | DomainError::CannotMoveNodeIntoItself { .. } => "자기 자신이나 하위 문서로 이동할 수 없습니다.",
        DomainError::CannotMoveRoot => "루트 문서는 이동할 수 없습니다.",
        DomainError::DocumentSaveConflict { .. } => "다른 곳에서 먼저 저장되었습니다. 다시 불러오거나 새 문서로 저장하세요.",
        DomainError::DuplicateSiblingTitle { .. } => "같은 위치에 같은 이름이 있습니다.",
        DomainError::EmptyTitle { .. } | DomainError::EmptyTitleInput => "이름을 입력하세요.",
        DomainError::NodeNotFound { .. } => "선택한 문서를 찾을 수 없습니다. 트리를 새로 고치세요.",
        DomainError::NodeNotDeleted { .. } => "선택한 문서가 휴지통에 없습니다.",
        _ => "문서 데이터가 올바르지 않습니다.",
    };
    to_owned(text)
}

fn io_user_message(user_message: IoUserMessage) -> (r: String)
    ensures
        r@ == io_message(user_message),
{
    let text: &str = match user_message {
        IoUserMessage::ReadTextFile => "텍스트 파일을 읽을 수 없습니다. 경로와 권한을 확인하세요.",
        IoUserMessage::WriteTextFile => "텍스트 파일을 저장할 수 없습니다. 경로, 권한, 디스크 용량을 확인하세요.",
        IoUserMessage::Generic => "파일 작업에 실패했습니다. 쓰기 권한을 확인하세요.",
    };
    to_owned(text)
}

fn sqlite_user_message(user_message: SqliteUserMessage) -> (r: String)
    ensures
        r@ == sqlite_message(user_message),
{
    let text: &str = match user_message {
        SqliteUserMessage::SaveDocumentContent => "문서를 저장할 수 없습니다. DB 파일 권한과 디스크 용량을 확인하세요.",
        SqliteUserMessage::Generic => "문서 DB를 열거나 초기화할 수 없습니다.",
    };
    to_owned(text)
}

fn text_encoding_user_message(
    user_message: TextEncodingUserMessage,
    encoding: TextEncoding,
) -> (r: String)
    ensures
        r@ == text_encoding_message(user_message, encoding),
{
    let mut out = to_owned("선택한 인코딩(");
    push_str(&mut out, encoding.display_name());
    match user_message {
        TextEncodingUserMessage::Encode => {
            push_str(&mut out, ")으로 저장할 수 없는 문자가 있습니다.\nUTF-8 또는 UTF-16으로 내보내세요.");
        },
        TextEncodingUserMessage::Decode => {
            push_str(&mut out, ")으로 읽을 수 없습니다.\n다른 인코딩을 선택하세요.");
        },
    }
    out
}

fn too_large_user_message(user_message: TextFileTooLargeUserMessage, limit_mib: usize) -> (r: String)
    ensures
        r@ == too_large_message(user_message, limit_mib),
{
    let head: &str = match user_message {
        TextFileTooLargeUserMessage::Import => "가져올 텍스트가 너무 큽니다. ",
        TextFileTooLargeUserMessage::Export => "내보낼 텍스트가 너무 큽니다. ",
        TextFileTooLargeUserMessage::Generic => "텍스트가 너무 큽니다. ",
    };
    let mut out = to_owned(head);
    let digits = format_usize(limit_mib);
    push_str(&mut out, digits.as_str());
    push_str(&mut out, "MiB 이하로 나누어 다시 시도하세요.");
    out
}

fn database_open_user_message(path: &std::path::PathBuf) -> (r: String)
    ensures
        r@ == database_open_message(path_shown(*path)),
{
    let shown = path_display_text(path);
    let mut out = to_owned("문서 DB를 열 수 없습니다.\n경로: ");
    push_str(&mut out, shown.as_str());
    push_str(&mut out, "\n쓰기 권한, 파일 잠금, 디스크 용량을 확인하세요.");
    assert(out@ == database_open_message(shown@));
    out
}

/// `io::Error`'s `Display` text. The text is left unsaid.
#[verifier::external_body]
fn io_error_text(error: &std::io::Error) -> (r: String) {
    error.to_string()
}

/// `rusqlite::Error`'s `Display` text. The text is left unsaid.
#[verifier::external_body]
fn sqlite_error_text(error: &rusqlite::Error) -> (r: String) {
    error.to_string()
}

/// The report of an error with the given action and the shown text of its cause.
pub open spec fn action_report(action: Seq<char>, detail: Seq<char>) -> Seq<char> {
    action + ": "@ + detail
}

fn action_report_text(action: &str, detail: &str) -> (r: String)
    ensures
        r@ == action_report(action@, detail@),
{
    let mut out = to_owned(action);
    push_str(&mut out, ": ");
    push_str(&mut out, detail);
    out
}

impl AppError {
    pub fn database_open(path: std::path::PathBuf, source: rusqlite::Error) -> (r: Self)
        ensures
            r == (AppError::DatabaseOpen { path, source }),
    {
        AppError::DatabaseOpen { path, source }
    }

    pub fn io(action: &'static str, source: std::io::Error) -> (r: Self)
        ensures
            r == (AppError::Io { action, user_message: IoUserMessage::Generic, source }),
    {
        AppError::io_with_user_message(action, IoUserMessage::Generic, source)
    }

    /// Stored documents that contradict themselves are reported to the user as damaged
    /// document data; what was being done and what was found are not shown.
    pub fn internal_consistency(action: &'static str, message: &str) -> (r: Self)
        ensures
            r matches AppError::User { message: m } && m@ == INTERNAL_CONSISTENCY_USER_MESSAGE@,
    {
        AppError::user(INTERNAL_CONSISTENCY_USER_MESSAGE)
    }

    pub fn io_with_user_message(
        action: &'static str,
        user_message: IoUserMessage,
        source: std::io::Error,
    ) -> (r: Self)
        ensures
            r == (AppError::Io { action, user_message, source }),
    {
        AppError::Io { action, user_message, source }
    }

    pub fn platform(action: &'static str, message: &str) -> (r: Self)
        ensures
            r matches AppError::Platform { action: a, user_message: u, message: m } && a == action
                && u == PlatformUserMessage::Generic && m@ == message@,
    {
        AppError::platform_with_user_message(action, PlatformUserMessage::Generic, message)
    }

    pub fn platform_with_user_message(
        action: &'static str,
        user_message: PlatformUserMessage,
        message: &str,
    ) -> (r: Self)
        ensures
            r matches AppError::Platform { action: a, user_message: u, message: m } && a == action
                && u == user_message && m@ == message@,
    {
        AppError::Platform { action, user_message, message: to_owned(message) }
    }

    pub fn sqlite(action: &'static str, source: rusqlite::Error) -> (r: Self)
        ensures
            r == (AppError::Sqlite { action, user_message: SqliteUserMessage::Generic, source }),
    {
        AppError::sqlite_with_user_message(action, SqliteUserMessage::Generic, source)
    }

    pub fn sqlite_with_user_message(
        action: &'static str,
        user_message: SqliteUserMessage,
        source: rusqlite::Error,
    ) -> (r: Self)
        ensures
            r == (AppError::Sqlite { action, user_message, source }),
    {
        AppError::Sqlite { action, user_message, source }
    }

    pub fn text_encoding(action: &'static str, encoding: TextEncoding, detail: &str) -> (r: Self)
        ensures
            r matches AppError::TextEncoding { action: a, user_message: u, encoding: e, detail: d }
                && a == action && u == TextEncodingUserMessage::Decode && e == encoding && d@
                == detail@,
    {
        AppError::text_encoding_with_user_message(
            action,
            TextEncodingUserMessage::Decode,
            encoding,
            detail,
        )
    }

    pub fn text_encoding_with_user_message(
        action: &'static str,
        user_message: TextEncodingUserMessage,
        encoding: TextEncoding,
        detail: &str,
    ) -> (r: Self)
        ensures
            r matches AppError::TextEncoding { action: a, user_message: u, encoding: e, detail: d }
                && a == action && u == user_message && e == encoding && d@ == detail@,
    {
        AppError::TextEncoding { action, user_message, encoding, detail: to_owned(detail) }
    }

    pub fn text_file_too_large(user_message: TextFileTooLargeUserMessage, limit_mib: usize) -> (r:
        Self)
        ensures
            r == (AppError::TextFileTooLarge { user_message, limit_mib }),
    {
        AppError::TextFileTooLarge { user_message, limit_mib }
    }

    pub fn user(message: &str) -> (r: Self)
        ensures
            r matches AppError::User { message: m } && m@ == message@,
    {
        AppError::User { message: to_owned(message) }
    }

    /// Whether the error wraps a lower-level error that caused it.
    pub fn has_source(&self) -> (r: bool)
        ensures
            r <==> (self is DatabaseOpen || self is Domain || self is Io || self is Sqlite),
    {
        match self {
            AppError::DatabaseOpen { .. } | AppError::Domain(_) | AppError::Io { .. }
            | AppError::Sqlite { .. } => true,
            _ => false,
        }
    }

    /// The message shown to the user for this error.
    pub fn user_message(&self) -> (r: String)
        ensures
            match self {
                AppError::DatabaseOpen { path, .. } => r@ == database_open_message(path_shown(*path)),
                AppError::Domain(error) => r@ == domain_error_message(*error),
                AppError::Io { user_message, .. } => r@ == io_message(*user_message),
                AppError::Platform { user_message, .. } => r@ == platform_message(*user_message),
                AppError::Sqlite { user_message, .. } => r@ == sqlite_message(*user_message),
                AppError::TextEncoding { user_message, encoding, .. } => r@
                    == text_encoding_message(*user_message, *encoding),
                AppError::TextFileTooLarge { user_message, limit_mib } => r@ == too_large_message(
                    *user_message,
                    *limit_mib,
                ),
                AppError::User { message } => r@ == message@,
            },
    {
        match self {
            AppError::DatabaseOpen { path, .. } => database_open_user_message(path),
            AppError::Domain(error) => domain_error_user_message(error),
            AppError::Io { user_message, .. } => io_user_message(*user_message),
            AppError::Platform { user_message, .. } => platform_user_message(*user_message),
            AppError::Sqlite { user_message, .. } => sqlite_user_message(*user_message),
            AppError::TextEncoding { user_message, encoding, .. } => text_encoding_user_message(
                *user_message,
                *encoding,
            ),
            AppError::TextFileTooLarge { user_message, limit_mib } => too_large_user_message(
                *user_message,
                *limit_mib,
            ),
            AppError::User { message } => to_owned(message.as_str()),
        }
    }

    /// The description of the error for logs, as its `Display` writes it.
    pub fn describe(&self) -> (r: String)
        ensures
            match self {
                AppError::DatabaseOpen { path, .. } => exists|shown_source: Seq<char>|
                    r@ == #[trigger] action_report(
                        "open SQLite database at "@ + path_shown(*path),
                        shown_source,
                    ),
                AppError::Domain(error) => r@ == "domain error: "@ + domain_error_text(*error),
                AppError::Io { action, .. } => exists|shown: Seq<char>|
                    r@ == #[trigger] action_report(action@, shown),
                AppError::Platform { action, message, .. } => r@ == action_report(action@, message@),
                AppError::Sqlite { action, .. } => exists|shown: Seq<char>|
                    r@ == #[trigger] action_report(action@, shown),
                AppError::TextEncoding { action, encoding, detail, .. } => r@ == action_report(
                    action@ + " as "@ + encoding.spec_display_name(),
                    detail@,
                ),
                AppError::TextFileTooLarge { user_message, limit_mib } => r@
                    == user_message.spec_action() + " text exceeds "@ + decimal(*limit_mib as int)
                    + "MiB"@,
                AppError::User { message } => r@ == "user action: "@ + message@,
            },
    {
        match self {
            AppError::DatabaseOpen { path, source } => {
                let mut head = to_owned("open SQLite database at ");
                let shown_path = path_display_text(path);
                push_str(&mut head, shown_path.as_str());
                let shown_source = sqlite_error_text(source);
                let r = action_report_text(head.as_str(), shown_source.as_str());
                assert(r@ == action_report("open SQLite database at "@ + shown_path@, shown_source@));
                r
            },
            AppError::Domain(error) => {
                let mut out = to_owned("domain error: ");
                let text = error.message();
                push_str(&mut out, text.as_str());
                out
            },
            AppError::Io { action, source, .. } => {
                let shown = io_error_text(source);
                action_report_text(action, shown.as_str())
            },
            AppError::Platform { action, message, .. } => action_report_text(action, message.as_str()),
            AppError::Sqlite { action, source, .. } => {
                let shown = sqlite_error_text(source);
                action_report_text(action, shown.as_str())
            },
            AppError::TextEncoding { action, encoding, detail, .. } => {
                let mut head = to_owned(action);
                push_str(&mut head, " as ");
                push_str(&mut head, encoding.display_name());
                action_report_text(head.as_str(), detail.as_str())
            },
            AppError::TextFileTooLarge { user_message, limit_mib } => {
                let mut out = to_owned(user_message.action());
                push_str(&mut out, " text exceeds ");
                let digits = format_usize(*limit_mib);
                push_str(&mut out, digits.as_str());
                push_str(&mut out, "MiB");
                out
            },
            AppError::User { message } => {
                let mut out = to_owned("user action: ");
                push_str(&mut out, message.as_str());
                out
            },
        }
    }
}

impl From<DomainError> for AppError {
    fn from(error: DomainError) -> (r: Self) {
        AppError::Domain(error)
    }
}

impl vstd::std_specs::convert::FromSpecImpl<DomainError> for AppError {
    open spec fn obeys_from_spec() -> bool {
        true
    }

    open spec fn from_spec(v: DomainError) -> Self {
        AppError::Domain(v)
    }
}

} // verus!
