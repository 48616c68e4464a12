//! The database file that sits beside the executable.
use vstd::prelude::*;

use crate::error::AppError;

verus! {

/// Whether `Path::file_name` finds a last component that names a file in `path`.
pub uninterp spec fn exe_has_file_name(path: std::path::PathBuf) -> bool;

/// The path that `PathBuf::set_extension("db")` makes of `path`.
pub uninterp spec fn db_path_of(path: std::path::PathBuf) -> std::path::PathBuf;

/// `Path::file_name` of the path, whether it is there: it depends on the path alone.
/// Which paths end in a file name (std's path rules, which differ by platform) is left
/// to the name `exe_has_file_name`.
#[verifier::external_body]
fn path_has_file_name(path: &std::path::PathBuf) -> (r: bool)
    ensures
        r == exe_has_file_name(*path),
{
    path.file_name().is_some()
}

/// The path with its extension set to `db` by `PathBuf::set_extension`: it depends on
/// the path alone, and is named `db_path_of`. The extension holds no separator, so the
/// call cannot panic.
#[verifier::external_body]
fn path_with_db_extension(path: &std::path::PathBuf) -> (r: std::path::PathBuf)
    ensures
        r == db_path_of(*path),
{
    let mut db_path = path.clone();
    db_path.set_extension("db");
    db_path
}

/// The database path for an executable: the executable's path with the extension
/// `db`. An executable path without a file name is refused.
pub fn database_path_for_executable(exe_path: &std::path::PathBuf) -> (r: Result<
    std::path::PathBuf,
    AppError,
>)
    ensures
        r is Ok <==> exe_has_file_name(*exe_path),
        r matches Ok(p) ==> p == db_path_of(*exe_path),
        r matches Err(e) ==> e matches AppError::Platform { action, message, .. } && action@
            == "calculate database path"@ && message@
            == "executable path does not include a file name"@,
{
    if !path_has_file_name(exe_path) {
        return Err(
            AppError::platform(
                "calculate database path",
                "executable path does not include a file name",
            ),
        );
    }
    Ok(path_with_db_extension(exe_path))
}

} // verus!
