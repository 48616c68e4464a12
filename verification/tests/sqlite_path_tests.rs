use std::error::Error;
use std::path::{Path, PathBuf};

use j3treetext::infra::sqlite::path::database_path_for_executable;

fn path_of(path: PathBuf) -> PathBuf {
    path
}

#[test]
fn database_path_replaces_executable_extension() -> Result<(), Box<dyn Error>> {
    let exe_path = path_of(Path::new("bin").join("j3TreeText.exe"));
    let db_path = database_path_for_executable(&exe_path).map_err(|error| error.user_message())?;

    assert_eq!(db_path, Path::new("bin").join("j3TreeText.db"));
    Ok(())
}

#[test]
fn database_path_adds_db_extension_when_executable_has_no_extension() -> Result<(), Box<dyn Error>>
{
    let exe_path = path_of(Path::new("bin").join("j3TreeText"));
    let db_path = database_path_for_executable(&exe_path).map_err(|error| error.user_message())?;

    assert_eq!(db_path, Path::new("bin").join("j3TreeText.db"));
    Ok(())
}

#[test]
fn database_path_refuses_path_without_file_name() {
    let error = database_path_for_executable(&PathBuf::from("/"))
        .expect_err("a root path has no file name");
    assert_eq!(error.user_message(), "데스크톱 UI 오류입니다. 다시 시도하세요.");
}
