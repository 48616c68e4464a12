use std::path::PathBuf;

use j3treetext::cli::args::CliArg;
use j3treetext::error::AppError;
use j3treetext::launch::{cli_command_from_args, CliCommand};

fn args(values: &[&str]) -> Vec<CliArg> {
    values.iter().map(|v| CliArg::Text((*v).to_owned())).collect()
}

#[test]
fn no_args_run_gui_with_default_database() -> Result<(), AppError> {
    assert!(matches!(
        cli_command_from_args(Vec::new())?,
        CliCommand::Run { database_path: None }
    ));
    Ok(())
}

#[test]
fn single_non_option_arg_runs_gui_with_database_path() -> Result<(), AppError> {
    match cli_command_from_args(args(&["notes.db"]))? {
        CliCommand::Run { database_path } => {
            match database_path {
                Some(CliArg::Text(text)) => assert_eq!(PathBuf::from(text), PathBuf::from("notes.db")),
                other => panic!("unexpected database argument: {other:?}"),
            }
        }
        other => panic!("unexpected command: {other:?}"),
    }
    Ok(())
}

#[test]
fn install_and_uninstall_commands_are_parsed() -> Result<(), AppError> {
    assert!(matches!(cli_command_from_args(args(&["--install"]))?, CliCommand::Install));
    assert!(matches!(
        cli_command_from_args(args(&["--uninstall"]))?,
        CliCommand::Uninstall
    ));
    Ok(())
}

#[test]
fn install_rejects_extra_args() {
    assert!(cli_command_from_args(args(&["--install", "extra"])).is_err());
}

#[test]
fn unknown_long_option_is_rejected() {
    assert!(cli_command_from_args(args(&["--missing"])).is_err());
}

#[test]
fn empty_args_are_passed_over_and_messages_name_the_argument() {
    assert!(matches!(
        cli_command_from_args(args(&["", "--install", ""])),
        Ok(CliCommand::Install)
    ));
    let error = cli_command_from_args(args(&["--missing"])).expect_err("unknown option");
    assert_eq!(error.user_message(), "알 수 없는 옵션입니다: --missing");
    let error = cli_command_from_args(args(&["a.db", "b.db"])).expect_err("two databases");
    assert_eq!(
        error.user_message(),
        "설정 파일 인자는 하나만 지정할 수 있습니다. 알 수 없는 인자: b.db"
    );
    let error = cli_command_from_args(args(&["--uninstall", "x"])).expect_err("extra");
    assert_eq!(
        error.user_message(),
        "--install/--uninstall 명령에는 추가 인자를 지정할 수 없습니다."
    );
}
