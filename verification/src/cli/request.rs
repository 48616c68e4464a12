//! What a command line asks for before any command runs: the help text, or a command
//! with the database it works on and the arguments left for it.
use vstd::prelude::*;

use crate::cli::args::{
    arg_text, is_user_error, missing_value_message, repeated_option_message, text_value, CliArg,
    CliArgs,
};
use crate::domain::document_tree::Node;
use crate::error::AppError;
use crate::text::{push_str, str_eq, to_owned};

verus! {

/// A command of the command line.
#[derive(Debug, Clone, Copy, PartialEq, Eq, Structural)]
pub enum CommandKind {
    Tree,
    Show,
    Create,
    Edit,
    Rename,
    Search,
    Delete,
    Trash,
    Restore,
    Purge,
    Move,
    MoveUp,
    MoveDown,
}

pub open spec fn command_kind_of(name: Seq<char>) -> Option<CommandKind> {
    if name == "tree"@ {
        Some(CommandKind::Tree)
    } else if name == "show"@ {
        Some(CommandKind::Show)
    } else if name == "create"@ {
        Some(CommandKind::Create)
    } else if name == "edit"@ {
        Some(CommandKind::Edit)
    } else if name == "rename"@ {
        Some(CommandKind::Rename)
    } else if name == "search"@ {
        Some(CommandKind::Search)
    } else if name == "delete"@ {
        Some(CommandKind::Delete)
    } else if name == "trash"@ {
        Some(CommandKind::Trash)
    } else if name == "restore"@ {
        Some(CommandKind::Restore)
    } else if name == "purge"@ {
        Some(CommandKind::Purge)
    } else if name == "move"@ {
        Some(CommandKind::Move)
    } else if name == "move-up"@ {
        Some(CommandKind::MoveUp)
    } else if name == "move-down"@ {
        Some(CommandKind::MoveDown)
    } else {
        None
    }
}

/// The name that selects each command on the command line.
pub open spec fn command_name(kind: CommandKind) -> Seq<char> {
    match kind {
        CommandKind::Tree => "tree"@,
        CommandKind::Show => "show"@,
        CommandKind::Create => "create"@,
        CommandKind::Edit => "edit"@,
        CommandKind::Rename => "rename"@,
        CommandKind::Search => "search"@,
        CommandKind::Delete => "delete"@,
        CommandKind::Trash => "trash"@,
        CommandKind::Restore => "restore"@,
        CommandKind::Purge => "purge"@,
        CommandKind::Move => "move"@,
        CommandKind::MoveUp => "move-up"@,
        CommandKind::MoveDown => "move-down"@,
    }
}

/// Each command name selects the command of that name and no other: the command a name
/// stands for is named by it, and the name of every command selects that command.
pub proof fn lemma_command_names_select_their_commands(name: Seq<char>, kind: CommandKind)
    ensures
        command_kind_of(name) == Some(kind) ==> command_name(kind) == name,
        command_kind_of(command_name(kind)) == Some(kind),
{
    reveal_strlit("tree");
    reveal_strlit("show");
    reveal_strlit("create");
    reveal_strlit("edit");
    reveal_strlit("rename");
    reveal_strlit("search");
    reveal_strlit("delete");
    reveal_strlit("trash");
    reveal_strlit("restore");
    reveal_strlit("purge");
    reveal_strlit("move");
    reveal_strlit("move-up");
    reveal_strlit("move-down");
    match kind {
        CommandKind::Tree => {
        },
        CommandKind::Show => {
            assert("show"@[0] != "tree"@[0]);
        },
        CommandKind::Create => {
            assert("create"@.len() != "tree"@.len());
            assert("create"@.len() != "show"@.len());
        },
        CommandKind::Edit => {
            assert("edit"@[0] != "tree"@[0]);
            assert("edit"@[0] != "show"@[0]);
            assert("edit"@.len() != "create"@.len());
        },
        CommandKind::Rename => {
            assert("rename"@.len() != "tree"@.len());
            assert("rename"@.len() != "show"@.len());
            assert("rename"@[0] != "create"@[0]);
            assert("rename"@.len() != "edit"@.len());
        },
        CommandKind::Search => {
            assert("search"@.len() != "tree"@.len());
            assert("search"@.len() != "show"@.len());
            assert("search"@[0] != "create"@[0]);
            assert("search"@.len() != "edit"@.len());
            assert("search"@[0] != "rename"@[0]);
        },
        CommandKind::Delete => {
            assert("delete"@.len() != "tree"@.len());
            assert("delete"@.len() != "show"@.len());
            assert("delete"@[0] != "create"@[0]);
            assert("delete"@.len() != "edit"@.len());
            assert("delete"@[0] != "rename"@[0]);
            assert("delete"@[0] != "search"@[0]);
        },
        CommandKind::Trash => {
            assert("trash"@.len() != "tree"@.len());
            assert("trash"@.len() != "show"@.len());
            assert("trash"@.len() != "create"@.len());
            assert("trash"@.len() != "edit"@.len());
            assert("trash"@.len() != "rename"@.len());
            assert("trash"@.len() != "search"@.len());
            assert("trash"@.len() != "delete"@.len());
        },
        CommandKind::Restore => {
            assert("restore"@.len() != "tree"@.len());
            assert("restore"@.len() != "show"@.len());
            assert("restore"@.len() != "create"@.len());
            assert("restore"@.len() != "edit"@.len());
            assert("restore"@.len() != "rename"@.len());
            assert("restore"@.len() != "search"@.len());
            assert("restore"@.len() != "delete"@.len());
            assert("restore"@.len() != "trash"@.len());
        },
        CommandKind::Purge => {
            assert("purge"@.len() != "tree"@.len());
            assert("purge"@.len() != "show"@.len());
            assert("purge"@.len() != "create"@.len());
            assert("purge"@.len() != "edit"@.len());
            assert("purge"@.len() != "rename"@.len());
            assert("purge"@.len() != "search"@.len());
            assert("purge"@.len() != "delete"@.len());
            assert("purge"@[0] != "trash"@[0]);
            assert("purge"@.len() != "restore"@.len());
        },
        CommandKind::Move => {
            assert("move"@[0] != "tree"@[0]);
            assert("move"@[0] != "show"@[0]);
            assert("move"@.len() != "create"@.len());
            assert("move"@[0] != "edit"@[0]);
            assert("move"@.len() != "rename"@.len());
            assert("move"@.len() != "search"@.len());
            assert("move"@.len() != "delete"@.len());
            assert("move"@.len() != "trash"@.len());
            assert("move"@.len() != "restore"@.len());
            assert("move"@.len() != "purge"@.len());
        },
        CommandKind::MoveUp => {
            assert("move-up"@.len() != "tree"@.len());
            assert("move-up"@.len() != "show"@.len());
            assert("move-up"@.len() != "create"@.len());
            assert("move-up"@.len() != "edit"@.len());
            assert("move-up"@.len() != "rename"@.len());
            assert("move-up"@.len() != "search"@.len());
            assert("move-up"@.len() != "delete"@.len());
            assert("move-up"@.len() != "trash"@.len());
            assert("move-up"@[0] != "restore"@[0]);
            assert("move-up"@.len() != "purge"@.len());
            assert("move-up"@.len() != "move"@.len());
        },
        CommandKind::MoveDown => {
            assert("move-down"@.len() != "tree"@.len());
            assert("move-down"@.len() != "show"@.len());
            assert("move-down"@.len() != "create"@.len());
            assert("move-down"@.len() != "edit"@.len());
            assert("move-down"@.len() != "rename"@.len());
            assert("move-down"@.len() != "search"@.len());
            assert("move-down"@.len() != "delete"@.len());
            assert("move-down"@.len() != "trash"@.len());
            assert("move-down"@.len() != "restore"@.len());
            assert("move-down"@.len() != "purge"@.len());
            assert("move-down"@.len() != "move"@.len());
            assert("move-down"@.len() != "move-up"@.len());
        },
    }
}

pub open spec fn unknown_command_message(name: Seq<char>) -> Seq<char> {
    "알 수 없는 CLI 명령입니다: "@ + name + "\n사용법을 보려면 --help를 실행하세요."@
}

/// The command a name stands for; an unknown name is refused with a pointer to the help.
pub fn command_kind(name: &str) -> (r: Result<CommandKind, AppError>)
    ensures
        match command_kind_of(name@) {
            Some(kind) => r == Ok::<CommandKind, AppError>(kind),
            None => r matches Err(e) && is_user_error(e, unknown_command_message(name@)),
        },
        r matches Ok(kind) ==> command_name(kind) == name@,
{
    proof {
        lemma_command_names_select_their_commands(name@, CommandKind::Tree);
        if let Some(kind) = command_kind_of(name@) {
            lemma_command_names_select_their_commands(name@, kind);
        }
    }
    if str_eq(name, "tree") {
        Ok(CommandKind::Tree)
    } else if str_eq(name, "show") {
        Ok(CommandKind::Show)
    } else if str_eq(name, "create") {
        Ok(CommandKind::Create)
    } else if str_eq(name, "edit") {
        Ok(CommandKind::Edit)
    } else if str_eq(name, "rename") {
        Ok(CommandKind::Rename)
    } else if str_eq(name, "search") {
        Ok(CommandKind::Search)
    } else if str_eq(name, "delete") {
        Ok(CommandKind::Delete)
    } else if str_eq(name, "trash") {
        Ok(CommandKind::Trash)
    } else if str_eq(name, "restore") {
        Ok(CommandKind::Restore)
    } else if str_eq(name, "purge") {
        Ok(CommandKind::Purge)
    } else if str_eq(name, "move") {
        Ok(CommandKind::Move)
    } else if str_eq(name, "move-up") {
        Ok(CommandKind::MoveUp)
    } else if str_eq(name, "move-down") {
        Ok(CommandKind::MoveDown)
    } else {
        let mut message = to_owned("알 수 없는 CLI 명령입니다: ");
        push_str(&mut message, name);
        push_str(&mut message, "\n사용법을 보려면 --help를 실행하세요.");
        Err(AppError::user(message.as_str()))
    }
}

/// What a command line asks for.
pub enum CliRequest {
    Help,
    /// A command, with the argument that names its database, if one was given.
    Command { db_path: Option<CliArg>, command: String, args: CliArgs },
}

/// What the front of the arguments says: help, an error, or a command with the `--db`
/// argument given, if any, and the arguments after the command.
pub enum FrontSpec {
    Help,
    Refused(Seq<char>),
    Command { db_arg: Option<CliArg>, command: Seq<char>, rest: Seq<CliArg> },
}

pub open spec fn is_text(arg: CliArg, text: Seq<char>) -> bool {
    arg_text(arg) == Some(text)
}

pub open spec fn front_spec(args: Seq<CliArg>, db_arg: Option<CliArg>) -> FrontSpec
    decreases args.len(),
{
    if args.len() > 0 && is_text(args[0], "--db"@) {
        let rest = args.drop_first();
        if rest.len() == 0 {
            FrontSpec::Refused(missing_value_message("--db"@))
        } else if db_arg is Some {
            FrontSpec::Refused(repeated_option_message("--db"@))
        } else {
            front_spec(rest.drop_first(), Some(rest[0]))
        }
    } else if args.len() > 0 && (is_text(args[0], "-h"@) || is_text(args[0], "--help"@)) {
        FrontSpec::Help
    } else if args.len() == 0 {
        FrontSpec::Help
    } else {
        match text_value(args, "command"@) {
            Err(m) => FrontSpec::Refused(m),
            Ok(c) => if c == "help"@ {
                FrontSpec::Help
            } else {
                FrontSpec::Command { db_arg, command: c, rest: args.drop_first() }
            },
        }
    }
}

/// Reads the options before the command: `--db <path>` at most once, `-h` or `--help`;
/// no command, or `help`, asks for the help text.
#[verifier::loop_isolation(false)]
pub fn cli_request(args: CliArgs) -> (r: Result<CliRequest, AppError>)
    ensures
        match front_spec(args@, None) {
            FrontSpec::Help => r matches Ok(CliRequest::Help),
            FrontSpec::Refused(m) => r matches Err(e) && is_user_error(e, m),
            FrontSpec::Command { db_arg, command, rest } => r matches Ok(
                CliRequest::Command { db_path, command: c, args: left },
            ) && c@ == command && left@ == rest && db_path == db_arg,
        },
{
    let ghost all = args@;
    let mut args = args;
    let mut db_path: Option<CliArg> = None;
    let ghost mut db_arg: Option<CliArg> = None;
    loop
        invariant
            front_spec(all, None) == front_spec(args@, db_arg),
            db_path == db_arg,
        decreases args@.len(),
    {
        if args.peek_is("--db") {
            let _ = args.pop_string("option")?;
            let ghost value = args@[0];
            let path = args.pop_path("--db")?;
            if db_path.is_some() {
                return Err(crate::cli::args::user_error_of("--db", " 옵션은 한 번만 사용할 수 있습니다."));
            }
            db_path = Some(path);
            proof {
                db_arg = Some(value);
            }
            continue;
        }
        if args.peek_is("-h") || args.peek_is("--help") {
            return Ok(CliRequest::Help);
        }
        break;
    }
    if args.is_empty() {
        return Ok(CliRequest::Help);
    }
    let ghost before = args@;
    let command = args.pop_string("command")?;
    if str_eq(command.as_str(), "help") {
        return Ok(CliRequest::Help);
    }
    assert(args@ == before.drop_first());
    Ok(CliRequest::Command { db_path, command, args })
}

/// The node `show` prints: the active node when there is one, else what the lookup in
/// the trash gives, its error included. The lookup runs only when it is needed.
pub fn resolve_show_node<F: FnOnce() -> Result<Node, AppError>>(
    active_node: Option<Node>,
    find_deleted_node: F,
) -> (r: Result<Node, AppError>)
    requires
        active_node is None ==> call_requires(find_deleted_node, ()),
    ensures
        active_node matches Some(n) ==> r == Ok::<Node, AppError>(n),
        active_node is None ==> call_ensures(find_deleted_node, (), r),
{
    match active_node {
        Some(node) => Ok(node),
        None => find_deleted_node(),
    }
}

} // verus!
