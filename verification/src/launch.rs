//! What the program is asked to do when it starts: open the editor, or install or
//! remove its desktop entry.
use vstd::prelude::*;

use crate::cli::args::{arg_text, is_user_error, CliArg};
use crate::error::AppError;
use crate::text::{push_str, str_eq, to_owned};

verus! {

/// How the program was asked to start.
#[derive(Debug)]
pub enum CliCommand {
    /// Open the editor, on the database the argument names, or on the default one.
    Run { database_path: Option<CliArg> },
    Install,
    Uninstall,
}

/// An empty argument, which is passed over.
pub open spec fn is_empty_arg(arg: CliArg) -> bool {
    arg matches CliArg::Text(s) && s@.len() == 0
}

/// The arguments that are not empty, in their order.
pub open spec fn nonempty_args(args: Seq<CliArg>) -> Seq<CliArg>
    decreases args.len(),
{
    if args.len() == 0 {
        Seq::empty()
    } else if is_empty_arg(args.last()) {
        nonempty_args(args.drop_last())
    } else {
        nonempty_args(args.drop_last()).push(args.last())
    }
}

/// A long option: text that starts with two dashes.
pub open spec fn is_long_option(text: Seq<char>) -> bool {
    text.len() >= 2 && text[0] == '-' && text[1] == '-'
}

pub open spec fn extra_install_args_message() -> Seq<char> {
    "--install/--uninstall 명령에는 추가 인자를 지정할 수 없습니다."@
}

pub open spec fn unknown_option_message(option: Seq<char>) -> Seq<char> {
    "알 수 없는 옵션입니다: "@ + option
}

pub open spec fn extra_run_arg_prefix() -> Seq<char> {
    "설정 파일 인자는 하나만 지정할 수 있습니다. 알 수 없는 인자: "@
}

/// The text that `Path::to_string_lossy` gives for `path`.
pub uninterp spec fn path_lossy_text(path: std::path::PathBuf) -> Seq<char>;

/// How an argument is shown in a message: its text, or the lossy text of its path.
pub open spec fn arg_shown(arg: CliArg) -> Seq<char> {
    match arg {
        CliArg::Text(t) => t@,
        CliArg::Other(p) => path_lossy_text(p),
    }
}

/// `Path::to_string_lossy` of a path, as a `String`: how a non-Unicode argument is shown
/// in a message. It depends on the path alone; which characters replace what is not
/// Unicode is left to the name `path_lossy_text`.
#[verifier::external_body]
fn path_text(path: &std::path::PathBuf) -> (r: String)
    ensures
        r@ == path_lossy_text(*path),
{
    path.to_string_lossy().into_owned()
}

/// Whether the text starts with two dashes.
fn starts_with_two_dashes(text: &str) -> (r: bool)
    ensures
        r == is_long_option(text@),
{
    let mut count: usize = 0;
    let mut dashes = true;
    for c in it: text.chars()
        invariant
            it.seq() == text@,
            count as int == if it.index() < 2 {
                it.index() as int
            } else {
                2
            },
            dashes == (forall|j: int| 0 <= j < count ==> text@[j] == '-'),
    {
        if count < 2 {
            if c != '-' {
                dashes = false;
            }
            count = count + 1;
        }
    }
    count == 2 && dashes
}

/// The arguments without the empty ones.
fn drop_empty_args(args: Vec<CliArg>) -> (r: Vec<CliArg>)
    ensures
        r@ == nonempty_args(args@),
{
    let mut kept: Vec<CliArg> = Vec::new();
    let mut rest = args;
    let ghost all = rest@;
    let mut reversed: Vec<CliArg> = Vec::new();
    while rest.len() > 0
        invariant
            all == rest@ + reversed@.reverse(),
        decreases rest.len(),
    {
        let last = rest.pop().unwrap();
        reversed.push(last);
        assert(all =~= rest@ + reversed@.reverse());
    }
    assert(reversed@.reverse() =~= all);
    let ghost rev = reversed@;
    while reversed.len() > 0
        invariant
            rev.reverse() == all,
            reversed@ == rev.subrange(0, reversed@.len() as int),
            reversed@.len() <= rev.len(),
            kept@ == nonempty_args(all.subrange(0, rev.len() - reversed@.len())),
        decreases reversed.len(),
    {
        let ghost done = (rev.len() - reversed@.len()) as int;
        let arg = reversed.pop().unwrap();
        assert(arg == all[done]);
        assert(all.subrange(0, done + 1).drop_last() =~= all.subrange(0, done));
        proof {
            reveal_strlit("");
        }
        let empty = match &arg {
            CliArg::Text(s) => {
                let same = str_eq(s.as_str(), "");
                assert(s@.len() == 0 ==> s@ =~= ""@);
                assert(same == (s@.len() == 0));
                same
            },
            CliArg::Other(_) => false,
        };
        assert(empty == is_empty_arg(arg));
        assert(all.subrange(0, done + 1).last() == arg);
        if !empty {
            kept.push(arg);
        }
    }
    assert(all.subrange(0, rev.len() as int) =~= all);
    kept
}

/// What the start-up arguments ask for. Empty arguments are passed over; then no
/// argument opens the default database, `--install` and `--uninstall` stand alone,
/// another long option is refused, and any other single argument names the database.
pub fn cli_command_from_args(args: Vec<CliArg>) -> (r: Result<CliCommand, AppError>)
    ensures
        ({
            let kept = nonempty_args(args@);
            &&& kept.len() == 0 ==> (r matches Ok(CliCommand::Run { database_path: None }))
            &&& kept.len() > 0 && (arg_text(kept[0]) == Some("--install"@) || arg_text(kept[0])
                == Some("--uninstall"@)) ==> if kept.len() == 1 {
                if arg_text(kept[0]) == Some("--install"@) {
                    (r matches Ok(CliCommand::Install))
                } else {
                    (r matches Ok(CliCommand::Uninstall))
                }
            } else {
                (r matches Err(e) && is_user_error(e, extra_install_args_message()))
            }
            &&& kept.len() > 0 && arg_text(kept[0]) != Some("--install"@) && arg_text(kept[0])
                != Some("--uninstall"@) ==> match kept[0] {
                CliArg::Text(t) if is_long_option(t@) => (r matches Err(e) && is_user_error(
                    e,
                    unknown_option_message(t@),
                )),
                _ => if kept.len() == 1 {
                    (r matches Ok(CliCommand::Run { database_path: Some(p) }) && p == kept[0])
                } else {
                    (r matches Err(e) && is_user_error(e, extra_run_arg_prefix() + arg_shown(kept[1])))
                },
            }
        }),
{
    let mut kept = drop_empty_args(args);
    if kept.len() == 0 {
        return Ok(CliCommand::Run { database_path: None });
    }
    let ghost all = kept@;
    let extra: Option<CliArg> = if kept.len() > 1 {
        Some(kept.remove(1))
    } else {
        None
    };
    let command = kept.remove(0);
    let option_kind: u8 = match &command {
        CliArg::Text(text) => if str_eq(text.as_str(), "--install") {
            1
        } else if str_eq(text.as_str(), "--uninstall") {
            2
        } else if starts_with_two_dashes(text.as_str()) {
            3
        } else {
            0
        },
        CliArg::Other(_) => 0,
    };
    if option_kind == 1 || option_kind == 2 {
        if extra.is_some() {
            return Err(AppError::user("--install/--uninstall 명령에는 추가 인자를 지정할 수 없습니다."));
        }
        if option_kind == 1 {
            return Ok(CliCommand::Install);
        }
        return Ok(CliCommand::Uninstall);
    }
    if option_kind == 3 {
        let mut message = to_owned("알 수 없는 옵션입니다: ");
        if let CliArg::Text(text) = &command {
            push_str(&mut message, text.as_str());
        }
        return Err(AppError::user(message.as_str()));
    }
    if let Some(extra) = extra {
        let mut message = to_owned("설정 파일 인자는 하나만 지정할 수 있습니다. 알 수 없는 인자: ");
        let shown = match &extra {
            CliArg::Text(text) => to_owned(text.as_str()),
            CliArg::Other(path) => path_text(path),
        };
        assert(shown@ == arg_shown(extra));
        push_str(&mut message, shown.as_str());
        return Err(AppError::user(message.as_str()));
    }
    assert(command == all[0]);
    Ok(CliCommand::Run { database_path: Some(command) })
}

} // verus!
