//! The command-line arguments, taken one at a time from the front.
use vstd::prelude::*;

use std::collections::VecDeque;

use crate::decimal::parse_i64;
use crate::decimal::parse_i64_str;
use crate::error::AppError;
use crate::text::{push_str, to_owned};

verus! {

/// One argument: Unicode text, or a platform string that is not, kept as a path.
#[derive(Debug)]
pub enum CliArg {
    Text(String),
    Other(std::path::PathBuf),
}

/// The arguments that are still to be read.
pub struct CliArgs {
    values: VecDeque<CliArg>,
}

impl View for CliArgs {
    type V = Seq<CliArg>;

    closed spec fn view(&self) -> Seq<CliArg> {
        self.values@
    }
}

/// A user error with the given message.
pub open spec fn is_user_error(error: AppError, message: Seq<char>) -> bool {
    error matches AppError::User { message: m } && m@ == message
}

pub open spec fn missing_value_message(label: Seq<char>) -> Seq<char> {
    label + " 값이 필요합니다."@
}

pub open spec fn not_unicode_message(label: Seq<char>) -> Seq<char> {
    label + " 값은 유효한 Unicode 문자열이어야 합니다."@
}

pub open spec fn repeated_option_message(option: Seq<char>) -> Seq<char> {
    option + " 옵션은 한 번만 사용할 수 있습니다."@
}

pub open spec fn bad_node_id_message(label: Seq<char>, value: Seq<char>) -> Seq<char> {
    label + " 값은 1 이상의 정수여야 합니다: "@ + value
}

pub open spec fn unknown_argument_message(command: Seq<char>, argument: Seq<char>) -> Seq<char> {
    command + " 명령에서 알 수 없는 인수입니다: "@ + argument
}

/// The text of an argument, when it is Unicode.
pub open spec fn arg_text(arg: CliArg) -> Option<Seq<char>> {
    match arg {
        CliArg::Text(s) => Some(s@),
        CliArg::Other(_) => None,
    }
}

/// What taking the first argument as text gives.
pub open spec fn text_value(args: Seq<CliArg>, label: Seq<char>) -> Result<Seq<char>, Seq<char>> {
    if args.len() == 0 {
        Err(missing_value_message(label))
    } else {
        match arg_text(args[0]) {
            Some(s) => Ok(s),
            None => Err(not_unicode_message(label)),
        }
    }
}

/// What taking the first argument as a node id gives.
pub open spec fn id_value(args: Seq<CliArg>, label: Seq<char>) -> Result<i64, Seq<char>> {
    match text_value(args, label) {
        Ok(s) => match node_id_of(s) {
            Some(id) => Ok(id),
            None => Err(bad_node_id_message(label, s)),
        },
        Err(m) => Err(m),
    }
}

/// How an argument is shown in an error: its text, or a placeholder.
pub open spec fn shown_arg(arg: CliArg) -> Seq<char> {
    match arg {
        CliArg::Text(s) => s@,
        CliArg::Other(_) => "<non-unicode>"@,
    }
}

/// The node id that an argument names: a whole number of at least one.
pub open spec fn node_id_of(value: Seq<char>) -> Option<i64> {
    match parse_i64(value) {
        Some(id) => if id > 0 {
            Some(id)
        } else {
            None
        },
        None => None,
    }
}

/// A user error whose message is `head` followed by `tail`.
pub fn user_error_of(head: &str, tail: &str) -> (r: AppError)
    ensures
        is_user_error(r, head@ + tail@),
{
    let mut message = to_owned(head);
    push_str(&mut message, tail);
    AppError::user(message.as_str())
}

impl CliArgs {
    pub fn new(values: Vec<CliArg>) -> (r: Self)
        ensures
            r@ == values@,
    {
        let mut queue: VecDeque<CliArg> = VecDeque::new();
        let mut values = values;
        let ghost all = values@;
        let mut rest: Vec<CliArg> = Vec::new();
        // Move the arguments out from the back, then put them in front to back.
        while values.len() > 0
            invariant
                all == values@ + rest@.reverse(),
            decreases values.len(),
        {
            let value = values.pop().unwrap();
            rest.push(value);
            assert(all =~= values@ + rest@.reverse());
        }
        assert(rest@.reverse() =~= all);
        while rest.len() > 0
            invariant
                all == queue@ + rest@.reverse(),
            decreases rest.len(),
        {
            let value = rest.pop().unwrap();
            queue.push_back(value);
            assert(all =~= queue@ + rest@.reverse());
        }
        assert(queue@ =~= all);
        CliArgs { values: queue }
    }

    pub fn is_empty(&self) -> (r: bool)
        ensures
            r == (self@.len() == 0),
    {
        self.values.len() == 0
    }

    /// Whether the next argument is the given text.
    pub fn peek_is(&self, expected: &str) -> (r: bool)
        ensures
            r == (self@.len() > 0 && (self@[0] matches CliArg::Text(s) && s@ == expected@)),
    {
        if self.values.len() == 0 {
            return false;
        }
        match &self.values[0] {
            CliArg::Text(s) => crate::text::str_eq(s.as_str(), expected),
            CliArg::Other(_) => false,
        }
    }

    /// Takes the next argument as text.
    pub fn pop_string(&mut self, label: &str) -> (r: Result<String, AppError>)
        ensures
            old(self)@.len() == 0 ==> final(self)@ == old(self)@ && (r matches Err(e) && is_user_error(
                e,
                missing_value_message(label@),
            )),
            old(self)@.len() > 0 ==> final(self)@ == old(self)@.drop_first() && match old(self)@[0] {
                CliArg::Text(s) => r == Ok::<String, AppError>(s),
                CliArg::Other(_) => r matches Err(e) && is_user_error(e, not_unicode_message(label@)),
            },
    {
        match self.values.pop_front() {
            Some(CliArg::Text(s)) => Ok(s),
            Some(CliArg::Other(_)) => Err(user_error_of(label, " 값은 유효한 Unicode 문자열이어야 합니다.")),
            None => Err(user_error_of(label, " 값이 필요합니다.")),
        }
    }

    /// Takes the next argument as text, if there is one.
    pub fn pop_optional_string(&mut self) -> (r: Result<Option<String>, AppError>)
        ensures
            old(self)@.len() == 0 ==> final(self)@ == old(self)@ && r == Ok::<Option<String>, AppError>(None),
            old(self)@.len() > 0 ==> final(self)@ == old(self)@.drop_first() && match old(self)@[0] {
                CliArg::Text(s) => r == Ok::<Option<String>, AppError>(Some(s)),
                CliArg::Other(_) => r matches Err(e) && is_user_error(e, not_unicode_message("argument"@)),
            },
    {
        match self.values.pop_front() {
            Some(CliArg::Text(s)) => Ok(Some(s)),
            Some(CliArg::Other(_)) => Err(user_error_of("argument", " 값은 유효한 Unicode 문자열이어야 합니다.")),
            None => Ok(None),
        }
    }

    /// Takes the next argument as a path: any argument, Unicode or not, names a path.
    pub fn pop_path(&mut self, label: &str) -> (r: Result<CliArg, AppError>)
        ensures
            r is Ok <==> old(self)@.len() > 0,
            old(self)@.len() == 0 ==> final(self)@ == old(self)@ && (r matches Err(e) && is_user_error(
                e,
                missing_value_message(label@),
            )),
            old(self)@.len() > 0 ==> final(self)@ == old(self)@.drop_first() && r == Ok::<CliArg, AppError>(old(self)@[0]),
    {
        match self.values.pop_front() {
            Some(arg) => Ok(arg),
            None => Err(user_error_of(label, " 값이 필요합니다.")),
        }
    }

    /// Takes the next argument as a node id.
    pub fn pop_node_id(&mut self, label: &str) -> (r: Result<i64, AppError>)
        ensures
            old(self)@.len() == 0 ==> final(self)@ == old(self)@ && (r matches Err(e) && is_user_error(
                e,
                missing_value_message(label@),
            )),
            old(self)@.len() > 0 ==> final(self)@ == old(self)@.drop_first() && match old(self)@[0] {
                CliArg::Text(s) => match node_id_of(s@) {
                    Some(id) => r == Ok::<i64, AppError>(id),
                    None => r matches Err(e) && is_user_error(e, bad_node_id_message(label@, s@)),
                },
                CliArg::Other(_) => r matches Err(e) && is_user_error(e, not_unicode_message(label@)),
            },
    {
        let value = self.pop_string(label)?;
        parse_node_id_text(value.as_str(), label)
    }

    /// Refuses any argument left over after a command's own.
    pub fn ensure_empty(self, command: &str) -> (r: Result<(), AppError>)
        ensures
            r is Ok <==> self@.len() == 0,
            r matches Err(e) ==> is_user_error(e, unknown_argument_message(command@, shown_arg(self@[0]))),
    {
        if self.values.len() == 0 {
            return Ok(());
        }
        let extra: &str = match &self.values[0] {
            CliArg::Text(s) => s.as_str(),
            CliArg::Other(_) => "<non-unicode>",
        };
        let mut message = to_owned(command);
        push_str(&mut message, " 명령에서 알 수 없는 인수입니다: ");
        push_str(&mut message, extra);
        Err(AppError::user(message.as_str()))
    }
}

/// Stores an option's value, refusing an option given twice.
pub fn set_once<T>(target: &mut Option<T>, value: T, option: &str) -> (r: Result<(), AppError>)
    ensures
        r is Ok <==> (*old(target)) is None,
        r is Ok ==> *final(target) == Some(value),
        r matches Err(e) ==> *final(target) == *old(target) && is_user_error(
            e,
            repeated_option_message(option@),
        ),
{
    if target.is_some() {
        return Err(user_error_of(option, " 옵션은 한 번만 사용할 수 있습니다."));
    }
    *target = Some(value);
    Ok(())
}

/// Reads a node id: a whole number of at least one.
pub fn parse_node_id_text(value: &str, label: &str) -> (r: Result<i64, AppError>)
    ensures
        match node_id_of(value@) {
            Some(id) => r == Ok::<i64, AppError>(id),
            None => r matches Err(e) && is_user_error(e, bad_node_id_message(label@, value@)),
        },
{
    let node_id = match parse_i64_str(value) {
        Some(node_id) => node_id,
        None => {
            let mut message = to_owned(label);
            push_str(&mut message, " 값은 1 이상의 정수여야 합니다: ");
            push_str(&mut message, value);
            return Err(AppError::user(message.as_str()));
        },
    };
    if node_id <= 0 {
        let mut message = to_owned(label);
        push_str(&mut message, " 값은 1 이상의 정수여야 합니다: ");
        push_str(&mut message, value);
        return Err(AppError::user(message.as_str()));
    }
    Ok(node_id)
}

} // verus!
