//! The options of each command.
use vstd::prelude::*;

use crate::cli::args::{
    arg_text, bad_node_id_message, id_value, is_user_error, node_id_of, not_unicode_message,
    repeated_option_message, set_once, shown_arg, text_value, unknown_argument_message, user_error_of,
    CliArg, CliArgs,
};
use crate::cli::content::ContentSource;
use crate::error::AppError;
use crate::text::{push_str, to_owned};

verus! {

#[derive(Debug)]
pub struct ShowCommand {
    pub node_id: i64,
    pub trash_only: bool,
}

#[derive(Debug)]
pub struct CreateCommand {
    pub parent_id: i64,
    pub title: String,
    pub content: ContentSource,
}

#[derive(Debug)]
pub struct EditCommand {
    pub node_id: i64,
    pub content: ContentSource,
    pub append: bool,
}

#[derive(Debug)]
pub struct RenameCommand {
    pub node_id: i64,
    pub title: String,
}

#[derive(Debug)]
pub struct MoveCommand {
    pub node_id: i64,
    pub parent_id: i64,
}

/// Where a body comes from, as the arguments say it: a file is given by its argument.
pub enum SourceSpec {
    Absent,
    Literal(Seq<char>),
    File(CliArg),
    Stdin,
}

/// The source and what the arguments say agree.
pub open spec fn source_matches(source: ContentSource, spec: SourceSpec) -> bool {
    match spec {
        SourceSpec::Absent => source is Absent,
        SourceSpec::Literal(t) => source matches ContentSource::Literal(s) && s@ == t,
        SourceSpec::File(arg) => source matches ContentSource::File(a) && a == arg,
        SourceSpec::Stdin => source is Stdin,
    }
}

pub open spec fn duplicate_content_source_message() -> Seq<char> {
    "본문 입력 옵션은 --content, --content-file, --stdin 중 하나만 사용할 수 있습니다."@
}

/// Sets where a body comes from; only one source may be given.
pub fn set_content_source(target: &mut ContentSource, value: ContentSource) -> (r: Result<
    (),
    AppError,
>)
    ensures
        r is Ok <==> (*old(target)) is Absent,
        r is Ok ==> *final(target) == value,
        r matches Err(e) ==> *final(target) == *old(target) && is_user_error(
            e,
            duplicate_content_source_message(),
        ),
{
    if !matches!(target, ContentSource::Absent) {
        return Err(
            AppError::user(
                "본문 입력 옵션은 --content, --content-file, --stdin 중 하나만 사용할 수 있습니다.",
            ),
        );
    }
    *target = value;
    Ok(())
}

fn unknown_argument_error(command: &str, argument: &str) -> (r: AppError)
    ensures
        is_user_error(r, unknown_argument_message(command@, argument@)),
{
    let mut message = to_owned(command);
    push_str(&mut message, " 명령에서 알 수 없는 인수입니다: ");
    push_str(&mut message, argument);
    AppError::user(message.as_str())
}

/// What the arguments of `show` say: the node and whether only the trash is searched.
pub open spec fn show_spec(args: Seq<CliArg>, trash: bool, node: Option<i64>) -> Result<
    (i64, bool),
    Seq<char>,
>
    decreases args.len(),
{
    if args.len() == 0 {
        match node {
            Some(id) => Ok((id, trash)),
            None => Err("show 명령에는 <node_id>가 필요합니다."@),
        }
    } else {
        match arg_text(args[0]) {
            None => Err(not_unicode_message("argument"@)),
            Some(a) => if a == "--trash"@ {
                if trash {
                    Err(repeated_option_message("--trash"@))
                } else {
                    show_spec(args.drop_first(), true, node)
                }
            } else if node is Some {
                Err(unknown_argument_message("show"@, a))
            } else {
                match node_id_of(a) {
                    Some(id) => show_spec(args.drop_first(), trash, Some(id)),
                    None => Err(bad_node_id_message("node_id"@, a)),
                }
            },
        }
    }
}

#[verifier::loop_isolation(false)]
pub fn parse_show_args(args: CliArgs) -> (r: Result<ShowCommand, AppError>)
    ensures
        match show_spec(args@, false, None) {
            Ok((id, trash)) => r matches Ok(c) && c.node_id == id && c.trash_only == trash,
            Err(m) => r matches Err(e) && is_user_error(e, m),
        },
{
    let ghost all = args@;
    let mut args = args;
    let mut trash_only = false;
    let mut node_id: Option<i64> = None;
    loop
        invariant
            show_spec(all, false, None) == show_spec(args@, trash_only, node_id),
        decreases args@.len(),
    {
        let argument = match args.pop_optional_string() {
            Err(error) => return Err(error),
            Ok(None) => break,
            Ok(Some(argument)) => argument,
        };
        if crate::text::str_eq(argument.as_str(), "--trash") {
            if trash_only {
                return Err(user_error_of("--trash", " 옵션은 한 번만 사용할 수 있습니다."));
            }
            trash_only = true;
            continue;
        }
        if node_id.is_some() {
            return Err(unknown_argument_error("show", argument.as_str()));
        }
        node_id = Some(crate::cli::args::parse_node_id_text(argument.as_str(), "node_id")?);
    }
    match node_id {
        Some(node_id) => Ok(ShowCommand { node_id, trash_only }),
        None => Err(AppError::user("show 명령에는 <node_id>가 필요합니다.")),
    }
}

/// What the options of `create` say, given what was said so far.
pub open spec fn create_spec(
    args: Seq<CliArg>,
    parent: Option<i64>,
    title: Option<Seq<char>>,
    content: SourceSpec,
) -> Result<(i64, Seq<char>, SourceSpec), Seq<char>>
    decreases args.len(),
{
    if args.len() == 0 {
        match parent {
            None => Err("create 명령에는 --parent <node_id> 옵션이 필요합니다."@),
            Some(p) => match title {
                None => Err("create 명령에는 --title <title> 옵션이 필요합니다."@),
                Some(t) => Ok((p, t, content)),
            },
        }
    } else {
        let rest = args.drop_first();
        match arg_text(args[0]) {
            None => Err(not_unicode_message("argument"@)),
            Some(o) => if o == "--parent"@ {
                match id_value(rest, "--parent"@) {
                    Err(m) => Err(m),
                    Ok(id) => if parent is Some {
                        Err(repeated_option_message("--parent"@))
                    } else {
                        create_spec(rest.drop_first(), Some(id), title, content)
                    },
                }
            } else if o == "--title"@ {
                match text_value(rest, "--title"@) {
                    Err(m) => Err(m),
                    Ok(t) => if title is Some {
                        Err(repeated_option_message("--title"@))
                    } else {
                        create_spec(rest.drop_first(), parent, Some(t), content)
                    },
                }
            } else if o == "--content"@ {
                match text_value(rest, "--content"@) {
                    Err(m) => Err(m),
                    Ok(t) => if !(content is Absent) {
                        Err(duplicate_content_source_message())
                    } else {
                        create_spec(rest.drop_first(), parent, title, SourceSpec::Literal(t))
                    },
                }
            } else if o == "--content-file"@ {
                if rest.len() == 0 {
                    Err(crate::cli::args::missing_value_message("--content-file"@))
                } else if !(content is Absent) {
                    Err(duplicate_content_source_message())
                } else {
                    create_spec(rest.drop_first(), parent, title, SourceSpec::File(rest[0]))
                }
            } else if o == "--stdin"@ {
                if !(content is Absent) {
                    Err(duplicate_content_source_message())
                } else {
                    create_spec(rest, parent, title, SourceSpec::Stdin)
                }
            } else {
                Err(unknown_argument_message("create"@, o))
            },
        }
    }
}

/// Some argument `o` is followed by an argument with the text `v`.
pub open spec fn text_given_after(args: Seq<CliArg>, o: Seq<char>, v: Seq<char>) -> bool {
    exists|i: int|
        0 <= i && i + 1 < args.len() && arg_text(#[trigger] args[i]) == Some(o) && arg_text(
            args[i + 1],
        ) == Some(v)
}

/// Some argument `o` is followed by the argument `a`.
pub open spec fn arg_given_after(args: Seq<CliArg>, o: Seq<char>, a: CliArg) -> bool {
    exists|i: int|
        0 <= i && i + 1 < args.len() && arg_text(#[trigger] args[i]) == Some(o) && args[i + 1] == a
}

/// Some argument `o` is followed by the text of the node id `id`.
pub open spec fn id_given_after(args: Seq<CliArg>, o: Seq<char>, id: i64) -> bool {
    exists|i: int|
        0 <= i && i + 1 < args.len() && arg_text(#[trigger] args[i]) == Some(o) && (arg_text(
            args[i + 1],
        ) matches Some(t) && node_id_of(t) == Some(id))
}

/// The content source that the arguments name is one they give: the text after a
/// `--content`, the path after a `--content-file`, or `--stdin`.
pub open spec fn source_given(args: Seq<CliArg>, source: SourceSpec) -> bool {
    match source {
        SourceSpec::Absent => true,
        SourceSpec::Literal(t) => text_given_after(args, "--content"@, t),
        SourceSpec::File(a) => arg_given_after(args, "--content-file"@, a),
        SourceSpec::Stdin => has_arg_text(args, "--stdin"@),
    }
}

/// What is said of arguments after the first `k` is said of all of them.
proof fn lemma_given_in_tail(args: Seq<CliArg>, k: int)
    requires
        0 <= k <= args.len(),
    ensures
        forall|o: Seq<char>, v: Seq<char>|
            text_given_after(args.subrange(k, args.len() as int), o, v) ==> #[trigger] text_given_after(
                args,
                o,
                v,
            ),
        forall|o: Seq<char>, a: CliArg|
            arg_given_after(args.subrange(k, args.len() as int), o, a) ==> #[trigger] arg_given_after(
                args,
                o,
                a,
            ),
        forall|o: Seq<char>, id: i64|
            id_given_after(args.subrange(k, args.len() as int), o, id) ==> #[trigger] id_given_after(
                args,
                o,
                id,
            ),
        forall|o: Seq<char>|
            has_arg_text(args.subrange(k, args.len() as int), o) ==> #[trigger] has_arg_text(args, o),
{
    let tail = args.subrange(k, args.len() as int);
    assert forall|o: Seq<char>, v: Seq<char>| text_given_after(tail, o, v) implies #[trigger] text_given_after(
        args,
        o,
        v,
    ) by {
        let j = choose|j: int|
            0 <= j && j + 1 < tail.len() && arg_text(#[trigger] tail[j]) == Some(o) && arg_text(
                tail[j + 1],
            ) == Some(v);
        assert(args[j + k] == tail[j] && args[j + k + 1] == tail[j + 1]);
    }
    assert forall|o: Seq<char>, a: CliArg| arg_given_after(tail, o, a) implies #[trigger] arg_given_after(
        args,
        o,
        a,
    ) by {
        let j = choose|j: int|
            0 <= j && j + 1 < tail.len() && arg_text(#[trigger] tail[j]) == Some(o) && tail[j + 1]
                == a;
        assert(args[j + k] == tail[j] && args[j + k + 1] == tail[j + 1]);
    }
    assert forall|o: Seq<char>, id: i64| id_given_after(tail, o, id) implies #[trigger] id_given_after(
        args,
        o,
        id,
    ) by {
        let j = choose|j: int|
            0 <= j && j + 1 < tail.len() && arg_text(#[trigger] tail[j]) == Some(o) && (arg_text(
                tail[j + 1],
            ) matches Some(t) && node_id_of(t) == Some(id));
        assert(args[j + k] == tail[j] && args[j + k + 1] == tail[j + 1]);
    }
    assert forall|o: Seq<char>| has_arg_text(tail, o) implies #[trigger] has_arg_text(args, o) by {
        let j = choose|j: int| 0 <= j < tail.len() && arg_text(tail[j]) == Some(o);
        assert(args[j + k] == tail[j]);
    }
}

/// The document that `create` makes takes its parent from the id after a `--parent`, its
/// title from the text after a `--title`, and its content from a content option that the
/// arguments give; nothing is taken from elsewhere.
pub proof fn lemma_create_takes_what_its_options_give(
    args: Seq<CliArg>,
    parent: Option<i64>,
    title: Option<Seq<char>>,
    content: SourceSpec,
)
    ensures
        create_spec(args, parent, title, content) matches Ok((p, t, c)) ==> {
            &&& parent == Some(p) || id_given_after(args, "--parent"@, p)
            &&& title == Some(t) || text_given_after(args, "--title"@, t)
            &&& c == content || source_given(args, c)
        },
    decreases args.len(),
{
    if args.len() > 0 {
        let rest = args.drop_first();
        lemma_given_in_tail(args, 1);
        assert(rest =~= args.subrange(1, args.len() as int));
        if rest.len() > 0 {
            lemma_given_in_tail(args, 2);
            assert(rest.drop_first() =~= args.subrange(2, args.len() as int));
        }
        if let Some(o) = arg_text(args[0]) {
            if o == "--parent"@ {
                if let Ok(id) = id_value(rest, "--parent"@) {
                    lemma_create_takes_what_its_options_give(rest.drop_first(), Some(id), title, content);
                    assert(args[1] == rest[0]);
                }
            } else if o == "--title"@ {
                if let Ok(t) = text_value(rest, "--title"@) {
                    lemma_create_takes_what_its_options_give(rest.drop_first(), parent, Some(t), content);
                    assert(args[1] == rest[0]);
                }
            } else if o == "--content"@ {
                if let Ok(t) = text_value(rest, "--content"@) {
                    lemma_create_takes_what_its_options_give(
                        rest.drop_first(),
                        parent,
                        title,
                        SourceSpec::Literal(t),
                    );
                    assert(args[1] == rest[0]);
                }
            } else if o == "--content-file"@ {
                if rest.len() > 0 {
                    lemma_create_takes_what_its_options_give(
                        rest.drop_first(),
                        parent,
                        title,
                        SourceSpec::File(rest[0]),
                    );
                    assert(args[1] == rest[0]);
                }
            } else if o == "--stdin"@ {
                lemma_create_takes_what_its_options_give(rest, parent, title, SourceSpec::Stdin);
            }
        }
    }
}

#[verifier::loop_isolation(false)]
pub fn parse_create_args(args: CliArgs) -> (r: Result<CreateCommand, AppError>)
    ensures
        match create_spec(args@, None, None, SourceSpec::Absent) {
            Ok((p, t, c)) => r matches Ok(cmd) && cmd.parent_id == p && cmd.title@ == t
                && source_matches(cmd.content, c),
            Err(m) => r matches Err(e) && is_user_error(e, m),
        },
        r matches Ok(cmd) ==> id_given_after(args@, "--parent"@, cmd.parent_id) && text_given_after(
            args@,
            "--title"@,
            cmd.title@,
        ),
{
    proof {
        lemma_create_takes_what_its_options_give(args@, None, None, SourceSpec::Absent);
    }
    let ghost all = args@;
    let mut args = args;
    let mut parent_id: Option<i64> = None;
    let mut title: Option<String> = None;
    let mut content = ContentSource::Absent;
    let ghost mut content_spec = SourceSpec::Absent;
    loop
        invariant
            create_spec(all, None, None, SourceSpec::Absent) == create_spec(
                args@,
                parent_id,
                match title {
                    Some(t) => Some(t@),
                    None => None,
                },
                content_spec,
            ),
            source_matches(content, content_spec),
        decreases args@.len(),
    {
        let ghost before = args@;
        let option = match args.pop_optional_string() {
            Err(error) => return Err(error),
            Ok(None) => break,
            Ok(Some(option)) => option,
        };
        let ghost rest = args@;
        if crate::text::str_eq(option.as_str(), "--parent") {
            let value = args.pop_node_id("--parent")?;
            if parent_id.is_some() {
                return Err(user_error_of("--parent", " 옵션은 한 번만 사용할 수 있습니다."));
            }
            parent_id = Some(value);
        } else if crate::text::str_eq(option.as_str(), "--title") {
            let value = args.pop_string("--title")?;
            if title.is_some() {
                return Err(user_error_of("--title", " 옵션은 한 번만 사용할 수 있습니다."));
            }
            title = Some(value);
        } else if crate::text::str_eq(option.as_str(), "--content") {
            let value = args.pop_string("--content")?;
            set_content_source(&mut content, ContentSource::Literal(value))?;
            proof {
                content_spec = SourceSpec::Literal(rest[0]->Text_0@);
            }
        } else if crate::text::str_eq(option.as_str(), "--content-file") {
            let path = args.pop_path("--content-file")?;
            set_content_source(&mut content, ContentSource::File(path))?;
            proof {
                content_spec = SourceSpec::File(rest[0]);
            }
        } else if crate::text::str_eq(option.as_str(), "--stdin") {
            set_content_source(&mut content, ContentSource::Stdin)?;
            proof {
                content_spec = SourceSpec::Stdin;
            }
        } else {
            return Err(unknown_argument_error("create", option.as_str()));
        }
    }
    let parent_id = match parent_id {
        Some(parent_id) => parent_id,
        None => return Err(AppError::user("create 명령에는 --parent <node_id> 옵션이 필요합니다.")),
    };
    let title = match title {
        Some(title) => title,
        None => return Err(AppError::user("create 명령에는 --title <title> 옵션이 필요합니다.")),
    };
    Ok(CreateCommand { parent_id, title, content })
}

/// What the options of `edit` after its node id say, given what was said so far.
pub open spec fn edit_spec(args: Seq<CliArg>, content: SourceSpec, append: bool) -> Result<
    (SourceSpec, bool),
    Seq<char>,
>
    decreases args.len(),
{
    if args.len() == 0 {
        if content is Absent {
            Err("edit 명령에는 --content, --content-file, --stdin 중 하나가 필요합니다."@)
        } else {
            Ok((content, append))
        }
    } else {
        let rest = args.drop_first();
        match arg_text(args[0]) {
            None => Err(not_unicode_message("argument"@)),
            Some(o) => if o == "--content"@ {
                match text_value(rest, "--content"@) {
                    Err(m) => Err(m),
                    Ok(t) => if !(content is Absent) {
                        Err(duplicate_content_source_message())
                    } else {
                        edit_spec(rest.drop_first(), SourceSpec::Literal(t), append)
                    },
                }
            } else if o == "--content-file"@ {
                if rest.len() == 0 {
                    Err(crate::cli::args::missing_value_message("--content-file"@))
                } else if !(content is Absent) {
                    Err(duplicate_content_source_message())
                } else {
                    edit_spec(rest.drop_first(), SourceSpec::File(rest[0]), append)
                }
            } else if o == "--stdin"@ {
                if !(content is Absent) {
                    Err(duplicate_content_source_message())
                } else {
                    edit_spec(rest, SourceSpec::Stdin, append)
                }
            } else if o == "--append"@ {
                if append {
                    Err(repeated_option_message("--append"@))
                } else {
                    edit_spec(rest, content, true)
                }
            } else {
                Err(unknown_argument_message("edit"@, o))
            },
        }
    }
}

/// Some argument is the text `o`.
pub open spec fn has_arg_text(args: Seq<CliArg>, o: Seq<char>) -> bool {
    exists|i: int| 0 <= i < args.len() && arg_text(args[i]) == Some(o)
}

/// Every `--append` among the arguments is the value of a `--content` or
/// `--content-file` just before it.
pub open spec fn append_only_as_value(args: Seq<CliArg>) -> bool {
    forall|i: int|
        0 <= i < args.len() && arg_text(#[trigger] args[i]) == Some("--append"@) ==> i > 0 && (
        arg_text(args[i - 1]) == Some("--content"@) || arg_text(args[i - 1]) == Some(
            "--content-file"@,
        ))
}

/// The options of `edit` ask to append exactly when `--append` is given as an option:
/// appending, once asked for, stays asked for; it is only asked for when some argument is
/// `--append`; and it is not asked for only when every `--append` is the value of a
/// content option. No content option asks to append.
pub proof fn lemma_edit_appends_only_when_asked(args: Seq<CliArg>, content: SourceSpec, append: bool)
    ensures
        edit_spec(args, content, append) matches Ok((c, a)) ==> {
            &&& append ==> a
            &&& a ==> append || has_arg_text(args, "--append"@)
            &&& !a ==> append_only_as_value(args)
            &&& c == content || source_given(args, c)
        },
    decreases args.len(),
{
    reveal_strlit("--content");
    reveal_strlit("--content-file");
    reveal_strlit("--stdin");
    reveal_strlit("--append");
    assert("--content"@.len() != "--append"@.len());
    assert("--content-file"@.len() != "--append"@.len());
    assert("--stdin"@.len() != "--append"@.len());
    if args.len() > 0 {
        let rest = args.drop_first();
        lemma_given_in_tail(args, 1);
        if rest.len() > 0 {
            lemma_given_in_tail(args, 2);
            assert(args[1] == rest[0]);
        }
        if let Some(o) = arg_text(args[0]) {
            if o == "--content"@ {
                if let Ok(t) = text_value(rest, "--content"@) {
                    let tail = rest.drop_first();
                    lemma_edit_appends_only_when_asked(tail, SourceSpec::Literal(t), append);
                    assert(tail =~= args.subrange(2, args.len() as int));
                    lemma_shifted_args(args, tail, 2);
                }
            } else if o == "--content-file"@ {
                if rest.len() > 0 {
                    let tail = rest.drop_first();
                    lemma_edit_appends_only_when_asked(tail, SourceSpec::File(rest[0]), append);
                    assert(tail =~= args.subrange(2, args.len() as int));
                    lemma_shifted_args(args, tail, 2);
                }
            } else if o == "--stdin"@ {
                lemma_edit_appends_only_when_asked(rest, SourceSpec::Stdin, append);
                assert(arg_text(args[0]) == Some("--stdin"@));
                assert(rest =~= args.subrange(1, args.len() as int));
                lemma_shifted_args(args, rest, 1);
            } else if o == "--append"@ {
                lemma_edit_appends_only_when_asked(rest, content, true);
                assert(arg_text(args[0]) == Some("--append"@));
            }
        }
    }
}

/// What holds of the arguments after the first `k` holds of all of them, when the first
/// `k` are an option and its value.
proof fn lemma_shifted_args(args: Seq<CliArg>, tail: Seq<CliArg>, k: int)
    requires
        1 <= k <= 2,
        k <= args.len(),
        tail == args.subrange(k, args.len() as int),
        arg_text(args[0]) != Some("--append"@),
        k == 2 ==> arg_text(args[0]) == Some("--content"@) || arg_text(args[0]) == Some(
            "--content-file"@,
        ),
    ensures
        has_arg_text(tail, "--append"@) ==> has_arg_text(args, "--append"@),
        append_only_as_value(tail) ==> append_only_as_value(args),
{
    if has_arg_text(tail, "--append"@) {
        let j = choose|j: int| 0 <= j < tail.len() && arg_text(tail[j]) == Some("--append"@);
        assert(args[j + k] == tail[j]);
    }
    if append_only_as_value(tail) {
        assert forall|i: int|
            0 <= i < args.len() && arg_text(#[trigger] args[i]) == Some("--append"@) implies i > 0 && (
            arg_text(args[i - 1]) == Some("--content"@) || arg_text(args[i - 1]) == Some(
                "--content-file"@,
            )) by {
            if i >= k {
                assert(tail[i - k] == args[i]);
                if i - k > 0 {
                    assert(tail[i - k - 1] == args[i - 1]);
                }
            }
        }
    }
}

#[verifier::loop_isolation(false)]
pub fn parse_edit_args(args: CliArgs) -> (r: Result<EditCommand, AppError>)
    ensures
        match id_value(args@, "node_id"@) {
            Err(m) => r matches Err(e) && is_user_error(e, m),
            Ok(id) => match edit_spec(args@.drop_first(), SourceSpec::Absent, false) {
                Ok((c, a)) => r matches Ok(cmd) && cmd.node_id == id && cmd.append == a
                    && source_matches(cmd.content, c),
                Err(m) => r matches Err(e) && is_user_error(e, m),
            },
        },
        r matches Ok(cmd) ==> (cmd.append ==> has_arg_text(args@.drop_first(), "--append"@)) && (
        !cmd.append ==> append_only_as_value(args@.drop_first())),
        ({
            let rest = args@.drop_first();
            id_value(args@, "node_id"@) is Ok ==> match edit_spec(rest, SourceSpec::Absent, false) {
                Ok((c, a)) => source_given(rest, c),
                Err(_) => true,
            }
        }),
{
    let mut args = args;
    proof {
        lemma_edit_appends_only_when_asked(args@.drop_first(), SourceSpec::Absent, false);
    }
    let node_id = args.pop_node_id("node_id")?;
    let ghost all = args@;
    let mut content = ContentSource::Absent;
    let ghost mut content_spec = SourceSpec::Absent;
    let mut append = false;
    loop
        invariant
            edit_spec(all, SourceSpec::Absent, false) == edit_spec(args@, content_spec, append),
            source_matches(content, content_spec),
        decreases args@.len(),
    {
        let option = match args.pop_optional_string() {
            Err(error) => return Err(error),
            Ok(None) => break,
            Ok(Some(option)) => option,
        };
        let ghost rest = args@;
        if crate::text::str_eq(option.as_str(), "--content") {
            let value = args.pop_string("--content")?;
            set_content_source(&mut content, ContentSource::Literal(value))?;
            proof {
                content_spec = SourceSpec::Literal(rest[0]->Text_0@);
            }
        } else if crate::text::str_eq(option.as_str(), "--content-file") {
            let path = args.pop_path("--content-file")?;
            set_content_source(&mut content, ContentSource::File(path))?;
            proof {
                content_spec = SourceSpec::File(rest[0]);
            }
        } else if crate::text::str_eq(option.as_str(), "--stdin") {
            set_content_source(&mut content, ContentSource::Stdin)?;
            proof {
                content_spec = SourceSpec::Stdin;
            }
        } else if crate::text::str_eq(option.as_str(), "--append") {
            if append {
                return Err(user_error_of("--append", " 옵션은 한 번만 사용할 수 있습니다."));
            }
            append = true;
        } else {
            return Err(unknown_argument_error("edit", option.as_str()));
        }
    }
    if matches!(content, ContentSource::Absent) {
        return Err(
            AppError::user("edit 명령에는 --content, --content-file, --stdin 중 하나가 필요합니다."),
        );
    }
    Ok(EditCommand { node_id, content, append })
}

/// What the options of `rename` after its node id say.
pub open spec fn rename_spec(args: Seq<CliArg>, title: Option<Seq<char>>) -> Result<
    Seq<char>,
    Seq<char>,
>
    decreases args.len(),
{
    if args.len() == 0 {
        match title {
            Some(t) => Ok(t),
            None => Err("rename 명령에는 --title <title> 옵션이 필요합니다."@),
        }
    } else {
        let rest = args.drop_first();
        match arg_text(args[0]) {
            None => Err(not_unicode_message("argument"@)),
            Some(o) => if o == "--title"@ {
                match text_value(rest, "--title"@) {
                    Err(m) => Err(m),
                    Ok(t) => if title is Some {
                        Err(repeated_option_message("--title"@))
                    } else {
                        rename_spec(rest.drop_first(), Some(t))
                    },
                }
            } else {
                Err(unknown_argument_message("rename"@, o))
            },
        }
    }
}

#[verifier::loop_isolation(false)]
pub fn parse_rename_args(args: CliArgs) -> (r: Result<RenameCommand, AppError>)
    ensures
        match id_value(args@, "node_id"@) {
            Err(m) => r matches Err(e) && is_user_error(e, m),
            Ok(id) => match rename_spec(args@.drop_first(), None) {
                Ok(t) => r matches Ok(cmd) && cmd.node_id == id && cmd.title@ == t,
                Err(m) => r matches Err(e) && is_user_error(e, m),
            },
        },
{
    let mut args = args;
    let node_id = args.pop_node_id("node_id")?;
    let ghost all = args@;
    let mut title: Option<String> = None;
    loop
        invariant
            rename_spec(all, None) == rename_spec(
                args@,
                match title {
                    Some(t) => Some(t@),
                    None => None,
                },
            ),
        decreases args@.len(),
    {
        let option = match args.pop_optional_string() {
            Err(error) => return Err(error),
            Ok(None) => break,
            Ok(Some(option)) => option,
        };
        if crate::text::str_eq(option.as_str(), "--title") {
            let value = args.pop_string("--title")?;
            set_once(&mut title, value, "--title")?;
        } else {
            return Err(unknown_argument_error("rename", option.as_str()));
        }
    }
    match title {
        Some(title) => Ok(RenameCommand { node_id, title }),
        None => Err(AppError::user("rename 명령에는 --title <title> 옵션이 필요합니다.")),
    }
}

/// What the options of `move` after its node id say.
pub open spec fn move_spec(args: Seq<CliArg>, parent: Option<i64>) -> Result<i64, Seq<char>>
    decreases args.len(),
{
    if args.len() == 0 {
        match parent {
            Some(p) => Ok(p),
            None => Err("move 명령에는 --parent <node_id> 옵션이 필요합니다."@),
        }
    } else {
        let rest = args.drop_first();
        match arg_text(args[0]) {
            None => Err(not_unicode_message("argument"@)),
            Some(o) => if o == "--parent"@ {
                match id_value(rest, "--parent"@) {
                    Err(m) => Err(m),
                    Ok(id) => if parent is Some {
                        Err(repeated_option_message("--parent"@))
                    } else {
                        move_spec(rest.drop_first(), Some(id))
                    },
                }
            } else {
                Err(unknown_argument_message("move"@, o))
            },
        }
    }
}

#[verifier::loop_isolation(false)]
pub fn parse_move_args(args: CliArgs) -> (r: Result<MoveCommand, AppError>)
    ensures
        match id_value(args@, "node_id"@) {
            Err(m) => r matches Err(e) && is_user_error(e, m),
            Ok(id) => match move_spec(args@.drop_first(), None) {
                Ok(p) => r matches Ok(cmd) && cmd.node_id == id && cmd.parent_id == p,
                Err(m) => r matches Err(e) && is_user_error(e, m),
            },
        },
{
    let mut args = args;
    let node_id = args.pop_node_id("node_id")?;
    let ghost all = args@;
    let mut parent_id: Option<i64> = None;
    loop
        invariant
            move_spec(all, None) == move_spec(args@, parent_id),
        decreases args@.len(),
    {
        let option = match args.pop_optional_string() {
            Err(error) => return Err(error),
            Ok(None) => break,
            Ok(Some(option)) => option,
        };
        if crate::text::str_eq(option.as_str(), "--parent") {
            let value = args.pop_node_id("--parent")?;
            set_once(&mut parent_id, value, "--parent")?;
        } else {
            return Err(unknown_argument_error("move", option.as_str()));
        }
    }
    match parent_id {
        Some(parent_id) => Ok(MoveCommand { node_id, parent_id }),
        None => Err(AppError::user("move 명령에는 --parent <node_id> 옵션이 필요합니다.")),
    }
}

/// The query of `search`: one argument and nothing after it.
pub fn parse_search_args(args: CliArgs) -> (r: Result<String, AppError>)
    ensures
        match text_value(args@, "query"@) {
            Err(m) => r matches Err(e) && is_user_error(e, m),
            Ok(q) => if args@.len() == 1 {
                r matches Ok(s) && s@ == q
            } else {
                r matches Err(e) && is_user_error(e, unknown_argument_message("search"@, shown_arg(args@[1])))
            },
        },
{
    let mut args = args;
    let query = args.pop_string("query")?;
    args.ensure_empty("search")?;
    Ok(query)
}

/// The node id of a command that takes nothing else.
pub fn parse_node_id_args(args: CliArgs, command: &str) -> (r: Result<i64, AppError>)
    ensures
        match id_value(args@, "node_id"@) {
            Err(m) => r matches Err(e) && is_user_error(e, m),
            Ok(id) => if args@.len() == 1 {
                r == Ok::<i64, AppError>(id)
            } else {
                r matches Err(e) && is_user_error(e, unknown_argument_message(command@, shown_arg(args@[1])))
            },
        },
{
    let mut args = args;
    let node_id = args.pop_node_id("node_id")?;
    args.ensure_empty(command)?;
    Ok(node_id)
}

} // verus!
