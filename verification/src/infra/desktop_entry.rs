//! The desktop entry that makes the application show up in a Linux desktop's menus:
//! its text, the alias id, and how the executable is written in it.
use vstd::prelude::*;

use crate::text::{ascii_lower, char_is_whitespace, is_whitespace, push_char, push_str, to_ascii_lower, to_owned};

verus! {

/// What the desktop entry says about the application.
#[derive(Debug, Clone, Copy, PartialEq, Eq)]
pub struct DesktopEntryMetadata {
    pub application_id: &'static str,
    pub display_name: &'static str,
    pub comment: &'static str,
    pub categories: &'static str,
    pub icon_svg_file_name: &'static str,
    pub icon_png_file_name: &'static str,
    pub legacy_application_ids: &'static [&'static str],
}

/// Where the entry and icon were installed, and whether installing changed them.
#[derive(Debug, PartialEq, Eq)]
pub struct DesktopEntryInstallSummary {
    pub desktop_entry_path: std::path::PathBuf,
    pub icon_path: std::path::PathBuf,
    pub desktop_entry_changed: bool,
    pub icon_changed: bool,
}

/// Where the entry and icon were, and whether uninstalling removed them.
#[derive(Debug, PartialEq, Eq)]
pub struct DesktopEntryUninstallSummary {
    pub desktop_entry_path: std::path::PathBuf,
    pub icon_path: std::path::PathBuf,
    pub desktop_entry_removed: bool,
    pub icon_removed: bool,
}

/// Why installing or removing the desktop entry failed, as the user is told.
#[derive(Debug, Clone, PartialEq, Eq)]
pub struct DesktopEntryError {
    message: String,
}

impl View for DesktopEntryError {
    type V = Seq<char>;

    closed spec fn view(&self) -> Seq<char> {
        self.message@
    }
}

impl DesktopEntryError {
    pub fn new(message: &str) -> (r: Self)
        ensures
            r@ == message@,
    {
        DesktopEntryError { message: to_owned(message) }
    }

    pub fn message(&self) -> (r: &str)
        ensures
            r@ == self@,
    {
        self.message.as_str()
    }
}

/// A character that makes an `Exec` value need quoting.
pub open spec fn needs_exec_escape(c: char) -> bool {
    c == '"' || c == '\\' || c == '$' || c == '`'
}

pub open spec fn exec_plain(value: Seq<char>) -> bool {
    forall|i: int| 0 <= i < value.len() ==> !is_whitespace(#[trigger] value[i]) && !needs_exec_escape(value[i])
}

/// The characters with a backslash before each that needs one.
pub open spec fn exec_escaped(value: Seq<char>) -> Seq<char>
    decreases value.len(),
{
    if value.len() == 0 {
        Seq::empty()
    } else {
        let c = value.last();
        let head = exec_escaped(value.drop_last());
        if needs_exec_escape(c) {
            head + seq!['\\', c]
        } else {
            head.push(c)
        }
    }
}

/// How a path is written as the `Exec` value: as it is when nothing in it needs
/// quoting, else in double quotes with `"`, `\`, `$` and backquote escaped.
pub open spec fn exec_value(value: Seq<char>) -> Seq<char> {
    if exec_plain(value) {
        value
    } else {
        seq!['"'] + exec_escaped(value) + seq!['"']
    }
}

/// The text of a desktop entry for the given id.
pub open spec fn entry_text(
    metadata: DesktopEntryMetadata,
    desktop_id: Seq<char>,
    exec: Seq<char>,
    no_display: bool,
) -> Seq<char> {
    "# Managed by "@ + metadata.display_name@ + " --install\n[Desktop Entry]\nType=Application\nName="@
        + metadata.display_name@ + "\nComment="@ + metadata.comment@ + "\nExec="@ + exec
        + "\nIcon="@ + desktop_id + "\nTerminal=false\nCategories="@ + metadata.categories@
        + "\nStartupNotify=true\nStartupWMClass="@ + desktop_id + "\n"@ + (if no_display {
        "NoDisplay=true\n"@
    } else {
        Seq::empty()
    })
}

/// The `Exec` value for an executable path given as text.
pub fn desktop_exec_path(value: &str) -> (r: String)
    ensures
        r@ == exec_value(value@),
{
    let chars = crate::decimal::chars_of(value);
    let mut plain = true;
    let mut i: usize = 0;
    while i < chars.len()
        invariant
            0 <= i <= chars.len(),
            chars@ == value@,
            plain == forall|k: int| 0 <= k < i ==> !is_whitespace(#[trigger] chars@[k]) && !needs_exec_escape(chars@[k]),
        decreases chars.len() - i,
    {
        let c = chars[i];
        if char_is_whitespace(c) || c == '"' || c == '\\' || c == '$' || c == '`' {
            plain = false;
        }
        i = i + 1;
    }
    if plain {
        return to_owned(value);
    }
    let mut escaped = String::new();
    push_char(&mut escaped, '"');
    let mut j: usize = 0;
    while j < chars.len()
        invariant
            0 <= j <= chars.len(),
            escaped@ == seq!['"'] + exec_escaped(chars@.take(j as int)),
        decreases chars.len() - j,
    {
        let c = chars[j];
        assert(chars@.take(j + 1).drop_last() =~= chars@.take(j as int));
        if c == '"' || c == '\\' || c == '$' || c == '`' {
            push_char(&mut escaped, '\\');
        }
        push_char(&mut escaped, c);
        j = j + 1;
    }
    push_char(&mut escaped, '"');
    assert(chars@.take(chars.len() as int) =~= chars@);
    escaped
}

/// The desktop entry text for an id, with the executable, given as the text of its
/// path, written as its `Exec` value.
pub fn desktop_entry_content_for_id(
    metadata: DesktopEntryMetadata,
    desktop_id: &str,
    executable_text: &str,
    no_display: bool,
) -> (r: String)
    ensures
        r@ == entry_text(metadata, desktop_id@, exec_value(executable_text@), no_display),
{
    let exec = desktop_exec_path(executable_text);
    let mut out = to_owned("# Managed by ");
    push_str(&mut out, metadata.display_name);
    push_str(&mut out, " --install\n[Desktop Entry]\nType=Application\nName=");
    push_str(&mut out, metadata.display_name);
    push_str(&mut out, "\nComment=");
    push_str(&mut out, metadata.comment);
    push_str(&mut out, "\nExec=");
    push_str(&mut out, exec.as_str());
    push_str(&mut out, "\nIcon=");
    push_str(&mut out, desktop_id);
    push_str(&mut out, "\nTerminal=false\nCategories=");
    push_str(&mut out, metadata.categories);
    push_str(&mut out, "\nStartupNotify=true\nStartupWMClass=");
    push_str(&mut out, desktop_id);
    push_str(&mut out, "\n");
    if no_display {
        push_str(&mut out, "NoDisplay=true\n");
    } else {
        assert(out@ + Seq::<char>::empty() =~= out@);
    }
    assert(out@ == entry_text(metadata, desktop_id@, exec_value(executable_text@), no_display));
    out
}

/// The desktop entry text for the application's own id.
pub fn desktop_entry_content(metadata: DesktopEntryMetadata, executable_text: &str) -> (r: String)
    ensures
        r@ == entry_text(metadata, metadata.application_id@, exec_value(executable_text@), false),
{
    desktop_entry_content_for_id(metadata, metadata.application_id, executable_text, false)
}

/// The hidden entry for the lower-case alias id.
pub fn alias_desktop_entry_content(
    metadata: DesktopEntryMetadata,
    alias_id: &str,
    executable_text: &str,
) -> (r: String)
    ensures
        r@ == entry_text(metadata, alias_id@, exec_value(executable_text@), true),
{
    desktop_entry_content_for_id(metadata, alias_id, executable_text, true)
}

/// The lower-case form of an application id, when it differs from the id.
pub fn lowercase_alias_id(application_id: &str) -> (r: Option<String>)
    ensures
        ascii_lower(application_id@) == application_id@ ==> r is None,
        ascii_lower(application_id@) != application_id@ ==> (r matches Some(alias) && alias@
            == ascii_lower(application_id@)),
{
    let alias_id = to_ascii_lower(application_id);
    if crate::text::str_eq(alias_id.as_str(), application_id) {
        None
    } else {
        Some(alias_id)
    }
}

/// The ids whose files an uninstall removes: the id, then its lower-case alias when it
/// differs.
pub open spec fn id_with_alias(id: Seq<char>) -> Seq<Seq<char>> {
    if ascii_lower(id) == id {
        seq![id]
    } else {
        seq![id, ascii_lower(id)]
    }
}

/// The old ids whose files are removed, each with its alias; the current id is kept.
pub open spec fn legacy_ids_spec(application_id: Seq<char>, legacy_ids: Seq<Seq<char>>) -> Seq<Seq<char>>
    decreases legacy_ids.len(),
{
    if legacy_ids.len() == 0 {
        Seq::empty()
    } else if legacy_ids.last() == application_id {
        legacy_ids_spec(application_id, legacy_ids.drop_last())
    } else {
        legacy_ids_spec(application_id, legacy_ids.drop_last()) + id_with_alias(legacy_ids.last())
    }
}

pub open spec fn string_views(v: Seq<String>) -> Seq<Seq<char>> {
    v.map_values(|s: String| s@)
}

pub open spec fn str_views(v: Seq<&str>) -> Seq<Seq<char>> {
    v.map_values(|s: &str| s@)
}

/// The id and, when it differs, its lower-case alias.
pub fn application_ids(application_id: &str) -> (r: Vec<String>)
    ensures
        string_views(r@) == id_with_alias(application_id@),
{
    let mut ids: Vec<String> = Vec::new();
    ids.push(to_owned(application_id));
    match lowercase_alias_id(application_id) {
        Some(alias) => ids.push(alias),
        None => {},
    }
    assert(string_views(ids@) =~= id_with_alias(application_id@));
    ids
}

/// The ids of older installs whose files are removed, in order, each followed by its
/// alias; an old id equal to the current one is skipped.
pub fn legacy_entry_ids(application_id: &str, legacy_ids: &[&str]) -> (r: Vec<String>)
    ensures
        string_views(r@) == legacy_ids_spec(application_id@, str_views(legacy_ids@)),
{
    let mut ids: Vec<String> = Vec::new();
    let mut i: usize = 0;
    while i < legacy_ids.len()
        invariant
            0 <= i <= legacy_ids@.len(),
            string_views(ids@) == legacy_ids_spec(application_id@, str_views(legacy_ids@.take(i as int))),
        decreases legacy_ids@.len() - i,
    {
        let legacy = legacy_ids[i];
        assert(str_views(legacy_ids@.take(i + 1)).drop_last() =~= str_views(legacy_ids@.take(i as int)));
        assert(str_views(legacy_ids@.take(i + 1)).last() == legacy@);
        if !crate::text::str_eq(legacy, application_id) {
            let more = application_ids(legacy);
            let ghost before = ids@;
            let mut k: usize = 0;
            while k < more.len()
                invariant
                    0 <= k <= more@.len(),
                    string_views(ids@) == string_views(before) + string_views(more@).take(k as int),
                decreases more@.len() - k,
            {
                let ghost old_ids = ids@;
                ids.push(more[k].clone());
                assert(ids@ == old_ids.push(more@[k as int]));
                assert(string_views(ids@) =~= string_views(old_ids).push(more@[k as int]@));
                assert(string_views(more@).take(k + 1) =~= string_views(more@).take(k as int).push(
                    more@[k as int]@,
                ));
                assert(string_views(ids@) =~= string_views(before) + string_views(more@).take(k + 1));
                k = k + 1;
            }
            assert(string_views(more@).take(more@.len() as int) =~= string_views(more@));
        }
        i = i + 1;
    }
    assert(legacy_ids@.take(legacy_ids@.len() as int) =~= legacy_ids@);
    ids
}

/// The names of an id's entry file and icon files.
pub fn application_file_names(application_id: &str) -> (r: (String, String, String))
    ensures
        r.0@ == application_id@ + ".desktop"@,
        r.1@ == application_id@ + ".svg"@,
        r.2@ == application_id@ + ".png"@,
{
    let mut desktop = to_owned(application_id);
    push_str(&mut desktop, ".desktop");
    let mut svg = to_owned(application_id);
    push_str(&mut svg, ".svg");
    let mut png = to_owned(application_id);
    push_str(&mut png, ".png");
    (desktop, svg, png)
}

/// Where the user's data directory comes from.
#[derive(Debug, Clone, Copy, PartialEq, Eq, Structural)]
pub enum DataHomeSource {
    /// `XDG_DATA_HOME`, as it is.
    XdgDataHome,
    /// `.local/share` under `HOME`.
    HomeLocalShare,
}

pub open spec fn relative_xdg_message() -> Seq<char> {
    "XDG_DATA_HOME은 절대 경로여야 합니다."@
}

pub open spec fn missing_home_message() -> Seq<char> {
    "HOME 경로를 확인할 수 없어 desktop entry를 설치할 수 없습니다."@
}

/// The data directory: `XDG_DATA_HOME` when it is set and not empty, which must then be
/// absolute; else `.local/share` under a set, non-empty `HOME`.
pub fn data_home_source(xdg_set: bool, xdg_absolute: bool, home_set: bool) -> (r: Result<
    DataHomeSource,
    DesktopEntryError,
>)
    ensures
        xdg_set && xdg_absolute ==> r == Ok::<DataHomeSource, DesktopEntryError>(DataHomeSource::XdgDataHome),
        xdg_set && !xdg_absolute ==> (r matches Err(e) && e@ == relative_xdg_message()),
        !xdg_set && home_set ==> r == Ok::<DataHomeSource, DesktopEntryError>(DataHomeSource::HomeLocalShare),
        !xdg_set && !home_set ==> (r matches Err(e) && e@ == missing_home_message()),
{
    if xdg_set {
        if xdg_absolute {
            return Ok(DataHomeSource::XdgDataHome);
        }
        return Err(DesktopEntryError::new("XDG_DATA_HOME은 절대 경로여야 합니다."));
    }
    if !home_set {
        return Err(DesktopEntryError::new("HOME 경로를 확인할 수 없어 desktop entry를 설치할 수 없습니다."));
    }
    Ok(DataHomeSource::HomeLocalShare)
}

} // verus!
