//! Persisted user interface settings: their defaults, the storage keys and
//! values they are saved under, and the tolerant loading that falls back to a
//! default for every missing or invalid stored value.
use vstd::prelude::*;
use crate::decimal::{
    decimal, format_i32, format_i64, lemma_parse_decimal, parse_i32, parse_i32_str, parse_i64,
    parse_i64_str,
};
use crate::text::{
    has_char, is_blank, is_blank_str, str_eq, str_has_char, to_ascii_lower, to_owned, trim,
    trim_str, ascii_lower,
};

verus! {

broadcast use vstd::string::group_string_axioms;

pub const DEFAULT_WINDOW_WIDTH: i32 = 900;
pub const DEFAULT_WINDOW_HEIGHT: i32 = 600;
pub const DEFAULT_SPLITTER_LEFT_WIDTH: i32 = 280;
pub const SETTING_WINDOW_X: &'static str = "window.x";
pub const SETTING_WINDOW_Y: &'static str = "window.y";
pub const SETTING_WINDOW_WIDTH: &'static str = "window.width";
pub const SETTING_WINDOW_HEIGHT: &'static str = "window.height";
pub const SETTING_SPLITTER_LEFT_WIDTH: &'static str = "splitter.left_width";
pub const SETTING_SELECTION_NODE_ID: &'static str = "selection.node_id";
pub const SETTING_EDITOR_FONT_FAMILY: &'static str = "editor.font.family";
pub const SETTING_EDITOR_FONT_SIZE_PT: &'static str = "editor.font.size_pt";
pub const SETTING_EDITOR_WORD_WRAP: &'static str = "editor.word_wrap";
pub const SETTING_TEXT_IMPORT_ENCODING: &'static str = "text.import.encoding";
pub const SETTING_TEXT_EXPORT_ENCODING: &'static str = "text.export.encoding";
pub const SETTING_APPEARANCE_THEME: &'static str = "appearance.theme";
pub const SETTING_APPEARANCE_DARK_THEME: &'static str = "appearance.dark_theme";
pub const SETTING_UI_LANGUAGE: &'static str = "ui.language";
pub const SETTING_AUTO_SAVE_ENABLED: &'static str = "autosave.enabled";
pub const SETTING_AUTO_SAVE_INTERVAL_SECONDS: &'static str = "autosave.interval_seconds";
pub const DEFAULT_EDITOR_FONT_FAMILY: &'static str = "Consolas";
pub const DEFAULT_EDITOR_FONT_SIZE_PT: i32 = 10;
pub const DEFAULT_EDITOR_WORD_WRAP: bool = true;
pub const DEFAULT_APPEARANCE_THEME: AppearanceTheme = AppearanceTheme::Light;
pub const DEFAULT_UI_LANGUAGE: UiLanguage = UiLanguage::English;
pub const DEFAULT_DARK_THEME: bool = false;
pub const DEFAULT_AUTO_SAVE_ENABLED: bool = false;
pub const DEFAULT_AUTO_SAVE_INTERVAL_SECONDS: i32 = 120;
pub const MIN_EDITOR_FONT_SIZE_PT: i32 = 6;
pub const MAX_EDITOR_FONT_SIZE_PT: i32 = 72;

pub const MIN_WINDOW_WIDTH: i32 = 320;
pub const MIN_WINDOW_HEIGHT: i32 = 240;
pub const MAX_WINDOW_WIDTH: i32 = 20_000;
pub const MAX_WINDOW_HEIGHT: i32 = 20_000;
pub const MIN_SPLITTER_LEFT_WIDTH: i32 = 80;
pub const MAX_SPLITTER_LEFT_WIDTH: i32 = 20_000;
pub const MIN_AUTO_SAVE_INTERVAL_SECONDS: i32 = 15;
pub const MAX_AUTO_SAVE_INTERVAL_SECONDS: i32 = 3_600;

#[derive(Debug, Clone, Copy, PartialEq, Eq, Structural)]
pub enum UiLanguage {
    Korean,
    English,
}

impl UiLanguage {
    pub open spec fn spec_storage_value(self) -> Seq<char> {
        match self {
            UiLanguage::Korean => "ko"@,
            UiLanguage::English => "en"@,
        }
    }

    /// The language a stored value names, after trimming and ASCII case folding.
    pub open spec fn spec_from_storage_value(value: Seq<char>) -> Option<UiLanguage> {
        let n = ascii_lower(trim(value));
        if n == "ko"@ || n == "ko-kr"@ || n == "korean"@ || n == "한국어"@ {
            Some(UiLanguage::Korean)
        } else if n == "en"@ || n == "en-us"@ || n == "en-gb"@ || n == "english"@ {
            Some(UiLanguage::English)
        } else {
            None
        }
    }

    pub fn display_name(self) -> (r: &'static str)
        ensures
            r@ == (match self {
                UiLanguage::Korean => "한국어"@,
                UiLanguage::English => "English"@,
            }),
    {
        match self {
            UiLanguage::Korean => "한국어",
            UiLanguage::English => "English",
        }
    }

    pub fn storage_value(self) -> (r: &'static str)
        ensures
            r@ == self.spec_storage_value(),
    {
        match self {
            UiLanguage::Korean => "ko",
            UiLanguage::English => "en",
        }
    }

    pub fn from_storage_value(value: &str) -> (r: Option<UiLanguage>)
        ensures
            r == UiLanguage::spec_from_storage_value(value@),
    {
        let lowered = to_ascii_lower(trim_str(value));
        let n = lowered.as_str();
        if str_eq(n, "ko") || str_eq(n, "ko-kr") || str_eq(n, "korean") || str_eq(n, "한국어") {
            Some(UiLanguage::Korean)
        } else if str_eq(n, "en") || str_eq(n, "en-us") || str_eq(n, "en-gb") || str_eq(
            n,
            "english",
        ) {
            Some(UiLanguage::English)
        } else {
            None
        }
    }

    pub fn options() -> (r: &'static [UiLanguage])
        ensures
            r@ == seq![UiLanguage::Korean, UiLanguage::English],
    {
        &[UiLanguage::Korean, UiLanguage::English]
    }
}


#[derive(Debug, Clone, Copy, PartialEq, Eq, Structural)]
pub enum TextEncoding {
    AutoDetect,
    Utf8,
    Utf8WithBom,
    Utf16LeWithBom,
    Utf16BeWithBom,
    KoreanEucKr,
    Windows1252,
}

impl TextEncoding {
    pub open spec fn spec_storage_value(self) -> Seq<char> {
        match self {
            TextEncoding::AutoDetect => "auto"@,
            TextEncoding::Utf8 => "utf-8"@,
            TextEncoding::Utf8WithBom => "utf-8-bom"@,
            TextEncoding::Utf16LeWithBom => "utf-16le-bom"@,
            TextEncoding::Utf16BeWithBom => "utf-16be-bom"@,
            TextEncoding::KoreanEucKr => "euc-kr"@,
            TextEncoding::Windows1252 => "windows-1252"@,
        }
    }

    /// The encoding a stored value names, after trimming and ASCII case folding.
    pub open spec fn spec_from_storage_value(value: Seq<char>) -> Option<TextEncoding> {
        let n = ascii_lower(trim(value));
        if n == "auto"@ || n == "auto-detect"@ || n == "auto_detect"@ {
            Some(TextEncoding::AutoDetect)
        } else if n == "utf-8"@ || n == "utf8"@ {
            Some(TextEncoding::Utf8)
        } else if n == "utf-8-bom"@ || n == "utf8-bom"@ || n == "utf-8-with-bom"@ {
            Some(TextEncoding::Utf8WithBom)
        } else if n == "utf-16le-bom"@ || n == "utf-16-le-bom"@ || n == "utf16le-bom"@ {
            Some(TextEncoding::Utf16LeWithBom)
        } else if n == "utf-16be-bom"@ || n == "utf-16-be-bom"@ || n == "utf16be-bom"@ {
            Some(TextEncoding::Utf16BeWithBom)
        } else if n == "euc-kr"@ || n == "windows-949"@ || n == "windows949"@ || n == "cp949"@ {
            Some(TextEncoding::KoreanEucKr)
        } else if n == "windows-1252"@ || n == "windows1252"@ || n == "cp1252"@ {
            Some(TextEncoding::Windows1252)
        } else {
            None
        }
    }

    pub open spec fn spec_import_options() -> Seq<TextEncoding> {
        seq![
            TextEncoding::AutoDetect,
            TextEncoding::Utf8,
            TextEncoding::Utf8WithBom,
            TextEncoding::Utf16LeWithBom,
            TextEncoding::Utf16BeWithBom,
            TextEncoding::KoreanEucKr,
            TextEncoding::Windows1252,
        ]
    }

    pub open spec fn spec_export_options() -> Seq<TextEncoding> {
        seq![
            TextEncoding::Utf8,
            TextEncoding::Utf8WithBom,
            TextEncoding::Utf16LeWithBom,
            TextEncoding::Utf16BeWithBom,
            TextEncoding::KoreanEucKr,
            TextEncoding::Windows1252,
        ]
    }

    /// Every encoding can be read; detection only makes sense when reading.
    pub open spec fn spec_is_import_supported(self) -> bool {
        true
    }

    pub open spec fn spec_is_export_supported(self) -> bool {
        self != TextEncoding::AutoDetect
    }

    pub open spec fn spec_from_import_storage_value(value: Seq<char>) -> Option<TextEncoding> {
        match TextEncoding::spec_from_storage_value(value) {
            Some(e) => if e.spec_is_import_supported() {
                Some(e)
            } else {
                None
            },
            None => None,
        }
    }

    pub open spec fn spec_from_export_storage_value(value: Seq<char>) -> Option<TextEncoding> {
        match TextEncoding::spec_from_storage_value(value) {
            Some(e) => if e.spec_is_export_supported() {
                Some(e)
            } else {
                None
            },
            None => None,
        }
    }

    /// The name shown to the user.
    pub open spec fn spec_display_name(self) -> Seq<char> {
        match self {
            TextEncoding::AutoDetect => "자동 감지"@,
            TextEncoding::Utf8 => "UTF-8"@,
            TextEncoding::Utf8WithBom => "UTF-8 BOM"@,
            TextEncoding::Utf16LeWithBom => "UTF-16 LE BOM"@,
            TextEncoding::Utf16BeWithBom => "UTF-16 BE BOM"@,
            TextEncoding::KoreanEucKr => "한국어 (EUC-KR/CP949)"@,
            TextEncoding::Windows1252 => "Windows-1252"@,
        }
    }

    pub fn display_name(self) -> (r: &'static str)
        ensures
            r@ == self.spec_display_name(),
    {
        match self {
            TextEncoding::AutoDetect => "자동 감지",
            TextEncoding::Utf8 => "UTF-8",
            TextEncoding::Utf8WithBom => "UTF-8 BOM",
            TextEncoding::Utf16LeWithBom => "UTF-16 LE BOM",
            TextEncoding::Utf16BeWithBom => "UTF-16 BE BOM",
            TextEncoding::KoreanEucKr => "한국어 (EUC-KR/CP949)",
            TextEncoding::Windows1252 => "Windows-1252",
        }
    }

    pub fn storage_value(self) -> (r: &'static str)
        ensures
            r@ == self.spec_storage_value(),
    {
        match self {
            TextEncoding::AutoDetect => "auto",
            TextEncoding::Utf8 => "utf-8",
            TextEncoding::Utf8WithBom => "utf-8-bom",
            TextEncoding::Utf16LeWithBom => "utf-16le-bom",
            TextEncoding::Utf16BeWithBom => "utf-16be-bom",
            TextEncoding::KoreanEucKr => "euc-kr",
            TextEncoding::Windows1252 => "windows-1252",
        }
    }

    pub fn from_storage_value(value: &str) -> (r: Option<TextEncoding>)
        ensures
            r == TextEncoding::spec_from_storage_value(value@),
    {
        let lowered = to_ascii_lower(trim_str(value));
        let n = lowered.as_str();
        if str_eq(n, "auto") || str_eq(n, "auto-detect") || str_eq(n, "auto_detect") {
            Some(TextEncoding::AutoDetect)
        } else if str_eq(n, "utf-8") || str_eq(n, "utf8") {
            Some(TextEncoding::Utf8)
        } else if str_eq(n, "utf-8-bom") || str_eq(n, "utf8-bom") || str_eq(n, "utf-8-with-bom") {
            Some(TextEncoding::Utf8WithBom)
        } else if str_eq(n, "utf-16le-bom") || str_eq(n, "utf-16-le-bom") || str_eq(
            n,
            "utf16le-bom",
        ) {
            Some(TextEncoding::Utf16LeWithBom)
        } else if str_eq(n, "utf-16be-bom") || str_eq(n, "utf-16-be-bom") || str_eq(
            n,
            "utf16be-bom",
        ) {
            Some(TextEncoding::Utf16BeWithBom)
        } else if str_eq(n, "euc-kr") || str_eq(n, "windows-949") || str_eq(n, "windows949")
            || str_eq(n, "cp949") {
            Some(TextEncoding::KoreanEucKr)
        } else if str_eq(n, "windows-1252") || str_eq(n, "windows1252") || str_eq(n, "cp1252") {
            Some(TextEncoding::Windows1252)
        } else {
            None
        }
    }

    pub fn from_import_storage_value(value: &str) -> (r: Option<TextEncoding>)
        ensures
            r == TextEncoding::spec_from_import_storage_value(value@),
    {
        match TextEncoding::from_storage_value(value) {
            Some(e) => if e.is_import_supported() {
                Some(e)
            } else {
                None
            },
            None => None,
        }
    }

    pub fn from_export_storage_value(value: &str) -> (r: Option<TextEncoding>)
        ensures
            r == TextEncoding::spec_from_export_storage_value(value@),
    {
        match TextEncoding::from_storage_value(value) {
            Some(e) => if e.is_export_supported() {
                Some(e)
            } else {
                None
            },
            None => None,
        }
    }

    pub fn default_import() -> (r: TextEncoding)
        ensures
            r == TextEncoding::AutoDetect,
    {
        TextEncoding::AutoDetect
    }

    pub fn default_export() -> (r: TextEncoding)
        ensures
            r == TextEncoding::Utf8,
    {
        TextEncoding::Utf8
    }

    pub fn import_options() -> (r: &'static [TextEncoding])
        ensures
            r@ == TextEncoding::spec_import_options(),
    {
        &[
            TextEncoding::AutoDetect,
            TextEncoding::Utf8,
            TextEncoding::Utf8WithBom,
            TextEncoding::Utf16LeWithBom,
            TextEncoding::Utf16BeWithBom,
            TextEncoding::KoreanEucKr,
            TextEncoding::Windows1252,
        ]
    }

    pub fn export_options() -> (r: &'static [TextEncoding])
        ensures
            r@ == TextEncoding::spec_export_options(),
    {
        &[
            TextEncoding::Utf8,
            TextEncoding::Utf8WithBom,
            TextEncoding::Utf16LeWithBom,
            TextEncoding::Utf16BeWithBom,
            TextEncoding::KoreanEucKr,
            TextEncoding::Windows1252,
        ]
    }

    /// Whether the encoding is among `import_options`.
    pub fn is_import_supported(self) -> (r: bool)
        ensures
            r == self.spec_is_import_supported(),
            r == TextEncoding::spec_import_options().contains(self),
    {
        let options = TextEncoding::import_options();
        assert(options@[0] == TextEncoding::AutoDetect);
        assert(options@[1] == TextEncoding::Utf8);
        assert(options@[2] == TextEncoding::Utf8WithBom);
        assert(options@[3] == TextEncoding::Utf16LeWithBom);
        assert(options@[4] == TextEncoding::Utf16BeWithBom);
        assert(options@[5] == TextEncoding::KoreanEucKr);
        assert(options@[6] == TextEncoding::Windows1252);
        true
    }

    /// Whether the encoding is among `export_options`.
    pub fn is_export_supported(self) -> (r: bool)
        ensures
            r == self.spec_is_export_supported(),
            r == TextEncoding::spec_export_options().contains(self),
    {
        let options = TextEncoding::export_options();
        assert(options@[0] == TextEncoding::Utf8);
        assert(options@[1] == TextEncoding::Utf8WithBom);
        assert(options@[2] == TextEncoding::Utf16LeWithBom);
        assert(options@[3] == TextEncoding::Utf16BeWithBom);
        assert(options@[4] == TextEncoding::KoreanEucKr);
        assert(options@[5] == TextEncoding::Windows1252);
        match self {
            TextEncoding::AutoDetect => false,
            _ => true,
        }
    }
}

#[derive(Debug, Clone, Copy, PartialEq, Eq, Structural)]
pub enum AppearanceTheme {
    Light,
    ClassicDark,
    SepiaTeal,
    Graphite,
    Forest,
    SteelBlue,
}

impl AppearanceTheme {
    pub open spec fn spec_storage_value(self) -> Seq<char> {
        match self {
            AppearanceTheme::Light => "light"@,
            AppearanceTheme::ClassicDark => "classic-dark"@,
            AppearanceTheme::SepiaTeal => "sepia-teal"@,
            AppearanceTheme::Graphite => "graphite"@,
            AppearanceTheme::Forest => "forest"@,
            AppearanceTheme::SteelBlue => "steel-blue"@,
        }
    }

    /// The theme a stored value names, after trimming and ASCII case folding.
    pub open spec fn spec_from_storage_value(value: Seq<char>) -> Option<AppearanceTheme> {
        let n = ascii_lower(trim(value));
        if n == "light"@ {
            Some(AppearanceTheme::Light)
        } else if n == "dark"@ || n == "classic-dark"@ || n == "classic_dark"@ {
            Some(AppearanceTheme::ClassicDark)
        } else if n == "sepia-teal"@ || n == "sepia_teal"@ || n == "sepia"@ {
            Some(AppearanceTheme::SepiaTeal)
        } else if n == "graphite"@ || n == "gray"@ || n == "grey"@ {
            Some(AppearanceTheme::Graphite)
        } else if n == "forest"@ || n == "green"@ {
            Some(AppearanceTheme::Forest)
        } else if n == "steel-blue"@ || n == "steel_blue"@ || n == "steel"@ {
            Some(AppearanceTheme::SteelBlue)
        } else {
            None
        }
    }

    pub open spec fn spec_uses_dark_mode(self) -> bool {
        self != AppearanceTheme::Light
    }

    pub open spec fn spec_from_legacy_dark_theme(enabled: bool) -> AppearanceTheme {
        if enabled {
            AppearanceTheme::ClassicDark
        } else {
            AppearanceTheme::Light
        }
    }

    pub fn display_name(self) -> (r: &'static str)
        ensures
            r@ == (match self {
                AppearanceTheme::Light => "밝게"@,
                AppearanceTheme::ClassicDark => "어둡게"@,
                AppearanceTheme::SepiaTeal => "세피아"@,
                AppearanceTheme::Graphite => "그래파이트"@,
                AppearanceTheme::Forest => "숲"@,
                AppearanceTheme::SteelBlue => "스틸 블루"@,
            }),
    {
        match self {
            AppearanceTheme::Light => "밝게",
            AppearanceTheme::ClassicDark => "어둡게",
            AppearanceTheme::SepiaTeal => "세피아",
            AppearanceTheme::Graphite => "그래파이트",
            AppearanceTheme::Forest => "숲",
            AppearanceTheme::SteelBlue => "스틸 블루",
        }
    }

    pub fn storage_value(self) -> (r: &'static str)
        ensures
            r@ == self.spec_storage_value(),
    {
        match self {
            AppearanceTheme::Light => "light",
            AppearanceTheme::ClassicDark => "classic-dark",
            AppearanceTheme::SepiaTeal => "sepia-teal",
            AppearanceTheme::Graphite => "graphite",
            AppearanceTheme::Forest => "forest",
            AppearanceTheme::SteelBlue => "steel-blue",
        }
    }

    pub fn from_storage_value(value: &str) -> (r: Option<AppearanceTheme>)
        ensures
            r == AppearanceTheme::spec_from_storage_value(value@),
    {
        let lowered = to_ascii_lower(trim_str(value));
        let n = lowered.as_str();
        if str_eq(n, "light") {
            Some(AppearanceTheme::Light)
        } else if str_eq(n, "dark") || str_eq(n, "classic-dark") || str_eq(n, "classic_dark") {
            Some(AppearanceTheme::ClassicDark)
        } else if str_eq(n, "sepia-teal") || str_eq(n, "sepia_teal") || str_eq(n, "sepia") {
            Some(AppearanceTheme::SepiaTeal)
        } else if str_eq(n, "graphite") || str_eq(n, "gray") || str_eq(n, "grey") {
            Some(AppearanceTheme::Graphite)
        } else if str_eq(n, "forest") || str_eq(n, "green") {
            Some(AppearanceTheme::Forest)
        } else if str_eq(n, "steel-blue") || str_eq(n, "steel_blue") || str_eq(n, "steel") {
            Some(AppearanceTheme::SteelBlue)
        } else {
            None
        }
    }

    pub fn options() -> (r: &'static [AppearanceTheme])
        ensures
            r@ == seq![
                AppearanceTheme::Light,
                AppearanceTheme::ClassicDark,
                AppearanceTheme::SepiaTeal,
                AppearanceTheme::Graphite,
                AppearanceTheme::Forest,
                AppearanceTheme::SteelBlue,
            ],
    {
        &[
            AppearanceTheme::Light,
            AppearanceTheme::ClassicDark,
            AppearanceTheme::SepiaTeal,
            AppearanceTheme::Graphite,
            AppearanceTheme::Forest,
            AppearanceTheme::SteelBlue,
        ]
    }

    pub fn uses_dark_mode(self) -> (r: bool)
        ensures
            r == self.spec_uses_dark_mode(),
    {
        match self {
            AppearanceTheme::Light => false,
            _ => true,
        }
    }

    fn from_legacy_dark_theme(enabled: bool) -> (r: AppearanceTheme)
        ensures
            r == AppearanceTheme::spec_from_legacy_dark_theme(enabled),
    {
        if enabled {
            AppearanceTheme::ClassicDark
        } else {
            AppearanceTheme::Light
        }
    }
}

/// The stored text of a boolean setting.
pub open spec fn bool_storage_value(enabled: bool) -> Seq<char> {
    if enabled {
        "true"@
    } else {
        "false"@
    }
}

/// A stored boolean: exactly `true` or `false` once trimmed.
pub open spec fn parse_storage_bool(value: Seq<char>) -> Option<bool> {
    if trim(value) == "true"@ {
        Some(true)
    } else if trim(value) == "false"@ {
        Some(false)
    } else {
        None
    }
}

pub fn dark_theme_storage_value(enabled: bool) -> (r: &'static str)
    ensures
        r@ == bool_storage_value(enabled),
{
    if enabled {
        "true"
    } else {
        "false"
    }
}

pub fn toggle_editor_word_wrap(enabled: bool) -> (r: bool)
    ensures
        r == !enabled,
{
    !enabled
}

pub fn editor_word_wrap_storage_value(enabled: bool) -> (r: &'static str)
    ensures
        r@ == bool_storage_value(enabled),
{
    if enabled {
        "true"
    } else {
        "false"
    }
}

pub fn auto_save_enabled_storage_value(enabled: bool) -> (r: &'static str)
    ensures
        r@ == bool_storage_value(enabled),
{
    if enabled {
        "true"
    } else {
        "false"
    }
}

fn parse_storage_bool_str(value: &str) -> (r: Option<bool>)
    ensures
        r == parse_storage_bool(value@),
{
    let t = trim_str(value);
    if str_eq(t, "true") {
        Some(true)
    } else if str_eq(t, "false") {
        Some(false)
    } else {
        None
    }
}

fn parse_dark_theme(value: &str) -> (r: Option<bool>)
    ensures
        r == parse_storage_bool(value@),
{
    parse_storage_bool_str(value)
}

fn parse_editor_word_wrap(value: &str) -> (r: Option<bool>)
    ensures
        r == parse_storage_bool(value@),
{
    parse_storage_bool_str(value)
}

fn parse_auto_save_enabled(value: &str) -> (r: Option<bool>)
    ensures
        r == parse_storage_bool(value@),
{
    parse_storage_bool_str(value)
}

/// An `i32` stored as decimal text, surrounding whitespace allowed.
pub open spec fn stored_i32(value: Seq<char>) -> Option<i32> {
    parse_i32(trim(value))
}

/// An `i32` stored as decimal text that also lies in `[min, max]`.
pub open spec fn stored_bounded_i32(value: Seq<char>, min: i32, max: i32) -> Option<i32> {
    match stored_i32(value) {
        Some(v) => if min <= v <= max {
            Some(v)
        } else {
            None
        },
        None => None,
    }
}

fn parse_i32_setting(value: &str) -> (r: Option<i32>)
    ensures
        r == stored_i32(value@),
{
    parse_i32_str(trim_str(value))
}

fn parse_i64_setting(value: &str) -> (r: Option<i64>)
    ensures
        r == parse_i64(trim(value@)),
{
    parse_i64_str(trim_str(value))
}

fn parse_bounded_i32(value: &str, min: i32, max: i32) -> (r: Option<i32>)
    ensures
        r == stored_bounded_i32(value@, min, max),
{
    match parse_i32_setting(value) {
        Some(v) => if v >= min && v <= max {
            Some(v)
        } else {
            None
        },
        None => None,
    }
}

/// A font family name: the trimmed name, or the default one when the name is blank or
/// holds a NUL character.
pub open spec fn normalized_font_family(value: Seq<char>) -> Seq<char> {
    if trim(value).len() == 0 || has_char(trim(value), '\0') {
        DEFAULT_EDITOR_FONT_FAMILY@
    } else {
        trim(value)
    }
}

fn normalize_editor_font_family(value: &str) -> (r: String)
    ensures
        r@ == normalized_font_family(value@),
{
    let trimmed = trim_str(value);
    if trimmed.is_empty() || str_has_char(trimmed, '\0') {
        to_owned(DEFAULT_EDITOR_FONT_FAMILY)
    } else {
        to_owned(trimmed)
    }
}

#[derive(Debug, Clone, Copy, PartialEq, Eq, Structural)]
pub struct TextEncodingSettings {
    pub import_encoding: TextEncoding,
    pub export_encoding: TextEncoding,
}

impl TextEncodingSettings {
    pub fn default() -> (r: TextEncodingSettings)
        ensures
            r.import_encoding == TextEncoding::AutoDetect,
            r.export_encoding == TextEncoding::Utf8,
    {
        TextEncodingSettings {
            import_encoding: TextEncoding::default_import(),
            export_encoding: TextEncoding::default_export(),
        }
    }
}

#[derive(Debug, Clone, Copy, PartialEq, Eq, Structural)]
pub struct AppearanceSettings {
    pub theme: AppearanceTheme,
}

impl AppearanceSettings {
    pub fn set_theme(&mut self, theme: AppearanceTheme)
        ensures
            final(self).theme == theme,
    {
        self.theme = theme;
    }

    pub fn default() -> (r: AppearanceSettings)
        ensures
            r.theme == AppearanceTheme::Light,
    {
        AppearanceSettings { theme: DEFAULT_APPEARANCE_THEME }
    }
}

#[derive(Debug, Clone, Copy, PartialEq, Eq, Structural)]
pub struct EditorSettings {
    pub word_wrap: bool,
}

impl EditorSettings {
    pub fn toggle_word_wrap(&mut self)
        ensures
            final(self).word_wrap == !old(self).word_wrap,
    {
        self.word_wrap = toggle_editor_word_wrap(self.word_wrap);
    }

    pub fn default() -> (r: EditorSettings)
        ensures
            r.word_wrap == DEFAULT_EDITOR_WORD_WRAP,
    {
        EditorSettings { word_wrap: DEFAULT_EDITOR_WORD_WRAP }
    }
}

pub open spec fn clamp_i32(v: i32, min: i32, max: i32) -> i32 {
    if v < min {
        min
    } else if v > max {
        max
    } else {
        v
    }
}

fn clamp(v: i32, min: i32, max: i32) -> (r: i32)
    requires
        min <= max,
    ensures
        r == clamp_i32(v, min, max),
{
    if v < min {
        min
    } else if v > max {
        max
    } else {
        v
    }
}

#[derive(Debug, Clone, Copy, PartialEq, Eq, Structural)]
pub struct AutoSaveSettings {
    pub enabled: bool,
    pub interval_seconds: i32,
}

impl AutoSaveSettings {
    pub fn new(enabled: bool, interval_seconds: i32) -> (r: AutoSaveSettings)
        ensures
            r.enabled == enabled,
            r.interval_seconds == clamp_i32(
                interval_seconds,
                MIN_AUTO_SAVE_INTERVAL_SECONDS,
                MAX_AUTO_SAVE_INTERVAL_SECONDS,
            ),
    {
        AutoSaveSettings {
            enabled,
            interval_seconds: clamp(
                interval_seconds,
                MIN_AUTO_SAVE_INTERVAL_SECONDS,
                MAX_AUTO_SAVE_INTERVAL_SECONDS,
            ),
        }
    }

    pub fn default() -> (r: AutoSaveSettings)
        ensures
            r.enabled == DEFAULT_AUTO_SAVE_ENABLED,
            r.interval_seconds == DEFAULT_AUTO_SAVE_INTERVAL_SECONDS,
    {
        AutoSaveSettings {
            enabled: DEFAULT_AUTO_SAVE_ENABLED,
            interval_seconds: DEFAULT_AUTO_SAVE_INTERVAL_SECONDS,
        }
    }
}

#[derive(Debug, Clone, PartialEq, Eq)]
pub struct EditorFontSettings {
    pub family: String,
    pub size_pt: i32,
}

impl EditorFontSettings {
    pub fn new(family: &str, size_pt: i32) -> (r: EditorFontSettings)
        ensures
            r.family@ == normalized_font_family(family@),
            r.size_pt == clamp_i32(size_pt, MIN_EDITOR_FONT_SIZE_PT, MAX_EDITOR_FONT_SIZE_PT),
    {
        EditorFontSettings {
            family: normalize_editor_font_family(family),
            size_pt: clamp(size_pt, MIN_EDITOR_FONT_SIZE_PT, MAX_EDITOR_FONT_SIZE_PT),
        }
    }

    pub fn default() -> (r: EditorFontSettings)
        ensures
            r.family@ == DEFAULT_EDITOR_FONT_FAMILY@,
            r.size_pt == DEFAULT_EDITOR_FONT_SIZE_PT,
    {
        EditorFontSettings {
            family: to_owned(DEFAULT_EDITOR_FONT_FAMILY),
            size_pt: DEFAULT_EDITOR_FONT_SIZE_PT,
        }
    }
}

#[derive(Debug, Clone, Copy, PartialEq, Eq, Structural)]
pub struct WindowSettings {
    pub x: Option<i32>,
    pub y: Option<i32>,
    pub width: i32,
    pub height: i32,
}

impl WindowSettings {
    pub fn new(x: i32, y: i32, width: i32, height: i32) -> (r: WindowSettings)
        ensures
            r.x == Some(x),
            r.y == Some(y),
            r.width == clamp_i32(width, MIN_WINDOW_WIDTH, MAX_WINDOW_WIDTH),
            r.height == clamp_i32(height, MIN_WINDOW_HEIGHT, MAX_WINDOW_HEIGHT),
    {
        WindowSettings {
            x: Some(x),
            y: Some(y),
            width: clamp(width, MIN_WINDOW_WIDTH, MAX_WINDOW_WIDTH),
            height: clamp(height, MIN_WINDOW_HEIGHT, MAX_WINDOW_HEIGHT),
        }
    }

    pub fn with_size(self, width: i32, height: i32) -> (r: WindowSettings)
        ensures
            r.x == self.x,
            r.y == self.y,
            r.width == clamp_i32(width, MIN_WINDOW_WIDTH, MAX_WINDOW_WIDTH),
            r.height == clamp_i32(height, MIN_WINDOW_HEIGHT, MAX_WINDOW_HEIGHT),
    {
        WindowSettings {
            x: self.x,
            y: self.y,
            width: clamp(width, MIN_WINDOW_WIDTH, MAX_WINDOW_WIDTH),
            height: clamp(height, MIN_WINDOW_HEIGHT, MAX_WINDOW_HEIGHT),
        }
    }

    pub fn default() -> (r: WindowSettings)
        ensures
            r.x == None::<i32>,
            r.y == None::<i32>,
            r.width == DEFAULT_WINDOW_WIDTH,
            r.height == DEFAULT_WINDOW_HEIGHT,
    {
        WindowSettings { x: None, y: None, width: DEFAULT_WINDOW_WIDTH, height: DEFAULT_WINDOW_HEIGHT }
    }
}

#[derive(Debug, Clone, Copy, PartialEq, Eq, Structural)]
pub struct SplitterSettings {
    pub left_width: i32,
}

impl SplitterSettings {
    pub fn new(left_width: i32) -> (r: SplitterSettings)
        ensures
            r.left_width == clamp_i32(left_width, MIN_SPLITTER_LEFT_WIDTH, MAX_SPLITTER_LEFT_WIDTH),
    {
        SplitterSettings {
            left_width: clamp(left_width, MIN_SPLITTER_LEFT_WIDTH, MAX_SPLITTER_LEFT_WIDTH),
        }
    }

    pub fn default() -> (r: SplitterSettings)
        ensures
            r.left_width == DEFAULT_SPLITTER_LEFT_WIDTH,
    {
        SplitterSettings { left_width: DEFAULT_SPLITTER_LEFT_WIDTH }
    }
}

#[derive(Debug, Clone, Copy, PartialEq, Eq, Structural)]
pub struct SelectionSettings {
    pub node_id: Option<i64>,
}

impl SelectionSettings {
    pub fn default() -> (r: SelectionSettings)
        ensures
            r.node_id == None::<i64>,
    {
        SelectionSettings { node_id: None }
    }
}

#[derive(Debug, Clone, PartialEq, Eq)]
pub struct UiSettings {
    pub window: WindowSettings,
    pub splitter: SplitterSettings,
    pub selection: SelectionSettings,
    pub editor_font: EditorFontSettings,
    pub editor: EditorSettings,
    pub text_encoding: TextEncodingSettings,
    pub appearance: AppearanceSettings,
    pub language: UiLanguage,
    pub auto_save: AutoSaveSettings,
}

/// A stored key and value, by their characters.
pub type EntryView = (Seq<char>, Seq<char>);

/// The value of the last entry stored under `key`, if any.
pub open spec fn last_value(entries: Seq<EntryView>, key: Seq<char>) -> Option<Seq<char>>
    decreases entries.len(),
{
    if entries.len() == 0 {
        None
    } else if entries.last().0 == key {
        Some(entries.last().1)
    } else {
        last_value(entries.drop_last(), key)
    }
}

pub open spec fn entry_views(entries: Seq<(&str, &str)>) -> Seq<EntryView> {
    entries.map_values(|e: (&str, &str)| (e.0@, e.1@))
}

pub open spec fn owned_entry_views(entries: Seq<(&'static str, String)>) -> Seq<EntryView> {
    entries.map_values(|e: (&'static str, String)| (e.0@, e.1@))
}

pub open spec fn or_default_i32(v: Option<i32>, default: i32) -> i32 {
    match v {
        Some(x) => x,
        None => default,
    }
}

pub open spec fn or_default_bool(v: Option<bool>, default: bool) -> bool {
    match v {
        Some(x) => x,
        None => default,
    }
}

/// The settings that `from_entries` loads from `es`: for each key, the last value stored
/// under it decides, and a missing or invalid value leaves the default.
pub open spec fn loaded_from(s: UiSettings, es: Seq<EntryView>) -> bool {
    &&& s.window.x == (match last_value(es, SETTING_WINDOW_X@) {
        Some(v) => stored_i32(v),
        None => None,
    })
    &&& s.window.y == (match last_value(es, SETTING_WINDOW_Y@) {
        Some(v) => stored_i32(v),
        None => None,
    })
    &&& s.window.width == (match last_value(es, SETTING_WINDOW_WIDTH@) {
        Some(v) => or_default_i32(
            stored_bounded_i32(v, MIN_WINDOW_WIDTH, MAX_WINDOW_WIDTH),
            DEFAULT_WINDOW_WIDTH,
        ),
        None => DEFAULT_WINDOW_WIDTH,
    })
    &&& s.window.height == (match last_value(es, SETTING_WINDOW_HEIGHT@) {
        Some(v) => or_default_i32(
            stored_bounded_i32(v, MIN_WINDOW_HEIGHT, MAX_WINDOW_HEIGHT),
            DEFAULT_WINDOW_HEIGHT,
        ),
        None => DEFAULT_WINDOW_HEIGHT,
    })
    &&& s.splitter.left_width == (match last_value(es, SETTING_SPLITTER_LEFT_WIDTH@) {
        Some(v) => or_default_i32(
            stored_bounded_i32(v, MIN_SPLITTER_LEFT_WIDTH, MAX_SPLITTER_LEFT_WIDTH),
            DEFAULT_SPLITTER_LEFT_WIDTH,
        ),
        None => DEFAULT_SPLITTER_LEFT_WIDTH,
    })
    &&& s.selection.node_id == (match last_value(es, SETTING_SELECTION_NODE_ID@) {
        Some(v) => match parse_i64(trim(v)) {
            Some(id) => if id > 0 {
                Some(id)
            } else {
                None
            },
            None => None,
        },
        None => None,
    })
    &&& s.editor_font.family@ == (match last_value(es, SETTING_EDITOR_FONT_FAMILY@) {
        Some(v) => normalized_font_family(v),
        None => DEFAULT_EDITOR_FONT_FAMILY@,
    })
    &&& s.editor_font.size_pt == (match last_value(es, SETTING_EDITOR_FONT_SIZE_PT@) {
        Some(v) => or_default_i32(
            stored_bounded_i32(v, MIN_EDITOR_FONT_SIZE_PT, MAX_EDITOR_FONT_SIZE_PT),
            DEFAULT_EDITOR_FONT_SIZE_PT,
        ),
        None => DEFAULT_EDITOR_FONT_SIZE_PT,
    })
    &&& s.editor.word_wrap == (match last_value(es, SETTING_EDITOR_WORD_WRAP@) {
        Some(v) => or_default_bool(parse_storage_bool(v), DEFAULT_EDITOR_WORD_WRAP),
        None => DEFAULT_EDITOR_WORD_WRAP,
    })
    &&& s.text_encoding.import_encoding == (match last_value(es, SETTING_TEXT_IMPORT_ENCODING@) {
        Some(v) => match TextEncoding::spec_from_import_storage_value(v) {
            Some(e) => e,
            None => TextEncoding::AutoDetect,
        },
        None => TextEncoding::AutoDetect,
    })
    &&& s.text_encoding.export_encoding == (match last_value(es, SETTING_TEXT_EXPORT_ENCODING@) {
        Some(v) => match TextEncoding::spec_from_export_storage_value(v) {
            Some(e) => e,
            None => TextEncoding::Utf8,
        },
        None => TextEncoding::Utf8,
    })
    &&& s.appearance.theme == loaded_theme(es)
    &&& s.language == (match last_value(es, SETTING_UI_LANGUAGE@) {
        Some(v) => match UiLanguage::spec_from_storage_value(v) {
            Some(l) => l,
            None => UiLanguage::English,
        },
        None => UiLanguage::English,
    })
    &&& s.auto_save.enabled == (match last_value(es, SETTING_AUTO_SAVE_ENABLED@) {
        Some(v) => or_default_bool(parse_storage_bool(v), DEFAULT_AUTO_SAVE_ENABLED),
        None => DEFAULT_AUTO_SAVE_ENABLED,
    })
    &&& s.auto_save.interval_seconds == (match last_value(es, SETTING_AUTO_SAVE_INTERVAL_SECONDS@) {
        Some(v) => or_default_i32(
            stored_bounded_i32(v, MIN_AUTO_SAVE_INTERVAL_SECONDS, MAX_AUTO_SAVE_INTERVAL_SECONDS),
            DEFAULT_AUTO_SAVE_INTERVAL_SECONDS,
        ),
        None => DEFAULT_AUTO_SAVE_INTERVAL_SECONDS,
    })
}

/// The loaded theme: the last stored theme decides; without one, the last legacy dark
/// theme flag does; without either, the light theme.
pub open spec fn loaded_theme(es: Seq<EntryView>) -> AppearanceTheme {
    match last_value(es, SETTING_APPEARANCE_THEME@) {
        Some(v) => match AppearanceTheme::spec_from_storage_value(v) {
            Some(t) => t,
            None => AppearanceTheme::Light,
        },
        None => match last_value(es, SETTING_APPEARANCE_DARK_THEME@) {
            Some(v) => match parse_storage_bool(v) {
                Some(b) => AppearanceTheme::spec_from_legacy_dark_theme(b),
                None => AppearanceTheme::Light,
            },
            None => AppearanceTheme::Light,
        },
    }
}

pub open spec fn optional_entry(present: bool, key: Seq<char>, value: Seq<char>) -> Seq<EntryView> {
    if present {
        seq![(key, value)]
    } else {
        Seq::empty()
    }
}

pub open spec fn selection_value(node_id: Option<i64>) -> Seq<char> {
    decimal(
        match node_id {
            Some(id) => id as int,
            None => 0,
        },
    )
}

pub open spec fn option_decimal(v: Option<i32>) -> Seq<char> {
    match v {
        Some(x) => decimal(x as int),
        None => Seq::empty(),
    }
}

impl UiSettings {
    /// Every stored entry, in the order `entries` writes them.
    pub open spec fn spec_entries(self) -> Seq<EntryView> {
        optional_entry(self.window.x is Some, SETTING_WINDOW_X@, option_decimal(self.window.x))
            + optional_entry(self.window.y is Some, SETTING_WINDOW_Y@, option_decimal(self.window.y))
            + seq![
            (SETTING_WINDOW_WIDTH@, decimal(self.window.width as int)),
            (SETTING_WINDOW_HEIGHT@, decimal(self.window.height as int)),
            (SETTING_SPLITTER_LEFT_WIDTH@, decimal(self.splitter.left_width as int)),
            (SETTING_SELECTION_NODE_ID@, selection_value(self.selection.node_id)),
            (SETTING_EDITOR_FONT_FAMILY@, self.editor_font.family@),
            (SETTING_EDITOR_FONT_SIZE_PT@, decimal(self.editor_font.size_pt as int)),
            (SETTING_EDITOR_WORD_WRAP@, bool_storage_value(self.editor.word_wrap)),
            (SETTING_TEXT_IMPORT_ENCODING@, self.text_encoding.import_encoding.spec_storage_value()),
            (SETTING_TEXT_EXPORT_ENCODING@, self.text_encoding.export_encoding.spec_storage_value()),
            (SETTING_APPEARANCE_THEME@, self.appearance.theme.spec_storage_value()),
            (SETTING_APPEARANCE_DARK_THEME@, bool_storage_value(self.appearance.theme.spec_uses_dark_mode())),
            (SETTING_UI_LANGUAGE@, self.language.spec_storage_value()),
            (SETTING_AUTO_SAVE_ENABLED@, bool_storage_value(self.auto_save.enabled)),
            (SETTING_AUTO_SAVE_INTERVAL_SECONDS@, decimal(self.auto_save.interval_seconds as int)),
        ]
    }

    /// The entries whose stored value differs from `previous`, in the order of
    /// `spec_entries`; a changed theme writes both theme keys, and a position that became
    /// unknown writes nothing.
    pub open spec fn spec_changed_entries(self, previous: UiSettings) -> Seq<EntryView> {
        optional_entry(
            self.window.x != previous.window.x && self.window.x is Some,
            SETTING_WINDOW_X@,
            option_decimal(self.window.x),
        ) + optional_entry(
            self.window.y != previous.window.y && self.window.y is Some,
            SETTING_WINDOW_Y@,
            option_decimal(self.window.y),
        ) + optional_entry(
            self.window.width != previous.window.width,
            SETTING_WINDOW_WIDTH@,
            decimal(self.window.width as int),
        ) + optional_entry(
            self.window.height != previous.window.height,
            SETTING_WINDOW_HEIGHT@,
            decimal(self.window.height as int),
        ) + optional_entry(
            self.splitter.left_width != previous.splitter.left_width,
            SETTING_SPLITTER_LEFT_WIDTH@,
            decimal(self.splitter.left_width as int),
        ) + optional_entry(
            self.selection.node_id != previous.selection.node_id,
            SETTING_SELECTION_NODE_ID@,
            selection_value(self.selection.node_id),
        ) + optional_entry(
            self.editor_font.family@ != previous.editor_font.family@,
            SETTING_EDITOR_FONT_FAMILY@,
            self.editor_font.family@,
        ) + optional_entry(
            self.editor_font.size_pt != previous.editor_font.size_pt,
            SETTING_EDITOR_FONT_SIZE_PT@,
            decimal(self.editor_font.size_pt as int),
        ) + optional_entry(
            self.editor.word_wrap != previous.editor.word_wrap,
            SETTING_EDITOR_WORD_WRAP@,
            bool_storage_value(self.editor.word_wrap),
        ) + optional_entry(
            self.text_encoding.import_encoding != previous.text_encoding.import_encoding,
            SETTING_TEXT_IMPORT_ENCODING@,
            self.text_encoding.import_encoding.spec_storage_value(),
        ) + optional_entry(
            self.text_encoding.export_encoding != previous.text_encoding.export_encoding,
            SETTING_TEXT_EXPORT_ENCODING@,
            self.text_encoding.export_encoding.spec_storage_value(),
        ) + optional_entry(
            self.appearance.theme != previous.appearance.theme,
            SETTING_APPEARANCE_THEME@,
            self.appearance.theme.spec_storage_value(),
        ) + optional_entry(
            self.appearance.theme != previous.appearance.theme,
            SETTING_APPEARANCE_DARK_THEME@,
            bool_storage_value(self.appearance.theme.spec_uses_dark_mode()),
        ) + optional_entry(
            self.language != previous.language,
            SETTING_UI_LANGUAGE@,
            self.language.spec_storage_value(),
        ) + optional_entry(
            self.auto_save.enabled != previous.auto_save.enabled,
            SETTING_AUTO_SAVE_ENABLED@,
            bool_storage_value(self.auto_save.enabled),
        ) + optional_entry(
            self.auto_save.interval_seconds != previous.auto_save.interval_seconds,
            SETTING_AUTO_SAVE_INTERVAL_SECONDS@,
            decimal(self.auto_save.interval_seconds as int),
        )
    }

    /// The values `new`, `with_size` and the loader keep every setting within.
    pub open spec fn is_normalized(self) -> bool {
        &&& MIN_WINDOW_WIDTH <= self.window.width <= MAX_WINDOW_WIDTH
        &&& MIN_WINDOW_HEIGHT <= self.window.height <= MAX_WINDOW_HEIGHT
        &&& MIN_SPLITTER_LEFT_WIDTH <= self.splitter.left_width <= MAX_SPLITTER_LEFT_WIDTH
        &&& (self.selection.node_id matches Some(id) ==> id > 0)
        &&& normalized_font_family(self.editor_font.family@) == self.editor_font.family@
        &&& MIN_EDITOR_FONT_SIZE_PT <= self.editor_font.size_pt <= MAX_EDITOR_FONT_SIZE_PT
        &&& self.text_encoding.export_encoding != TextEncoding::AutoDetect
        &&& MIN_AUTO_SAVE_INTERVAL_SECONDS <= self.auto_save.interval_seconds
            <= MAX_AUTO_SAVE_INTERVAL_SECONDS
    }

    /// Two settings values that hold the same settings.
    pub open spec fn same_as(self, other: UiSettings) -> bool {
        &&& self.window == other.window
        &&& self.splitter == other.splitter
        &&& self.selection == other.selection
        &&& self.editor_font.family@ == other.editor_font.family@
        &&& self.editor_font.size_pt == other.editor_font.size_pt
        &&& self.editor == other.editor
        &&& self.text_encoding == other.text_encoding
        &&& self.appearance == other.appearance
        &&& self.language == other.language
        &&& self.auto_save == other.auto_save
    }

    pub fn default() -> (r: UiSettings)
        ensures
            loaded_from(r, Seq::empty()),
    {
        UiSettings {
            window: WindowSettings::default(),
            splitter: SplitterSettings::default(),
            selection: SelectionSettings::default(),
            editor_font: EditorFontSettings::default(),
            editor: EditorSettings::default(),
            text_encoding: TextEncodingSettings::default(),
            appearance: AppearanceSettings::default(),
            language: UiLanguage::English,
            auto_save: AutoSaveSettings::default(),
        }
    }
}

impl UiSettings {
    /// Whether the setting stored under `key` differs between `self` and `previous`; the
    /// dark-mode key follows the theme.
    #[verifier::opaque]
    pub open spec fn setting_changed(self, previous: UiSettings, key: Seq<char>) -> bool {
        if key == SETTING_WINDOW_X@ {
            self.window.x != previous.window.x
        } else if key == SETTING_WINDOW_Y@ {
            self.window.y != previous.window.y
        } else if key == SETTING_WINDOW_WIDTH@ {
            self.window.width != previous.window.width
        } else if key == SETTING_WINDOW_HEIGHT@ {
            self.window.height != previous.window.height
        } else if key == SETTING_SPLITTER_LEFT_WIDTH@ {
            self.splitter.left_width != previous.splitter.left_width
        } else if key == SETTING_SELECTION_NODE_ID@ {
            self.selection.node_id != previous.selection.node_id
        } else if key == SETTING_EDITOR_FONT_FAMILY@ {
            self.editor_font.family@ != previous.editor_font.family@
        } else if key == SETTING_EDITOR_FONT_SIZE_PT@ {
            self.editor_font.size_pt != previous.editor_font.size_pt
        } else if key == SETTING_EDITOR_WORD_WRAP@ {
            self.editor.word_wrap != previous.editor.word_wrap
        } else if key == SETTING_TEXT_IMPORT_ENCODING@ {
            self.text_encoding.import_encoding != previous.text_encoding.import_encoding
        } else if key == SETTING_TEXT_EXPORT_ENCODING@ {
            self.text_encoding.export_encoding != previous.text_encoding.export_encoding
        } else if key == SETTING_APPEARANCE_THEME@ {
            self.appearance.theme != previous.appearance.theme
        } else if key == SETTING_APPEARANCE_DARK_THEME@ {
            self.appearance.theme != previous.appearance.theme
        } else if key == SETTING_UI_LANGUAGE@ {
            self.language != previous.language
        } else if key == SETTING_AUTO_SAVE_ENABLED@ {
            self.auto_save.enabled != previous.auto_save.enabled
        } else if key == SETTING_AUTO_SAVE_INTERVAL_SECONDS@ {
            self.auto_save.interval_seconds != previous.auto_save.interval_seconds
        } else {
            false
        }
    }
}

/// Whether an entry's setting differs between `s` and `previous`.
pub open spec fn changed_setting_filter(s: UiSettings, previous: UiSettings) -> spec_fn(EntryView) -> bool {
    |e: EntryView| s.setting_changed(previous, e.0)
}

/// Keeping the entries of `optional_entry` that `pred` holds of.
proof fn lemma_filter_optional_entry(
    present: bool,
    key: Seq<char>,
    value: Seq<char>,
    pred: spec_fn(EntryView) -> bool,
)
    ensures
        optional_entry(present, key, value).filter(pred) === optional_entry(
            present && pred((key, value)),
            key,
            value,
        ),
{
    reveal_with_fuel(Seq::filter, 2);
    if present {
        assert(seq![(key, value)].drop_last() =~= Seq::<EntryView>::empty());
    }
}

/// Keeping what `pred` holds of, over a sum of two parts.
proof fn lemma_filter_step(
    a: Seq<EntryView>,
    e: Seq<EntryView>,
    g: Seq<EntryView>,
    f: Seq<EntryView>,
    pred: spec_fn(EntryView) -> bool,
)
    requires
        a.filter(pred) == g,
        e.filter(pred) == f,
    ensures
        (a + e).filter(pred) === g + f,
{
    Seq::filter_distributes_over_add(a, e, pred);
}

/// Keeping what `pred` holds of, over a sum of sixteen parts, part by part.
proof fn lemma_filter_of_sum(
    e0: Seq<EntryView>,
    e1: Seq<EntryView>,
    e2: Seq<EntryView>,
    e3: Seq<EntryView>,
    e4: Seq<EntryView>,
    e5: Seq<EntryView>,
    e6: Seq<EntryView>,
    e7: Seq<EntryView>,
    e8: Seq<EntryView>,
    e9: Seq<EntryView>,
    e10: Seq<EntryView>,
    e11: Seq<EntryView>,
    e12: Seq<EntryView>,
    e13: Seq<EntryView>,
    e14: Seq<EntryView>,
    e15: Seq<EntryView>,
    f0: Seq<EntryView>,
    f1: Seq<EntryView>,
    f2: Seq<EntryView>,
    f3: Seq<EntryView>,
    f4: Seq<EntryView>,
    f5: Seq<EntryView>,
    f6: Seq<EntryView>,
    f7: Seq<EntryView>,
    f8: Seq<EntryView>,
    f9: Seq<EntryView>,
    f10: Seq<EntryView>,
    f11: Seq<EntryView>,
    f12: Seq<EntryView>,
    f13: Seq<EntryView>,
    f14: Seq<EntryView>,
    f15: Seq<EntryView>,
    pred: spec_fn(EntryView) -> bool,
)
    requires
        e0.filter(pred) == f0,
        e1.filter(pred) == f1,
        e2.filter(pred) == f2,
        e3.filter(pred) == f3,
        e4.filter(pred) == f4,
        e5.filter(pred) == f5,
        e6.filter(pred) == f6,
        e7.filter(pred) == f7,
        e8.filter(pred) == f8,
        e9.filter(pred) == f9,
        e10.filter(pred) == f10,
        e11.filter(pred) == f11,
        e12.filter(pred) == f12,
        e13.filter(pred) == f13,
        e14.filter(pred) == f14,
        e15.filter(pred) == f15,
    ensures
        (e0 + e1 + e2 + e3 + e4 + e5 + e6 + e7
            + e8 + e9 + e10 + e11 + e12 + e13 + e14 + e15).filter(pred) === f0 + f1 + f2 + f3 + f4 + f5 + f6 + f7
            + f8 + f9 + f10 + f11 + f12 + f13 + f14 + f15,
{
    let a0 = e0;
    let g0 = f0;
    lemma_filter_step(a0, e1, g0, f1, pred);
    let a1 = a0 + e1;
    let g1 = g0 + f1;
    lemma_filter_step(a1, e2, g1, f2, pred);
    let a2 = a1 + e2;
    let g2 = g1 + f2;
    lemma_filter_step(a2, e3, g2, f3, pred);
    let a3 = a2 + e3;
    let g3 = g2 + f3;
    lemma_filter_step(a3, e4, g3, f4, pred);
    let a4 = a3 + e4;
    let g4 = g3 + f4;
    lemma_filter_step(a4, e5, g4, f5, pred);
    let a5 = a4 + e5;
    let g5 = g4 + f5;
    lemma_filter_step(a5, e6, g5, f6, pred);
    let a6 = a5 + e6;
    let g6 = g5 + f6;
    lemma_filter_step(a6, e7, g6, f7, pred);
    let a7 = a6 + e7;
    let g7 = g6 + f7;
    lemma_filter_step(a7, e8, g7, f8, pred);
    let a8 = a7 + e8;
    let g8 = g7 + f8;
    lemma_filter_step(a8, e9, g8, f9, pred);
    let a9 = a8 + e9;
    let g9 = g8 + f9;
    lemma_filter_step(a9, e10, g9, f10, pred);
    let a10 = a9 + e10;
    let g10 = g9 + f10;
    lemma_filter_step(a10, e11, g10, f11, pred);
    let a11 = a10 + e11;
    let g11 = g10 + f11;
    lemma_filter_step(a11, e12, g11, f12, pred);
    let a12 = a11 + e12;
    let g12 = g11 + f12;
    lemma_filter_step(a12, e13, g12, f13, pred);
    let a13 = a12 + e13;
    let g13 = g12 + f13;
    lemma_filter_step(a13, e14, g13, f14, pred);
    let a14 = a13 + e14;
    let g14 = g13 + f14;
    lemma_filter_step(a14, e15, g14, f15, pred);
    let a15 = a14 + e15;
    let g15 = g14 + f15;
}

/// Keeping what `pred` holds of `a`, through sequences equal to `a` and `b`.
proof fn lemma_filter_equal_through(
    a: Seq<EntryView>,
    b: Seq<EntryView>,
    e: Seq<EntryView>,
    f: Seq<EntryView>,
    pred: spec_fn(EntryView) -> bool,
)
    requires
        a == e,
        b == f,
        e.filter(pred) == f,
    ensures
        b === a.filter(pred),
{
}

impl UiSettings {
    /// The entries one setting at a time: a part holds the entry of its setting, or
    /// nothing for a window position that is not known.
    pub open spec fn entry_parts(self) -> Seq<Seq<EntryView>> {
        seq![
            optional_entry(self.window.x is Some, SETTING_WINDOW_X@, option_decimal(self.window.x)),
            optional_entry(self.window.y is Some, SETTING_WINDOW_Y@, option_decimal(self.window.y)),
            optional_entry(true, SETTING_WINDOW_WIDTH@, decimal(self.window.width as int)),
            optional_entry(true, SETTING_WINDOW_HEIGHT@, decimal(self.window.height as int)),
            optional_entry(
                true,
                SETTING_SPLITTER_LEFT_WIDTH@,
                decimal(self.splitter.left_width as int),
            ),
            optional_entry(
                true,
                SETTING_SELECTION_NODE_ID@,
                selection_value(self.selection.node_id),
            ),
            optional_entry(true, SETTING_EDITOR_FONT_FAMILY@, self.editor_font.family@),
            optional_entry(
                true,
                SETTING_EDITOR_FONT_SIZE_PT@,
                decimal(self.editor_font.size_pt as int),
            ),
            optional_entry(
                true,
                SETTING_EDITOR_WORD_WRAP@,
                bool_storage_value(self.editor.word_wrap),
            ),
            optional_entry(
                true,
                SETTING_TEXT_IMPORT_ENCODING@,
                self.text_encoding.import_encoding.spec_storage_value(),
            ),
            optional_entry(
                true,
                SETTING_TEXT_EXPORT_ENCODING@,
                self.text_encoding.export_encoding.spec_storage_value(),
            ),
            optional_entry(
                true,
                SETTING_APPEARANCE_THEME@,
                self.appearance.theme.spec_storage_value(),
            ),
            optional_entry(
                true,
                SETTING_APPEARANCE_DARK_THEME@,
                bool_storage_value(self.appearance.theme.spec_uses_dark_mode()),
            ),
            optional_entry(true, SETTING_UI_LANGUAGE@, self.language.spec_storage_value()),
            optional_entry(
                true,
                SETTING_AUTO_SAVE_ENABLED@,
                bool_storage_value(self.auto_save.enabled),
            ),
            optional_entry(
                true,
                SETTING_AUTO_SAVE_INTERVAL_SECONDS@,
                decimal(self.auto_save.interval_seconds as int),
            ),
        ]
    }

    /// The changed entries one setting at a time, in the order of `entry_parts`.
    pub open spec fn changed_parts(self, previous: UiSettings) -> Seq<Seq<EntryView>> {
        seq![
            optional_entry(
                self.window.x != previous.window.x && self.window.x is Some,
                SETTING_WINDOW_X@,
                option_decimal(self.window.x),
            ),
            optional_entry(
                self.window.y != previous.window.y && self.window.y is Some,
                SETTING_WINDOW_Y@,
                option_decimal(self.window.y),
            ),
            optional_entry(
                self.window.width != previous.window.width,
                SETTING_WINDOW_WIDTH@,
                decimal(self.window.width as int),
            ),
            optional_entry(
                self.window.height != previous.window.height,
                SETTING_WINDOW_HEIGHT@,
                decimal(self.window.height as int),
            ),
            optional_entry(
                self.splitter.left_width != previous.splitter.left_width,
                SETTING_SPLITTER_LEFT_WIDTH@,
                decimal(self.splitter.left_width as int),
            ),
            optional_entry(
                self.selection.node_id != previous.selection.node_id,
                SETTING_SELECTION_NODE_ID@,
                selection_value(self.selection.node_id),
            ),
            optional_entry(
                self.editor_font.family@ != previous.editor_font.family@,
                SETTING_EDITOR_FONT_FAMILY@,
                self.editor_font.family@,
            ),
            optional_entry(
                self.editor_font.size_pt != previous.editor_font.size_pt,
                SETTING_EDITOR_FONT_SIZE_PT@,
                decimal(self.editor_font.size_pt as int),
            ),
            optional_entry(
                self.editor.word_wrap != previous.editor.word_wrap,
                SETTING_EDITOR_WORD_WRAP@,
                bool_storage_value(self.editor.word_wrap),
            ),
            optional_entry(
                self.text_encoding.import_encoding != previous.text_encoding.import_encoding,
                SETTING_TEXT_IMPORT_ENCODING@,
                self.text_encoding.import_encoding.spec_storage_value(),
            ),
            optional_entry(
                self.text_encoding.export_encoding != previous.text_encoding.export_encoding,
                SETTING_TEXT_EXPORT_ENCODING@,
                self.text_encoding.export_encoding.spec_storage_value(),
            ),
            optional_entry(
                self.appearance.theme != previous.appearance.theme,
                SETTING_APPEARANCE_THEME@,
                self.appearance.theme.spec_storage_value(),
            ),
            optional_entry(
                self.appearance.theme != previous.appearance.theme,
                SETTING_APPEARANCE_DARK_THEME@,
                bool_storage_value(self.appearance.theme.spec_uses_dark_mode()),
            ),
            optional_entry(
                self.language != previous.language,
                SETTING_UI_LANGUAGE@,
                self.language.spec_storage_value(),
            ),
            optional_entry(
                self.auto_save.enabled != previous.auto_save.enabled,
                SETTING_AUTO_SAVE_ENABLED@,
                bool_storage_value(self.auto_save.enabled),
            ),
            optional_entry(
                self.auto_save.interval_seconds != previous.auto_save.interval_seconds,
                SETTING_AUTO_SAVE_INTERVAL_SECONDS@,
                decimal(self.auto_save.interval_seconds as int),
            ),
        ]
    }
}

/// Which setting each storage key names, for `setting_changed`.
pub proof fn lemma_setting_changed_by_key(s: UiSettings, previous: UiSettings)
    ensures
        s.setting_changed(previous, SETTING_WINDOW_X@) == (s.window.x != previous.window.x),
        s.setting_changed(previous, SETTING_WINDOW_Y@) == (s.window.y != previous.window.y),
        s.setting_changed(previous, SETTING_WINDOW_WIDTH@)
            == (s.window.width != previous.window.width),
        s.setting_changed(previous, SETTING_WINDOW_HEIGHT@)
            == (s.window.height != previous.window.height),
        s.setting_changed(previous, SETTING_SPLITTER_LEFT_WIDTH@)
            == (s.splitter.left_width != previous.splitter.left_width),
        s.setting_changed(previous, SETTING_SELECTION_NODE_ID@)
            == (s.selection.node_id != previous.selection.node_id),
        s.setting_changed(previous, SETTING_EDITOR_FONT_FAMILY@)
            == (s.editor_font.family@ != previous.editor_font.family@),
        s.setting_changed(previous, SETTING_EDITOR_FONT_SIZE_PT@)
            == (s.editor_font.size_pt != previous.editor_font.size_pt),
        s.setting_changed(previous, SETTING_EDITOR_WORD_WRAP@)
            == (s.editor.word_wrap != previous.editor.word_wrap),
        s.setting_changed(previous, SETTING_TEXT_IMPORT_ENCODING@)
            == (s.text_encoding.import_encoding != previous.text_encoding.import_encoding),
        s.setting_changed(previous, SETTING_TEXT_EXPORT_ENCODING@)
            == (s.text_encoding.export_encoding != previous.text_encoding.export_encoding),
        s.setting_changed(previous, SETTING_APPEARANCE_THEME@)
            == (s.appearance.theme != previous.appearance.theme),
        s.setting_changed(previous, SETTING_APPEARANCE_DARK_THEME@)
            == (s.appearance.theme != previous.appearance.theme),
        s.setting_changed(previous, SETTING_UI_LANGUAGE@) == (s.language != previous.language),
        s.setting_changed(previous, SETTING_AUTO_SAVE_ENABLED@)
            == (s.auto_save.enabled != previous.auto_save.enabled),
        s.setting_changed(previous, SETTING_AUTO_SAVE_INTERVAL_SECONDS@)
            == (s.auto_save.interval_seconds != previous.auto_save.interval_seconds),
{
    reveal(UiSettings::setting_changed);
    lemma_setting_keys_distinct();
    let k = setting_keys();
    assert(k[0] == SETTING_WINDOW_X@);
    assert(k[1] == SETTING_WINDOW_Y@);
    assert(k[2] == SETTING_WINDOW_WIDTH@);
    assert(k[3] == SETTING_WINDOW_HEIGHT@);
    assert(k[4] == SETTING_SPLITTER_LEFT_WIDTH@);
    assert(k[5] == SETTING_SELECTION_NODE_ID@);
    assert(k[6] == SETTING_EDITOR_FONT_FAMILY@);
    assert(k[7] == SETTING_EDITOR_FONT_SIZE_PT@);
    assert(k[8] == SETTING_EDITOR_WORD_WRAP@);
    assert(k[9] == SETTING_TEXT_IMPORT_ENCODING@);
    assert(k[10] == SETTING_TEXT_EXPORT_ENCODING@);
    assert(k[11] == SETTING_APPEARANCE_THEME@);
    assert(k[12] == SETTING_APPEARANCE_DARK_THEME@);
    assert(k[13] == SETTING_UI_LANGUAGE@);
    assert(k[14] == SETTING_AUTO_SAVE_ENABLED@);
    assert(k[15] == SETTING_AUTO_SAVE_INTERVAL_SECONDS@);
}

/// The entries, as the sum of their parts.
proof fn lemma_entries_as_sum(s: UiSettings)
    ensures
        ({
            let e = s.entry_parts();
            s.spec_entries() === e[0] + e[1] + e[2] + e[3] + e[4] + e[5] + e[6] + e[7]
            + e[8] + e[9] + e[10] + e[11] + e[12] + e[13] + e[14] + e[15]
        }),
{
    let e = s.entry_parts();
    assert(s.spec_entries() =~= e[0] + e[1] + e[2] + e[3] + e[4] + e[5] + e[6] + e[7]
        + e[8] + e[9] + e[10] + e[11] + e[12] + e[13] + e[14] + e[15]);
}

/// The changed entries, as the sum of their parts.
proof fn lemma_changed_entries_as_sum(s: UiSettings, previous: UiSettings)
    ensures
        ({
            let c = s.changed_parts(previous);
            s.spec_changed_entries(previous) === c[0] + c[1] + c[2] + c[3] + c[4] + c[5] + c[6] + c[7]
            + c[8] + c[9] + c[10] + c[11] + c[12] + c[13] + c[14] + c[15]
        }),
{
}

/// Each part of the entries, kept where its setting changed, is the part of the changed
/// entries for that setting.
proof fn lemma_changed_entry_terms(s: UiSettings, previous: UiSettings)
    ensures
        ({
            let e = s.entry_parts();
            let c = s.changed_parts(previous);
            let f = changed_setting_filter(s, previous);
            &&& e[0].filter(f) === c[0]
            &&& e[1].filter(f) === c[1]
            &&& e[2].filter(f) === c[2]
            &&& e[3].filter(f) === c[3]
            &&& e[4].filter(f) === c[4]
            &&& e[5].filter(f) === c[5]
            &&& e[6].filter(f) === c[6]
            &&& e[7].filter(f) === c[7]
            &&& e[8].filter(f) === c[8]
            &&& e[9].filter(f) === c[9]
            &&& e[10].filter(f) === c[10]
            &&& e[11].filter(f) === c[11]
            &&& e[12].filter(f) === c[12]
            &&& e[13].filter(f) === c[13]
            &&& e[14].filter(f) === c[14]
            &&& e[15].filter(f) === c[15]
        }),
{
    lemma_setting_changed_by_key(s, previous);
    lemma_filter_optional_entry(
        s.window.x is Some,
        SETTING_WINDOW_X@,
        option_decimal(s.window.x),
        changed_setting_filter(s, previous),
    );
    lemma_filter_optional_entry(
        s.window.y is Some,
        SETTING_WINDOW_Y@,
        option_decimal(s.window.y),
        changed_setting_filter(s, previous),
    );
    lemma_filter_optional_entry(
        true,
        SETTING_WINDOW_WIDTH@,
        decimal(s.window.width as int),
        changed_setting_filter(s, previous),
    );
    lemma_filter_optional_entry(
        true,
        SETTING_WINDOW_HEIGHT@,
        decimal(s.window.height as int),
        changed_setting_filter(s, previous),
    );
    lemma_filter_optional_entry(
        true,
        SETTING_SPLITTER_LEFT_WIDTH@,
        decimal(s.splitter.left_width as int),
        changed_setting_filter(s, previous),
    );
    lemma_filter_optional_entry(
        true,
        SETTING_SELECTION_NODE_ID@,
        selection_value(s.selection.node_id),
        changed_setting_filter(s, previous),
    );
    lemma_filter_optional_entry(
        true,
        SETTING_EDITOR_FONT_FAMILY@,
        s.editor_font.family@,
        changed_setting_filter(s, previous),
    );
    lemma_filter_optional_entry(
        true,
        SETTING_EDITOR_FONT_SIZE_PT@,
        decimal(s.editor_font.size_pt as int),
        changed_setting_filter(s, previous),
    );
    lemma_filter_optional_entry(
        true,
        SETTING_EDITOR_WORD_WRAP@,
        bool_storage_value(s.editor.word_wrap),
        changed_setting_filter(s, previous),
    );
    lemma_filter_optional_entry(
        true,
        SETTING_TEXT_IMPORT_ENCODING@,
        s.text_encoding.import_encoding.spec_storage_value(),
        changed_setting_filter(s, previous),
    );
    lemma_filter_optional_entry(
        true,
        SETTING_TEXT_EXPORT_ENCODING@,
        s.text_encoding.export_encoding.spec_storage_value(),
        changed_setting_filter(s, previous),
    );
    lemma_filter_optional_entry(
        true,
        SETTING_APPEARANCE_THEME@,
        s.appearance.theme.spec_storage_value(),
        changed_setting_filter(s, previous),
    );
    lemma_filter_optional_entry(
        true,
        SETTING_APPEARANCE_DARK_THEME@,
        bool_storage_value(s.appearance.theme.spec_uses_dark_mode()),
        changed_setting_filter(s, previous),
    );
    lemma_filter_optional_entry(
        true,
        SETTING_UI_LANGUAGE@,
        s.language.spec_storage_value(),
        changed_setting_filter(s, previous),
    );
    lemma_filter_optional_entry(
        true,
        SETTING_AUTO_SAVE_ENABLED@,
        bool_storage_value(s.auto_save.enabled),
        changed_setting_filter(s, previous),
    );
    lemma_filter_optional_entry(
        true,
        SETTING_AUTO_SAVE_INTERVAL_SECONDS@,
        decimal(s.auto_save.interval_seconds as int),
        changed_setting_filter(s, previous),
    );
}

/// The changed entries are the entries, in their order, whose setting differs from
/// `previous` (and `lemma_no_changed_entries_against_itself` gives none against itself).
#[verifier::spinoff_prover]
#[verifier::rlimit(100)]
pub proof fn lemma_changed_entries_filter_entries(s: UiSettings, previous: UiSettings)
    ensures
        s.spec_changed_entries(previous) == s.spec_entries().filter(
            changed_setting_filter(s, previous),
        ),
{
    let e = s.entry_parts();
    let c = s.changed_parts(previous);
    let f = changed_setting_filter(s, previous);
    lemma_changed_entry_terms(s, previous);
    lemma_entries_as_sum(s);
    lemma_changed_entries_as_sum(s, previous);
    lemma_filter_of_sum(
        e[0], e[1], e[2], e[3], e[4], e[5], e[6], e[7],
        e[8], e[9], e[10], e[11], e[12], e[13], e[14], e[15],
        c[0], c[1], c[2], c[3], c[4], c[5], c[6], c[7],
        c[8], c[9], c[10], c[11], c[12], c[13], c[14], c[15],
        f,
    );
    lemma_filter_equal_through(
        s.spec_entries(),
        s.spec_changed_entries(previous),
        e[0] + e[1] + e[2] + e[3] + e[4] + e[5] + e[6] + e[7]
            + e[8] + e[9] + e[10] + e[11] + e[12] + e[13] + e[14] + e[15],
        c[0] + c[1] + c[2] + c[3] + c[4] + c[5] + c[6] + c[7]
            + c[8] + c[9] + c[10] + c[11] + c[12] + c[13] + c[14] + c[15],
        f,
    );
}

/// The storage keys are pairwise distinct.
pub proof fn lemma_setting_keys_distinct()
    ensures
        setting_keys().no_duplicates(),
{
    reveal_strlit("window.x");
    reveal_strlit("window.y");
    reveal_strlit("window.width");
    reveal_strlit("window.height");
    reveal_strlit("splitter.left_width");
    reveal_strlit("selection.node_id");
    reveal_strlit("editor.font.family");
    reveal_strlit("editor.font.size_pt");
    reveal_strlit("editor.word_wrap");
    reveal_strlit("text.import.encoding");
    reveal_strlit("text.export.encoding");
    reveal_strlit("appearance.theme");
    reveal_strlit("appearance.dark_theme");
    reveal_strlit("ui.language");
    reveal_strlit("autosave.enabled");
    reveal_strlit("autosave.interval_seconds");
    assert(SETTING_WINDOW_X@[7] != SETTING_WINDOW_Y@[7]);
    assert(SETTING_WINDOW_X@.len() != SETTING_WINDOW_WIDTH@.len());
    assert(SETTING_WINDOW_X@.len() != SETTING_WINDOW_HEIGHT@.len());
    assert(SETTING_WINDOW_X@.len() != SETTING_SPLITTER_LEFT_WIDTH@.len());
    assert(SETTING_WINDOW_X@.len() != SETTING_SELECTION_NODE_ID@.len());
    assert(SETTING_WINDOW_X@.len() != SETTING_EDITOR_FONT_FAMILY@.len());
    assert(SETTING_WINDOW_X@.len() != SETTING_EDITOR_FONT_SIZE_PT@.len());
    assert(SETTING_WINDOW_X@.len() != SETTING_EDITOR_WORD_WRAP@.len());
    assert(SETTING_WINDOW_X@.len() != SETTING_TEXT_IMPORT_ENCODING@.len());
    assert(SETTING_WINDOW_X@.len() != SETTING_TEXT_EXPORT_ENCODING@.len());
    assert(SETTING_WINDOW_X@.len() != SETTING_APPEARANCE_THEME@.len());
    assert(SETTING_WINDOW_X@.len() != SETTING_APPEARANCE_DARK_THEME@.len());
    assert(SETTING_WINDOW_X@.len() != SETTING_UI_LANGUAGE@.len());
    assert(SETTING_WINDOW_X@.len() != SETTING_AUTO_SAVE_ENABLED@.len());
    assert(SETTING_WINDOW_X@.len() != SETTING_AUTO_SAVE_INTERVAL_SECONDS@.len());
    assert(SETTING_WINDOW_Y@.len() != SETTING_WINDOW_WIDTH@.len());
    assert(SETTING_WINDOW_Y@.len() != SETTING_WINDOW_HEIGHT@.len());
    assert(SETTING_WINDOW_Y@.len() != SETTING_SPLITTER_LEFT_WIDTH@.len());
    assert(SETTING_WINDOW_Y@.len() != SETTING_SELECTION_NODE_ID@.len());
    assert(SETTING_WINDOW_Y@.len() != SETTING_EDITOR_FONT_FAMILY@.len());
    assert(SETTING_WINDOW_Y@.len() != SETTING_EDITOR_FONT_SIZE_PT@.len());
    assert(SETTING_WINDOW_Y@.len() != SETTING_EDITOR_WORD_WRAP@.len());
    assert(SETTING_WINDOW_Y@.len() != SETTING_TEXT_IMPORT_ENCODING@.len());
    assert(SETTING_WINDOW_Y@.len() != SETTING_TEXT_EXPORT_ENCODING@.len());
    assert(SETTING_WINDOW_Y@.len() != SETTING_APPEARANCE_THEME@.len());
    assert(SETTING_WINDOW_Y@.len() != SETTING_APPEARANCE_DARK_THEME@.len());
    assert(SETTING_WINDOW_Y@.len() != SETTING_UI_LANGUAGE@.len());
    assert(SETTING_WINDOW_Y@.len() != SETTING_AUTO_SAVE_ENABLED@.len());
    assert(SETTING_WINDOW_Y@.len() != SETTING_AUTO_SAVE_INTERVAL_SECONDS@.len());
    assert(SETTING_WINDOW_WIDTH@.len() != SETTING_WINDOW_HEIGHT@.len());
    assert(SETTING_WINDOW_WIDTH@.len() != SETTING_SPLITTER_LEFT_WIDTH@.len());
    assert(SETTING_WINDOW_WIDTH@.len() != SETTING_SELECTION_NODE_ID@.len());
    assert(SETTING_WINDOW_WIDTH@.len() != SETTING_EDITOR_FONT_FAMILY@.len());
    assert(SETTING_WINDOW_WIDTH@.len() != SETTING_EDITOR_FONT_SIZE_PT@.len());
    assert(SETTING_WINDOW_WIDTH@.len() != SETTING_EDITOR_WORD_WRAP@.len());
    assert(SETTING_WINDOW_WIDTH@.len() != SETTING_TEXT_IMPORT_ENCODING@.len());
    assert(SETTING_WINDOW_WIDTH@.len() != SETTING_TEXT_EXPORT_ENCODING@.len());
    assert(SETTING_WINDOW_WIDTH@.len() != SETTING_APPEARANCE_THEME@.len());
    assert(SETTING_WINDOW_WIDTH@.len() != SETTING_APPEARANCE_DARK_THEME@.len());
    assert(SETTING_WINDOW_WIDTH@.len() != SETTING_UI_LANGUAGE@.len());
    assert(SETTING_WINDOW_WIDTH@.len() != SETTING_AUTO_SAVE_ENABLED@.len());
    assert(SETTING_WINDOW_WIDTH@.len() != SETTING_AUTO_SAVE_INTERVAL_SECONDS@.len());
    assert(SETTING_WINDOW_HEIGHT@.len() != SETTING_SPLITTER_LEFT_WIDTH@.len());
    assert(SETTING_WINDOW_HEIGHT@.len() != SETTING_SELECTION_NODE_ID@.len());
    assert(SETTING_WINDOW_HEIGHT@.len() != SETTING_EDITOR_FONT_FAMILY@.len());
    assert(SETTING_WINDOW_HEIGHT@.len() != SETTING_EDITOR_FONT_SIZE_PT@.len());
    assert(SETTING_WINDOW_HEIGHT@.len() != SETTING_EDITOR_WORD_WRAP@.len());
    assert(SETTING_WINDOW_HEIGHT@.len() != SETTING_TEXT_IMPORT_ENCODING@.len());
    assert(SETTING_WINDOW_HEIGHT@.len() != SETTING_TEXT_EXPORT_ENCODING@.len());
    assert(SETTING_WINDOW_HEIGHT@.len() != SETTING_APPEARANCE_THEME@.len());
    assert(SETTING_WINDOW_HEIGHT@.len() != SETTING_APPEARANCE_DARK_THEME@.len());
    assert(SETTING_WINDOW_HEIGHT@.len() != SETTING_UI_LANGUAGE@.len());
    assert(SETTING_WINDOW_HEIGHT@.len() != SETTING_AUTO_SAVE_ENABLED@.len());
    assert(SETTING_WINDOW_HEIGHT@.len() != SETTING_AUTO_SAVE_INTERVAL_SECONDS@.len());
    assert(SETTING_SPLITTER_LEFT_WIDTH@.len() != SETTING_SELECTION_NODE_ID@.len());
    assert(SETTING_SPLITTER_LEFT_WIDTH@.len() != SETTING_EDITOR_FONT_FAMILY@.len());
    assert(SETTING_SPLITTER_LEFT_WIDTH@[0] != SETTING_EDITOR_FONT_SIZE_PT@[0]);
    assert(SETTING_SPLITTER_LEFT_WIDTH@.len() != SETTING_EDITOR_WORD_WRAP@.len());
    assert(SETTING_SPLITTER_LEFT_WIDTH@.len() != SETTING_TEXT_IMPORT_ENCODING@.len());
    assert(SETTING_SPLITTER_LEFT_WIDTH@.len() != SETTING_TEXT_EXPORT_ENCODING@.len());
    assert(SETTING_SPLITTER_LEFT_WIDTH@.len() != SETTING_APPEARANCE_THEME@.len());
    assert(SETTING_SPLITTER_LEFT_WIDTH@.len() != SETTING_APPEARANCE_DARK_THEME@.len());
    assert(SETTING_SPLITTER_LEFT_WIDTH@.len() != SETTING_UI_LANGUAGE@.len());
    assert(SETTING_SPLITTER_LEFT_WIDTH@.len() != SETTING_AUTO_SAVE_ENABLED@.len());
    assert(SETTING_SPLITTER_LEFT_WIDTH@.len() != SETTING_AUTO_SAVE_INTERVAL_SECONDS@.len());
    assert(SETTING_SELECTION_NODE_ID@.len() != SETTING_EDITOR_FONT_FAMILY@.len());
    assert(SETTING_SELECTION_NODE_ID@.len() != SETTING_EDITOR_FONT_SIZE_PT@.len());
    assert(SETTING_SELECTION_NODE_ID@.len() != SETTING_EDITOR_WORD_WRAP@.len());
    assert(SETTING_SELECTION_NODE_ID@.len() != SETTING_TEXT_IMPORT_ENCODING@.len());
    assert(SETTING_SELECTION_NODE_ID@.len() != SETTING_TEXT_EXPORT_ENCODING@.len());
    assert(SETTING_SELECTION_NODE_ID@.len() != SETTING_APPEARANCE_THEME@.len());
    assert(SETTING_SELECTION_NODE_ID@.len() != SETTING_APPEARANCE_DARK_THEME@.len());
    assert(SETTING_SELECTION_NODE_ID@.len() != SETTING_UI_LANGUAGE@.len());
    assert(SETTING_SELECTION_NODE_ID@.len() != SETTING_AUTO_SAVE_ENABLED@.len());
    assert(SETTING_SELECTION_NODE_ID@.len() != SETTING_AUTO_SAVE_INTERVAL_SECONDS@.len());
    assert(SETTING_EDITOR_FONT_FAMILY@.len() != SETTING_EDITOR_FONT_SIZE_PT@.len());
    assert(SETTING_EDITOR_FONT_FAMILY@.len() != SETTING_EDITOR_WORD_WRAP@.len());
    assert(SETTING_EDITOR_FONT_FAMILY@.len() != SETTING_TEXT_IMPORT_ENCODING@.len());
    assert(SETTING_EDITOR_FONT_FAMILY@.len() != SETTING_TEXT_EXPORT_ENCODING@.len());
    assert(SETTING_EDITOR_FONT_FAMILY@.len() != SETTING_APPEARANCE_THEME@.len());
    assert(SETTING_EDITOR_FONT_FAMILY@.len() != SETTING_APPEARANCE_DARK_THEME@.len());
    assert(SETTING_EDITOR_FONT_FAMILY@.len() != SETTING_UI_LANGUAGE@.len());
    assert(SETTING_EDITOR_FONT_FAMILY@.len() != SETTING_AUTO_SAVE_ENABLED@.len());
    assert(SETTING_EDITOR_FONT_FAMILY@.len() != SETTING_AUTO_SAVE_INTERVAL_SECONDS@.len());
    assert(SETTING_EDITOR_FONT_SIZE_PT@.len() != SETTING_EDITOR_WORD_WRAP@.len());
    assert(SETTING_EDITOR_FONT_SIZE_PT@.len() != SETTING_TEXT_IMPORT_ENCODING@.len());
    assert(SETTING_EDITOR_FONT_SIZE_PT@.len() != SETTING_TEXT_EXPORT_ENCODING@.len());
    assert(SETTING_EDITOR_FONT_SIZE_PT@.len() != SETTING_APPEARANCE_THEME@.len());
    assert(SETTING_EDITOR_FONT_SIZE_PT@.len() != SETTING_APPEARANCE_DARK_THEME@.len());
    assert(SETTING_EDITOR_FONT_SIZE_PT@.len() != SETTING_UI_LANGUAGE@.len());
    assert(SETTING_EDITOR_FONT_SIZE_PT@.len() != SETTING_AUTO_SAVE_ENABLED@.len());
    assert(SETTING_EDITOR_FONT_SIZE_PT@.len() != SETTING_AUTO_SAVE_INTERVAL_SECONDS@.len());
    assert(SETTING_EDITOR_WORD_WRAP@.len() != SETTING_TEXT_IMPORT_ENCODING@.len());
    assert(SETTING_EDITOR_WORD_WRAP@.len() != SETTING_TEXT_EXPORT_ENCODING@.len());
    assert(SETTING_EDITOR_WORD_WRAP@[0] != SETTING_APPEARANCE_THEME@[0]);
    assert(SETTING_EDITOR_WORD_WRAP@.len() != SETTING_APPEARANCE_DARK_THEME@.len());
    assert(SETTING_EDITOR_WORD_WRAP@.len() != SETTING_UI_LANGUAGE@.len());
    assert(SETTING_EDITOR_WORD_WRAP@[0] != SETTING_AUTO_SAVE_ENABLED@[0]);
    assert(SETTING_EDITOR_WORD_WRAP@.len() != SETTING_AUTO_SAVE_INTERVAL_SECONDS@.len());
    assert(SETTING_TEXT_IMPORT_ENCODING@[5] != SETTING_TEXT_EXPORT_ENCODING@[5]);
    assert(SETTING_TEXT_IMPORT_ENCODING@.len() != SETTING_APPEARANCE_THEME@.len());
    assert(SETTING_TEXT_IMPORT_ENCODING@.len() != SETTING_APPEARANCE_DARK_THEME@.len());
    assert(SETTING_TEXT_IMPORT_ENCODING@.len() != SETTING_UI_LANGUAGE@.len());
    assert(SETTING_TEXT_IMPORT_ENCODING@.len() != SETTING_AUTO_SAVE_ENABLED@.len());
    assert(SETTING_TEXT_IMPORT_ENCODING@.len() != SETTING_AUTO_SAVE_INTERVAL_SECONDS@.len());
    assert(SETTING_TEXT_EXPORT_ENCODING@.len() != SETTING_APPEARANCE_THEME@.len());
    assert(SETTING_TEXT_EXPORT_ENCODING@.len() != SETTING_APPEARANCE_DARK_THEME@.len());
    assert(SETTING_TEXT_EXPORT_ENCODING@.len() != SETTING_UI_LANGUAGE@.len());
    assert(SETTING_TEXT_EXPORT_ENCODING@.len() != SETTING_AUTO_SAVE_ENABLED@.len());
    assert(SETTING_TEXT_EXPORT_ENCODING@.len() != SETTING_AUTO_SAVE_INTERVAL_SECONDS@.len());
    assert(SETTING_APPEARANCE_THEME@.len() != SETTING_APPEARANCE_DARK_THEME@.len());
    assert(SETTING_APPEARANCE_THEME@.len() != SETTING_UI_LANGUAGE@.len());
    assert(SETTING_APPEARANCE_THEME@[1] != SETTING_AUTO_SAVE_ENABLED@[1]);
    assert(SETTING_APPEARANCE_THEME@.len() != SETTING_AUTO_SAVE_INTERVAL_SECONDS@.len());
    assert(SETTING_APPEARANCE_DARK_THEME@.len() != SETTING_UI_LANGUAGE@.len());
    assert(SETTING_APPEARANCE_DARK_THEME@.len() != SETTING_AUTO_SAVE_ENABLED@.len());
    assert(SETTING_APPEARANCE_DARK_THEME@.len() != SETTING_AUTO_SAVE_INTERVAL_SECONDS@.len());
    assert(SETTING_UI_LANGUAGE@.len() != SETTING_AUTO_SAVE_ENABLED@.len());
    assert(SETTING_UI_LANGUAGE@.len() != SETTING_AUTO_SAVE_INTERVAL_SECONDS@.len());
    assert(SETTING_AUTO_SAVE_ENABLED@.len() != SETTING_AUTO_SAVE_INTERVAL_SECONDS@.len());
    let keys = setting_keys();
    assert forall|i: int, j: int| 0 <= i < keys.len() && 0 <= j < keys.len() && i != j implies keys[i]
        != keys[j] by {
        assert(keys[i] == keys[i]);
    }
}

/// Every storage key, in the order `entries` writes them.
pub open spec fn setting_keys() -> Seq<Seq<char>> {
    seq![
        SETTING_WINDOW_X@,
        SETTING_WINDOW_Y@,
        SETTING_WINDOW_WIDTH@,
        SETTING_WINDOW_HEIGHT@,
        SETTING_SPLITTER_LEFT_WIDTH@,
        SETTING_SELECTION_NODE_ID@,
        SETTING_EDITOR_FONT_FAMILY@,
        SETTING_EDITOR_FONT_SIZE_PT@,
        SETTING_EDITOR_WORD_WRAP@,
        SETTING_TEXT_IMPORT_ENCODING@,
        SETTING_TEXT_EXPORT_ENCODING@,
        SETTING_APPEARANCE_THEME@,
        SETTING_APPEARANCE_DARK_THEME@,
        SETTING_UI_LANGUAGE@,
        SETTING_AUTO_SAVE_ENABLED@,
        SETTING_AUTO_SAVE_INTERVAL_SECONDS@,
    ]
}

/// The value of the last entry whose key is `key`.
fn last_entry_value<'a>(entries: &[(&str, &'a str)], key: &str) -> (r: Option<&'a str>)
    ensures
        r matches Some(v) ==> last_value(entry_views(entries@), key@) == Some(v@),
        r is None ==> last_value(entry_views(entries@), key@) is None,
{
    let ghost es = entry_views(entries@);
    assert(es.subrange(0, entries@.len() as int) == es);
    let mut i: usize = entries.len();
    while i > 0
        invariant
            es == entry_views(entries@),
            0 <= i <= entries@.len(),
            last_value(es, key@) == last_value(es.subrange(0, i as int), key@),
        decreases i,
    {
        let (k, v) = entries[i - 1];
        let ghost prefix = es.subrange(0, i as int);
        assert(prefix.drop_last() == es.subrange(0, i - 1));
        assert(prefix.last() == (k@, v@));
        if str_eq(k, key) {
            return Some(v);
        }
        i = i - 1;
    }
    assert(es.subrange(0, 0) == Seq::<EntryView>::empty());
    None
}

/// A stored `i32` setting with no bounds, `None` when missing or invalid.
fn load_optional_i32(entries: &[(&str, &str)], key: &str) -> (r: Option<i32>)
    ensures
        r == (match last_value(entry_views(entries@), key@) {
            Some(v) => stored_i32(v),
            None => None,
        }),
{
    match last_entry_value(entries, key) {
        Some(v) => parse_i32_setting(v),
        None => None,
    }
}

/// A stored `i32` setting within `[min, max]`, `default` when missing or invalid.
fn load_bounded_i32(entries: &[(&str, &str)], key: &str, min: i32, max: i32, default: i32) -> (r:
    i32)
    ensures
        r == (match last_value(entry_views(entries@), key@) {
            Some(v) => or_default_i32(stored_bounded_i32(v, min, max), default),
            None => default,
        }),
{
    match last_entry_value(entries, key) {
        Some(v) => match parse_bounded_i32(v, min, max) {
            Some(n) => n,
            None => default,
        },
        None => default,
    }
}

/// A stored boolean setting, `default` when missing or invalid.
fn load_bool(entries: &[(&str, &str)], key: &str, default: bool) -> (r: bool)
    ensures
        r == (match last_value(entry_views(entries@), key@) {
            Some(v) => or_default_bool(parse_storage_bool(v), default),
            None => default,
        }),
{
    match last_entry_value(entries, key) {
        Some(v) => match parse_storage_bool_str(v) {
            Some(b) => b,
            None => default,
        },
        None => default,
    }
}

fn load_selection(entries: &[(&str, &str)]) -> (r: Option<i64>)
    ensures
        r == (match last_value(entry_views(entries@), SETTING_SELECTION_NODE_ID@) {
            Some(v) => match parse_i64(trim(v)) {
                Some(id) => if id > 0 {
                    Some(id)
                } else {
                    None
                },
                None => None,
            },
            None => None,
        }),
{
    match last_entry_value(entries, SETTING_SELECTION_NODE_ID) {
        Some(v) => match parse_i64_setting(v) {
            Some(id) => if id > 0 {
                Some(id)
            } else {
                None
            },
            None => None,
        },
        None => None,
    }
}

fn load_font_family(entries: &[(&str, &str)]) -> (r: String)
    ensures
        r@ == (match last_value(entry_views(entries@), SETTING_EDITOR_FONT_FAMILY@) {
            Some(v) => normalized_font_family(v),
            None => DEFAULT_EDITOR_FONT_FAMILY@,
        }),
{
    match last_entry_value(entries, SETTING_EDITOR_FONT_FAMILY) {
        Some(v) => normalize_editor_font_family(v),
        None => to_owned(DEFAULT_EDITOR_FONT_FAMILY),
    }
}

fn load_import_encoding(entries: &[(&str, &str)]) -> (r: TextEncoding)
    ensures
        r == (match last_value(entry_views(entries@), SETTING_TEXT_IMPORT_ENCODING@) {
            Some(v) => match TextEncoding::spec_from_import_storage_value(v) {
                Some(e) => e,
                None => TextEncoding::AutoDetect,
            },
            None => TextEncoding::AutoDetect,
        }),
{
    match last_entry_value(entries, SETTING_TEXT_IMPORT_ENCODING) {
        Some(v) => match TextEncoding::from_import_storage_value(v) {
            Some(e) => e,
            None => TextEncoding::default_import(),
        },
        None => TextEncoding::default_import(),
    }
}

fn load_export_encoding(entries: &[(&str, &str)]) -> (r: TextEncoding)
    ensures
        r == (match last_value(entry_views(entries@), SETTING_TEXT_EXPORT_ENCODING@) {
            Some(v) => match TextEncoding::spec_from_export_storage_value(v) {
                Some(e) => e,
                None => TextEncoding::Utf8,
            },
            None => TextEncoding::Utf8,
        }),
{
    match last_entry_value(entries, SETTING_TEXT_EXPORT_ENCODING) {
        Some(v) => match TextEncoding::from_export_storage_value(v) {
            Some(e) => e,
            None => TextEncoding::default_export(),
        },
        None => TextEncoding::default_export(),
    }
}

fn load_theme(entries: &[(&str, &str)]) -> (r: AppearanceTheme)
    ensures
        r == loaded_theme(entry_views(entries@)),
{
    if let Some(v) = last_entry_value(entries, SETTING_APPEARANCE_THEME) {
        match AppearanceTheme::from_storage_value(v) {
            Some(t) => t,
            None => DEFAULT_APPEARANCE_THEME,
        }
    } else if let Some(v) = last_entry_value(entries, SETTING_APPEARANCE_DARK_THEME) {
        match parse_dark_theme(v) {
            Some(b) => AppearanceTheme::from_legacy_dark_theme(b),
            None => DEFAULT_APPEARANCE_THEME,
        }
    } else {
        DEFAULT_APPEARANCE_THEME
    }
}

fn load_language(entries: &[(&str, &str)]) -> (r: UiLanguage)
    ensures
        r == (match last_value(entry_views(entries@), SETTING_UI_LANGUAGE@) {
            Some(v) => match UiLanguage::spec_from_storage_value(v) {
                Some(l) => l,
                None => UiLanguage::English,
            },
            None => UiLanguage::English,
        }),
{
    match last_entry_value(entries, SETTING_UI_LANGUAGE) {
        Some(v) => match UiLanguage::from_storage_value(v) {
            Some(l) => l,
            None => DEFAULT_UI_LANGUAGE,
        },
        None => DEFAULT_UI_LANGUAGE,
    }
}

impl UiSettings {
    /// Loads settings from stored key and value pairs; unknown keys are ignored, and for
    /// each key the last value stored under it decides.
    pub fn from_entries(entries: &[(&str, &str)]) -> (r: UiSettings)
        ensures
            loaded_from(r, entry_views(entries@)),
    {
        UiSettings {
            window: WindowSettings {
                x: load_optional_i32(entries, SETTING_WINDOW_X),
                y: load_optional_i32(entries, SETTING_WINDOW_Y),
                width: load_bounded_i32(
                    entries,
                    SETTING_WINDOW_WIDTH,
                    MIN_WINDOW_WIDTH,
                    MAX_WINDOW_WIDTH,
                    DEFAULT_WINDOW_WIDTH,
                ),
                height: load_bounded_i32(
                    entries,
                    SETTING_WINDOW_HEIGHT,
                    MIN_WINDOW_HEIGHT,
                    MAX_WINDOW_HEIGHT,
                    DEFAULT_WINDOW_HEIGHT,
                ),
            },
            splitter: SplitterSettings {
                left_width: load_bounded_i32(
                    entries,
                    SETTING_SPLITTER_LEFT_WIDTH,
                    MIN_SPLITTER_LEFT_WIDTH,
                    MAX_SPLITTER_LEFT_WIDTH,
                    DEFAULT_SPLITTER_LEFT_WIDTH,
                ),
            },
            selection: SelectionSettings { node_id: load_selection(entries) },
            editor_font: EditorFontSettings {
                family: load_font_family(entries),
                size_pt: load_bounded_i32(
                    entries,
                    SETTING_EDITOR_FONT_SIZE_PT,
                    MIN_EDITOR_FONT_SIZE_PT,
                    MAX_EDITOR_FONT_SIZE_PT,
                    DEFAULT_EDITOR_FONT_SIZE_PT,
                ),
            },
            editor: EditorSettings {
                word_wrap: load_bool(entries, SETTING_EDITOR_WORD_WRAP, DEFAULT_EDITOR_WORD_WRAP),
            },
            text_encoding: TextEncodingSettings {
                import_encoding: load_import_encoding(entries),
                export_encoding: load_export_encoding(entries),
            },
            appearance: AppearanceSettings { theme: load_theme(entries) },
            language: load_language(entries),
            auto_save: AutoSaveSettings {
                enabled: load_bool(entries, SETTING_AUTO_SAVE_ENABLED, DEFAULT_AUTO_SAVE_ENABLED),
                interval_seconds: load_bounded_i32(
                    entries,
                    SETTING_AUTO_SAVE_INTERVAL_SECONDS,
                    MIN_AUTO_SAVE_INTERVAL_SECONDS,
                    MAX_AUTO_SAVE_INTERVAL_SECONDS,
                    DEFAULT_AUTO_SAVE_INTERVAL_SECONDS,
                ),
            },
        }
    }
}

/// Appends one entry.
fn push_entry(entries: &mut Vec<(&'static str, String)>, key: &'static str, value: String)
    ensures
        owned_entry_views(final(entries)@) == owned_entry_views(old(entries)@).push((key@, value@)),
{
    let ghost before = entries@;
    entries.push((key, value));
    assert(owned_entry_views(entries@) == owned_entry_views(before).push((key@, value@)));
}

fn selection_storage_value(node_id: Option<i64>) -> (r: String)
    ensures
        r@ == selection_value(node_id),
{
    match node_id {
        Some(id) => format_i64(id),
        None => format_i64(0),
    }
}

/// Appends an entry when `present` holds.
fn push_entry_if(
    entries: &mut Vec<(&'static str, String)>,
    present: bool,
    key: &'static str,
    value: String,
)
    ensures
        owned_entry_views(final(entries)@) == owned_entry_views(old(entries)@) + optional_entry(
            present,
            key@,
            value@,
        ),
{
    let ghost before = owned_entry_views(entries@);
    if present {
        push_entry(entries, key, value);
        assert(before.push((key@, value@)) == before + seq![(key@, value@)]);
    } else {
        assert(before + Seq::<EntryView>::empty() == before);
    }
}

/// Appends the decimal entry of `value` when `present` holds and there is a value.
fn push_optional_i32_if(
    entries: &mut Vec<(&'static str, String)>,
    present: bool,
    key: &'static str,
    value: Option<i32>,
)
    ensures
        owned_entry_views(final(entries)@) == owned_entry_views(old(entries)@) + optional_entry(
            present && value is Some,
            key@,
            option_decimal(value),
        ),
{
    match value {
        Some(v) => push_entry_if(entries, present, key, format_i32(v)),
        None => push_entry_if(entries, false, key, String::new()),
    }
}

impl UiSettings {
    /// Every setting as a stored key and value, in a fixed order; an unknown window
    /// position is left out.
    #[verifier::rlimit(100)]
    pub fn entries(&self) -> (r: Vec<(&'static str, String)>)
        ensures
            owned_entry_views(r@) == self.spec_entries(),
    {
        let mut entries: Vec<(&'static str, String)> = Vec::new();
        push_optional_i32_if(&mut entries, true, SETTING_WINDOW_X, self.window.x);
        push_optional_i32_if(&mut entries, true, SETTING_WINDOW_Y, self.window.y);
        let ghost head = owned_entry_views(entries@);
        push_entry(&mut entries, SETTING_WINDOW_WIDTH, format_i32(self.window.width));
        push_entry(&mut entries, SETTING_WINDOW_HEIGHT, format_i32(self.window.height));
        push_entry(&mut entries, SETTING_SPLITTER_LEFT_WIDTH, format_i32(self.splitter.left_width));
        push_entry(
            &mut entries,
            SETTING_SELECTION_NODE_ID,
            selection_storage_value(self.selection.node_id),
        );
        push_entry(&mut entries, SETTING_EDITOR_FONT_FAMILY, self.editor_font.family.clone());
        push_entry(&mut entries, SETTING_EDITOR_FONT_SIZE_PT, format_i32(self.editor_font.size_pt));
        push_entry(
            &mut entries,
            SETTING_EDITOR_WORD_WRAP,
            to_owned(editor_word_wrap_storage_value(self.editor.word_wrap)),
        );
        push_entry(
            &mut entries,
            SETTING_TEXT_IMPORT_ENCODING,
            to_owned(self.text_encoding.import_encoding.storage_value()),
        );
        push_entry(
            &mut entries,
            SETTING_TEXT_EXPORT_ENCODING,
            to_owned(self.text_encoding.export_encoding.storage_value()),
        );
        push_entry(
            &mut entries,
            SETTING_APPEARANCE_THEME,
            to_owned(self.appearance.theme.storage_value()),
        );
        push_entry(
            &mut entries,
            SETTING_APPEARANCE_DARK_THEME,
            to_owned(dark_theme_storage_value(self.appearance.theme.uses_dark_mode())),
        );
        push_entry(&mut entries, SETTING_UI_LANGUAGE, to_owned(self.language.storage_value()));
        push_entry(
            &mut entries,
            SETTING_AUTO_SAVE_ENABLED,
            to_owned(auto_save_enabled_storage_value(self.auto_save.enabled)),
        );
        push_entry(
            &mut entries,
            SETTING_AUTO_SAVE_INTERVAL_SECONDS,
            format_i32(self.auto_save.interval_seconds),
        );
        proof {
            assert(Seq::<EntryView>::empty() + optional_entry(
                self.window.x is Some,
                SETTING_WINDOW_X@,
                option_decimal(self.window.x),
            ) == optional_entry(
                self.window.x is Some,
                SETTING_WINDOW_X@,
                option_decimal(self.window.x),
            ));
            let tail = self.spec_entries().subrange(head.len() as int, self.spec_entries().len() as int);
            assert(owned_entry_views(entries@) == head + tail);
        }
        entries
    }

    /// The entries of the settings that differ from `previous`, in the order of `entries`.
    #[verifier::rlimit(100)]
    pub fn changed_entries(&self, previous: &UiSettings) -> (r: Vec<(&'static str, String)>)
        ensures
            owned_entry_views(r@) == self.spec_changed_entries(*previous),
    {
        let mut entries: Vec<(&'static str, String)> = Vec::new();
        let theme_changed = self.appearance.theme != previous.appearance.theme;
        push_optional_i32_if(
            &mut entries,
            self.window.x != previous.window.x,
            SETTING_WINDOW_X,
            self.window.x,
        );
        push_optional_i32_if(
            &mut entries,
            self.window.y != previous.window.y,
            SETTING_WINDOW_Y,
            self.window.y,
        );
        push_entry_if(
            &mut entries,
            self.window.width != previous.window.width,
            SETTING_WINDOW_WIDTH,
            format_i32(self.window.width),
        );
        push_entry_if(
            &mut entries,
            self.window.height != previous.window.height,
            SETTING_WINDOW_HEIGHT,
            format_i32(self.window.height),
        );
        push_entry_if(
            &mut entries,
            self.splitter.left_width != previous.splitter.left_width,
            SETTING_SPLITTER_LEFT_WIDTH,
            format_i32(self.splitter.left_width),
        );
        push_entry_if(
            &mut entries,
            self.selection.node_id != previous.selection.node_id,
            SETTING_SELECTION_NODE_ID,
            selection_storage_value(self.selection.node_id),
        );
        push_entry_if(
            &mut entries,
            self.editor_font.family != previous.editor_font.family,
            SETTING_EDITOR_FONT_FAMILY,
            self.editor_font.family.clone(),
        );
        push_entry_if(
            &mut entries,
            self.editor_font.size_pt != previous.editor_font.size_pt,
            SETTING_EDITOR_FONT_SIZE_PT,
            format_i32(self.editor_font.size_pt),
        );
        push_entry_if(
            &mut entries,
            self.editor.word_wrap != previous.editor.word_wrap,
            SETTING_EDITOR_WORD_WRAP,
            to_owned(editor_word_wrap_storage_value(self.editor.word_wrap)),
        );
        push_entry_if(
            &mut entries,
            self.text_encoding.import_encoding != previous.text_encoding.import_encoding,
            SETTING_TEXT_IMPORT_ENCODING,
            to_owned(self.text_encoding.import_encoding.storage_value()),
        );
        push_entry_if(
            &mut entries,
            self.text_encoding.export_encoding != previous.text_encoding.export_encoding,
            SETTING_TEXT_EXPORT_ENCODING,
            to_owned(self.text_encoding.export_encoding.storage_value()),
        );
        push_entry_if(
            &mut entries,
            theme_changed,
            SETTING_APPEARANCE_THEME,
            to_owned(self.appearance.theme.storage_value()),
        );
        push_entry_if(
            &mut entries,
            theme_changed,
            SETTING_APPEARANCE_DARK_THEME,
            to_owned(dark_theme_storage_value(self.appearance.theme.uses_dark_mode())),
        );
        push_entry_if(
            &mut entries,
            self.language != previous.language,
            SETTING_UI_LANGUAGE,
            to_owned(self.language.storage_value()),
        );
        push_entry_if(
            &mut entries,
            self.auto_save.enabled != previous.auto_save.enabled,
            SETTING_AUTO_SAVE_ENABLED,
            to_owned(auto_save_enabled_storage_value(self.auto_save.enabled)),
        );
        push_entry_if(
            &mut entries,
            self.auto_save.interval_seconds != previous.auto_save.interval_seconds,
            SETTING_AUTO_SAVE_INTERVAL_SECONDS,
            format_i32(self.auto_save.interval_seconds),
        );
        proof {
            let first = optional_entry(
                self.window.x != previous.window.x && self.window.x is Some,
                SETTING_WINDOW_X@,
                option_decimal(self.window.x),
            );
            assert(Seq::<EntryView>::empty() + first == first);
        }
        entries
    }
}

/// A decimal integer text is its own trim.
pub proof fn lemma_decimal_trimmed(x: int)
    ensures
        trim(decimal(x)) == decimal(x),
{
    crate::decimal::lemma_nat_digits(if x < 0 {
        (-x) as nat
    } else {
        x as nat
    });
    let d = decimal(x);
    let n = if x < 0 {
        (-x) as nat
    } else {
        x as nat
    };
    let digits = crate::decimal::nat_digits(n);
    assert(crate::decimal::is_digit(digits[digits.len() - 1]));
    if x < 0 {
        assert(d == seq!['-'] + digits);
        assert(d.last() == digits.last());
        assert(d[0] == '-');
    } else {
        assert(crate::decimal::is_digit(digits[0]));
    }
    crate::text::lemma_trim_identity(d);
}

/// An `i32` written by `entries` is read back unchanged.
pub proof fn lemma_stored_i32_round_trip(x: i32)
    ensures
        stored_i32(decimal(x as int)) == Some(x),
{
    lemma_decimal_trimmed(x as int);
    lemma_parse_decimal(x as int);
}

/// An `i64` written by `entries` is read back unchanged.
pub proof fn lemma_stored_i64_round_trip(x: i64)
    ensures
        parse_i64(trim(decimal(x as int))) == Some(x),
{
    lemma_decimal_trimmed(x as int);
    lemma_parse_decimal(x as int);
}

/// A boolean written by `entries` is read back unchanged.
pub proof fn lemma_storage_bool_round_trip(b: bool)
    ensures
        parse_storage_bool(bool_storage_value(b)) == Some(b),
{
    reveal_strlit("true");
    reveal_strlit("false");
    crate::text::lemma_trim_identity("true"@);
    crate::text::lemma_trim_identity("false"@);
}

/// Reading the stored value of an encoding gives the encoding back.
pub proof fn lemma_text_encoding_round_trip(e: TextEncoding)
    ensures
        TextEncoding::spec_from_storage_value(e.spec_storage_value()) == Some(e),
{
    let v = e.spec_storage_value();
    match e {
        TextEncoding::AutoDetect => {
            reveal_strlit("auto");
            crate::text::lemma_trim_identity("auto"@);
            assert(ascii_lower("auto"@) == "auto"@);
        },
        TextEncoding::Utf8 => {
            reveal_strlit("utf-8");
            crate::text::lemma_trim_identity("utf-8"@);
            assert(ascii_lower("utf-8"@) == "utf-8"@);
            reveal_strlit("auto");
            assert("auto"@.len() != "utf-8"@.len());
            reveal_strlit("auto-detect");
            assert("auto-detect"@.len() != "utf-8"@.len());
            reveal_strlit("auto_detect");
            assert("auto_detect"@.len() != "utf-8"@.len());
        },
        TextEncoding::Utf8WithBom => {
            reveal_strlit("utf-8-bom");
            crate::text::lemma_trim_identity("utf-8-bom"@);
            assert(ascii_lower("utf-8-bom"@) == "utf-8-bom"@);
            reveal_strlit("auto");
            assert("auto"@.len() != "utf-8-bom"@.len());
            reveal_strlit("auto-detect");
            assert("auto-detect"@.len() != "utf-8-bom"@.len());
            reveal_strlit("auto_detect");
            assert("auto_detect"@.len() != "utf-8-bom"@.len());
            reveal_strlit("utf-8");
            assert("utf-8"@.len() != "utf-8-bom"@.len());
            reveal_strlit("utf8");
            assert("utf8"@.len() != "utf-8-bom"@.len());
        },
        TextEncoding::Utf16LeWithBom => {
            reveal_strlit("utf-16le-bom");
            crate::text::lemma_trim_identity("utf-16le-bom"@);
            assert(ascii_lower("utf-16le-bom"@) == "utf-16le-bom"@);
            reveal_strlit("auto");
            assert("auto"@.len() != "utf-16le-bom"@.len());
            reveal_strlit("auto-detect");
            assert("auto-detect"@.len() != "utf-16le-bom"@.len());
            reveal_strlit("auto_detect");
            assert("auto_detect"@.len() != "utf-16le-bom"@.len());
            reveal_strlit("utf-8");
            assert("utf-8"@.len() != "utf-16le-bom"@.len());
            reveal_strlit("utf8");
            assert("utf8"@.len() != "utf-16le-bom"@.len());
            reveal_strlit("utf-8-bom");
            assert("utf-8-bom"@.len() != "utf-16le-bom"@.len());
            reveal_strlit("utf8-bom");
            assert("utf8-bom"@.len() != "utf-16le-bom"@.len());
            reveal_strlit("utf-8-with-bom");
            assert("utf-8-with-bom"@.len() != "utf-16le-bom"@.len());
        },
        TextEncoding::Utf16BeWithBom => {
            reveal_strlit("utf-16be-bom");
            crate::text::lemma_trim_identity("utf-16be-bom"@);
            assert(ascii_lower("utf-16be-bom"@) == "utf-16be-bom"@);
            reveal_strlit("auto");
            assert("auto"@.len() != "utf-16be-bom"@.len());
            reveal_strlit("auto-detect");
            assert("auto-detect"@.len() != "utf-16be-bom"@.len());
            reveal_strlit("auto_detect");
            assert("auto_detect"@.len() != "utf-16be-bom"@.len());
            reveal_strlit("utf-8");
            assert("utf-8"@.len() != "utf-16be-bom"@.len());
            reveal_strlit("utf8");
            assert("utf8"@.len() != "utf-16be-bom"@.len());
            reveal_strlit("utf-8-bom");
            assert("utf-8-bom"@.len() != "utf-16be-bom"@.len());
            reveal_strlit("utf8-bom");
            assert("utf8-bom"@.len() != "utf-16be-bom"@.len());
            reveal_strlit("utf-8-with-bom");
            assert("utf-8-with-bom"@.len() != "utf-16be-bom"@.len());
            reveal_strlit("utf-16le-bom");
            assert("utf-16le-bom"@[6] != "utf-16be-bom"@[6]);
            reveal_strlit("utf-16-le-bom");
            assert("utf-16-le-bom"@.len() != "utf-16be-bom"@.len());
            reveal_strlit("utf16le-bom");
            assert("utf16le-bom"@.len() != "utf-16be-bom"@.len());
        },
        TextEncoding::KoreanEucKr => {
            reveal_strlit("euc-kr");
            crate::text::lemma_trim_identity("euc-kr"@);
            assert(ascii_lower("euc-kr"@) == "euc-kr"@);
            reveal_strlit("auto");
            assert("auto"@.len() != "euc-kr"@.len());
            reveal_strlit("auto-detect");
            assert("auto-detect"@.len() != "euc-kr"@.len());
            reveal_strlit("auto_detect");
            assert("auto_detect"@.len() != "euc-kr"@.len());
            reveal_strlit("utf-8");
            assert("utf-8"@.len() != "euc-kr"@.len());
            reveal_strlit("utf8");
            assert("utf8"@.len() != "euc-kr"@.len());
            reveal_strlit("utf-8-bom");
            assert("utf-8-bom"@.len() != "euc-kr"@.len());
            reveal_strlit("utf8-bom");
            assert("utf8-bom"@.len() != "euc-kr"@.len());
            reveal_strlit("utf-8-with-bom");
            assert("utf-8-with-bom"@.len() != "euc-kr"@.len());
            reveal_strlit("utf-16le-bom");
            assert("utf-16le-bom"@.len() != "euc-kr"@.len());
            reveal_strlit("utf-16-le-bom");
            assert("utf-16-le-bom"@.len() != "euc-kr"@.len());
            reveal_strlit("utf16le-bom");
            assert("utf16le-bom"@.len() != "euc-kr"@.len());
            reveal_strlit("utf-16be-bom");
            assert("utf-16be-bom"@.len() != "euc-kr"@.len());
            reveal_strlit("utf-16-be-bom");
            assert("utf-16-be-bom"@.len() != "euc-kr"@.len());
            reveal_strlit("utf16be-bom");
            assert("utf16be-bom"@.len() != "euc-kr"@.len());
        },
        TextEncoding::Windows1252 => {
            reveal_strlit("windows-1252");
            crate::text::lemma_trim_identity("windows-1252"@);
            assert(ascii_lower("windows-1252"@) == "windows-1252"@);
            reveal_strlit("auto");
            assert("auto"@.len() != "windows-1252"@.len());
            reveal_strlit("auto-detect");
            assert("auto-detect"@.len() != "windows-1252"@.len());
            reveal_strlit("auto_detect");
            assert("auto_detect"@.len() != "windows-1252"@.len());
            reveal_strlit("utf-8");
            assert("utf-8"@.len() != "windows-1252"@.len());
            reveal_strlit("utf8");
            assert("utf8"@.len() != "windows-1252"@.len());
            reveal_strlit("utf-8-bom");
            assert("utf-8-bom"@.len() != "windows-1252"@.len());
            reveal_strlit("utf8-bom");
            assert("utf8-bom"@.len() != "windows-1252"@.len());
            reveal_strlit("utf-8-with-bom");
            assert("utf-8-with-bom"@.len() != "windows-1252"@.len());
            reveal_strlit("utf-16le-bom");
            assert("utf-16le-bom"@[0] != "windows-1252"@[0]);
            reveal_strlit("utf-16-le-bom");
            assert("utf-16-le-bom"@.len() != "windows-1252"@.len());
            reveal_strlit("utf16le-bom");
            assert("utf16le-bom"@.len() != "windows-1252"@.len());
            reveal_strlit("utf-16be-bom");
            assert("utf-16be-bom"@[0] != "windows-1252"@[0]);
            reveal_strlit("utf-16-be-bom");
            assert("utf-16-be-bom"@.len() != "windows-1252"@.len());
            reveal_strlit("utf16be-bom");
            assert("utf16be-bom"@.len() != "windows-1252"@.len());
            reveal_strlit("euc-kr");
            assert("euc-kr"@.len() != "windows-1252"@.len());
            reveal_strlit("windows-949");
            assert("windows-949"@.len() != "windows-1252"@.len());
            reveal_strlit("windows949");
            assert("windows949"@.len() != "windows-1252"@.len());
            reveal_strlit("cp949");
            assert("cp949"@.len() != "windows-1252"@.len());
        },
    }
}

/// Reading the stored value of a theme gives the theme back.
pub proof fn lemma_appearance_theme_round_trip(t: AppearanceTheme)
    ensures
        AppearanceTheme::spec_from_storage_value(t.spec_storage_value()) == Some(t),
{
    let v = t.spec_storage_value();
    reveal_strlit("light");
    reveal_strlit("dark");
    reveal_strlit("classic-dark");
    reveal_strlit("classic_dark");
    reveal_strlit("sepia-teal");
    reveal_strlit("sepia_teal");
    reveal_strlit("sepia");
    reveal_strlit("graphite");
    reveal_strlit("gray");
    reveal_strlit("grey");
    reveal_strlit("forest");
    reveal_strlit("green");
    reveal_strlit("steel-blue");
    crate::text::lemma_trim_identity(v);
    assert(ascii_lower(v) == v);
}

/// Reading the stored value of a language gives the language back.
pub proof fn lemma_ui_language_round_trip(l: UiLanguage)
    ensures
        UiLanguage::spec_from_storage_value(l.spec_storage_value()) == Some(l),
{
    let v = l.spec_storage_value();
    reveal_strlit("ko");
    reveal_strlit("ko-kr");
    reveal_strlit("korean");
    reveal_strlit("한국어");
    reveal_strlit("en");
    crate::text::lemma_trim_identity(v);
    assert(ascii_lower(v) == v);
}

/// Stored values are read without regard to surrounding white space or ASCII case: two
/// values that agree once trimmed and folded name the same language, encoding (also
/// for export) and theme.
pub proof fn lemma_storage_values_ignore_space_and_case(v: Seq<char>, w: Seq<char>)
    requires
        ascii_lower(trim(v)) == ascii_lower(trim(w)),
    ensures
        UiLanguage::spec_from_storage_value(v) == UiLanguage::spec_from_storage_value(w),
        TextEncoding::spec_from_storage_value(v) == TextEncoding::spec_from_storage_value(w),
        TextEncoding::spec_from_export_storage_value(v) == TextEncoding::spec_from_export_storage_value(
            w,
        ),
        AppearanceTheme::spec_from_storage_value(v) == AppearanceTheme::spec_from_storage_value(w),
{
}

/// Reading the stored value of an encoding for export gives it back for every encoding
/// but automatic detection, which is refused.
pub proof fn lemma_export_encoding_round_trip(e: TextEncoding)
    ensures
        TextEncoding::spec_from_export_storage_value(e.spec_storage_value()) == if e
            == TextEncoding::AutoDetect {
            None
        } else {
            Some(e)
        },
        TextEncoding::spec_export_options().contains(e) <==> e != TextEncoding::AutoDetect,
{
    lemma_text_encoding_round_trip(e);
    let opts = TextEncoding::spec_export_options();
    if e != TextEncoding::AutoDetect {
        let i: int = match e {
            TextEncoding::Utf8 => 0,
            TextEncoding::Utf8WithBom => 1,
            TextEncoding::Utf16LeWithBom => 2,
            TextEncoding::Utf16BeWithBom => 3,
            TextEncoding::KoreanEucKr => 4,
            _ => 5,
        };
        assert(opts[i] == e);
    } else {
        assert forall|i: int| 0 <= i < opts.len() implies opts[i] != e by {}
    }
}

proof fn lemma_last_value_unique(es: Seq<EntryView>, key: Seq<char>, j: int)
    requires
        0 <= j < es.len(),
        es[j].0 == key,
        forall|i: int| 0 <= i < es.len() && i != j ==> es[i].0 != key,
    ensures
        last_value(es, key) == Some(es[j].1),
    decreases es.len(),
{
    if j < es.len() - 1 {
        lemma_last_value_unique(es.drop_last(), key, j);
    }
}

proof fn lemma_last_value_absent(es: Seq<EntryView>, key: Seq<char>)
    requires
        forall|i: int| 0 <= i < es.len() ==> es[i].0 != key,
    ensures
        last_value(es, key) is None,
    decreases es.len(),
{
    if es.len() > 0 {
        lemma_last_value_absent(es.drop_last(), key);
    }
}

/// Settings written by `entries` and loaded back by `from_entries` are the same
/// settings, whenever they lie within the ranges the loader accepts.
pub proof fn lemma_entries_round_trip(s: UiSettings, loaded: UiSettings)
    requires
        s.is_normalized(),
        loaded_from(loaded, s.spec_entries()),
    ensures
        loaded.same_as(s),
{
    lemma_setting_keys_distinct();
    let keys = setting_keys();
    assert(keys[0] == SETTING_WINDOW_X@);
    assert(keys[1] == SETTING_WINDOW_Y@);
    assert(keys[2] == SETTING_WINDOW_WIDTH@);
    assert(keys[3] == SETTING_WINDOW_HEIGHT@);
    assert(keys[4] == SETTING_SPLITTER_LEFT_WIDTH@);
    assert(keys[5] == SETTING_SELECTION_NODE_ID@);
    assert(keys[6] == SETTING_EDITOR_FONT_FAMILY@);
    assert(keys[7] == SETTING_EDITOR_FONT_SIZE_PT@);
    assert(keys[8] == SETTING_EDITOR_WORD_WRAP@);
    assert(keys[9] == SETTING_TEXT_IMPORT_ENCODING@);
    assert(keys[10] == SETTING_TEXT_EXPORT_ENCODING@);
    assert(keys[11] == SETTING_APPEARANCE_THEME@);
    assert(keys[12] == SETTING_APPEARANCE_DARK_THEME@);
    assert(keys[13] == SETTING_UI_LANGUAGE@);
    assert(keys[14] == SETTING_AUTO_SAVE_ENABLED@);
    assert(keys[15] == SETTING_AUTO_SAVE_INTERVAL_SECONDS@);
    let es = s.spec_entries();
    let ox: int = if s.window.x is Some { 1 } else { 0 };
    let oy: int = if s.window.y is Some { 1 } else { 0 };
    let o = ox + oy;
    assert(es.len() == o + 14);
    assert forall|i: int| 0 <= i < es.len() implies (#[trigger] es[i]).0 == keys[if i < o {
        if i == 0 && ox == 1 { 0 } else { 1 }
    } else {
        i - o + 2
    }] by {
    }
    if s.window.x is Some {
        lemma_last_value_unique(es, SETTING_WINDOW_X@, 0);
    } else {
        lemma_last_value_absent(es, SETTING_WINDOW_X@);
    }
    if s.window.y is Some {
        lemma_last_value_unique(es, SETTING_WINDOW_Y@, ox);
    } else {
        lemma_last_value_absent(es, SETTING_WINDOW_Y@);
    }
    lemma_last_value_unique(es, SETTING_WINDOW_WIDTH@, o + 0);
    lemma_last_value_unique(es, SETTING_WINDOW_HEIGHT@, o + 1);
    lemma_last_value_unique(es, SETTING_SPLITTER_LEFT_WIDTH@, o + 2);
    lemma_last_value_unique(es, SETTING_SELECTION_NODE_ID@, o + 3);
    lemma_last_value_unique(es, SETTING_EDITOR_FONT_FAMILY@, o + 4);
    lemma_last_value_unique(es, SETTING_EDITOR_FONT_SIZE_PT@, o + 5);
    lemma_last_value_unique(es, SETTING_EDITOR_WORD_WRAP@, o + 6);
    lemma_last_value_unique(es, SETTING_TEXT_IMPORT_ENCODING@, o + 7);
    lemma_last_value_unique(es, SETTING_TEXT_EXPORT_ENCODING@, o + 8);
    lemma_last_value_unique(es, SETTING_APPEARANCE_THEME@, o + 9);
    lemma_last_value_unique(es, SETTING_APPEARANCE_DARK_THEME@, o + 10);
    lemma_last_value_unique(es, SETTING_UI_LANGUAGE@, o + 11);
    lemma_last_value_unique(es, SETTING_AUTO_SAVE_ENABLED@, o + 12);
    lemma_last_value_unique(es, SETTING_AUTO_SAVE_INTERVAL_SECONDS@, o + 13);
    if let Some(x) = s.window.x {
        lemma_stored_i32_round_trip(x);
    }
    if let Some(y) = s.window.y {
        lemma_stored_i32_round_trip(y);
    }
    lemma_stored_i32_round_trip(s.window.width);
    lemma_stored_i32_round_trip(s.window.height);
    lemma_stored_i32_round_trip(s.splitter.left_width);
    lemma_stored_i32_round_trip(s.editor_font.size_pt);
    lemma_stored_i32_round_trip(s.auto_save.interval_seconds);
    match s.selection.node_id {
        Some(id) => lemma_stored_i64_round_trip(id),
        None => lemma_stored_i64_round_trip(0),
    }
    lemma_storage_bool_round_trip(s.editor.word_wrap);
    lemma_storage_bool_round_trip(s.auto_save.enabled);
    lemma_text_encoding_round_trip(s.text_encoding.import_encoding);
    lemma_text_encoding_round_trip(s.text_encoding.export_encoding);
    lemma_appearance_theme_round_trip(s.appearance.theme);
    lemma_ui_language_round_trip(s.language);
}

/// Settings compared with themselves have no changed entries.
pub proof fn lemma_no_changed_entries_against_itself(s: UiSettings)
    ensures
        s.spec_changed_entries(s) == Seq::<EntryView>::empty(),
{
    assert(s.spec_changed_entries(s) =~= Seq::<EntryView>::empty());
}

} // verus!
