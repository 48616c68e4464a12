//! The documents open in editor tabs: each tab's content against the content it was
//! loaded with, its dirty state and its view, and the ordered set of tabs with the
//! active one.
use std::collections::HashSet;
use std::ops::Range;
use vstd::prelude::*;
use vstd::utf8::{encode_utf8, is_char_boundary};
use crate::text::{replace_byte_range, str_bytes, to_owned};

verus! {

broadcast use vstd::string::group_string_axioms;

#[derive(Debug, Clone, Copy, PartialEq, Eq, Structural)]
pub enum DocumentTabSource {
    ActiveTree,
    SearchResult,
    Trash,
}

#[derive(Debug, Clone, PartialEq, Eq)]
pub struct OpenDocumentTabInput {
    pub node_id: i64,
    pub parent_id: Option<i64>,
    pub title: String,
    pub content: String,
    pub loaded_updated_at: String,
    pub editable: bool,
    pub source: DocumentTabSource,
}

#[derive(Debug, Clone, PartialEq, Eq)]
pub struct LoadedTabMetadataUpdate<'a> {
    pub node_id: i64,
    pub parent_id: Option<i64>,
    pub title: String,
    pub loaded_updated_at: String,
    pub editable: bool,
    pub source: DocumentTabSource,
    pub current_content_for_dirty_token: Option<&'a str>,
}

/// Where the editor of a tab was scrolled to and where its caret and selection were,
/// in UTF-16 code units.
#[derive(Debug, Clone, Copy, PartialEq, Eq, Structural)]
pub struct DocumentTabViewState {
    pub first_visible_line: usize,
    pub caret_position_utf16: usize,
    pub selection_start_utf16: usize,
    pub selection_end_utf16: usize,
}

/// The view state of a freshly opened document: top of the text, nothing selected.
pub open spec fn initial_view_state() -> DocumentTabViewState {
    DocumentTabViewState {
        first_visible_line: 0,
        caret_position_utf16: 0,
        selection_start_utf16: 0,
        selection_end_utf16: 0,
    }
}

impl Default for DocumentTabViewState {
    fn default() -> (r: DocumentTabViewState)
        ensures
            r == initial_view_state(),
    {
        DocumentTabViewState {
            first_visible_line: 0,
            caret_position_utf16: 0,
            selection_start_utf16: 0,
            selection_end_utf16: 0,
        }
    }
}

pub open spec fn min_of(a: usize, b: usize) -> usize {
    if a <= b {
        a
    } else {
        b
    }
}

/// The view state brought inside a text of `max_offset` code units whose last line that
/// can be scrolled to the top is `max_line`.
pub open spec fn clamped_view_state(
    v: DocumentTabViewState,
    max_offset: usize,
    max_line: usize,
) -> DocumentTabViewState {
    let caret = min_of(v.caret_position_utf16, max_offset);
    let line = min_of(v.first_visible_line, max_line);
    if v.selection_start_utf16 == v.selection_end_utf16 {
        DocumentTabViewState {
            first_visible_line: line,
            caret_position_utf16: caret,
            selection_start_utf16: caret,
            selection_end_utf16: caret,
        }
    } else {
        let a = min_of(v.selection_start_utf16, max_offset);
        let b = min_of(v.selection_end_utf16, max_offset);
        let lo = min_of(a, b);
        let hi = if a <= b {
            b
        } else {
            a
        };
        let c = if caret < lo {
            lo
        } else if caret > hi {
            hi
        } else {
            caret
        };
        DocumentTabViewState {
            first_visible_line: line,
            caret_position_utf16: c,
            selection_start_utf16: lo,
            selection_end_utf16: hi,
        }
    }
}

impl DocumentTabViewState {
    /// This view state kept inside a text of `max_text_offset_utf16` code units whose
    /// last line that can be scrolled to the top is `max_first_visible_line`: offsets are
    /// clamped, a reversed selection is put in order, and the caret is kept inside the
    /// selection (or on it, when the selection is empty).
    pub fn clamped(self, max_text_offset_utf16: usize, max_first_visible_line: usize) -> (r: Self)
        ensures
            r == clamped_view_state(self, max_text_offset_utf16, max_first_visible_line),
            r.caret_position_utf16 <= max_text_offset_utf16,
            r.selection_start_utf16 <= r.caret_position_utf16 <= r.selection_end_utf16,
            r.selection_end_utf16 <= max_text_offset_utf16,
            r.first_visible_line <= max_first_visible_line,
    {
        let caret_position_utf16 = if self.caret_position_utf16 <= max_text_offset_utf16 {
            self.caret_position_utf16
        } else {
            max_text_offset_utf16
        };
        let first_visible_line = if self.first_visible_line <= max_first_visible_line {
            self.first_visible_line
        } else {
            max_first_visible_line
        };
        if self.selection_start_utf16 == self.selection_end_utf16 {
            return Self {
                first_visible_line,
                caret_position_utf16,
                selection_start_utf16: caret_position_utf16,
                selection_end_utf16: caret_position_utf16,
            };
        }
        let selection_start = if self.selection_start_utf16 <= max_text_offset_utf16 {
            self.selection_start_utf16
        } else {
            max_text_offset_utf16
        };
        let selection_end = if self.selection_end_utf16 <= max_text_offset_utf16 {
            self.selection_end_utf16
        } else {
            max_text_offset_utf16
        };
        let (selection_start_utf16, selection_end_utf16) = if selection_start <= selection_end {
            (selection_start, selection_end)
        } else {
            (selection_end, selection_start)
        };
        let caret_position_utf16 = if caret_position_utf16 < selection_start_utf16 {
            selection_start_utf16
        } else if caret_position_utf16 > selection_end_utf16 {
            selection_end_utf16
        } else {
            caret_position_utf16
        };
        Self {
            first_visible_line,
            caret_position_utf16,
            selection_start_utf16,
            selection_end_utf16,
        }
    }
}

/// The content a tab was loaded with: its current content while the two are the same,
/// else a copy of it.
#[derive(Debug, Clone, PartialEq, Eq)]
enum LoadedContent {
    Current,
    Saved(String),
}

impl LoadedContent {
    fn as_str<'a>(&'a self, current_content: &'a str) -> (r: &'a str)
        ensures
            r@ == match self {
                LoadedContent::Current => current_content@,
                LoadedContent::Saved(s) => s@,
            },
    {
        match self {
            LoadedContent::Current => current_content,
            LoadedContent::Saved(content) => content.as_str(),
        }
    }
}

#[derive(Debug, Clone)]
pub struct OpenDocumentTab {
    pub node_id: i64,
    pub parent_id: Option<i64>,
    pub title: String,
    pub content: String,
    loaded_content: LoadedContent,
    pub loaded_updated_at: String,
    pub dirty: bool,
    pub editable: bool,
    pub source: DocumentTabSource,
    pub view_state: DocumentTabViewState,
    content_revision: u64,
}

/// The revision counter after one more change of content; it stops at its maximum.
pub open spec fn next_revision(r: u64) -> u64 {
    if r == u64::MAX {
        r
    } else {
        (r + 1) as u64
    }
}

/// What a tab holds, as plain values.
#[verifier::ext_equal]
pub struct TabView {
    pub node_id: i64,
    pub parent_id: Option<i64>,
    pub title: Seq<char>,
    pub content: Seq<char>,
    /// The content the tab was loaded with, against which it is dirty.
    pub loaded: Seq<char>,
    /// Whether the loaded content is kept as a copy of its own, apart from the content.
    pub has_saved_baseline: bool,
    pub loaded_updated_at: Seq<char>,
    pub dirty: bool,
    pub editable: bool,
    pub source: DocumentTabSource,
    pub view_state: DocumentTabViewState,
    /// The counter of changes of the visible content.
    pub revision: u64,
}

impl View for OpenDocumentTab {
    type V = TabView;

    closed spec fn view(&self) -> TabView {
        TabView {
            node_id: self.node_id,
            parent_id: self.parent_id,
            title: self.title@,
            content: self.content@,
            loaded: match self.loaded_content {
                LoadedContent::Current => self.content@,
                LoadedContent::Saved(s) => s@,
            },
            has_saved_baseline: self.loaded_content is Saved,
            loaded_updated_at: self.loaded_updated_at@,
            dirty: self.dirty,
            editable: self.editable,
            source: self.source,
            view_state: self.view_state,
            revision: self.content_revision,
        }
    }
}

/// Everything but the content, the loaded content, the dirty flag and the revision is
/// the same in `a` and `b`.
pub open spec fn same_metadata(a: TabView, b: TabView) -> bool {
    &&& b.node_id == a.node_id
    &&& b.parent_id == a.parent_id
    &&& b.title == a.title
    &&& b.loaded_updated_at == a.loaded_updated_at
    &&& b.editable == a.editable
    &&& b.source == a.source
    &&& b.view_state == a.view_state
}

/// A clean tab keeps no saved copy apart from its content: what it was loaded with is
/// its current content.
pub open spec fn clean_without_baseline(t: TabView) -> bool {
    !t.dirty ==> !t.has_saved_baseline && t.loaded == t.content
}

/// The tab's loaded content is its own content, as after a load or a save.
pub open spec fn is_clean_load(b: TabView) -> bool {
    &&& !b.dirty
    &&& !b.has_saved_baseline
    &&& b.loaded == b.content
}

/// `b` is `a` after its content became `content` by an edit: the loaded content stays,
/// the tab is dirty exactly when the content differs from it, a copy of it is kept
/// exactly then, and the revision counts a change of the visible content.
pub open spec fn edited(a: TabView, content: Seq<char>, b: TabView) -> bool {
    &&& same_metadata(a, b)
    &&& b.content == content
    &&& b.loaded == a.loaded
    &&& b.dirty == (content != a.loaded)
    &&& b.has_saved_baseline == b.dirty
    &&& b.revision == if content != a.content {
        next_revision(a.revision)
    } else {
        a.revision
    }
}

/// What `set_content` does to a tab `a`, and what it answers.
pub open spec fn set_content_spec(a: TabView, content: Seq<char>, b: TabView, r: bool) -> bool {
    if !a.editable {
        !r && b == a
    } else {
        &&& edited(a, content, b)
        &&& r == (content != a.content || a.dirty != b.dirty)
    }
}

/// The tab of a freshly loaded document.
pub open spec fn loaded_tab(input: OpenDocumentTabInput, revision: u64) -> TabView {
    TabView {
        node_id: input.node_id,
        parent_id: input.parent_id,
        title: input.title@,
        content: input.content@,
        loaded: input.content@,
        has_saved_baseline: false,
        loaded_updated_at: input.loaded_updated_at@,
        dirty: false,
        editable: input.editable,
        source: input.source,
        view_state: initial_view_state(),
        revision,
    }
}

/// What `set_content_reusing` leaves in the caller's buffer: nothing when the old
/// content became the tab's loaded copy, else the tab's old content.
pub open spec fn reused_buffer(a: TabView, content: Seq<char>) -> Seq<char> {
    if !a.editable {
        content
    } else if !a.has_saved_baseline && content != a.content {
        Seq::empty()
    } else {
        a.content
    }
}

/// The byte range `start..end` of the content of `a` can be edited: the tab is
/// editable and the range lies on character boundaries of the content.
pub open spec fn editable_range(a: TabView, start: usize, end: usize) -> bool {
    let b = encode_utf8(a.content);
    &&& a.editable
    &&& start <= end <= b.len()
    &&& is_char_boundary(b, start as int)
    &&& is_char_boundary(b, end as int)
}

/// What replacing the byte range `start..end` of the content by `rep` does to a tab
/// `a`, and what it answers: nothing, when the range cannot be edited or already holds
/// `rep`.
pub open spec fn range_replaced(
    a: TabView,
    start: usize,
    end: usize,
    rep: Seq<char>,
    b: TabView,
    r: bool,
) -> bool {
    let old_bytes = encode_utf8(a.content);
    if !editable_range(a, start, end) || old_bytes.subrange(start as int, end as int)
        == encode_utf8(rep) {
        !r && b == a
    } else {
        &&& r
        &&& same_metadata(a, b)
        &&& encode_utf8(b.content) == old_bytes.subrange(0, start as int) + encode_utf8(rep)
            + old_bytes.subrange(end as int, old_bytes.len() as int)
        &&& b.loaded == a.loaded
        &&& b.dirty == (b.content != a.loaded)
        &&& b.has_saved_baseline == b.dirty
        &&& b.revision == next_revision(a.revision)
    }
}

/// What `import_content` does to a tab `a`, and what it answers: an editable tab takes
/// the content and becomes dirty against its loaded content, and its view is reset.
pub open spec fn imported(a: TabView, content: Seq<char>, b: TabView, r: bool) -> bool {
    if !a.editable {
        !r && b == a
    } else {
        &&& r == (content != a.content || !a.dirty)
        &&& b == TabView {
            content,
            has_saved_baseline: true,
            dirty: true,
            view_state: initial_view_state(),
            revision: if content != a.content {
                next_revision(a.revision)
            } else {
                a.revision
            },
            ..a
        }
    }
}

/// What `mark_dirty_from_view` does to a tab `a`, and what it answers.
pub open spec fn marked_dirty(a: TabView, b: TabView, r: bool) -> bool {
    if !a.editable || a.dirty {
        !r && b == a
    } else {
        r && b == TabView { dirty: true, ..a }
    }
}

/// `a` after its content `content`, stamped `updated_at`, was saved to the tree.
pub open spec fn saved_tab(a: TabView, content: Seq<char>, updated_at: Seq<char>) -> TabView {
    TabView {
        content,
        loaded: content,
        has_saved_baseline: false,
        loaded_updated_at: updated_at,
        dirty: false,
        editable: true,
        source: DocumentTabSource::ActiveTree,
        revision: if content != a.content {
            next_revision(a.revision)
        } else {
            a.revision
        },
        ..a
    }
}

/// `a` after a fresh load of `input` replaced it.
pub open spec fn reloaded_tab(a: TabView, input: OpenDocumentTabInput) -> TabView {
    loaded_tab(
        input,
        if input.content@ != a.content {
            next_revision(a.revision)
        } else {
            a.revision
        },
    )
}

/// `a` with its place in the tree, title, editability and source replaced.
pub open spec fn with_metadata(
    a: TabView,
    parent_id: Option<i64>,
    title: Seq<char>,
    editable: bool,
    source: DocumentTabSource,
) -> TabView {
    TabView { parent_id, title, editable, source, ..a }
}

/// `a` after the document was read again as `input`: the metadata is taken; a clean
/// tab takes the content and its stamp; a dirty one keeps its content and takes the
/// stamp only when asked to and when its loaded content is what was read.
pub open spec fn synced_tab(a: TabView, input: OpenDocumentTabInput, update_dirty_token: bool) -> TabView {
    let m = with_metadata(a, input.parent_id, input.title@, input.editable, input.source);
    if !a.dirty {
        TabView {
            content: input.content@,
            loaded: input.content@,
            has_saved_baseline: false,
            loaded_updated_at: input.loaded_updated_at@,
            revision: if input.content@ != a.content {
                next_revision(a.revision)
            } else {
                a.revision
            },
            ..m
        }
    } else if update_dirty_token && a.loaded == input.content@ {
        TabView { loaded_updated_at: input.loaded_updated_at@, ..m }
    } else {
        m
    }
}

/// `a` after new metadata was read for it without its content: a clean tab takes the
/// stamp; a dirty one takes it only when its loaded content is the content that the
/// stamp belongs to.
pub open spec fn metadata_synced_tab(
    a: TabView,
    parent_id: Option<i64>,
    title: Seq<char>,
    loaded_updated_at: Seq<char>,
    editable: bool,
    source: DocumentTabSource,
    current_content: Option<Seq<char>>,
) -> TabView {
    let m = with_metadata(a, parent_id, title, editable, source);
    if !a.dirty {
        TabView {
            loaded: a.content,
            has_saved_baseline: false,
            loaded_updated_at,
            ..m
        }
    } else if current_content == Some(a.loaded) {
        TabView { loaded_updated_at, ..m }
    } else {
        m
    }
}

/// `a` with its changes thrown away: the loaded content is back and the view is reset.
pub open spec fn discarded_tab(a: TabView) -> TabView {
    TabView {
        content: a.loaded,
        has_saved_baseline: false,
        dirty: false,
        view_state: initial_view_state(),
        revision: if a.loaded != a.content {
            next_revision(a.revision)
        } else {
            a.revision
        },
        ..a
    }
}

/// The revision of `b` counts a change of content from `a`: one more when the content
/// changed, the same when it did not.
pub open spec fn revision_follows_content(a: TabView, b: TabView) -> bool {
    b.revision == if b.content != a.content {
        next_revision(a.revision)
    } else {
        a.revision
    }
}

/// A clean tab's loaded content is its content, and stays so: a freshly loaded tab is
/// clean without a saved copy, and every tab operation (an edit, an import, a change
/// reported by the view, a save, a reload, a sync, discarding the changes, a new view
/// state) turns such a tab into another.
pub proof fn lemma_tab_operations_keep_clean_baseline(
    a: TabView,
    content: Seq<char>,
    updated_at: Seq<char>,
    input: OpenDocumentTabInput,
    update_dirty_token: bool,
    view_state: DocumentTabViewState,
    revision: u64,
    b: TabView,
    r: bool,
)
    requires
        clean_without_baseline(a),
    ensures
        !a.dirty ==> a.loaded == a.content,
        clean_without_baseline(loaded_tab(input, revision)),
        set_content_spec(a, content, b, r) ==> clean_without_baseline(b),
        imported(a, content, b, r) ==> clean_without_baseline(b),
        marked_dirty(a, b, r) ==> clean_without_baseline(b),
        clean_without_baseline(saved_tab(a, content, updated_at)),
        clean_without_baseline(reloaded_tab(a, input)),
        clean_without_baseline(synced_tab(a, input, update_dirty_token)),
        clean_without_baseline(discarded_tab(a)),
        clean_without_baseline(TabView { view_state, ..a }),
{
}

/// A tab's content revision moves by one exactly when its visible content changes, and
/// stays otherwise, whatever tab operation changed it.
pub proof fn lemma_revision_counts_content_changes(
    a: TabView,
    content: Seq<char>,
    updated_at: Seq<char>,
    input: OpenDocumentTabInput,
    update_dirty_token: bool,
    view_state: DocumentTabViewState,
    b: TabView,
    r: bool,
)
    ensures
        set_content_spec(a, content, b, r) ==> revision_follows_content(a, b),
        imported(a, content, b, r) ==> revision_follows_content(a, b),
        marked_dirty(a, b, r) ==> revision_follows_content(a, b),
        revision_follows_content(a, saved_tab(a, content, updated_at)),
        revision_follows_content(a, saved_tab(a, a.content, updated_at)),
        revision_follows_content(a, reloaded_tab(a, input)),
        revision_follows_content(a, synced_tab(a, input, update_dirty_token)),
        revision_follows_content(a, discarded_tab(a)),
        revision_follows_content(a, TabView { view_state, ..a }),
{
}

/// Setting the content while reusing the caller's buffer does to the tab, and answers,
/// exactly what setting it does; the buffer then holds the content it was given when the
/// tab is read-only, else nothing or the tab's old content, and nothing when a clean tab
/// takes other content.
pub proof fn lemma_set_content_reusing_matches_set_content(
    a: TabView,
    content: Seq<char>,
    b1: TabView,
    r1: bool,
    b2: TabView,
    r2: bool,
)
    requires
        set_content_spec(a, content, b1, r1),
        set_content_spec(a, content, b2, r2),
    ensures
        b1 == b2,
        r1 == r2,
        !a.editable ==> reused_buffer(a, content) == content,
        a.editable ==> reused_buffer(a, content) == Seq::<char>::empty() || reused_buffer(a, content)
            == a.content,
        clean_without_baseline(a) && a.editable && !a.dirty && content != a.content
            ==> reused_buffer(a, content) == Seq::<char>::empty(),
{
}

impl OpenDocumentTab {
    /// The tab of a freshly loaded document.
    pub fn from_input(input: OpenDocumentTabInput) -> (r: Self)
        ensures
            clean_without_baseline(r@),
            r@ == loaded_tab(input, 0),
    {
        Self {
            node_id: input.node_id,
            parent_id: input.parent_id,
            title: input.title,
            content: input.content,
            loaded_content: LoadedContent::Current,
            loaded_updated_at: input.loaded_updated_at,
            dirty: false,
            editable: input.editable,
            source: input.source,
            view_state: DocumentTabViewState::default(),
            content_revision: 0,
        }
    }

    /// The content the tab was loaded with.
    pub fn loaded_content(&self) -> (r: &str)
        ensures
            r@ == self@.loaded,
    {
        self.loaded_content.as_str(self.content.as_str())
    }

    /// Whether the loaded content is the content itself rather than a separate copy.
    pub fn loaded_content_is_current(&self) -> (r: bool)
        ensures
            r == !self@.has_saved_baseline,
    {
        match self.loaded_content {
            LoadedContent::Current => true,
            LoadedContent::Saved(_) => false,
        }
    }

    /// The counter of changes of the visible content.
    pub fn content_revision(&self) -> (r: u64)
        ensures
            r == self@.revision,
    {
        self.content_revision
    }

    /// The title shown for the tab, whether or not it is dirty.
    pub fn display_title(&self) -> (r: String)
        ensures
            r@ == self@.title,
    {
        self.title.clone()
    }

    /// Whether saving the tab would write it back.
    pub fn is_save_target(&self) -> (r: bool)
        ensures
            r == (self@.editable && self@.dirty),
    {
        self.editable && self.dirty
    }

    /// Whether the tab has changes that cannot be saved.
    pub fn has_unsavable_changes(&self) -> (r: bool)
        ensures
            r == (self@.dirty && !self@.editable),
    {
        self.dirty && !self.is_save_target()
    }

    fn bump_content_revision(&mut self)
        ensures
            final(self).content_revision == next_revision(old(self).content_revision),
            final(self).node_id == old(self).node_id,
            final(self).parent_id == old(self).parent_id,
            final(self).title == old(self).title,
            final(self).content == old(self).content,
            final(self).loaded_content == old(self).loaded_content,
            final(self).loaded_updated_at == old(self).loaded_updated_at,
            final(self).dirty == old(self).dirty,
            final(self).editable == old(self).editable,
            final(self).source == old(self).source,
            final(self).view_state == old(self).view_state,
    {
        self.content_revision = self.content_revision.saturating_add(1);
    }

    /// Sets the content from an edit of an editable tab; answers whether the content or
    /// the dirty state changed. A read-only tab is left as it is.
    pub fn set_content(&mut self, content: String) -> (r: bool)
        ensures
            clean_without_baseline(old(self)@) ==> clean_without_baseline(final(self)@),
            set_content_spec(old(self)@, content@, final(self)@, r),
    {
        if !self.editable {
            return false;
        }
        let previous_dirty = self.dirty;
        let content_changed = self.content != content;
        match &self.loaded_content {
            LoadedContent::Current => {
                if content_changed {
                    let mut loaded = content;
                    std::mem::swap(&mut self.content, &mut loaded);
                    self.loaded_content = LoadedContent::Saved(loaded);
                    self.dirty = true;
                    self.bump_content_revision();
                } else {
                    self.content = content;
                    self.dirty = false;
                }
            },
            LoadedContent::Saved(loaded) => {
                let next_dirty = content != *loaded;
                self.content = content;
                if !next_dirty {
                    self.loaded_content = LoadedContent::Current;
                }
                self.dirty = next_dirty;
                if content_changed {
                    self.bump_content_revision();
                }
            },
        }
        content_changed || previous_dirty != self.dirty
    }
    /// Sets the content from an edit of an editable tab, handing back in `content` the
    /// buffer that the tab no longer needs; answers whether the content or the dirty
    /// state changed. A read-only tab and the buffer are left as they are.
    pub fn set_content_reusing(&mut self, content: &mut String) -> (r: bool)
        ensures
            clean_without_baseline(old(self)@) ==> clean_without_baseline(final(self)@),
            set_content_spec(old(self)@, old(content)@, final(self)@, r),
            final(content)@ == reused_buffer(old(self)@, old(content)@),
            clean_without_baseline(old(self)@) && old(self)@.editable && !old(self)@.dirty
                && old(content)@ != old(self)@.content ==> final(content)@ == Seq::<char>::empty(),
    {
        if !self.editable {
            return false;
        }
        let previous_dirty = self.dirty;
        let content_changed = self.content != *content;
        std::mem::swap(&mut self.content, content);
        let next_dirty = match &self.loaded_content {
            LoadedContent::Current => {
                if content_changed {
                    let mut taken = String::new();
                    std::mem::swap(&mut taken, content);
                    self.loaded_content = LoadedContent::Saved(taken);
                    true
                } else {
                    false
                }
            },
            LoadedContent::Saved(loaded) => self.content != *loaded,
        };
        if !next_dirty {
            self.loaded_content = LoadedContent::Current;
        }
        self.dirty = next_dirty;
        if content_changed {
            self.bump_content_revision();
        }
        content_changed || previous_dirty != self.dirty
    }

    /// Replaces the byte range `range` of the content by `replacement`, as an edit;
    /// answers whether anything changed.
    fn replace_content_range(&mut self, range: Range<usize>, replacement: &str) -> (r: bool)
        ensures
            range_replaced(old(self)@, range.start, range.end, replacement@, final(self)@, r),
    {
        let start = range.start;
        let end = range.end;
        let unchanged = {
            let b = str_bytes(self.content.as_str());
            if !self.editable || start > end || end > b.len() || !self.content.as_str().is_char_boundary(
                start,
            ) || !self.content.as_str().is_char_boundary(end) {
                return false;
            }
            let rb = str_bytes(replacement);
            rb.len() == end - start && crate::domain::text_edit::bytes_occur_at(b, rb, start)
        };
        if unchanged {
            return false;
        }
        if self.loaded_content_is_current() {
            self.loaded_content = LoadedContent::Saved(self.content.clone());
        }
        replace_byte_range(&mut self.content, start, end, replacement);
        let next_dirty = match &self.loaded_content {
            LoadedContent::Current => false,
            LoadedContent::Saved(loaded) => self.content != *loaded,
        };
        if !next_dirty {
            self.loaded_content = LoadedContent::Current;
        }
        self.dirty = next_dirty;
        self.bump_content_revision();
        true
    }

    /// Takes `content` from an import into an editable tab, which then counts as
    /// changed even when the content is the same; resets the view.
    pub fn import_content(&mut self, content: String) -> (r: bool)
        ensures
            clean_without_baseline(old(self)@) ==> clean_without_baseline(final(self)@),
            imported(old(self)@, content@, final(self)@, r),
    {
        if !self.editable {
            return false;
        }
        let content_changed = self.content != content;
        let changed = content_changed || !self.dirty;
        match &self.loaded_content {
            LoadedContent::Current => {
                if content_changed {
                    let mut loaded = content;
                    std::mem::swap(&mut self.content, &mut loaded);
                    self.loaded_content = LoadedContent::Saved(loaded);
                } else {
                    self.loaded_content = LoadedContent::Saved(content);
                }
            },
            LoadedContent::Saved(_) => {
                self.content = content;
            },
        }
        if content_changed {
            self.bump_content_revision();
        }
        self.dirty = true;
        self.view_state = DocumentTabViewState::default();
        changed
    }

    /// Marks an editable clean tab dirty when its editor reports a change before the
    /// content is taken over.
    pub fn mark_dirty_from_view(&mut self) -> (r: bool)
        ensures
            clean_without_baseline(old(self)@) ==> clean_without_baseline(final(self)@),
            marked_dirty(old(self)@, final(self)@, r),
    {
        if !self.editable || self.dirty {
            return false;
        }
        self.dirty = true;
        true
    }

    /// Records that `content` was saved at `updated_at`.
    pub fn mark_saved(&mut self, content: String, updated_at: String)
        ensures
            clean_without_baseline(old(self)@) ==> clean_without_baseline(final(self)@),
            final(self)@ == saved_tab(old(self)@, content@, updated_at@),
    {
        let content_changed = self.content != content;
        self.content = content;
        self.loaded_content = LoadedContent::Current;
        self.loaded_updated_at = updated_at;
        self.dirty = false;
        self.editable = true;
        self.source = DocumentTabSource::ActiveTree;
        if content_changed {
            self.bump_content_revision();
        }
    }

    /// Records that the current content was saved at `updated_at`.
    pub fn mark_current_content_saved(&mut self, updated_at: String)
        ensures
            clean_without_baseline(old(self)@) ==> clean_without_baseline(final(self)@),
            final(self)@ == saved_tab(old(self)@, old(self)@.content, updated_at@),
    {
        self.loaded_content = LoadedContent::Current;
        self.loaded_updated_at = updated_at;
        self.dirty = false;
        self.editable = true;
        self.source = DocumentTabSource::ActiveTree;
    }

    /// Replaces the tab by a fresh load of `input`.
    pub fn reload_from(&mut self, input: OpenDocumentTabInput)
        ensures
            clean_without_baseline(old(self)@) ==> clean_without_baseline(final(self)@),
            final(self)@ == reloaded_tab(old(self)@, input),
    {
        let content_changed = self.content != input.content;
        self.node_id = input.node_id;
        self.parent_id = input.parent_id;
        self.title = input.title;
        self.content = input.content;
        self.loaded_content = LoadedContent::Current;
        self.loaded_updated_at = input.loaded_updated_at;
        self.dirty = false;
        self.editable = input.editable;
        self.source = input.source;
        self.view_state = DocumentTabViewState::default();
        if content_changed {
            self.bump_content_revision();
        }
    }

    /// Brings the tab up to date with the document read again as `input`.
    pub fn sync_from(&mut self, input: OpenDocumentTabInput, update_dirty_token: bool)
        ensures
            clean_without_baseline(old(self)@) ==> clean_without_baseline(final(self)@),
            final(self)@ == synced_tab(old(self)@, input, update_dirty_token),
    {
        let ghost input_view = input;
        self.parent_id = input.parent_id;
        self.title = input.title;
        self.editable = input.editable;
        self.source = input.source;
        if !self.dirty {
            let content_changed = self.content != input.content;
            self.content = input.content;
            self.loaded_content = LoadedContent::Current;
            self.loaded_updated_at = input.loaded_updated_at;
            if content_changed {
                self.bump_content_revision();
            }
        } else if update_dirty_token && crate::text::str_eq(
            self.loaded_content(),
            input.content.as_str(),
        ) {
            self.loaded_updated_at = input.loaded_updated_at;
        }
    }

    /// Brings the tab's metadata up to date without touching its content.
    fn sync_metadata_preserving_content(
        &mut self,
        parent_id: Option<i64>,
        title: String,
        loaded_updated_at: String,
        editable: bool,
        source: DocumentTabSource,
        current_content_for_dirty_token: Option<&str>,
    )
        ensures
            final(self)@ == metadata_synced_tab(
                old(self)@,
                parent_id,
                title@,
                loaded_updated_at@,
                editable,
                source,
                match current_content_for_dirty_token {
                    Some(c) => Some(c@),
                    None => None,
                },
            ),
    {
        self.parent_id = parent_id;
        self.title = title;
        self.editable = editable;
        self.source = source;
        if !self.dirty {
            self.loaded_content = LoadedContent::Current;
            self.loaded_updated_at = loaded_updated_at;
        } else if let Some(current_content) = current_content_for_dirty_token {
            if crate::text::str_eq(self.loaded_content(), current_content) {
                self.loaded_updated_at = loaded_updated_at;
            }
        }
    }

    /// Makes an editable tab read-only; answers whether it was editable.
    fn mark_read_only(&mut self) -> (r: bool)
        ensures
            r == old(self)@.editable,
            final(self)@ == (TabView { editable: false, ..old(self)@ }),
    {
        if !self.editable {
            return false;
        }
        self.editable = false;
        true
    }

    /// Throws the changes away: the loaded content comes back and the view is reset.
    pub fn discard_changes(&mut self)
        ensures
            clean_without_baseline(old(self)@) ==> clean_without_baseline(final(self)@),
            final(self)@ == discarded_tab(old(self)@),
    {
        let mut loaded = LoadedContent::Current;
        std::mem::swap(&mut self.loaded_content, &mut loaded);
        if let LoadedContent::Saved(loaded_content) = loaded {
            let content_changed = self.content != loaded_content;
            self.content = loaded_content;
            if content_changed {
                self.bump_content_revision();
            }
        }
        self.dirty = false;
        self.view_state = DocumentTabViewState::default();
    }

    /// Records where the tab's editor is scrolled to and where its caret is.
    pub fn set_view_state(&mut self, view_state: DocumentTabViewState)
        ensures
            clean_without_baseline(old(self)@) ==> clean_without_baseline(final(self)@),
            final(self)@ == (TabView { view_state, ..old(self)@ }),
    {
        self.view_state = view_state;
    }
}

#[derive(Debug, Clone, Copy, PartialEq, Eq, Structural)]
pub enum OpenTabResult {
    Opened { index: usize },
    ActivatedExisting { index: usize },
}

/// The open tabs in their order, and which of them is active.
#[derive(Debug, Clone)]
pub struct OpenTabs {
    tabs: Vec<OpenDocumentTab>,
    active_index: Option<usize>,
}

/// What the open tabs hold, as plain values.
#[verifier::ext_equal]
pub struct OpenTabsView {
    pub tabs: Seq<TabView>,
    pub active: Option<usize>,
}

impl OpenTabsView {
    /// The open tabs are well formed: a tab is active exactly when some tab is open, the
    /// active index designates an open tab, and no clean tab keeps a saved copy.
    pub open spec fn wf(self) -> bool {
        &&& (self.active is None <==> self.tabs.len() == 0)
        &&& (self.active matches Some(i) ==> i < self.tabs.len())
        &&& forall|i: int| 0 <= i < self.tabs.len() ==> clean_without_baseline(#[trigger] self.tabs[i])
    }

    /// The tab at `i` became `t` and nothing else changed.
    pub open spec fn with_tab(self, i: int, t: TabView) -> OpenTabsView {
        OpenTabsView { tabs: self.tabs.update(i, t), active: self.active }
    }
}

/// The index of the first tab of the document `node_id`.
#[verifier::opaque]
pub open spec fn first_tab_of(tabs: Seq<TabView>, node_id: i64) -> Option<int> {
    if exists|i: int| 0 <= i < tabs.len() && tabs[i].node_id == node_id {
        Some(
            choose|i: int|
                0 <= i < tabs.len() && tabs[i].node_id == node_id && forall|j: int|
                    0 <= j < i ==> tabs[j].node_id != node_id,
        )
    } else {
        None
    }
}

proof fn lemma_first_tab_of(tabs: Seq<TabView>, node_id: i64, i: int)
    requires
        0 <= i < tabs.len(),
        tabs[i].node_id == node_id,
        forall|j: int| 0 <= j < i ==> tabs[j].node_id != node_id,
    ensures
        first_tab_of(tabs, node_id) == Some(i),
{
    reveal(first_tab_of);
    let c = choose|c: int|
        0 <= c < tabs.len() && tabs[c].node_id == node_id && forall|j: int|
            0 <= j < c ==> tabs[j].node_id != node_id;
    if c < i {
    } else if c > i {
    }
}


/// `b` is `a` after the step `step` changed its active tab, when it has one; nothing
/// changed when it has none.
pub open spec fn active_tab_updated(
    a: OpenTabsView,
    b: OpenTabsView,
    step: spec_fn(TabView, TabView) -> bool,
) -> bool {
    match a.active {
        Some(i) => {
            &&& b.active == a.active
            &&& b.tabs.len() == a.tabs.len()
            &&& forall|j: int| 0 <= j < a.tabs.len() && j != i ==> b.tabs[j] == a.tabs[j]
            &&& step(a.tabs[i as int], b.tabs[i as int])
        },
        None => b == a,
    }
}

/// The index of the first tab that is not the one at `active` and shows the document
/// `node_id`.
#[verifier::opaque]
pub open spec fn first_other_tab_of(tabs: Seq<TabView>, node_id: i64, active: int) -> Option<int> {
    if exists|i: int| 0 <= i < tabs.len() && i != active && tabs[i].node_id == node_id {
        Some(
            choose|i: int|
                0 <= i < tabs.len() && i != active && tabs[i].node_id == node_id && forall|j: int|
                    0 <= j < i ==> !(j != active && tabs[j].node_id == node_id),
        )
    } else {
        None
    }
}

/// Where the tab at `active` stands after the tab at `from` moved to `to`.
pub open spec fn moved_index(active: usize, from: usize, to: usize) -> usize {
    if active == from {
        to
    } else if from < active && active <= to {
        (active - 1) as usize
    } else if to <= active && active < from {
        (active + 1) as usize
    } else {
        active
    }
}

/// Which tab is active after the tab at `index` was closed, leaving `remaining` tabs:
/// the one after it when the active one was closed, or the one before when there is
/// none after.
pub open spec fn active_after_close(active: Option<usize>, index: usize, remaining: nat) -> Option<
    usize,
> {
    if remaining == 0 {
        None
    } else {
        match active {
            Some(a) => if a == index {
                Some(
                    if index < remaining {
                        index
                    } else {
                        (remaining - 1) as usize
                    },
                )
            } else if a > index {
                Some((a - 1) as usize)
            } else {
                Some(a)
            },
            None => None,
        }
    }
}

proof fn lemma_first_dirty(tabs: Seq<TabView>, i: int)
    requires
        0 <= i < tabs.len(),
        tabs[i].dirty,
        forall|j: int| 0 <= j < i ==> !tabs[j].dirty,
    ensures
        first_dirty(tabs) == Some(i),
{
    reveal(first_dirty);
    let c = choose|c: int|
        0 <= c < tabs.len() && tabs[c].dirty && forall|j: int| 0 <= j < c ==> !tabs[j].dirty;
    if c < i {
    } else if c > i {
    }
}

proof fn lemma_first_other_tab_of(tabs: Seq<TabView>, node_id: i64, active: int, i: int)
    requires
        0 <= i < tabs.len(),
        i != active,
        tabs[i].node_id == node_id,
        forall|j: int| 0 <= j < i ==> !(j != active && tabs[j].node_id == node_id),
    ensures
        first_other_tab_of(tabs, node_id, active) == Some(i),
{
    reveal(first_other_tab_of);
    let c = choose|c: int|
        0 <= c < tabs.len() && c != active && tabs[c].node_id == node_id && forall|j: int|
            0 <= j < c ==> !(j != active && tabs[j].node_id == node_id);
    if c < i {
    } else if c > i {
    }
}


/// `v` after its active tab, at `a`, was replaced by a fresh load of `input`, once any
/// other tab of the same document was closed; the new tab's revision follows the
/// replaced one's.
pub open spec fn replaced_active(v: OpenTabsView, input: OpenDocumentTabInput, a: usize) -> OpenTabsView {
    let tab = loaded_tab(input, next_revision(v.tabs[a as int].revision));
    match first_other_tab_of(v.tabs, input.node_id, a as int) {
        Some(d) => {
            let na = if d < a {
                a - 1
            } else {
                a as int
            };
            OpenTabsView { tabs: v.tabs.remove(d).update(na, tab), active: Some(na as usize) }
        },
        None => OpenTabsView { tabs: v.tabs.update(a as int, tab), active: Some(a) },
    }
}

/// No two tabs show the same document.
pub open spec fn node_ids_distinct(tabs: Seq<TabView>) -> bool {
    forall|i: int, j: int| 0 <= i < j < tabs.len() ==> tabs[i].node_id != tabs[j].node_id
}

/// Closing the tab at `d`, which shows the document of `tab`, and putting `tab` in place of
/// the tab that was at `a` keeps the documents distinct, and shows `tab`'s document only
/// there.
proof fn lemma_remove_then_update_distinct(tabs: Seq<TabView>, d: int, a: int, tab: TabView)
    requires
        node_ids_distinct(tabs),
        0 <= d < tabs.len(),
        0 <= a < tabs.len(),
        d != a,
        tabs[d].node_id == tab.node_id,
    ensures
        ({
            let na = if d < a {
                a - 1
            } else {
                a
            };
            let w = tabs.remove(d).update(na, tab);
            &&& node_ids_distinct(w)
            &&& forall|i: int| 0 <= i < w.len() && i != na ==> w[i].node_id != tab.node_id
        }),
{
    let na = if d < a {
        a - 1
    } else {
        a
    };
    let w = tabs.remove(d).update(na, tab);
    assert forall|i: int| 0 <= i < w.len() && i != na implies #[trigger] w[i].node_id != tab.node_id by {
        let oi = if i < d {
            i
        } else {
            i + 1
        };
        assert(w[i] == tabs[oi]);
        assert(oi != d);
    }
    assert forall|i: int, j: int| 0 <= i < j < w.len() implies w[i].node_id != w[j].node_id by {
        if i != na && j != na {
            let oi = if i < d {
                i
            } else {
                i + 1
            };
            let oj = if j < d {
                j
            } else {
                j + 1
            };
            assert(w[i] == tabs[oi]);
            assert(w[j] == tabs[oj]);
        }
    }
}

/// What the first other tab of a document is: a tab other than `active` that shows it, or
/// none when no such tab is open.
proof fn lemma_first_other_tab_of_facts(tabs: Seq<TabView>, node_id: i64, active: int)
    ensures
        match first_other_tab_of(tabs, node_id, active) {
            Some(d) => 0 <= d < tabs.len() && d != active && tabs[d].node_id == node_id,
            None => forall|i: int| 0 <= i < tabs.len() && i != active ==> tabs[i].node_id != node_id,
        },
{
    reveal(first_other_tab_of);
    if exists|i: int| 0 <= i < tabs.len() && i != active && tabs[i].node_id == node_id {
        let i = choose|i: int| 0 <= i < tabs.len() && i != active && tabs[i].node_id == node_id;
        lemma_first_other_exists(tabs, node_id, active, i);
    }
}

/// A tab other than `active` that shows `node_id` at `i` means there is a first such tab.
proof fn lemma_first_other_exists(tabs: Seq<TabView>, node_id: i64, active: int, i: int)
    requires
        0 <= i < tabs.len() && i != active && tabs[i].node_id == node_id,
    ensures
        exists|c: int|
            0 <= c < tabs.len() && c != active && tabs[c].node_id == node_id && forall|j: int|
                0 <= j < c ==> !(j != active && tabs[j].node_id == node_id),
    decreases i,
{
    if exists|j: int| 0 <= j < i && j != active && tabs[j].node_id == node_id {
        let j = choose|j: int| 0 <= j < i && j != active && tabs[j].node_id == node_id;
        lemma_first_other_exists(tabs, node_id, active, j);
    } else {
        assert(forall|j: int| 0 <= j < i ==> !(j != active && tabs[j].node_id == node_id));
    }
}

/// Putting `tab` in place of the tab at `a` keeps the documents distinct when no other
/// tab shows `tab`'s document.
proof fn lemma_update_distinct(tabs: Seq<TabView>, a: int, tab: TabView)
    requires
        node_ids_distinct(tabs),
        0 <= a < tabs.len(),
        forall|i: int| 0 <= i < tabs.len() && i != a ==> tabs[i].node_id != tab.node_id,
    ensures
        node_ids_distinct(tabs.update(a, tab)),
{
    let w = tabs.update(a, tab);
    assert forall|i: int, j: int| 0 <= i < j < w.len() implies w[i].node_id != w[j].node_id by {
        if i != a {
            assert(w[i] == tabs[i]);
        }
        if j != a {
            assert(w[j] == tabs[j]);
        }
    }
}

/// Replacing the active tab by a fresh load of a document leaves that load active, and
/// the document open in no other tab when no document was open twice before: the tabs
/// still show each document at most once.
pub proof fn lemma_replace_active_keeps_documents_distinct(
    v: OpenTabsView,
    input: OpenDocumentTabInput,
    a: usize,
)
    requires
        a < v.tabs.len() <= usize::MAX,
    ensures
        ({
            let w = replaced_active(v, input, a);
            &&& w.active matches Some(na) && na < w.tabs.len() && w.tabs[na as int].node_id
                == input.node_id && w.tabs[na as int].content == input.content@
                && !w.tabs[na as int].dirty
            &&& node_ids_distinct(v.tabs) ==> node_ids_distinct(w.tabs)
            &&& node_ids_distinct(v.tabs) ==> forall|i: int|
                0 <= i < w.tabs.len() && Some(i as usize) != w.active ==> w.tabs[i].node_id
                    != input.node_id
        }),
{
    let tab = loaded_tab(input, next_revision(v.tabs[a as int].revision));
    lemma_first_other_tab_of_facts(v.tabs, input.node_id, a as int);
    match first_other_tab_of(v.tabs, input.node_id, a as int) {
        Some(d) => {
            if node_ids_distinct(v.tabs) {
                lemma_remove_then_update_distinct(v.tabs, d, a as int, tab);
            }
        },
        None => {
            if node_ids_distinct(v.tabs) {
                lemma_update_distinct(v.tabs, a as int, tab);
            }
        },
    }
}

/// The index of the first dirty tab.
#[verifier::opaque]
pub open spec fn first_dirty(tabs: Seq<TabView>) -> Option<int> {
    if exists|i: int| 0 <= i < tabs.len() && tabs[i].dirty {
        Some(
            choose|i: int|
                0 <= i < tabs.len() && tabs[i].dirty && forall|j: int| 0 <= j < i ==> !tabs[j].dirty,
        )
    } else {
        None
    }
}

/// The indices, in order, of the dirty tabs among the first `n` whose documents are in
/// `ids`.
pub open spec fn dirty_indices(tabs: Seq<TabView>, ids: Set<i64>, n: int) -> Seq<usize>
    decreases n,
{
    if n <= 0 {
        Seq::empty()
    } else {
        let before = dirty_indices(tabs, ids, n - 1);
        if tabs[n - 1].dirty && ids.contains(tabs[n - 1].node_id) {
            before.push((n - 1) as usize)
        } else {
            before
        }
    }
}

/// The indices of the dirty tabs of some documents are exactly the indices of the tabs
/// that are dirty and show one of those documents, in increasing order.
pub open spec fn lists_dirty_tabs_of(r: Seq<usize>, tabs: Seq<TabView>, ids: Set<i64>) -> bool {
    &&& forall|k: int|
        0 <= k < r.len() ==> #[trigger] r[k] < tabs.len() && tabs[r[k] as int].dirty && ids.contains(
            tabs[r[k] as int].node_id,
        )
    &&& forall|i: int|
        0 <= i < tabs.len() && tabs[i].dirty && ids.contains(tabs[i].node_id) ==> r.contains(
            i as usize,
        )
    &&& forall|k: int, l: int| 0 <= k < l < r.len() ==> r[k] < r[l]
}

/// The dirty tabs listed for some documents, among the first `n`, are those tabs that are
/// dirty and show one of the documents, each once and in order; no clean tab and no tab
/// of another document is listed.
pub proof fn lemma_dirty_indices_lists_dirty_tabs(tabs: Seq<TabView>, ids: Set<i64>, n: int)
    requires
        0 <= n <= tabs.len(),
        tabs.len() <= usize::MAX,
    ensures
        forall|k: int|
            0 <= k < dirty_indices(tabs, ids, n).len() ==> #[trigger] dirty_indices(tabs, ids, n)[k]
                < n && tabs[dirty_indices(tabs, ids, n)[k] as int].dirty && ids.contains(
                tabs[dirty_indices(tabs, ids, n)[k] as int].node_id,
            ),
        forall|i: int|
            0 <= i < n && tabs[i].dirty && ids.contains(tabs[i].node_id) ==> dirty_indices(
                tabs,
                ids,
                n,
            ).contains(i as usize),
        forall|k: int, l: int|
            0 <= k < l < dirty_indices(tabs, ids, n).len() ==> dirty_indices(tabs, ids, n)[k]
                < dirty_indices(tabs, ids, n)[l],
    decreases n,
{
    let r = dirty_indices(tabs, ids, n);
    if n > 0 {
        lemma_dirty_indices_lists_dirty_tabs(tabs, ids, n - 1);
        let prev = dirty_indices(tabs, ids, n - 1);
        if tabs[n - 1].dirty && ids.contains(tabs[n - 1].node_id) {
            assert(r == prev.push((n - 1) as usize));
            assert forall|k: int| 0 <= k < r.len() implies #[trigger] r[k] < n && tabs[r[k] as int].dirty
                && ids.contains(tabs[r[k] as int].node_id) by {
                if k < prev.len() {
                    assert(r[k] == prev[k]);
                } else {
                    assert(r[k] == (n - 1) as usize);
                }
            }
            assert forall|i: int|
                0 <= i < n && tabs[i].dirty && ids.contains(tabs[i].node_id) implies r.contains(
                i as usize,
            ) by {
                if i < n - 1 {
                    assert(prev.contains(i as usize));
                    let k = choose|k: int| 0 <= k < prev.len() && prev[k] == i as usize;
                    assert(r[k] == prev[k]);
                } else {
                    assert(r[prev.len() as int] == (n - 1) as usize);
                }
            }
            assert forall|k: int, l: int| 0 <= k < l < r.len() implies r[k] < r[l] by {
                if l < prev.len() {
                    assert(r[k] == prev[k] && r[l] == prev[l]);
                } else {
                    assert(r[k] == prev[k]);
                }
            }
        } else {
            assert(r == prev);
            assert forall|i: int|
                0 <= i < n && tabs[i].dirty && ids.contains(tabs[i].node_id) implies r.contains(
                i as usize,
            ) by {
                assert(i < n - 1);
                assert(prev.contains(i as usize));
            }
        }
    }
}

/// The first `n` tabs whose documents are not in `ids`, in order.
pub open spec fn tabs_kept(tabs: Seq<TabView>, ids: Set<i64>, n: int) -> Seq<TabView>
    decreases n,
{
    if n <= 0 {
        Seq::empty()
    } else {
        let before = tabs_kept(tabs, ids, n - 1);
        if ids.contains(tabs[n - 1].node_id) {
            before
        } else {
            before.push(tabs[n - 1])
        }
    }
}

/// The first `n` tabs whose documents are in `ids`, in order.
pub open spec fn tabs_closed(tabs: Seq<TabView>, ids: Set<i64>, n: int) -> Seq<TabView>
    decreases n,
{
    if n <= 0 {
        Seq::empty()
    } else {
        let before = tabs_closed(tabs, ids, n - 1);
        if ids.contains(tabs[n - 1].node_id) {
            before.push(tabs[n - 1])
        } else {
            before
        }
    }
}

/// Closing the tabs of some documents keeps exactly the tabs of the other documents and
/// closes exactly the tabs of those documents, each in the order they had.
pub proof fn lemma_closing_tabs_splits_by_document(tabs: Seq<TabView>, ids: Set<i64>, n: int)
    requires
        0 <= n <= tabs.len(),
    ensures
        tabs_kept(tabs, ids, n) == tabs.take(n).filter(|t: TabView| !ids.contains(t.node_id)),
        tabs_closed(tabs, ids, n) == tabs.take(n).filter(|t: TabView| ids.contains(t.node_id)),
    decreases n,
{
    reveal(Seq::filter);
    if n > 0 {
        lemma_closing_tabs_splits_by_document(tabs, ids, n - 1);
        assert(tabs.take(n).drop_last() =~= tabs.take(n - 1));
        assert(tabs.take(n).last() == tabs[n - 1]);
    } else {
        assert(tabs.take(n) =~= Seq::<TabView>::empty());
    }
}

/// Which tab is active after the tabs of the documents in `ids` were closed: the same
/// one when it stays, else the first one after it that stays, else the last one.
pub open spec fn active_after_closing(tabs: Seq<TabView>, ids: Set<i64>, active: Option<usize>) -> Option<
    usize,
> {
    let remaining = tabs_kept(tabs, ids, tabs.len() as int).len();
    if remaining == 0 {
        None
    } else {
        match active {
            Some(a) => {
                let before = tabs_kept(tabs, ids, a as int).len();
                Some(
                    if before < remaining {
                        before as usize
                    } else {
                        (remaining - 1) as usize
                    },
                )
            },
            None => None,
        }
    }
}

/// `tabs` after every editable tab whose document is not in `ids` became read-only.
pub open spec fn read_only_if_missing(t: TabView, ids: Seq<i64>) -> TabView {
    if t.editable && !ids.contains(t.node_id) {
        TabView { editable: false, ..t }
    } else {
        t
    }
}


/// The active index while the tabs of the documents in `ids` are being closed, once
/// the first `k` of the tabs `tabs` as they were were looked at and `len` tabs are open.
pub open spec fn active_while_closing(
    tabs: Seq<TabView>,
    ids: Set<i64>,
    active: Option<usize>,
    k: int,
    len: int,
) -> Option<usize> {
    match active {
        Some(a) => if a >= k {
            Some((tabs_kept(tabs, ids, k).len() + a - k) as usize)
        } else if len == 0 {
            None
        } else {
            let before = tabs_kept(tabs, ids, a as int).len();
            Some(
                if before < len {
                    before as usize
                } else {
                    (len - 1) as usize
                },
            )
        },
        None => None,
    }
}

proof fn lemma_tabs_kept_len(tabs: Seq<TabView>, ids: Set<i64>, a: int, b: int)
    requires
        0 <= a <= b,
    ensures
        tabs_kept(tabs, ids, a).len() <= tabs_kept(tabs, ids, b).len(),
        tabs_kept(tabs, ids, b).len() <= tabs_kept(tabs, ids, a).len() + (b - a),
    decreases b - a,
{
    if a < b {
        lemma_tabs_kept_len(tabs, ids, a, b - 1);
    }
}

/// Changing one tab into a clean-consistent tab keeps the tabs well formed.
proof fn lemma_one_tab_changed_keeps_wf(before: OpenTabsView, after: OpenTabsView, index: int)
    requires
        before.wf(),
        0 <= index < before.tabs.len(),
        after.active == before.active,
        after.tabs.len() == before.tabs.len(),
        forall|j: int| 0 <= j < before.tabs.len() && j != index ==> after.tabs[j] == before.tabs[j],
        clean_without_baseline(after.tabs[index]),
    ensures
        after.wf(),
{
    assert forall|i: int| 0 <= i < after.tabs.len() implies clean_without_baseline(#[trigger] after.tabs[i]) by {
        if i != index {
            assert(after.tabs[i] == before.tabs[i]);
        }
    }
}

impl View for OpenTabs {
    type V = OpenTabsView;

    closed spec fn view(&self) -> OpenTabsView {
        OpenTabsView { tabs: self.tabs@.map_values(|t: OpenDocumentTab| t@), active: self.active_index }
    }
}

impl OpenTabs {
    /// No tab open.
    pub fn new() -> (r: Self)
        ensures
            r@.tabs == Seq::<TabView>::empty(),
            r@.active is None,
            r@.wf(),
    {
        OpenTabs { tabs: Vec::new(), active_index: None }
    }

    /// The open tabs in their order.
    pub fn tabs(&self) -> (r: &[OpenDocumentTab])
        ensures
            r@.map_values(|t: OpenDocumentTab| t@) == self@.tabs,
    {
        self.tabs.as_slice()
    }

    /// The index of the active tab.
    pub fn active_index(&self) -> (r: Option<usize>)
        ensures
            r == self@.active,
    {
        self.active_index
    }

    /// The active tab.
    pub fn active(&self) -> (r: Option<&OpenDocumentTab>)
        requires
            self@.wf(),
        ensures
            match self@.active {
                Some(i) => r matches Some(t) && t@ == self@.tabs[i as int],
                None => r is None,
            },
    {
        match self.active_index {
            Some(index) => Some(&self.tabs[index]),
            None => None,
        }
    }

    /// The active tab, to change it in place.
    pub fn active_mut(&mut self) -> (r: Option<&mut OpenDocumentTab>)
        requires
            old(self)@.wf(),
        ensures
            match old(self)@.active {
                Some(i) => r matches Some(t) && t@ == old(self)@.tabs[i as int]
                    && final(self)@ == old(self)@.with_tab(i as int, final(t)@),
                None => r is None && final(self)@ == old(self)@,
            },
    {
        match self.active_index {
            Some(index) => Some(&mut self.tabs[index]),
            None => None,
        }
    }

    /// Whether a tab is active.
    pub fn has_active(&self) -> (r: bool)
        ensures
            r == self@.active is Some,
    {
        self.active_index.is_some()
    }

    /// The index of the first tab of the document `node_id`.
    fn position_of_node(&self, node_id: i64) -> (r: Option<usize>)
        ensures
            match r {
                Some(i) => i < self@.tabs.len() && self@.tabs[i as int].node_id == node_id
                    && first_tab_of(self@.tabs, node_id) == Some(i as int),
                None => first_tab_of(self@.tabs, node_id) is None,
            },
    {
        let mut i: usize = 0;
        while i < self.tabs.len()
            invariant
                i <= self.tabs@.len(),
                forall|j: int| 0 <= j < i ==> self@.tabs[j].node_id != node_id,
            decreases self.tabs@.len() - i,
        {
            if self.tabs[i].node_id == node_id {
                proof {
                    lemma_first_tab_of(self@.tabs, node_id, i as int);
                }
                return Some(i);
            }
            i = i + 1;
        }
        proof {
            reveal(first_tab_of);
        }
        None
    }

    /// The index of the first tab other than the one at `except` of the document
    /// `node_id`.
    fn position_of_other_node(&self, node_id: i64, except: usize) -> (r: Option<usize>)
        ensures
            match r {
                Some(i) => i < self@.tabs.len() && i != except && self@.tabs[i as int].node_id
                    == node_id && first_other_tab_of(self@.tabs, node_id, except as int) == Some(
                    i as int,
                ),
                None => first_other_tab_of(self@.tabs, node_id, except as int) is None,
            },
    {
        let mut i: usize = 0;
        while i < self.tabs.len()
            invariant
                i <= self.tabs@.len(),
                forall|j: int| 0 <= j < i ==> !(j != except && self@.tabs[j].node_id == node_id),
            decreases self.tabs@.len() - i,
        {
            if i != except && self.tabs[i].node_id == node_id {
                proof {
                    lemma_first_other_tab_of(self@.tabs, node_id, except as int, i as int);
                }
                return Some(i);
            }
            i = i + 1;
        }
        proof {
            reveal(first_other_tab_of);
        }
        None
    }

    /// Activates the tab of the document of `input`, bringing it up to date, or opens a
    /// new tab for it at the end.
    pub fn open_or_activate(&mut self, input: OpenDocumentTabInput) -> (r: OpenTabResult)
        requires
            old(self)@.wf(),
        ensures
            final(self)@.wf(),
            match first_tab_of(old(self)@.tabs, input.node_id) {
                Some(i) => {
                    &&& r == OpenTabResult::ActivatedExisting { index: i as usize }
                    &&& final(self)@.tabs == old(self)@.tabs.update(
                        i,
                        synced_tab(old(self)@.tabs[i], input, false),
                    )
                    &&& final(self)@.active == Some(i as usize)
                },
                None => {
                    &&& r == OpenTabResult::Opened { index: old(self)@.tabs.len() as usize }
                    &&& final(self)@.tabs == old(self)@.tabs.push(loaded_tab(input, 0))
                    &&& final(self)@.active == Some(old(self)@.tabs.len() as usize)
                },
            },
    {
        let ghost before = self@;
        if let Some(index) = self.position_of_node(input.node_id) {
            self.tabs[index].sync_from(input, false);
            self.active_index = Some(index);
            assert(self@.tabs == before.tabs.update(
                index as int,
                synced_tab(before.tabs[index as int], input, false),
            ));
            return OpenTabResult::ActivatedExisting { index };
        }
        let index = self.tabs.len();
        self.tabs.push(OpenDocumentTab::from_input(input));
        self.active_index = Some(index);
        assert(self@.tabs == before.tabs.push(loaded_tab(input, 0)));
        OpenTabResult::Opened { index }
    }
    /// Activates the tab at `index`; answers whether there is one.
    pub fn set_active(&mut self, index: usize) -> (r: bool)
        requires
            old(self)@.wf(),
        ensures
            r == (index < old(self)@.tabs.len()),
            final(self)@ == if r {
                OpenTabsView { active: Some(index), ..old(self)@ }
            } else {
                old(self)@
            },
            final(self)@.wf(),
    {
        if index >= self.tabs.len() {
            return false;
        }
        self.active_index = Some(index);
        true
    }

    /// Activates the first tab of the document `node_id`; answers whether there is one.
    pub fn set_active_by_node_id(&mut self, node_id: i64) -> (r: bool)
        requires
            old(self)@.wf(),
        ensures
            r == first_tab_of(old(self)@.tabs, node_id) is Some,
            final(self)@ == match first_tab_of(old(self)@.tabs, node_id) {
                Some(i) => OpenTabsView { active: Some(i as usize), ..old(self)@ },
                None => old(self)@,
            },
            final(self)@.wf(),
    {
        match self.position_of_node(node_id) {
            Some(index) => self.set_active(index),
            None => false,
        }
    }

    /// Moves the tab at `from_index` to `to_index`, keeping the same document active;
    /// answers whether both are tab indices and differ.
    pub fn move_tab(&mut self, from_index: usize, to_index: usize) -> (r: bool)
        requires
            old(self)@.wf(),
        ensures
            r == (from_index < old(self)@.tabs.len() && to_index < old(self)@.tabs.len()
                && from_index != to_index),
            !r ==> final(self)@ == old(self)@,
            r ==> final(self)@.tabs == old(self)@.tabs.remove(from_index as int).insert(
                to_index as int,
                old(self)@.tabs[from_index as int],
            ),
            r ==> final(self)@.active == match old(self)@.active {
                Some(a) => Some(moved_index(a, from_index, to_index)),
                None => None,
            },
            final(self)@.wf(),
            old(self)@.active matches Some(a) ==> final(self)@.active matches Some(b)
                && final(self)@.tabs[b as int] == old(self)@.tabs[a as int],
    {
        if from_index >= self.tabs.len() || to_index >= self.tabs.len() || from_index == to_index {
            return false;
        }
        let ghost before = self@;
        let moved = self.tabs.remove(from_index);
        self.tabs.insert(to_index, moved);
        assert(self@.tabs == before.tabs.remove(from_index as int).insert(
            to_index as int,
            before.tabs[from_index as int],
        ));
        self.active_index = match self.active_index {
            Some(active) => Some(
                if active == from_index {
                    to_index
                } else if from_index < active && active <= to_index {
                    active - 1
                } else if to_index <= active && active < from_index {
                    active + 1
                } else {
                    active
                },
            ),
            None => None,
        };
        true
    }

    /// Sets the content of the active tab from an edit; answers whether its content or
    /// dirty state changed.
    pub fn update_active_content(&mut self, content: String) -> (r: bool)
        requires
            old(self)@.wf(),
        ensures
            active_tab_updated(
                old(self)@,
                final(self)@,
                |x: TabView, y: TabView| set_content_spec(x, content@, y, r),
            ),
            old(self)@.active is None ==> !r,
            final(self)@.wf(),
    {
        match self.active_index {
            Some(index) => {
                let ghost before = self@;
                let r = self.tabs[index].set_content(content);
                proof {
                    assert(self@.tabs[index as int] == self.tabs@[index as int]@);
                    assert(clean_without_baseline(before.tabs[index as int]));
                    lemma_one_tab_changed_keeps_wf(before, self@, index as int);
                }
                r
            },
            None => false,
        }
    }

    /// Sets the content of the active tab from an edit, handing back in `content` the
    /// buffer that the tab no longer needs.
    pub fn update_active_content_reusing(&mut self, content: &mut String) -> (r: bool)
        requires
            old(self)@.wf(),
        ensures
            active_tab_updated(
                old(self)@,
                final(self)@,
                |x: TabView, y: TabView| set_content_spec(x, old(content)@, y, r),
            ),
            final(content)@ == match old(self)@.active {
                Some(i) => reused_buffer(old(self)@.tabs[i as int], old(content)@),
                None => old(content)@,
            },
            old(self)@.active is None ==> !r,
            final(self)@.wf(),
    {
        match self.active_index {
            Some(index) => {
                let ghost before = self@;
                let ghost given = *content;
                let r = self.tabs[index].set_content_reusing(content);
                proof {
                    assert(self@.tabs[index as int] == self.tabs@[index as int]@);
                    assert(set_content_spec(before.tabs[index as int], given@, self@.tabs[index as int], r));
                    assert(clean_without_baseline(before.tabs[index as int]));
                    assert(clean_without_baseline(self@.tabs[index as int]));
                    assert forall|i: int| 0 <= i < self@.tabs.len() implies clean_without_baseline(
                        #[trigger] self@.tabs[i],
                    ) by {
                        if i != index {
                            assert(self@.tabs[i] == before.tabs[i]);
                        }
                    }
                }
                r
            },
            None => false,
        }
    }

    /// Replaces the byte range `range` of the active tab's content by `replacement`.
    pub fn replace_active_content_range(&mut self, range: Range<usize>, replacement: &str) -> (r:
        bool)
        requires
            old(self)@.wf(),
        ensures
            active_tab_updated(
                old(self)@,
                final(self)@,
                |x: TabView, y: TabView| range_replaced(x, range.start, range.end, replacement@, y, r),
            ),
            old(self)@.active is None ==> !r,
            final(self)@.wf(),
    {
        match self.active_index {
            Some(index) => {
                let ghost before = self@;
                let r = self.tabs[index].replace_content_range(range, replacement);
                proof {
                    assert(self@.tabs[index as int] == self.tabs@[index as int]@);
                    assert(clean_without_baseline(before.tabs[index as int]));
                    lemma_one_tab_changed_keeps_wf(before, self@, index as int);
                }
                r
            },
            None => false,
        }
    }

    /// Imports `content` into the active tab.
    pub fn import_active_content(&mut self, content: String) -> (r: bool)
        requires
            old(self)@.wf(),
        ensures
            active_tab_updated(
                old(self)@,
                final(self)@,
                |x: TabView, y: TabView| imported(x, content@, y, r),
            ),
            old(self)@.active is None ==> !r,
            final(self)@.wf(),
    {
        match self.active_index {
            Some(index) => {
                let ghost before = self@;
                let r = self.tabs[index].import_content(content);
                proof {
                    assert(self@.tabs[index as int] == self.tabs@[index as int]@);
                    assert(clean_without_baseline(before.tabs[index as int]));
                    lemma_one_tab_changed_keeps_wf(before, self@, index as int);
                }
                r
            },
            None => false,
        }
    }

    /// Marks the active tab dirty from a change its editor reported.
    pub fn mark_active_dirty_from_view(&mut self) -> (r: bool)
        requires
            old(self)@.wf(),
        ensures
            active_tab_updated(old(self)@, final(self)@, |x: TabView, y: TabView| marked_dirty(x, y, r)),
            old(self)@.active is None ==> !r,
            final(self)@.wf(),
    {
        match self.active_index {
            Some(index) => {
                let ghost before = self@;
                let r = self.tabs[index].mark_dirty_from_view();
                proof {
                    assert(self@.tabs[index as int] == self.tabs@[index as int]@);
                    assert(clean_without_baseline(before.tabs[index as int]));
                    lemma_one_tab_changed_keeps_wf(before, self@, index as int);
                }
                r
            },
            None => false,
        }
    }

    /// Records the view state of the active tab; answers whether there is one.
    pub fn update_active_view_state(&mut self, view_state: DocumentTabViewState) -> (r: bool)
        requires
            old(self)@.wf(),
        ensures
            active_tab_updated(
                old(self)@,
                final(self)@,
                |x: TabView, y: TabView| y == (TabView { view_state, ..x }),
            ),
            r == old(self)@.active is Some,
            final(self)@.wf(),
    {
        match self.active_index {
            Some(index) => {
                let ghost before = self@;
                self.tabs[index].set_view_state(view_state);
                proof {
                    assert(self@.tabs[index as int] == self.tabs@[index as int]@);
                    assert(clean_without_baseline(before.tabs[index as int]));
                    lemma_one_tab_changed_keeps_wf(before, self@, index as int);
                }
                true
            },
            None => false,
        }
    }

    /// Records that `content` of the active tab was saved at `updated_at`.
    pub fn mark_active_saved(&mut self, content: String, updated_at: String) -> (r: bool)
        requires
            old(self)@.wf(),
        ensures
            active_tab_updated(
                old(self)@,
                final(self)@,
                |x: TabView, y: TabView| y == saved_tab(x, content@, updated_at@),
            ),
            r == old(self)@.active is Some,
            final(self)@.wf(),
    {
        match self.active_index {
            Some(index) => {
                let ghost before = self@;
                let _ = self.tabs[index].mark_saved(content, updated_at);
                proof {
                    assert(self@.tabs[index as int] == self.tabs@[index as int]@);
                    assert(clean_without_baseline(before.tabs[index as int]));
                    lemma_one_tab_changed_keeps_wf(before, self@, index as int);
                }
                true
            },
            None => false,
        }
    }

    /// Records that the current content of the active tab was saved at `updated_at`.
    pub fn mark_active_current_content_saved(&mut self, updated_at: String) -> (r: bool)
        requires
            old(self)@.wf(),
        ensures
            active_tab_updated(
                old(self)@,
                final(self)@,
                |x: TabView, y: TabView| y == saved_tab(x, x.content, updated_at@),
            ),
            r == old(self)@.active is Some,
            final(self)@.wf(),
    {
        match self.active_index {
            Some(index) => {
                let ghost before = self@;
                let _ = self.tabs[index].mark_current_content_saved(updated_at);
                proof {
                    assert(self@.tabs[index as int] == self.tabs@[index as int]@);
                    assert(clean_without_baseline(before.tabs[index as int]));
                    lemma_one_tab_changed_keeps_wf(before, self@, index as int);
                }
                true
            },
            None => false,
        }
    }

    /// Replaces the active tab by a fresh load of `input`.
    pub fn reload_active(&mut self, input: OpenDocumentTabInput) -> (r: bool)
        requires
            old(self)@.wf(),
        ensures
            active_tab_updated(
                old(self)@,
                final(self)@,
                |x: TabView, y: TabView| y == reloaded_tab(x, input),
            ),
            r == old(self)@.active is Some,
            final(self)@.wf(),
    {
        match self.active_index {
            Some(index) => {
                let ghost before = self@;
                let _ = self.tabs[index].reload_from(input);
                proof {
                    assert(self@.tabs[index as int] == self.tabs@[index as int]@);
                    assert(clean_without_baseline(before.tabs[index as int]));
                    lemma_one_tab_changed_keeps_wf(before, self@, index as int);
                }
                true
            },
            None => false,
        }
    }
    /// The index of the first dirty tab.
    pub fn first_dirty_index(&self) -> (r: Option<usize>)
        ensures
            match r {
                Some(i) => first_dirty(self@.tabs) == Some(i as int),
                None => first_dirty(self@.tabs) is None,
            },
    {
        let mut i: usize = 0;
        while i < self.tabs.len()
            invariant
                i <= self.tabs@.len(),
                forall|j: int| 0 <= j < i ==> !self@.tabs[j].dirty,
            decreases self.tabs@.len() - i,
        {
            if self.tabs[i].dirty {
                proof {
                    lemma_first_dirty(self@.tabs, i as int);
                }
                return Some(i);
            }
            i = i + 1;
        }
        proof {
            reveal(first_dirty);
        }
        None
    }

    /// The indices, in order, of the dirty tabs whose documents are in `node_ids`.
    pub fn dirty_tab_indices_for_node_set(&self, node_ids: &HashSet<i64>) -> (r: Vec<usize>)
        ensures
            r@ == dirty_indices(self@.tabs, node_ids@, self@.tabs.len() as int),
            lists_dirty_tabs_of(r@, self@.tabs, node_ids@),
    {
        broadcast use vstd::std_specs::hash::group_hash_axioms;

        let mut indices: Vec<usize> = Vec::new();
        let mut i: usize = 0;
        while i < self.tabs.len()
            invariant
                i <= self.tabs@.len(),
                indices@ == dirty_indices(self@.tabs, node_ids@, i as int),
            decreases self.tabs@.len() - i,
        {
            if self.tabs[i].dirty && node_ids.contains(&self.tabs[i].node_id) {
                indices.push(i);
            }
            i = i + 1;
        }
        proof {
            lemma_dirty_indices_lists_dirty_tabs(self@.tabs, node_ids@, self@.tabs.len() as int);
        }
        indices
    }

    /// The indices, in order, of the dirty tabs whose documents are in `node_ids`.
    pub fn dirty_tab_indices_for_nodes(&self, node_ids: &[i64]) -> (r: Vec<usize>)
        ensures
            r@ == dirty_indices(self@.tabs, node_ids@.to_set(), self@.tabs.len() as int),
            lists_dirty_tabs_of(r@, self@.tabs, node_ids@.to_set()),
    {
        let node_ids = node_id_set(node_ids);
        self.dirty_tab_indices_for_node_set(&node_ids)
    }

    /// Replaces the active tab by a fresh load of `input`, closing first any other tab
    /// of the same document; the new tab's revision follows the replaced one's. Answers
    /// whether there was an active tab.
    pub fn replace_active(&mut self, input: OpenDocumentTabInput) -> (r: bool)
        requires
            old(self)@.wf(),
        ensures
            r == old(self)@.active is Some,
            !r ==> final(self)@ == old(self)@,
            final(self)@.wf(),
            old(self)@.active matches Some(a) ==> final(self)@ == replaced_active(
                old(self)@,
                input,
                a,
            ),
            r && node_ids_distinct(old(self)@.tabs) ==> node_ids_distinct(final(self)@.tabs) && (
            forall|i: int|
                0 <= i < final(self)@.tabs.len() && Some(i as usize) != final(self)@.active
                    ==> final(self)@.tabs[i].node_id != input.node_id),
    {
        let mut active_index = match self.active_index {
            Some(index) => index,
            None => return false,
        };
        let tab_count = self.tabs.len();
        let ghost before = self@;
        let ghost a0 = active_index;
        let ghost input_view = input;
        assert(before.tabs.len() == tab_count);
        let duplicate = self.position_of_other_node(input.node_id, active_index);
        if let Some(duplicate_index) = duplicate {
            self.tabs.remove(duplicate_index);
            assert(self@.tabs == before.tabs.remove(duplicate_index as int));
            if duplicate_index < active_index {
                active_index = active_index - 1;
                self.active_index = Some(active_index);
            }
        }
        assert(active_index < self@.tabs.len());
        assert(self@.tabs[active_index as int] == before.tabs[a0 as int]);
        let previous_revision = self.tabs[active_index].content_revision();
        let mut tab = OpenDocumentTab::from_input(input);
        tab.content_revision = previous_revision.saturating_add(1);
        assert(tab@ == loaded_tab(input_view, next_revision(before.tabs[a0 as int].revision)));
        let ghost rest = self@.tabs;
        self.tabs.set(active_index, tab);
        assert(self@.tabs == rest.update(active_index as int, tab@));
        assert(self@ == replaced_active(before, input_view, a0));
        proof {
            lemma_replace_active_keeps_documents_distinct(before, input_view, a0);
        }
        true
    }

    /// Brings the first tab of the document of `input` up to date with it.
    pub fn sync_loaded_tab(&mut self, input: OpenDocumentTabInput, update_dirty_token: bool)
        requires
            old(self)@.wf(),
        ensures
            final(self)@ == match first_tab_of(old(self)@.tabs, input.node_id) {
                Some(i) => old(self)@.with_tab(i, synced_tab(old(self)@.tabs[i], input, update_dirty_token)),
                None => old(self)@,
            },
            final(self)@.wf(),
    {
        let ghost before = self@;
        if let Some(index) = self.position_of_node(input.node_id) {
            let ghost input_view = input;
            self.tabs[index].sync_from(input, update_dirty_token);
            assert(self@.tabs == before.tabs.update(
                index as int,
                synced_tab(before.tabs[index as int], input_view, update_dirty_token),
            ));
        }
    }

    /// Sets the place in the tree, title, editability and source of the first tab of the
    /// document `node_id`.
    pub fn sync_loaded_tab_metadata(
        &mut self,
        node_id: i64,
        parent_id: Option<i64>,
        title: String,
        editable: bool,
        source: DocumentTabSource,
    )
        requires
            old(self)@.wf(),
        ensures
            final(self)@ == match first_tab_of(old(self)@.tabs, node_id) {
                Some(i) => old(self)@.with_tab(
                    i,
                    with_metadata(old(self)@.tabs[i], parent_id, title@, editable, source),
                ),
                None => old(self)@,
            },
            final(self)@.wf(),
    {
        let ghost before = self@;
        let ghost title_view = title@;
        if let Some(index) = self.position_of_node(node_id) {
            let changed = self.sync_loaded_tab_metadata_at(
                index,
                node_id,
                parent_id,
                title,
                editable,
                source,
            );
            assert(changed);
            assert(self@ == before.with_tab(
                index as int,
                with_metadata(before.tabs[index as int], parent_id, title_view, editable, source),
            ));
        }
    }

    /// Sets the place in the tree, title, editability and source of the tab at `index`
    /// when it shows the document `node_id`; answers whether it does.
    pub fn sync_loaded_tab_metadata_at(
        &mut self,
        index: usize,
        node_id: i64,
        parent_id: Option<i64>,
        title: String,
        editable: bool,
        source: DocumentTabSource,
    ) -> (r: bool)
        requires
            old(self)@.wf(),
        ensures
            r == (index < old(self)@.tabs.len() && old(self)@.tabs[index as int].node_id == node_id),
            final(self)@ == if r {
                old(self)@.with_tab(
                    index as int,
                    with_metadata(old(self)@.tabs[index as int], parent_id, title@, editable, source),
                )
            } else {
                old(self)@
            },
            final(self)@.wf(),
    {
        if index >= self.tabs.len() || self.tabs[index].node_id != node_id {
            return false;
        }
        let ghost before = self@;
        let ghost title_view = title@;
        self.tabs[index].parent_id = parent_id;
        self.tabs[index].title = title;
        self.tabs[index].editable = editable;
        self.tabs[index].source = source;
        assert(self@.tabs == before.tabs.update(
            index as int,
            with_metadata(before.tabs[index as int], parent_id, title_view, editable, source),
        ));
        true
    }

    /// Brings the metadata of the first tab of the document `node_id` up to date without
    /// touching its content.
    pub fn sync_loaded_tab_metadata_preserving_content(
        &mut self,
        node_id: i64,
        parent_id: Option<i64>,
        title: String,
        loaded_updated_at: String,
        editable: bool,
        source: DocumentTabSource,
    )
        requires
            old(self)@.wf(),
        ensures
            final(self)@ == match first_tab_of(old(self)@.tabs, node_id) {
                Some(i) => old(self)@.with_tab(
                    i,
                    metadata_synced_tab(
                        old(self)@.tabs[i],
                        parent_id,
                        title@,
                        loaded_updated_at@,
                        editable,
                        source,
                        None,
                    ),
                ),
                None => old(self)@,
            },
            final(self)@.wf(),
    {
        let ghost before = self@;
        if let Some(index) = self.position_of_node(node_id) {
            let ghost t = title@;
            let ghost l = loaded_updated_at@;
            self.tabs[index].sync_metadata_preserving_content(
                parent_id,
                title,
                loaded_updated_at,
                editable,
                source,
                None,
            );
            assert(self@.tabs == before.tabs.update(
                index as int,
                metadata_synced_tab(before.tabs[index as int], parent_id, t, l, editable, source, None),
            ));
        }
    }

    /// Brings the metadata of the tab at `index` up to date without touching its content,
    /// when it shows the document of `update`; answers whether it does.
    pub fn sync_loaded_tab_metadata_preserving_content_at(
        &mut self,
        index: usize,
        update: LoadedTabMetadataUpdate<'_>,
    ) -> (r: bool)
        requires
            old(self)@.wf(),
        ensures
            r == (index < old(self)@.tabs.len() && old(self)@.tabs[index as int].node_id
                == update.node_id),
            final(self)@ == if r {
                old(self)@.with_tab(
                    index as int,
                    metadata_synced_tab(
                        old(self)@.tabs[index as int],
                        update.parent_id,
                        update.title@,
                        update.loaded_updated_at@,
                        update.editable,
                        update.source,
                        match update.current_content_for_dirty_token {
                            Some(c) => Some(c@),
                            None => None,
                        },
                    ),
                )
            } else {
                old(self)@
            },
            final(self)@.wf(),
    {
        if index >= self.tabs.len() || self.tabs[index].node_id != update.node_id {
            return false;
        }
        let ghost before = self@;
        let ghost u = update;
        self.tabs[index].sync_metadata_preserving_content(
            update.parent_id,
            update.title,
            update.loaded_updated_at,
            update.editable,
            update.source,
            update.current_content_for_dirty_token,
        );
        assert(self@.tabs == before.tabs.update(
            index as int,
            metadata_synced_tab(
                before.tabs[index as int],
                u.parent_id,
                u.title@,
                u.loaded_updated_at@,
                u.editable,
                u.source,
                match u.current_content_for_dirty_token {
                    Some(c) => Some(c@),
                    None => None,
                },
            ),
        ));
        true
    }

    /// Makes read-only every editable tab whose document is not among
    /// `active_node_ids`, the documents still in the tree; answers whether the active
    /// tab's document was among those made read-only.
    pub fn mark_tabs_missing_from_active_document_read_only(&mut self, active_node_ids: &[i64]) -> (r:
        bool)
        requires
            old(self)@.wf(),
        ensures
            final(self)@.active == old(self)@.active,
            final(self)@.tabs == old(self)@.tabs.map_values(
                |t: TabView| read_only_if_missing(t, active_node_ids@),
            ),
            r == (old(self)@.active matches Some(a) && exists|j: int|
                0 <= j < old(self)@.tabs.len() && #[trigger] old(self)@.tabs[j].editable
                    && !active_node_ids@.contains(old(self)@.tabs[j].node_id)
                    && old(self)@.tabs[j].node_id == old(self)@.tabs[a as int].node_id),
            final(self)@.wf(),
    {
        let ghost before = self@;
        let active_node_id = match self.active_index {
            Some(index) => Some(self.tabs[index].node_id),
            None => None,
        };
        let mut active_marked_read_only = false;
        let mut i: usize = 0;
        while i < self.tabs.len()
            invariant
                i <= self.tabs@.len() == before.tabs.len(),
                self@.active == before.active,
                before.wf(),
                active_node_id == match before.active {
                    Some(a) => Some(before.tabs[a as int].node_id),
                    None => None,
                },
                forall|j: int| 0 <= j < i ==> self@.tabs[j] == read_only_if_missing(before.tabs[j], active_node_ids@),
                forall|j: int| i <= j < self@.tabs.len() ==> self@.tabs[j] == before.tabs[j],
                active_marked_read_only == (before.active matches Some(a) && exists|j: int|
                    0 <= j < i && #[trigger] before.tabs[j].editable
                        && !active_node_ids@.contains(before.tabs[j].node_id)
                        && before.tabs[j].node_id == before.tabs[a as int].node_id),
            decreases self.tabs@.len() - i,
        {
            let missing = self.tabs[i].editable && !slice_contains(
                active_node_ids,
                self.tabs[i].node_id,
            );
            let ghost prev = self@;
            if missing {
                self.tabs[i].mark_read_only();
                assert(self@.tabs == prev.tabs.update(
                    i as int,
                    read_only_if_missing(before.tabs[i as int], active_node_ids@),
                ));
                if active_node_id == Some(self.tabs[i].node_id) {
                    active_marked_read_only = true;
                    assert(before.tabs[i as int].editable);
                }
            }
            proof {
                if missing && active_node_id != Some(self@.tabs[i as int].node_id) {
                    assert(!(before.active matches Some(a) && before.tabs[i as int].node_id
                        == before.tabs[a as int].node_id));
                }
                assert(before.tabs[i as int].editable == before.tabs[i as int].editable);
            }
            i = i + 1;
        }
        assert(self@.tabs == before.tabs.map_values(
            |t: TabView| read_only_if_missing(t, active_node_ids@),
        ));
        active_marked_read_only
    }

    /// Throws away the changes of the tab at `index`; answers whether there is one.
    pub fn discard_tab_changes(&mut self, index: usize) -> (r: bool)
        requires
            old(self)@.wf(),
        ensures
            r == (index < old(self)@.tabs.len()),
            final(self)@ == if r {
                old(self)@.with_tab(index as int, discarded_tab(old(self)@.tabs[index as int]))
            } else {
                old(self)@
            },
            final(self)@.wf(),
    {
        if index >= self.tabs.len() {
            return false;
        }
        let ghost before = self@;
        self.tabs[index].discard_changes();
        assert(self@.tabs == before.tabs.update(
            index as int,
            discarded_tab(before.tabs[index as int]),
        ));
        true
    }

    /// Closes the tab at `index` and hands it back; the tab after it becomes active
    /// when it was active, or the one before when there is none after.
    fn close_at(&mut self, index: usize) -> (r: Option<OpenDocumentTab>)
        requires
            old(self)@.wf(),
        ensures
            index >= old(self)@.tabs.len() ==> r is None && final(self)@ == old(self)@,
            index < old(self)@.tabs.len() ==> {
                &&& r matches Some(t) && t@ == old(self)@.tabs[index as int]
                &&& final(self)@.tabs == old(self)@.tabs.remove(index as int)
                &&& final(self)@.active == active_after_close(
                    old(self)@.active,
                    index,
                    final(self)@.tabs.len(),
                )
            },
            final(self)@.wf(),
    {
        if index >= self.tabs.len() {
            return None;
        }
        let ghost before = self@;
        let removed = self.tabs.remove(index);
        assert(self@.tabs == before.tabs.remove(index as int));
        let remaining = self.tabs.len();
        self.active_index = if remaining == 0 {
            None
        } else {
            match self.active_index {
                Some(active) => if active == index {
                    Some(
                        if index < remaining {
                            index
                        } else {
                            remaining - 1
                        },
                    )
                } else if active > index {
                    Some(active - 1)
                } else {
                    Some(active)
                },
                None => None,
            }
        };
        Some(removed)
    }

    /// Closes the active tab and hands it back.
    pub fn close_active(&mut self) -> (r: Option<OpenDocumentTab>)
        requires
            old(self)@.wf(),
        ensures
            match old(self)@.active {
                Some(a) => {
                    &&& r matches Some(t) && t@ == old(self)@.tabs[a as int]
                    &&& final(self)@.tabs == old(self)@.tabs.remove(a as int)
                    &&& final(self)@.active == active_after_close(
                        old(self)@.active,
                        a,
                        final(self)@.tabs.len(),
                    )
                },
                None => r is None && final(self)@ == old(self)@,
            },
            final(self)@.wf(),
    {
        match self.active_index {
            Some(index) => self.close_at(index),
            None => None,
        }
    }
    /// Closes every tab whose document is in `node_ids` and hands the closed tabs back
    /// in order; the active tab stays active when it stays open, else the first tab
    /// after it that stays open becomes active, else the last one.
    pub fn close_tabs_for_node_set(&mut self, node_ids: &HashSet<i64>) -> (r: Vec<OpenDocumentTab>)
        requires
            old(self)@.wf(),
        ensures
            final(self)@.tabs == tabs_kept(old(self)@.tabs, node_ids@, old(self)@.tabs.len() as int),
            r@.map_values(|t: OpenDocumentTab| t@) == tabs_closed(
                old(self)@.tabs,
                node_ids@,
                old(self)@.tabs.len() as int,
            ),
            final(self)@.active == active_after_closing(old(self)@.tabs, node_ids@, old(self)@.active),
            final(self)@.wf(),
    {
        broadcast use vstd::std_specs::hash::group_hash_axioms;

        let ghost before = self@;
        let ghost ids = node_ids@;
        let ghost n = before.tabs.len() as int;
        let mut closed: Vec<OpenDocumentTab> = Vec::new();
        let mut index: usize = 0;
        let ghost mut k: int = 0;
        assert(self@.tabs == tabs_kept(before.tabs, ids, 0) + before.tabs.subrange(0, n));
        while index < self.tabs.len()
            invariant
                0 <= k <= n,
                n == before.tabs.len(),
                ids == node_ids@,
                before.wf(),
                self@.wf(),
                index == tabs_kept(before.tabs, ids, k).len(),
                self@.tabs == tabs_kept(before.tabs, ids, k) + before.tabs.subrange(k, n),
                closed@.map_values(|t: OpenDocumentTab| t@) == tabs_closed(before.tabs, ids, k),
                self@.active == active_while_closing(
                    before.tabs,
                    ids,
                    before.active,
                    k,
                    self@.tabs.len() as int,
                ),
            decreases n - k,
        {
            let ghost kept = tabs_kept(before.tabs, ids, k);
            let ghost len = self@.tabs.len() as int;
            proof {
                assert(self@.tabs[index as int] == before.tabs[k]);
                if let Some(a) = before.active {
                    if a < k {
                        lemma_tabs_kept_len(before.tabs, ids, a as int, k);
                    }
                }
            }
            if node_ids.contains(&self.tabs[index].node_id) {
                let ghost cur_active = self@.active;
                let removed = self.close_at(index);
                if let Some(tab) = removed {
                    closed.push(tab);
                }
                proof {
                    assert(tabs_kept(before.tabs, ids, k + 1) == kept);
                    assert(self@.tabs == kept + before.tabs.subrange(k + 1, n));
                    assert(closed@.map_values(|t: OpenDocumentTab| t@) == tabs_closed(
                        before.tabs,
                        ids,
                        k + 1,
                    ));
                    if let Some(a) = before.active {
                        if a < k {
                            lemma_tabs_kept_len(before.tabs, ids, a as int, k);
                        }
                    }
                    k = k + 1;
                }
            } else {
                index = index + 1;
                proof {
                    assert(tabs_kept(before.tabs, ids, k + 1) == kept.push(before.tabs[k]));
                    assert(self@.tabs == kept.push(before.tabs[k]) + before.tabs.subrange(k + 1, n));
                    k = k + 1;
                }
            }
        }
        proof {
            assert(k == n);
            assert(self@.tabs == tabs_kept(before.tabs, ids, n));
        }
        closed
    }

    /// Closes every tab whose document is in `node_ids` and hands the closed tabs back
    /// in order, as `close_tabs_for_node_set` does.
    pub fn close_tabs_for_nodes(&mut self, node_ids: &[i64]) -> (r: Vec<OpenDocumentTab>)
        requires
            old(self)@.wf(),
        ensures
            final(self)@.tabs == tabs_kept(
                old(self)@.tabs,
                node_ids@.to_set(),
                old(self)@.tabs.len() as int,
            ),
            r@.map_values(|t: OpenDocumentTab| t@) == tabs_closed(
                old(self)@.tabs,
                node_ids@.to_set(),
                old(self)@.tabs.len() as int,
            ),
            final(self)@.active == active_after_closing(
                old(self)@.tabs,
                node_ids@.to_set(),
                old(self)@.active,
            ),
            final(self)@.wf(),
    {
        let node_ids = node_id_set(node_ids);
        self.close_tabs_for_node_set(&node_ids)
    }
}

impl Default for OpenTabs {
    fn default() -> (r: Self)
        ensures
            r@.tabs == Seq::<TabView>::empty(),
            r@.active is None,
    {
        OpenTabs::new()
    }
}

/// What the user chose for a dirty tab that is about to be closed.
#[derive(Debug, Clone, Copy, PartialEq, Eq, Structural)]
pub enum DirtyTabDecision {
    Save,
    Discard,
    Cancel,
}

/// Whether `s` holds `x`.
fn slice_contains(s: &[i64], x: i64) -> (r: bool)
    ensures
        r == s@.contains(x),
{
    let mut i: usize = 0;
    while i < s.len()
        invariant
            i <= s@.len(),
            forall|j: int| 0 <= j < i ==> s@[j] != x,
        decreases s@.len() - i,
    {
        if s[i] == x {
            assert(s@[i as int] == x);
            return true;
        }
        i = i + 1;
    }
    false
}

/// The set of the node ids in `node_ids`.
fn node_id_set(node_ids: &[i64]) -> (r: HashSet<i64>)
    ensures
        r@ == node_ids@.to_set(),
{
    broadcast use vstd::std_specs::hash::group_hash_axioms;

    let mut set: HashSet<i64> = HashSet::new();
    let mut i: usize = 0;
    while i < node_ids.len()
        invariant
            i <= node_ids@.len(),
            set@ == node_ids@.subrange(0, i as int).to_set(),
        decreases node_ids@.len() - i,
    {
        proof {
            assert(node_ids@.subrange(0, i + 1) == node_ids@.subrange(0, i as int).push(node_ids@[i as int]));
            node_ids@.subrange(0, i as int).lemma_push_to_set_commute(node_ids@[i as int]);
        }
        set.insert(node_ids[i]);
        i = i + 1;
    }
    assert(node_ids@.subrange(0, node_ids@.len() as int) == node_ids@);
    set
}

} // verus!
