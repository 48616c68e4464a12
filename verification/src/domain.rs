//! The document model and the editor state built on it.
use vstd::prelude::*;

use crate::decimal::{decimal, format_i64};
use crate::text::{push_str, to_owned};

pub mod document_tree;
pub mod open_tabs;
pub mod sibling_order;
pub mod text_edit;
pub mod tree_walk;
pub mod ui_settings;

verus! {

pub const APP_DISPLAY_NAME: &'static str = "j3TreeText";

pub const APP_LINUX_APPLICATION_ID: &'static str = "io.github.edgarp9.j3TreeText";

pub const APP_AUTHOR_URL: &'static str = "https://github.com/edgarp9";

pub const APP_ICON_SVG_FILE_NAME: &'static str = "icon.svg";

pub const APP_ICON_PNG_FILE_NAME: &'static str = "icon.png";

/// Why a change to the document tree, or a document, was refused.
#[derive(Debug, Clone, PartialEq, Eq)]
pub enum DomainError {
    CannotDeleteRoot,
    CannotMoveNodeIntoDescendant { node_id: i64, parent_id: i64 },
    CannotMoveNodeIntoItself { node_id: i64 },
    CannotMoveRoot,
    DocumentSaveConflict { node_id: i64 },
    DuplicateNodeId(i64),
    DuplicateSiblingTitle { parent_id: Option<i64>, title: String },
    EmptyTitle { node_id: i64 },
    EmptyTitleInput,
    EmbeddedNulContent { node_id: i64 },
    EmbeddedNulTitle { node_id: i64 },
    EmbeddedNulTitleInput,
    InvalidNodeId(i64),
    InvalidParent { node_id: i64, parent_id: i64 },
    InvalidSortOrder { node_id: i64, sort_order: i64 },
    ParentCycle { node_id: i64 },
    MissingParent { node_id: i64, parent_id: i64 },
    MissingRoot,
    MissingTimestamp { node_id: i64 },
    MultipleRoots,
    NodeNotFound { node_id: i64 },
    NodeNotDeleted { node_id: i64 },
    UnreachableNode { node_id: i64 },
}

/// What `<str as Debug>::fmt` writes for a text: the text in double quotes, with the
/// characters that need it escaped.
pub uninterp spec fn debug_quoted(text: Seq<char>) -> Seq<char>;

/// `format!("{:?}", text)`.
#[verifier::external_body]
fn debug_text(text: &str) -> (r: String)
    ensures
        r@ == debug_quoted(text@),
{
    format!("{:?}", text)
}

/// How a refused change is described in logs and reports.
pub open spec fn domain_error_text(error: DomainError) -> Seq<char> {
    match error {
        DomainError::CannotDeleteRoot => "root document cannot be deleted"@,
        DomainError::CannotMoveNodeIntoDescendant { node_id, parent_id } => "node "@ + decimal(
            node_id as int,
        ) + " cannot be moved under descendant node "@ + decimal(parent_id as int),
        DomainError::CannotMoveNodeIntoItself { node_id } => "node "@ + decimal(node_id as int)
            + " cannot be moved under itself"@,
        DomainError::CannotMoveRoot => "root document cannot be moved"@,
        DomainError::DocumentSaveConflict { node_id } => "document node "@ + decimal(node_id as int)
            + " was changed after it was loaded"@,
        DomainError::DuplicateNodeId(id) => "duplicate node id: "@ + decimal(id as int),
        DomainError::DuplicateSiblingTitle { parent_id, title } => match parent_id {
            Some(p) => "parent node "@ + decimal(p as int) + " already has an active child titled "@
                + debug_quoted(title@),
            None => "root level already has an active node titled "@ + debug_quoted(title@),
        },
        DomainError::EmptyTitle { node_id } => "node "@ + decimal(node_id as int)
            + " has an empty title"@,
        DomainError::EmptyTitleInput => "node title input is empty"@,
        DomainError::EmbeddedNulContent { node_id } => "node "@ + decimal(node_id as int)
            + " content contains an embedded NUL character"@,
        DomainError::EmbeddedNulTitle { node_id } => "node "@ + decimal(node_id as int)
            + " title contains an embedded NUL character"@,
        DomainError::EmbeddedNulTitleInput => "node title input contains an embedded NUL character"@,
        DomainError::InvalidNodeId(id) => "invalid node id: "@ + decimal(id as int),
        DomainError::InvalidParent { node_id, parent_id } => "node "@ + decimal(node_id as int)
            + " has invalid parent id "@ + decimal(parent_id as int),
        DomainError::InvalidSortOrder { node_id, sort_order } => "node "@ + decimal(node_id as int)
            + " has invalid sort_order "@ + decimal(sort_order as int),
        DomainError::MissingParent { node_id, parent_id } => "node "@ + decimal(node_id as int)
            + " references missing parent "@ + decimal(parent_id as int),
        DomainError::MissingRoot => "document has no root node"@,
        DomainError::MissingTimestamp { node_id } => "node "@ + decimal(node_id as int)
            + " is missing timestamps"@,
        DomainError::MultipleRoots => "document has multiple root nodes"@,
        DomainError::NodeNotFound { node_id } => "active node "@ + decimal(node_id as int)
            + " was not found"@,
        DomainError::NodeNotDeleted { node_id } => "node "@ + decimal(node_id as int)
            + " is not in the trash"@,
        DomainError::ParentCycle { node_id } => "document tree has a parent cycle at node "@
            + decimal(node_id as int),
        DomainError::UnreachableNode { node_id } => "node "@ + decimal(node_id as int)
            + " is not reachable from the root"@,
    }
}

/// `head`, the decimal `n`, then `tail`.
fn with_number(head: &str, n: i64, tail: &str) -> (r: String)
    ensures
        r@ == head@ + decimal(n as int) + tail@,
{
    let mut out = to_owned(head);
    let digits = format_i64(n);
    push_str(&mut out, digits.as_str());
    push_str(&mut out, tail);
    out
}

/// `head`, then the decimal `n`.
fn ending_with_number(head: &str, n: i64) -> (r: String)
    ensures
        r@ == head@ + decimal(n as int),
{
    let mut out = to_owned(head);
    let digits = format_i64(n);
    push_str(&mut out, digits.as_str());
    out
}

/// `head`, the decimal `a`, `middle`, then the decimal `b`.
fn with_two_numbers(head: &str, a: i64, middle: &str, b: i64) -> (r: String)
    ensures
        r@ == head@ + decimal(a as int) + middle@ + decimal(b as int),
{
    let mut out = with_number(head, a, middle);
    let digits = format_i64(b);
    push_str(&mut out, digits.as_str());
    out
}

impl DomainError {
    /// The description of the error, as its `Display` writes it.
    pub fn message(&self) -> (r: String)
        ensures
            r@ == domain_error_text(*self),
    {
        match self {
            DomainError::CannotDeleteRoot => to_owned("root document cannot be deleted"),
            DomainError::CannotMoveNodeIntoDescendant { node_id, parent_id } => with_two_numbers(
                "node ",
                *node_id,
                " cannot be moved under descendant node ",
                *parent_id,
            ),
            DomainError::CannotMoveNodeIntoItself { node_id } => with_number(
                "node ",
                *node_id,
                " cannot be moved under itself",
            ),
            DomainError::CannotMoveRoot => to_owned("root document cannot be moved"),
            DomainError::DocumentSaveConflict { node_id } => with_number(
                "document node ",
                *node_id,
                " was changed after it was loaded",
            ),
            DomainError::DuplicateNodeId(id) => ending_with_number("duplicate node id: ", *id),
            DomainError::DuplicateSiblingTitle { parent_id, title } => {
                let quoted = debug_text(title.as_str());
                let mut out = match parent_id {
                    Some(p) => with_number("parent node ", *p, " already has an active child titled "),
                    None => to_owned("root level already has an active node titled "),
                };
                push_str(&mut out, quoted.as_str());
                out
            },
            DomainError::EmptyTitle { node_id } => with_number("node ", *node_id, " has an empty title"),
            DomainError::EmptyTitleInput => to_owned("node title input is empty"),
            DomainError::EmbeddedNulContent { node_id } => with_number(
                "node ",
                *node_id,
                " content contains an embedded NUL character",
            ),
            DomainError::EmbeddedNulTitle { node_id } => with_number(
                "node ",
                *node_id,
                " title contains an embedded NUL character",
            ),
            DomainError::EmbeddedNulTitleInput => to_owned(
                "node title input contains an embedded NUL character",
            ),
            DomainError::InvalidNodeId(id) => ending_with_number("invalid node id: ", *id),
            DomainError::InvalidParent { node_id, parent_id } => with_two_numbers(
                "node ",
                *node_id,
                " has invalid parent id ",
                *parent_id,
            ),
            DomainError::InvalidSortOrder { node_id, sort_order } => with_two_numbers(
                "node ",
                *node_id,
                " has invalid sort_order ",
                *sort_order,
            ),
            DomainError::MissingParent { node_id, parent_id } => with_two_numbers(
                "node ",
                *node_id,
                " references missing parent ",
                *parent_id,
            ),
            DomainError::MissingRoot => to_owned("document has no root node"),
            DomainError::MissingTimestamp { node_id } => with_number(
                "node ",
                *node_id,
                " is missing timestamps",
            ),
            DomainError::MultipleRoots => to_owned("document has multiple root nodes"),
            DomainError::NodeNotFound { node_id } => with_number(
                "active node ",
                *node_id,
                " was not found",
            ),
            DomainError::NodeNotDeleted { node_id } => with_number(
                "node ",
                *node_id,
                " is not in the trash",
            ),
            DomainError::ParentCycle { node_id } => ending_with_number("document tree has a parent cycle at node ", *node_id),
            DomainError::UnreachableNode { node_id } => with_number(
                "node ",
                *node_id,
                " is not reachable from the root",
            ),
        }
    }
}

} // verus!
