//! The decisions of a schema migration: refusing the old folder/document format,
//! which node columns an older database lacks, and when stored rows need repair.
use vstd::prelude::*;

use crate::cli::args::is_user_error;
use crate::error::AppError;
use crate::text::{ascii_lower, str_eq, to_ascii_lower};

verus! {

/// The version recorded once the current migration has run.
pub const SCHEMA_VERSION: i64 = 6;

pub const LEGACY_NODE_SCHEMA_MESSAGE: &'static str = "이 데이터베이스는 폴더/문서 구분을 사용하는 이전 형식입니다. 자동 변환은 지원하지 않습니다. 새 데이터베이스를 사용하거나 별도 변환 도구로 이전하세요.";

/// A column of the node table that older databases may lack.
#[derive(Debug, Clone, Copy, PartialEq, Eq, Structural)]
pub enum NodeColumn {
    ParentId,
    Title,
    SortOrder,
    Content,
    CreatedAt,
    UpdatedAt,
    DeletedAt,
}

/// The columns in the order a migration adds them.
pub open spec fn node_columns() -> Seq<NodeColumn> {
    seq![
        NodeColumn::ParentId,
        NodeColumn::Title,
        NodeColumn::SortOrder,
        NodeColumn::Content,
        NodeColumn::CreatedAt,
        NodeColumn::UpdatedAt,
        NodeColumn::DeletedAt,
    ]
}

pub open spec fn column_name(column: NodeColumn) -> Seq<char> {
    match column {
        NodeColumn::ParentId => "parent_id"@,
        NodeColumn::Title => "title"@,
        NodeColumn::SortOrder => "sort_order"@,
        NodeColumn::Content => "content"@,
        NodeColumn::CreatedAt => "created_at"@,
        NodeColumn::UpdatedAt => "updated_at"@,
        NodeColumn::DeletedAt => "deleted_at"@,
    }
}

/// Column names are compared without regard to ASCII case.
pub open spec fn has_column(columns: Seq<String>, name: Seq<char>) -> bool {
    exists|i: int| 0 <= i < columns.len() && ascii_lower(#[trigger] columns[i]@) == ascii_lower(name)
}

/// Those of `candidates` that `columns` lacks, in their order.
pub open spec fn missing_columns(candidates: Seq<NodeColumn>, columns: Seq<String>) -> Seq<NodeColumn>
    decreases candidates.len(),
{
    if candidates.len() == 0 {
        Seq::empty()
    } else if has_column(columns, column_name(candidates.last())) {
        missing_columns(candidates.drop_last(), columns)
    } else {
        missing_columns(candidates.drop_last(), columns).push(candidates.last())
    }
}

impl NodeColumn {
    pub fn name(&self) -> (r: &'static str)
        ensures
            r@ == column_name(*self),
    {
        proof {
            reveal_strlit("parent_id");
            reveal_strlit("title");
            reveal_strlit("sort_order");
            reveal_strlit("content");
            reveal_strlit("created_at");
            reveal_strlit("updated_at");
            reveal_strlit("deleted_at");
        }
        match self {
            NodeColumn::ParentId => "parent_id",
            NodeColumn::Title => "title",
            NodeColumn::SortOrder => "sort_order",
            NodeColumn::Content => "content",
            NodeColumn::CreatedAt => "created_at",
            NodeColumn::UpdatedAt => "updated_at",
            NodeColumn::DeletedAt => "deleted_at",
        }
    }

    /// The statement that adds the column with the default older rows take.
    pub fn add_column_sql(&self) -> (r: &'static str)
        ensures
            r@ == match *self {
                NodeColumn::ParentId => "ALTER TABLE nodes ADD COLUMN parent_id INTEGER NULL"@,
                NodeColumn::Title => "ALTER TABLE nodes ADD COLUMN title TEXT NOT NULL DEFAULT 'Untitled'"@,
                NodeColumn::SortOrder => "ALTER TABLE nodes ADD COLUMN sort_order INTEGER NOT NULL DEFAULT 0"@,
                NodeColumn::Content => "ALTER TABLE nodes ADD COLUMN content TEXT NOT NULL DEFAULT ''"@,
                NodeColumn::CreatedAt => "ALTER TABLE nodes ADD COLUMN created_at TEXT NOT NULL DEFAULT ''"@,
                NodeColumn::UpdatedAt => "ALTER TABLE nodes ADD COLUMN updated_at TEXT NOT NULL DEFAULT ''"@,
                NodeColumn::DeletedAt => "ALTER TABLE nodes ADD COLUMN deleted_at TEXT NULL"@,
            },
    {
        match self {
            NodeColumn::ParentId => "ALTER TABLE nodes ADD COLUMN parent_id INTEGER NULL",
            NodeColumn::Title => "ALTER TABLE nodes ADD COLUMN title TEXT NOT NULL DEFAULT 'Untitled'",
            NodeColumn::SortOrder => "ALTER TABLE nodes ADD COLUMN sort_order INTEGER NOT NULL DEFAULT 0",
            NodeColumn::Content => "ALTER TABLE nodes ADD COLUMN content TEXT NOT NULL DEFAULT ''",
            NodeColumn::CreatedAt => "ALTER TABLE nodes ADD COLUMN created_at TEXT NOT NULL DEFAULT ''",
            NodeColumn::UpdatedAt => "ALTER TABLE nodes ADD COLUMN updated_at TEXT NOT NULL DEFAULT ''",
            NodeColumn::DeletedAt => "ALTER TABLE nodes ADD COLUMN deleted_at TEXT NULL",
        }
    }
}

/// Whether `columns` names the column, ignoring ASCII case.
pub fn columns_contain(columns: &[String], name: &str) -> (r: bool)
    ensures
        r == has_column(columns@, name@),
{
    let wanted = to_ascii_lower(name);
    let mut i: usize = 0;
    while i < columns.len()
        invariant
            0 <= i <= columns@.len(),
            wanted@ == ascii_lower(name@),
            forall|j: int| 0 <= j < i ==> ascii_lower(#[trigger] columns@[j]@) != ascii_lower(name@),
        decreases columns@.len() - i,
    {
        let lower = to_ascii_lower(columns[i].as_str());
        if str_eq(lower.as_str(), wanted.as_str()) {
            return true;
        }
        i = i + 1;
    }
    false
}

/// The node columns an existing table lacks, in the order they are added. A table with a
/// `kind` column holds the old folder/document format, which is not converted.
pub fn missing_node_columns(columns: &[String]) -> (r: Result<Vec<NodeColumn>, AppError>)
    ensures
        has_column(columns@, "kind"@) ==> (r matches Err(e) && is_user_error(
            e,
            LEGACY_NODE_SCHEMA_MESSAGE@,
        )),
        !has_column(columns@, "kind"@) ==> (r matches Ok(v) && v@ == missing_columns(
            node_columns(),
            columns@,
        )),
{
    if columns_contain(columns, "kind") {
        return Err(AppError::user(LEGACY_NODE_SCHEMA_MESSAGE));
    }
    let all: [NodeColumn; 7] = [
        NodeColumn::ParentId,
        NodeColumn::Title,
        NodeColumn::SortOrder,
        NodeColumn::Content,
        NodeColumn::CreatedAt,
        NodeColumn::UpdatedAt,
        NodeColumn::DeletedAt,
    ];
    assert(all@ =~= node_columns());
    let mut missing: Vec<NodeColumn> = Vec::new();
    let mut i: usize = 0;
    while i < 7
        invariant
            0 <= i <= 7,
            all@ == node_columns(),
            missing@ == missing_columns(all@.take(i as int), columns@),
        decreases 7 - i,
    {
        let column = all[i];
        let present = columns_contain(columns, column.name());
        assert(all@.take(i + 1).drop_last() =~= all@.take(i as int));
        assert(all@.take(i + 1).last() == column);
        if !present {
            missing.push(column);
        }
        i = i + 1;
    }
    assert(all@.take(7) =~= all@);
    Ok(missing)
}

/// The current migration has not run when no row records its version.
pub fn current_migration_pending(applied_count: i64) -> (r: bool)
    ensures
        r == (applied_count == 0),
{
    applied_count == 0
}

/// Stored rows are repaired when the current migration has not run or a column was added.
pub fn node_backfill_needed(migration_pending: bool, added_columns: usize) -> (r: bool)
    ensures
        r == (migration_pending || added_columns > 0),
{
    migration_pending || added_columns > 0
}

/// The search index is rebuilt apart from the migration when only its schema was renewed.
pub fn search_rebuild_needed_after_refresh(migration_pending: bool, search_schema_refreshed: bool) -> (r:
    bool)
    ensures
        r == (!migration_pending && search_schema_refreshed),
{
    !migration_pending && search_schema_refreshed
}

} // verus!
