//! The text that the document store is queried with: LIKE patterns, full-text phrase
//! queries, scan bounds, and the choice of an unused title among siblings.
use vstd::prelude::*;
use crate::decimal::{decimal, format_i64};
use crate::domain::DomainError;
use crate::error::{AppError, INTERNAL_CONSISTENCY_USER_MESSAGE};
use crate::text::{has_char, is_blank, push_char, push_str, str_eq, str_has_char, to_owned, trim, trim_str};

verus! {

broadcast use vstd::string::group_string_axioms;

/// The fewest characters a query needs for the trigram index.
pub const MIN_FTS_TRIGRAM_CHARS: usize = 3;

/// The fewest rows a short query scans by content.
pub const SHORT_QUERY_CONTENT_SCAN_MIN_ROWS: i64 = 512;

/// The most rows a short query scans by content.
pub const SHORT_QUERY_CONTENT_SCAN_MAX_ROWS: i64 = 4096;

/// Rows scanned by content per result asked for, for a short query.
pub const SHORT_QUERY_CONTENT_SCAN_LIMIT_MULTIPLIER: i64 = 32;

/// The most numbered titles tried when looking for an unused one.
pub const DEFAULT_TITLE_CANDIDATE_LIMIT: i64 = 10_000;

/// A character that LIKE treats specially, or the escape character itself.
pub open spec fn is_like_special(c: char) -> bool {
    c == '%' || c == '_' || c == '^'
}

/// `s` with each LIKE special character escaped by `^`.
pub open spec fn like_escaped(s: Seq<char>) -> Seq<char>
    decreases s.len(),
{
    if s.len() == 0 {
        Seq::empty()
    } else {
        like_escaped(s.drop_last()) + if is_like_special(s.last()) {
            seq!['^', s.last()]
        } else {
            seq![s.last()]
        }
    }
}

/// `s` with each double quote doubled.
pub open spec fn quotes_doubled(s: Seq<char>) -> Seq<char>
    decreases s.len(),
{
    if s.len() == 0 {
        Seq::empty()
    } else {
        quotes_doubled(s.drop_last()) + if s.last() == '"' {
            seq!['"', '"']
        } else {
            seq![s.last()]
        }
    }
}

/// `s` with each LIKE special character escaped, as a loop writes it.
fn push_like_escaped(out: &mut String, s: &str)
    ensures
        final(out)@ == old(out)@ + like_escaped(s@),
{
    let ghost start = out@;
    for c in it: s.chars()
        invariant
            it.seq() == s@,
            out@ == start + like_escaped(s@.subrange(0, it.index() as int)),
    {
        proof {
            let p = s@.subrange(0, it.index() + 1);
            assert(p.drop_last() == s@.subrange(0, it.index() as int));
            assert(p.last() == c);
        }
        if c == '%' || c == '_' || c == '^' {
            push_char(out, '^');
        }
        push_char(out, c);
    }
    assert(s@.subrange(0, s@.len() as int) == s@);
}

/// The LIKE pattern, with `^` as escape, that matches texts holding the trimmed
/// query; none for a blank query.
pub fn like_contains_pattern(query: &str) -> (r: Option<String>)
    ensures
        trim(query@).len() == 0 ==> r is None,
        trim(query@).len() > 0 ==> (r matches Some(p) && p@ == seq!['%'] + like_escaped(
            trim(query@),
        ) + seq!['%']),
{
    let query = trim_str(query);
    if chars_up_to(query, 1) == 0 {
        return None;
    }
    let mut pattern = String::new();
    push_char(&mut pattern, '%');
    push_like_escaped(&mut pattern, query);
    push_char(&mut pattern, '%');
    Some(pattern)
}

/// The LIKE pattern, with `^` as escape, that matches texts starting with `prefix`.
pub fn like_prefix_pattern(prefix: &str) -> (r: String)
    ensures
        r@ == like_escaped(prefix@) + seq!['%'],
{
    let mut pattern = String::new();
    push_like_escaped(&mut pattern, prefix);
    push_char(&mut pattern, '%');
    pattern
}

/// The number of characters of `s`, counted up to `limit`.
fn chars_up_to(s: &str, limit: usize) -> (r: usize)
    ensures
        r == if s@.len() < limit {
            s@.len() as usize
        } else {
            limit
        },
{
    let mut count: usize = 0;
    for c in it: s.chars()
        invariant
            it.seq() == s@,
            count == if it.index() < limit {
                it.index() as usize
            } else {
                limit
            },
    {
        if count < limit {
            count = count + 1;
        }
    }
    count
}

/// Whether the trimmed query is too short for the trigram index.
pub fn is_short_trigram_query(query: &str) -> (r: bool)
    ensures
        r == (trim(query@).len() < MIN_FTS_TRIGRAM_CHARS),
{
    chars_up_to(trim_str(query), MIN_FTS_TRIGRAM_CHARS) < MIN_FTS_TRIGRAM_CHARS
}

/// The full-text query for the trimmed query as a phrase in `column`; none when it is
/// too short for the trigram index or holds NUL.
pub fn fts_trigram_column_query(column: &str, query: &str) -> (r: Option<String>)
    ensures
        ({
            let q = trim(query@);
            if q.len() < MIN_FTS_TRIGRAM_CHARS || has_char(q, '\0') {
                r is None
            } else {
                r matches Some(s) && s@ == column@ + " : "@ + seq!['"'] + quotes_doubled(q) + seq![
                    '"',
                ]
            }
        }),
{
    let query = trim_str(query);
    if chars_up_to(query, MIN_FTS_TRIGRAM_CHARS) < MIN_FTS_TRIGRAM_CHARS || str_has_char(query, '\0') {
        return None;
    }
    let mut phrase = String::new();
    push_char(&mut phrase, '"');
    let ghost start = phrase@;
    for c in it: query.chars()
        invariant
            it.seq() == query@,
            phrase@ == start + quotes_doubled(query@.subrange(0, it.index() as int)),
    {
        proof {
            let p = query@.subrange(0, it.index() + 1);
            assert(p.drop_last() == query@.subrange(0, it.index() as int));
            assert(p.last() == c);
        }
        if c == '"' {
            push_char(&mut phrase, '"');
        }
        push_char(&mut phrase, c);
    }
    assert(query@.subrange(0, query@.len() as int) == query@);
    push_char(&mut phrase, '"');
    let mut fts_query = to_owned(column);
    push_str(&mut fts_query, " : ");
    push_str(&mut fts_query, phrase.as_str());
    Some(fts_query)
}

/// The full-text query for the trimmed query as a phrase in the content.
pub fn fts_trigram_content_query(query: &str) -> (r: Option<String>)
    ensures
        ({
            let q = trim(query@);
            if q.len() < MIN_FTS_TRIGRAM_CHARS || has_char(q, '\0') {
                r is None
            } else {
                r matches Some(s) && s@ == "content"@ + " : "@ + seq!['"'] + quotes_doubled(q)
                    + seq!['"']
            }
        }),
{
    fts_trigram_column_query("content", query)
}

/// The full-text query for the trimmed query as a phrase in the title.
pub fn fts_trigram_title_query(query: &str) -> (r: Option<String>)
    ensures
        ({
            let q = trim(query@);
            if q.len() < MIN_FTS_TRIGRAM_CHARS || has_char(q, '\0') {
                r is None
            } else {
                r matches Some(s) && s@ == "title"@ + " : "@ + seq!['"'] + quotes_doubled(q)
                    + seq!['"']
            }
        }),
{
    fts_trigram_column_query("title", query)
}

/// `x * m` saturated to the range of `i64`.
pub open spec fn saturating_product(x: i64, m: i64) -> int {
    if x * m > i64::MAX {
        i64::MAX as int
    } else if x * m < i64::MIN {
        i64::MIN as int
    } else {
        x * m
    }
}

/// How many rows a short query scans by content for `limit` results: a multiple of the
/// limit kept between the bounds, but never fewer than the limit.
pub open spec fn short_scan_limit(limit: i64) -> int {
    let scaled = saturating_product(limit, SHORT_QUERY_CONTENT_SCAN_LIMIT_MULTIPLIER);
    let clamped = if scaled < SHORT_QUERY_CONTENT_SCAN_MIN_ROWS {
        SHORT_QUERY_CONTENT_SCAN_MIN_ROWS as int
    } else if scaled > SHORT_QUERY_CONTENT_SCAN_MAX_ROWS {
        SHORT_QUERY_CONTENT_SCAN_MAX_ROWS as int
    } else {
        scaled
    };
    if clamped < limit {
        limit as int
    } else {
        clamped
    }
}

/// The scan bound of a short query, as `short_scan_limit` says.
pub fn short_query_content_scan_limit(limit: i64) -> (r: i64)
    ensures
        r == short_scan_limit(limit),
{
    let scaled_limit = if limit > i64::MAX / SHORT_QUERY_CONTENT_SCAN_LIMIT_MULTIPLIER {
        i64::MAX
    } else if limit < i64::MIN / SHORT_QUERY_CONTENT_SCAN_LIMIT_MULTIPLIER {
        i64::MIN
    } else {
        limit * SHORT_QUERY_CONTENT_SCAN_LIMIT_MULTIPLIER
    };
    let clamped = if scaled_limit < SHORT_QUERY_CONTENT_SCAN_MIN_ROWS {
        SHORT_QUERY_CONTENT_SCAN_MIN_ROWS
    } else if scaled_limit > SHORT_QUERY_CONTENT_SCAN_MAX_ROWS {
        SHORT_QUERY_CONTENT_SCAN_MAX_ROWS
    } else {
        scaled_limit
    };
    if clamped < limit {
        limit
    } else {
        clamped
    }
}

/// The trimmed title a user typed; refused when blank or holding NUL.
pub fn normalize_title_input(title: &str) -> (r: Result<String, AppError>)
    ensures
        is_blank(title@) ==> r == Err::<String, AppError>(AppError::Domain(DomainError::EmptyTitleInput)),
        !is_blank(title@) && has_char(trim(title@), '\0') ==> r == Err::<String, AppError>(
            AppError::Domain(DomainError::EmbeddedNulTitleInput),
        ),
        !is_blank(title@) && !has_char(trim(title@), '\0') ==> (r matches Ok(t) && t@ == trim(
            title@,
        )),
{
    let trimmed = trim_str(title);
    proof {
        crate::text::lemma_trim_empty_iff_blank(title@);
        crate::text::lemma_trim_empty_iff_blank(trimmed@);
        crate::text::lemma_trim_idempotent(title@);
    }
    if crate::text::is_blank_str(trimmed) {
        return Err(AppError::Domain(DomainError::EmptyTitleInput));
    }
    if str_has_char(trimmed, '\0') {
        return Err(AppError::Domain(DomainError::EmbeddedNulTitleInput));
    }
    Ok(to_owned(trimmed))
}

/// `titles` holds `title`.
fn titles_contain(titles: &[String], title: &str) -> (r: bool)
    ensures
        r == exists|i: int| 0 <= i < titles@.len() && titles@[i]@ == title@,
{
    let mut i: usize = 0;
    while i < titles.len()
        invariant
            i <= titles@.len(),
            forall|j: int| 0 <= j < i ==> titles@[j]@ != title@,
        decreases titles@.len() - i,
    {
        if str_eq(titles[i].as_str(), title) {
            return true;
        }
        i = i + 1;
    }
    false
}

/// The error that reports stored documents as inconsistent.
pub open spec fn is_internal_consistency_error(error: AppError) -> bool {
    error matches AppError::User { message } && message@ == INTERNAL_CONSISTENCY_USER_MESSAGE@
}

/// Some title of `titles` is `t`.
pub open spec fn holds_title(titles: Seq<String>, t: Seq<char>) -> bool {
    exists|i: int| 0 <= i < titles.len() && titles[i]@ == t
}

/// The numbered title `base`, a space and `n`.
pub open spec fn numbered_title(base: Seq<char>, n: int) -> Seq<char> {
    base + seq![' '] + decimal(n)
}

/// The text `base`, a space and the decimal number `n`.
fn numbered(base: &str, n: i64) -> (r: String)
    ensures
        r@ == numbered_title(base@, n as int),
{
    let mut s = to_owned(base);
    push_char(&mut s, ' ');
    let digits = format_i64(n);
    push_str(&mut s, digits.as_str());
    s
}

/// The first of `base`, then `base 2`, `base 3` and so on up to the candidate limit,
/// that no sibling has; when all are taken, the stored titles are reported as
/// inconsistent.
pub fn unique_child_title_from_titles(existing_titles: &[String], base_title: &str) -> (r: Result<
    String,
    AppError,
>)
    ensures
        match r {
            Ok(t) => !holds_title(existing_titles@, t@) && (t@ == base_title@ || exists|n: int|
                2 <= n <= DEFAULT_TITLE_CANDIDATE_LIMIT && t@ == numbered_title(base_title@, n)
                    && holds_title(existing_titles@, base_title@) && forall|m: int|
                    2 <= m < n ==> holds_title(existing_titles@, numbered_title(base_title@, m))),
            Err(e) => is_internal_consistency_error(e) && holds_title(existing_titles@, base_title@)
                && forall|m: int|
                2 <= m <= DEFAULT_TITLE_CANDIDATE_LIMIT ==> holds_title(
                    existing_titles@,
                    numbered_title(base_title@, m),
                ),
        },
{
    if !titles_contain(existing_titles, base_title) {
        return Ok(to_owned(base_title));
    }
    let mut suffix: i64 = 2;
    while suffix <= DEFAULT_TITLE_CANDIDATE_LIMIT
        invariant
            2 <= suffix <= DEFAULT_TITLE_CANDIDATE_LIMIT + 1,
            holds_title(existing_titles@, base_title@),
            forall|m: int| 2 <= m < suffix ==> holds_title(existing_titles@, numbered_title(base_title@, m)),
        decreases DEFAULT_TITLE_CANDIDATE_LIMIT + 1 - suffix,
    {
        let candidate = numbered(base_title, suffix);
        if !titles_contain(existing_titles, candidate.as_str()) {
            return Ok(candidate);
        }
        suffix = suffix + 1;
    }
    Err(
        AppError::internal_consistency(
            "choose unique node title",
            "could not find an available default title",
        ),
    )
}

/// Whether a restored node may take `title`: no active sibling has it and it is not
/// reserved for another restored node.
pub fn restored_child_title_available(active_titles: &[String], title: &str, reserved_titles: &[String]) -> (r:
    bool)
    ensures
        r == (!holds_title(reserved_titles@, title@) && !holds_title(active_titles@, title@)),
{
    if titles_contain(reserved_titles, title) {
        return false;
    }
    !titles_contain(active_titles, title)
}

/// What choosing a restored node's title gives: its own title when it is free, else
/// `base (restored)`, else the first free numbered `base (restored) n` up to the
/// candidate limit; when all are taken, the stored titles are reported as inconsistent.
/// A title is free when no active sibling has it and it is not reserved.
pub open spec fn restored_title_result(
    active_titles: Seq<String>,
    base_title: Seq<char>,
    reserved_titles: Seq<String>,
    r: Result<String, AppError>,
) -> bool {
    let free = |t: Seq<char>| !holds_title(reserved_titles, t) && !holds_title(active_titles, t);
    let restored = base_title + " (restored)"@;
    match r {
        Ok(t) => free(t@) && (t@ == base_title || (t@ == restored && !free(base_title)) || exists|n: int|
            2 <= n <= DEFAULT_TITLE_CANDIDATE_LIMIT && t@ == numbered_title(restored, n) && !free(
                base_title,
            ) && !free(restored) && forall|m: int| 2 <= m < n ==> !free(numbered_title(restored, m))),
        Err(e) => is_internal_consistency_error(e) && !free(base_title) && !free(restored) && forall|m: int|
            2 <= m <= DEFAULT_TITLE_CANDIDATE_LIMIT ==> !free(numbered_title(restored, m)),
    }
}

/// The title a restored node takes, as `restored_title_result` says.
pub fn unique_restored_child_title_from_titles(
    active_titles: &[String],
    base_title: &str,
    reserved_titles: &[String],
) -> (r: Result<String, AppError>)
    ensures
        restored_title_result(active_titles@, base_title@, reserved_titles@, r),
{
    if restored_child_title_available(active_titles, base_title, reserved_titles) {
        return Ok(to_owned(base_title));
    }
    let mut restored_base = to_owned(base_title);
    push_str(&mut restored_base, " (restored)");
    if restored_child_title_available(active_titles, restored_base.as_str(), reserved_titles) {
        return Ok(restored_base);
    }
    let mut suffix: i64 = 2;
    while suffix <= DEFAULT_TITLE_CANDIDATE_LIMIT
        invariant
            2 <= suffix <= DEFAULT_TITLE_CANDIDATE_LIMIT + 1,
            restored_base@ == base_title@ + " (restored)"@,
            holds_title(reserved_titles@, base_title@) || holds_title(active_titles@, base_title@),
            holds_title(reserved_titles@, restored_base@) || holds_title(active_titles@, restored_base@),
            forall|m: int|
                2 <= m < suffix ==> holds_title(reserved_titles@, numbered_title(restored_base@, m))
                    || holds_title(active_titles@, numbered_title(restored_base@, m)),
        decreases DEFAULT_TITLE_CANDIDATE_LIMIT + 1 - suffix,
    {
        let candidate = numbered(restored_base.as_str(), suffix);
        if restored_child_title_available(active_titles, candidate.as_str(), reserved_titles) {
            return Ok(candidate);
        }
        suffix = suffix + 1;
    }
    Err(
        AppError::internal_consistency(
            "choose restored node title",
            "could not find an available restored title",
        ),
    )
}

/// How a search runs on the database.
#[derive(Debug)]
pub enum SearchPlan {
    /// No result can match: nothing is asked of the database.
    Nothing,
    /// A query too short for the trigram index: titles first, then a bounded content scan.
    Short { pattern: String, limit: i64, content_scan_limit: i64 },
    /// The trigram index, by title and by content.
    FullText { pattern: String, title_query: String, content_query: String, limit: i64 },
    /// A plain LIKE scan, for a query the index cannot take.
    Like { pattern: String, limit: i64 },
}

/// The LIKE pattern for a trimmed, non-blank query.
pub open spec fn contains_pattern(q: Seq<char>) -> Seq<char> {
    seq!['%'] + like_escaped(q) + seq!['%']
}

pub open spec fn column_phrase_query(column: Seq<char>, q: Seq<char>) -> Seq<char> {
    column + " : "@ + seq!['"'] + quotes_doubled(q) + seq!['"']
}

/// Which search runs for `query` with at most `limit` results: none for no results or a
/// blank query; the short search below the trigram length; the full-text search when
/// the query has no NUL; a LIKE scan otherwise.
pub fn search_plan(query: &str, limit: usize) -> (r: Result<SearchPlan, AppError>)
    ensures
        ({
            let q = trim(query@);
            &&& (limit == 0 || q.len() == 0) ==> (r matches Ok(SearchPlan::Nothing))
            &&& (limit > 0 && q.len() > 0 && limit > i64::MAX) ==> (r matches Err(
                AppError::Platform { action, message, .. },
            ) && action@ == "search SQLite documents"@ && message@ == "search limit is invalid"@)
            &&& (limit > 0 && q.len() > 0 && limit <= i64::MAX && q.len() < MIN_FTS_TRIGRAM_CHARS)
                ==> (r matches Ok(SearchPlan::Short { pattern, limit: l, content_scan_limit: c })
                && pattern@ == contains_pattern(q) && l == limit && c == short_scan_limit(
                limit as i64,
            ))
            &&& (limit > 0 && q.len() >= MIN_FTS_TRIGRAM_CHARS && limit <= i64::MAX && !has_char(
                q,
                '\0',
            )) ==> (r matches Ok(SearchPlan::FullText { pattern, title_query, content_query, limit: l })
                && pattern@ == contains_pattern(q) && title_query@ == column_phrase_query("title"@, q)
                && content_query@ == column_phrase_query("content"@, q) && l == limit)
            &&& (limit > 0 && q.len() >= MIN_FTS_TRIGRAM_CHARS && limit <= i64::MAX && has_char(
                q,
                '\0',
            )) ==> (r matches Ok(SearchPlan::Like { pattern, limit: l }) && pattern@
                == contains_pattern(q) && l == limit)
        }),
{
    if limit == 0 {
        return Ok(SearchPlan::Nothing);
    }
    let pattern = match like_contains_pattern(query) {
        Some(pattern) => pattern,
        None => return Ok(SearchPlan::Nothing),
    };
    let title_query = fts_trigram_title_query(query);
    let content_query = fts_trigram_content_query(query);
    let is_short = is_short_trigram_query(query);
    if limit as u64 > i64::MAX as u64 {
        return Err(AppError::platform("search SQLite documents", "search limit is invalid"));
    }
    let sql_limit = limit as i64;
    if is_short && !(title_query.is_some() && content_query.is_some()) {
        let content_scan_limit = short_query_content_scan_limit(sql_limit);
        return Ok(SearchPlan::Short { pattern, limit: sql_limit, content_scan_limit });
    }
    match (title_query, content_query) {
        (Some(title_query), Some(content_query)) => Ok(
            SearchPlan::FullText { pattern, title_query, content_query, limit: sql_limit },
        ),
        _ => Ok(SearchPlan::Like { pattern, limit: sql_limit }),
    }
}

} // verus!
