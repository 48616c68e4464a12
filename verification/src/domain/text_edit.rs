//! Literal find and replace over document text. Positions are byte offsets into
//! the UTF-8 encoding of the text.
use std::borrow::Cow;
use vstd::prelude::*;
use vstd::utf8::{decode_utf8, encode_utf8, is_char_boundary, valid_utf8};
use crate::text::{
    lemma_match_boundaries, lemma_valid_between_boundaries, replace_byte_range, str_bytes,
    string_from_utf8, to_owned,
};

verus! {

broadcast use vstd::string::group_string_axioms;

#[derive(Debug, Clone, Copy, PartialEq, Eq, Structural)]
pub struct TextMatch {
    pub start: usize,
    pub end: usize,
}

#[derive(Debug, PartialEq, Eq)]
pub struct ReplaceAllResult<'a> {
    pub content: Cow<'a, str>,
    pub count: usize,
}

#[derive(Debug, Clone, Copy, PartialEq, Eq, Structural)]
pub enum ReplaceAllError {
    OutputTooLarge { limit: usize },
    OutputSizeOverflow,
    OutputAllocationFailed { requested: usize },
}

#[derive(Debug, Clone, PartialEq, Eq)]
pub struct ReplaceOneResult {
    pub content: String,
    pub replaced: TextMatch,
}

/// `n` occurs in `b` at byte position `p`.
pub open spec fn occurs_at(b: Seq<u8>, n: Seq<u8>, p: int) -> bool {
    0 <= p && p + n.len() <= b.len() && b.subrange(p, p + n.len()) == n
}

/// The first position at or after `from` where `n` occurs in `b`.
pub open spec fn first_occurrence(b: Seq<u8>, n: Seq<u8>, from: int) -> Option<int> {
    if exists|p: int| from <= p && occurs_at(b, n, p) {
        Some(choose|p: int| from <= p && occurs_at(b, n, p) && forall|q: int| from <= q < p ==> !occurs_at(b, n, q))
    } else {
        None
    }
}

/// Replaces, from byte `i` on, every occurrence of `n` in `b` by `r`, scanning left to
/// right and never overlapping two occurrences; also counts the replacements.
pub open spec fn replace_from(b: Seq<u8>, n: Seq<u8>, r: Seq<u8>, i: int) -> (Seq<u8>, nat)
    recommends
        n.len() > 0,
    decreases b.len() - i,
    when n.len() > 0 && 0 <= i
{
    if i >= b.len() {
        (Seq::empty(), 0)
    } else if occurs_at(b, n, i) {
        let rest = replace_from(b, n, r, i + n.len());
        (r + rest.0, rest.1 + 1)
    } else {
        let rest = replace_from(b, n, r, i + 1);
        (seq![b[i]] + rest.0, rest.1)
    }
}

/// The literal `needle` at byte `start` of `content`, when it is there.
pub open spec fn literal_at(content: Seq<char>, needle: Seq<char>, start: int) -> bool {
    let b = encode_utf8(content);
    let n = encode_utf8(needle);
    &&& n.len() > 0
    &&& is_char_boundary(b, start)
    &&& occurs_at(b, n, start)
}

/// `content` with the literal `needle` at byte `start` replaced by `replacement`, as bytes.
pub open spec fn replaced_at(
    content: Seq<char>,
    needle: Seq<char>,
    replacement: Seq<char>,
    start: int,
) -> Seq<u8> {
    let b = encode_utf8(content);
    b.subrange(0, start) + encode_utf8(replacement) + b.subrange(
        start + encode_utf8(needle).len(),
        b.len() as int,
    )
}

proof fn lemma_occurrence_search_step(b: Seq<u8>, n: Seq<u8>, from: int, p: int)
    requires
        from <= p,
        forall|q: int| from <= q < p ==> !occurs_at(b, n, q),
        occurs_at(b, n, p),
    ensures
        first_occurrence(b, n, from) == Some(p),
{
    let c = choose|c: int|
        from <= c && occurs_at(b, n, c) && forall|q: int| from <= q < c ==> !occurs_at(b, n, q);
    if c < p {
    } else if c > p {
    }
}

/// Whether `n` occurs in `b` at `p`.
pub(crate) fn bytes_occur_at(b: &[u8], n: &[u8], p: usize) -> (r: bool)
    ensures
        r == occurs_at(b@, n@, p as int),
{
    if p > b.len() || n.len() > b.len() - p {
        return false;
    }
    let mut j: usize = 0;
    while j < n.len()
        invariant
            p + n.len() <= b.len(),
            0 <= j <= n@.len(),
            forall|k: int| 0 <= k < j ==> b@[p + k] == n@[k],
        decreases n@.len() - j,
    {
        if b[p + j] != n[j] {
            assert(b@.subrange(p as int, p + n@.len())[j as int] != n@[j as int]);
            return false;
        }
        j = j + 1;
    }
    assert(b@.subrange(p as int, p + n@.len()) == n@);
    true
}

/// The first position at or after `from` where `n` occurs in `b`.
fn next_occurrence(b: &[u8], n: &[u8], from: usize) -> (r: Option<usize>)
    requires
        n@.len() > 0,
        from <= b@.len(),
    ensures
        match r {
            Some(p) => from <= p && occurs_at(b@, n@, p as int) && forall|q: int|
                from <= q < p ==> !occurs_at(b@, n@, q),
            None => forall|q: int| from <= q ==> !occurs_at(b@, n@, q),
        },
{
    let mut p = from;
    while p < b.len()
        invariant
            from <= p <= b@.len(),
            n@.len() > 0,
            forall|q: int| from <= q < p ==> !occurs_at(b@, n@, q),
        decreases b@.len() - p,
    {
        if bytes_occur_at(b, n, p) {
            return Some(p);
        }
        p = p + 1;
    }
    assert forall|q: int| from <= q implies !occurs_at(b@, n@, q) by {
        if q >= b@.len() {
            assert(q + n@.len() > b@.len());
        }
    }
    None
}

/// The byte range of the first occurrence of `needle` in `content` at or after byte
/// `start` (taken as the end of the text when it lies past it); none for an empty
/// needle or a start inside a character.
pub fn find_next_literal(content: &str, needle: &str, start: usize) -> (r: Option<TextMatch>)
    ensures
        ({
            let b = encode_utf8(content@);
            let n = encode_utf8(needle@);
            let from = if start <= b.len() {
                start as int
            } else {
                b.len() as int
            };
            if n.len() == 0 || !is_char_boundary(b, from) {
                r is None
            } else {
                match first_occurrence(b, n, from) {
                    Some(p) => r == Some(TextMatch { start: p as usize, end: (p + n.len()) as usize }),
                    None => r is None,
                }
            }
        }),
{
    let b = str_bytes(content);
    let n = str_bytes(needle);
    if n.len() == 0 {
        return None;
    }
    let from = if start <= b.len() {
        start
    } else {
        b.len()
    };
    if !content.is_char_boundary(from) {
        return None;
    }
    match next_occurrence(b, n, from) {
        Some(p) => {
            proof {
                lemma_occurrence_search_step(b@, n@, from as int, p as int);
            }
            Some(TextMatch { start: p, end: p + n.len() })
        },
        None => None,
    }
}

/// The range of the literal `needle` at byte `start` of `content`, when it is there.
fn literal_match_at(content: &str, needle: &str, start: usize) -> (r: Option<TextMatch>)
    ensures
        r is Some <==> literal_at(content@, needle@, start as int),
        r matches Some(m) ==> m.start == start && m.end == start + encode_utf8(needle@).len(),
{
    let b = str_bytes(content);
    let n = str_bytes(needle);
    if n.len() == 0 || start > b.len() || !content.is_char_boundary(start) {
        return None;
    }
    if n.len() > b.len() - start {
        return None;
    }
    let end = start + n.len();
    if !content.is_char_boundary(end) || !bytes_occur_at(b, n, start) {
        proof {
            if is_char_boundary(b@, start as int) && occurs_at(b@, n@, start as int) {
                lemma_match_boundaries(b@, n@, start as int);
            }
        }
        return None;
    }
    Some(TextMatch { start, end })
}

/// Appends `b[from..to]` to `out`.
fn push_bytes(out: &mut Vec<u8>, b: &[u8], from: usize, to: usize)
    requires
        from <= to <= b@.len(),
    ensures
        final(out)@ == old(out)@ + b@.subrange(from as int, to as int),
{
    let ghost start = out@;
    let mut i = from;
    while i < to
        invariant
            from <= i <= to <= b@.len(),
            out@ == start + b@.subrange(from as int, i as int),
        decreases to - i,
    {
        out.push(b[i]);
        assert(b@.subrange(from as int, i + 1) == b@.subrange(from as int, i as int).push(b@[i as int]));
        i = i + 1;
    }
}

/// `content` with the literal `needle` at byte `start` replaced by `replacement`; none
/// when the literal is not at `start` or the result length overflows.
pub fn replace_literal_at(content: &str, needle: &str, replacement: &str, start: usize) -> (r:
    Option<ReplaceOneResult>)
    ensures
        ({
            let b = encode_utf8(content@);
            let n = encode_utf8(needle@);
            let rb = encode_utf8(replacement@);
            if !literal_at(content@, needle@, start as int) || b.len() - n.len() + rb.len()
                > usize::MAX {
                r is None
            } else {
                r matches Some(res) && res.replaced == TextMatch {
                    start,
                    end: (start + n.len()) as usize,
                } && encode_utf8(res.content@) == replaced_at(
                    content@,
                    needle@,
                    replacement@,
                    start as int,
                )
            }
        }),
{
    literal_match_at(content, needle, start)?;
    let b = str_bytes(content);
    let n = str_bytes(needle);
    let rb = str_bytes(replacement);
    let total = (b.len() - n.len()).checked_add(rb.len());
    if total.is_none() {
        return None;
    }
    let mut next_content = to_owned(content);
    let replaced = replace_literal_at_in_place(&mut next_content, needle, replacement, start)?;
    Some(ReplaceOneResult { content: next_content, replaced })
}

/// Replaces the literal `needle` at byte `start` of `content` by `replacement`, in place.
pub fn replace_literal_at_in_place(
    content: &mut String,
    needle: &str,
    replacement: &str,
    start: usize,
) -> (r: Option<TextMatch>)
    ensures
        r is Some <==> literal_at(old(content)@, needle@, start as int),
        r matches Some(m) ==> m.start == start && m.end == start + encode_utf8(needle@).len()
            && encode_utf8(final(content)@) == replaced_at(
            old(content)@,
            needle@,
            replacement@,
            start as int,
        ),
        r is None ==> final(content)@ == old(content)@,
{
    let m = literal_match_at(content.as_str(), needle, start);
    match m {
        Some(m) => {
            proof {
                vstd::utf8::encode_utf8_valid_utf8(content@);
                vstd::utf8::encode_utf8_valid_utf8(needle@);
                lemma_match_boundaries(encode_utf8(content@), encode_utf8(needle@), start as int);
            }
            replace_byte_range(content, m.start, m.end, replacement);
            Some(m)
        },
        None => None,
    }
}

/// Replacing from a position up to the next occurrence copies the bytes in between.
proof fn lemma_replace_from_skip(b: Seq<u8>, n: Seq<u8>, r: Seq<u8>, i: int, p: int)
    requires
        n.len() > 0,
        0 <= i <= p <= b.len(),
        forall|q: int| i <= q < p ==> !occurs_at(b, n, q),
    ensures
        replace_from(b, n, r, i) == (b.subrange(i, p) + replace_from(b, n, r, p).0, replace_from(
            b,
            n,
            r,
            p,
        ).1),
    decreases p - i,
{
    if i < p {
        lemma_replace_from_skip(b, n, r, i + 1, p);
        assert(b.subrange(i, p) == seq![b[i]] + b.subrange(i + 1, p));
        assert(seq![b[i]] + (b.subrange(i + 1, p) + replace_from(b, n, r, p).0) == b.subrange(i, p)
            + replace_from(b, n, r, p).0);
    } else {
        assert(b.subrange(i, p) + replace_from(b, n, r, p).0 == replace_from(b, n, r, p).0);
    }
}

/// Replacing after the last occurrence copies the rest of the bytes.
proof fn lemma_replace_from_rest(b: Seq<u8>, n: Seq<u8>, r: Seq<u8>, i: int)
    requires
        n.len() > 0,
        0 <= i <= b.len(),
        forall|q: int| i <= q ==> !occurs_at(b, n, q),
    ensures
        replace_from(b, n, r, i) == (b.subrange(i, b.len() as int), 0nat),
{
    lemma_replace_from_skip(b, n, r, i, b.len() as int);
    assert(b.subrange(i, b.len() as int) + Seq::<u8>::empty() == b.subrange(i, b.len() as int));
}

/// Replacing a literal by itself leaves the bytes as they are.
proof fn lemma_replace_from_identity(b: Seq<u8>, n: Seq<u8>, i: int)
    requires
        n.len() > 0,
        0 <= i <= b.len(),
    ensures
        replace_from(b, n, n, i).0 == b.subrange(i, b.len() as int),
    decreases b.len() - i,
{
    if i < b.len() {
        if occurs_at(b, n, i) {
            lemma_replace_from_identity(b, n, i + n.len());
            assert(b.subrange(i, b.len() as int) == n + b.subrange(i + n.len(), b.len() as int));
        } else {
            lemma_replace_from_identity(b, n, i + 1);
            assert(b.subrange(i, b.len() as int) == seq![b[i]] + b.subrange(i + 1, b.len() as int));
        }
    }
}

/// What an error of a replace-all says of an output of `total` bytes that the limit
/// does not hold, when no piece appended to the output is longer than `longest` bytes:
/// the output is too large for the limit, and the length overflows instead only where
/// the limit and such a piece together pass `usize::MAX`.
pub open spec fn replace_all_error_fits(e: ReplaceAllError, total: int, limit: usize, longest: int) -> bool {
    &&& total > limit
    &&& (e == ReplaceAllError::OutputTooLarge { limit } || (e == ReplaceAllError::OutputSizeOverflow
        && total > usize::MAX && limit + longest > usize::MAX))
}

/// The length of the output after `added` more bytes, when it stays within the limit.
fn checked_replace_all_result_len(current: usize, added: usize, output_byte_limit: usize) -> (r:
    Result<usize, ReplaceAllError>)
    ensures
        current + added <= output_byte_limit ==> r == Ok::<usize, ReplaceAllError>(
            (current + added) as usize,
        ),
        current + added > usize::MAX ==> r == Err::<usize, ReplaceAllError>(
            ReplaceAllError::OutputSizeOverflow,
        ),
        output_byte_limit < current + added <= usize::MAX ==> r == Err::<usize, ReplaceAllError>(
            ReplaceAllError::OutputTooLarge { limit: output_byte_limit },
        ),
{
    let next = match current.checked_add(added) {
        Some(next) => next,
        None => return Err(ReplaceAllError::OutputSizeOverflow),
    };
    if next > output_byte_limit {
        return Err(ReplaceAllError::OutputTooLarge { limit: output_byte_limit });
    }
    Ok(next)
}

/// Appends `seg[from..to]` to the output when the output then stays within the limit.
fn push_replace_all_segment(
    result: &mut Vec<u8>,
    seg: &[u8],
    from: usize,
    to: usize,
    output_byte_limit: usize,
) -> (r: Result<usize, ReplaceAllError>)
    requires
        from <= to <= seg@.len(),
        old(result)@.len() <= output_byte_limit,
    ensures
        match r {
            Ok(len) => {
                &&& final(result)@ == old(result)@ + seg@.subrange(from as int, to as int)
                &&& len == final(result)@.len() <= output_byte_limit
            },
            Err(e) => replace_all_error_fits(
                e,
                old(result)@.len() + (to - from),
                output_byte_limit,
                to - from,
            ),
        },
{
    let next_len = checked_replace_all_result_len(result.len(), to - from, output_byte_limit)?;
    push_bytes(result, seg, from, to);
    Ok(next_len)
}

/// Counts the occurrences from byte `i` on.
fn count_occurrences(b: &[u8], n: &[u8], i: usize) -> (count: usize)
    requires
        n@.len() > 0,
        i <= b@.len(),
    ensures
        count == replace_from(b@, n@, n@, i as int).1,
{
    let blen = b.len();
    let mut pos = i;
    let mut count: usize = 0;
    loop
        invariant
            n@.len() > 0,
            blen == b@.len(),
            i <= pos <= b@.len(),
            count <= pos,
            count + replace_from(b@, n@, n@, pos as int).1 == replace_from(b@, n@, n@, i as int).1,
        decreases b@.len() - pos,
    {
        match next_occurrence(b, n, pos) {
            Some(p) => {
                proof {
                    lemma_replace_from_skip(b@, n@, n@, pos as int, p as int);
                }
                count = count + 1;
                pos = p + n.len();
            },
            None => {
                proof {
                    lemma_replace_from_rest(b@, n@, n@, pos as int);
                }
                return count;
            },
        }
    }
}

/// `content` with every occurrence of the literal `needle` replaced by `replacement`,
/// scanning from the start and never overlapping two occurrences, and the number of
/// replacements. The content is handed back as it is when nothing changes: for an empty
/// needle, when the needle does not occur, and when the replacement equals the needle.
/// Fails when the output would exceed `output_byte_limit` bytes.
pub fn replace_all_literal<'a>(
    content: &'a str,
    needle: &str,
    replacement: &str,
    output_byte_limit: usize,
) -> (r: Result<ReplaceAllResult<'a>, ReplaceAllError>)
    ensures
        ({
            let b = encode_utf8(content@);
            let n = encode_utf8(needle@);
            let out = replace_from(b, n, encode_utf8(replacement@), 0);
            if n.len() == 0 {
                r matches Ok(res) && res.content@ == content@ && res.count == 0
                    && res.content is Borrowed
            } else if out.0.len() <= output_byte_limit {
                r matches Ok(res) && encode_utf8(res.content@) == out.0 && res.count == out.1 && (
                res.content is Borrowed <==> (out.1 == 0 || needle@ == replacement@)) && (
                res.content is Borrowed ==> res.content@ == content@)
            } else {
                r matches Err(e) && replace_all_error_fits(
                    e,
                    out.0.len() as int,
                    output_byte_limit,
                    (b.len() + encode_utf8(replacement@).len()) as int,
                )
            }
        }),
{
    let b = str_bytes(content);
    let n = str_bytes(needle);
    let rb = str_bytes(replacement);
    if n.len() == 0 {
        return Ok(ReplaceAllResult { content: Cow::Borrowed(content), count: 0 });
    }
    let ghost total = replace_from(b@, n@, rb@, 0);
    let first = next_occurrence(b, n, 0);
    if first.is_none() || crate::text::str_eq(needle, replacement) {
        let count = count_occurrences(b, n, 0);
        proof {
            if first.is_none() {
                lemma_replace_from_rest(b@, n@, rb@, 0);
                lemma_replace_from_rest(b@, n@, n@, 0);
            } else {
                lemma_replace_from_identity(b@, n@, 0);
            }
            assert(b@.subrange(0, b@.len() as int) == b@);
        }
        checked_replace_all_result_len(0, b.len(), output_byte_limit)?;
        return Ok(ReplaceAllResult { content: Cow::Borrowed(content), count });
    }
    proof {
        vstd::utf8::encode_utf8_decode_utf8(needle@);
        vstd::utf8::encode_utf8_decode_utf8(replacement@);
        vstd::utf8::is_char_boundary_start_end_of_seq(b@);
    }
    proof {
        if let Some(p0) = first {
            lemma_replace_from_skip(b@, n@, rb@, 0, p0 as int);
        }
    }
    let blen = b.len();
    let mut out: Vec<u8> = Vec::new();
    let mut i: usize = 0;
    let mut count: usize = 0;
    assert(out@ + replace_from(b@, n@, rb@, 0).0 == total.0);
    loop
        invariant
            n@.len() > 0,
            blen == b@.len(),
            b@ == encode_utf8(content@),
            n@ == encode_utf8(needle@),
            rb@ == encode_utf8(replacement@),
            needle@ != replacement@,
            total.1 > 0,
            vstd::utf8::valid_utf8(b@),
            vstd::utf8::valid_utf8(n@),
            vstd::utf8::valid_utf8(rb@),
            n@ != rb@,
            total == replace_from(b@, n@, rb@, 0),
            i <= b@.len(),
            count <= i,
            is_char_boundary(b@, i as int),
            vstd::utf8::valid_utf8(out@),
            out@.len() <= output_byte_limit,
            out@ + replace_from(b@, n@, rb@, i as int).0 == total.0,
            count + replace_from(b@, n@, rb@, i as int).1 == total.1,
        decreases b@.len() - i,
    {
        match next_occurrence(b, n, i) {
            Some(p) => {
                let ghost rest = replace_from(b@, n@, rb@, p + n@.len());
                proof {
                    lemma_replace_from_skip(b@, n@, rb@, i as int, p as int);
                    lemma_match_boundaries(b@, n@, p as int);
                    lemma_valid_between_boundaries(b@, i as int, p as int);
                    assert(replace_from(b@, n@, rb@, p as int) == (rb@ + rest.0, rest.1 + 1));
                    assert(total.0 == out@ + b@.subrange(i as int, p as int) + rb@ + rest.0);
                    assert(total.0.len() == out@.len() + (p - i) + rb@.len() + rest.0.len());
                }
                let ghost before = out@;
                push_replace_all_segment(&mut out, b, i, p, output_byte_limit)?;
                let ghost mid = out@;
                push_replace_all_segment(&mut out, rb, 0, rb.len(), output_byte_limit)?;
                proof {
                    assert(rb@.subrange(0, rb@.len() as int) == rb@);
                    vstd::utf8::valid_utf8_concat(before, b@.subrange(i as int, p as int));
                    vstd::utf8::valid_utf8_concat(mid, rb@);
                    assert(out@ + rest.0 == total.0);
                }
                count = count + 1;
                i = p + n.len();
            },
            None => {
                proof {
                    lemma_replace_from_rest(b@, n@, rb@, i as int);
                    vstd::utf8::is_char_boundary_start_end_of_seq(b@);
                    lemma_valid_between_boundaries(b@, i as int, b@.len() as int);
                }
                let ghost before = out@;
                push_replace_all_segment(&mut out, b, i, b.len(), output_byte_limit)?;
                proof {
                    vstd::utf8::valid_utf8_concat(before, b@.subrange(i as int, b@.len() as int));
                }
                let ghost bytes = out@;
                let text = match string_from_utf8(out) {
                    Some(text) => text,
                    None => {
                        proof {
                            assert(false);
                        }
                        String::new()
                    },
                };
                proof {
                    vstd::utf8::decode_utf8_encode_utf8(bytes);
                }
                return Ok(ReplaceAllResult { content: Cow::Owned(text), count });
            },
        }
    }
}

} // verus!
