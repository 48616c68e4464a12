//! Character-level text helpers shared by the domain and infrastructure layers.
//!
//! Text is modelled by its `Seq<char>` view. The helpers here cover the small
//! parts of `str` behaviour that the rest of the library relies on: Unicode
//! whitespace trimming, searching for a character, ASCII case folding,
//! equality, and decimal integer formatting and parsing.
use vstd::prelude::*;

verus! {

broadcast use vstd::string::group_string_axioms;

/// The Unicode `White_Space` property, which `char::is_whitespace` implements.
pub open spec fn is_whitespace(c: char) -> bool {
    ||| ('\u{9}' <= c && c <= '\u{d}')
    ||| c == ' '
    ||| c == '\u{85}'
    ||| c == '\u{a0}'
    ||| c == '\u{1680}'
    ||| ('\u{2000}' <= c && c <= '\u{200a}')
    ||| c == '\u{2028}'
    ||| c == '\u{2029}'
    ||| c == '\u{202f}'
    ||| c == '\u{205f}'
    ||| c == '\u{3000}'
}

/// `s` without its leading whitespace.
pub open spec fn trim_start(s: Seq<char>) -> Seq<char>
    decreases s.len(),
{
    if s.len() > 0 && is_whitespace(s[0]) {
        trim_start(s.drop_first())
    } else {
        s
    }
}

/// `s` without its trailing whitespace.
pub open spec fn trim_end(s: Seq<char>) -> Seq<char>
    decreases s.len(),
{
    if s.len() > 0 && is_whitespace(s.last()) {
        trim_end(s.drop_last())
    } else {
        s
    }
}

/// `s` without leading and trailing whitespace, as `str::trim` returns it.
pub open spec fn trim(s: Seq<char>) -> Seq<char> {
    trim_end(trim_start(s))
}

/// Every character of `s` is whitespace (so `s.trim()` is empty).
pub open spec fn is_blank(s: Seq<char>) -> bool {
    forall|i: int| 0 <= i < s.len() ==> is_whitespace(#[trigger] s[i])
}

/// `s` holds the character `c`.
pub open spec fn has_char(s: Seq<char>, c: char) -> bool {
    exists|i: int| 0 <= i < s.len() && s[i] == c
}

pub open spec fn ascii_lower_char(c: char) -> char {
    if 'A' <= c && c <= 'Z' {
        ((c as u32) + 32) as char
    } else {
        c
    }
}

/// `s` with ASCII capitals mapped to lower case, as `str::to_ascii_lowercase` returns it.
pub open spec fn ascii_lower(s: Seq<char>) -> Seq<char> {
    Seq::new(s.len(), |i: int| ascii_lower_char(s[i]))
}

pub proof fn lemma_trim_start_suffix(s: Seq<char>)
    ensures
        exists|k: int| 0 <= k <= s.len() && trim_start(s) == s.subrange(k, s.len() as int),
        trim_start(s).len() > 0 ==> !is_whitespace(trim_start(s)[0]),
        trim_start(s).len() == 0 <==> is_blank(s),
    decreases s.len(),
{
    if s.len() > 0 && is_whitespace(s[0]) {
        lemma_trim_start_suffix(s.drop_first());
        let k = choose|k: int|
            0 <= k <= s.drop_first().len() && trim_start(s.drop_first()) == s.drop_first().subrange(
                k,
                s.drop_first().len() as int,
            );
        assert(s.drop_first().subrange(k, s.drop_first().len() as int) == s.subrange(
            k + 1,
            s.len() as int,
        ));
        if is_blank(s.drop_first()) {
            assert forall|i: int| 0 <= i < s.len() implies is_whitespace(#[trigger] s[i]) by {
                if i > 0 {
                    assert(s[i] == s.drop_first()[i - 1]);
                }
            }
        }
        if is_blank(s) {
            assert forall|i: int| 0 <= i < s.drop_first().len() implies is_whitespace(
                #[trigger] s.drop_first()[i],
            ) by {
                assert(s.drop_first()[i] == s[i + 1]);
            }
        }
    } else {
        assert(s.subrange(0, s.len() as int) == s);
        if s.len() > 0 {
            assert(!is_whitespace(s[0]));
        }
    }
}

pub proof fn lemma_trim_end_prefix(s: Seq<char>)
    ensures
        exists|k: int| 0 <= k <= s.len() && trim_end(s) == s.subrange(0, k),
        trim_end(s).len() > 0 ==> !is_whitespace(trim_end(s).last()),
        trim_end(s).len() == 0 <==> is_blank(s),
    decreases s.len(),
{
    if s.len() > 0 && is_whitespace(s.last()) {
        lemma_trim_end_prefix(s.drop_last());
        let k = choose|k: int|
            0 <= k <= s.drop_last().len() && trim_end(s.drop_last()) == s.drop_last().subrange(
                0,
                k,
            );
        assert(s.drop_last().subrange(0, k) == s.subrange(0, k));
        if is_blank(s.drop_last()) {
            assert forall|i: int| 0 <= i < s.len() implies is_whitespace(#[trigger] s[i]) by {
                if i < s.len() - 1 {
                    assert(s[i] == s.drop_last()[i]);
                }
            }
        }
        if is_blank(s) {
            assert forall|i: int| 0 <= i < s.drop_last().len() implies is_whitespace(
                #[trigger] s.drop_last()[i],
            ) by {
                assert(s.drop_last()[i] == s[i]);
            }
        }
    } else {
        assert(s.subrange(0, s.len() as int) == s);
    }
}

/// The trimmed text is empty exactly when the text is blank.
pub proof fn lemma_trim_empty_iff_blank(s: Seq<char>)
    ensures
        (trim(s).len() == 0) <==> is_blank(s),
{
    lemma_trim_start_suffix(s);
    lemma_trim_end_prefix(trim_start(s));
}

/// Text that neither starts nor ends with whitespace is its own trim.
pub proof fn lemma_trim_identity(s: Seq<char>)
    requires
        s.len() > 0 ==> !is_whitespace(s[0]) && !is_whitespace(s.last()),
    ensures
        trim(s) == s,
{
}

/// A trimmed text neither starts nor ends with whitespace.
pub proof fn lemma_trim_idempotent(s: Seq<char>)
    ensures
        trim(trim(s)) == trim(s),
{
    lemma_trim_start_suffix(s);
    lemma_trim_end_prefix(trim_start(s));
    let t = trim(s);
    if t.len() > 0 {
        let k = choose|k: int|
            0 <= k <= trim_start(s).len() && trim_end(trim_start(s)) == trim_start(s).subrange(
                0,
                k,
            );
        assert(t[0] == trim_start(s)[0]);
    }
    lemma_trim_identity(t);
}

/// Whether `c` is whitespace, as `char::is_whitespace` decides it.
pub fn char_is_whitespace(c: char) -> (r: bool)
    ensures
        r == is_whitespace(c),
{
    ('\u{9}' <= c && c <= '\u{d}') || c == ' ' || c == '\u{85}' || c == '\u{a0}' || c == '\u{1680}'
        || ('\u{2000}' <= c && c <= '\u{200a}') || c == '\u{2028}' || c == '\u{2029}' || c
        == '\u{202f}' || c == '\u{205f}' || c == '\u{3000}'
}

/// `str::trim`: the slice without leading and trailing Unicode whitespace.
#[verifier::external_body]
pub fn trim_str(s: &str) -> (r: &str)
    ensures
        r@ == trim(s@),
{
    s.trim()
}

/// Whether `s` is empty once trimmed.
pub fn is_blank_str(s: &str) -> (r: bool)
    ensures
        r == is_blank(s@),
        r == (trim(s@).len() == 0),
{
    proof {
        lemma_trim_empty_iff_blank(s@);
    }
    let mut blank = true;
    for c in it: s.chars()
        invariant
            it.seq() == s@,
            blank == (forall|i: int| 0 <= i < it.index() ==> is_whitespace(#[trigger] s@[i])),
    {
        if !char_is_whitespace(c) {
            blank = false;
        }
    }
    blank
}

/// Whether `s` holds the character `needle`.
pub fn str_has_char(s: &str, needle: char) -> (r: bool)
    ensures
        r == has_char(s@, needle),
{
    let mut found = false;
    for c in it: s.chars()
        invariant
            it.seq() == s@,
            found == (exists|i: int| 0 <= i < it.index() && s@[i] == needle),
    {
        if c == needle {
            found = true;
        }
    }
    found
}

/// Whether two string slices hold the same characters.
pub fn str_eq(a: &str, b: &str) -> (r: bool)
    ensures
        r == (a@ == b@),
{

    let ab = a.as_bytes();
    let bb = b.as_bytes();
    proof {
        vstd::utf8::encode_utf8_decode_utf8(a@);
        vstd::utf8::encode_utf8_decode_utf8(b@);
    }
    if ab.len() != bb.len() {
        return false;
    }
    let mut i: usize = 0;
    while i < ab.len()
        invariant
            ab@.len() == bb@.len(),
            ab@ == vstd::utf8::encode_utf8(a@),
            bb@ == vstd::utf8::encode_utf8(b@),
            0 <= i <= ab@.len(),
            forall|j: int| 0 <= j < i ==> ab@[j] == bb@[j],
        decreases ab@.len() - i,
    {
        if ab[i] != bb[i] {
            return false;
        }
        i = i + 1;
    }
    assert(ab@ == bb@);
    true
}

/// `String::push`: appends one character.
#[verifier::external_body]
pub fn push_char(s: &mut String, c: char)
    ensures
        final(s)@ == old(s)@.push(c),
{
    s.push(c);
}

/// `String::push_str`: appends a string slice.
#[verifier::external_body]
pub fn push_str(s: &mut String, other: &str)
    ensures
        final(s)@ == old(s)@ + other@,
{
    s.push_str(other);
}

/// `String::replace_range` over a byte range: the bytes of the range, which starts and
/// ends on character boundaries, are replaced by those of `replacement`.
#[verifier::external_body]
pub fn replace_byte_range(s: &mut String, start: usize, end: usize, replacement: &str)
    requires
        start <= end <= vstd::utf8::encode_utf8(old(s)@).len(),
        vstd::utf8::is_char_boundary(vstd::utf8::encode_utf8(old(s)@), start as int),
        vstd::utf8::is_char_boundary(vstd::utf8::encode_utf8(old(s)@), end as int),
    ensures
        vstd::utf8::encode_utf8(final(s)@) == vstd::utf8::encode_utf8(old(s)@).subrange(
            0,
            start as int,
        ) + vstd::utf8::encode_utf8(replacement@) + vstd::utf8::encode_utf8(old(s)@).subrange(
            end as int,
            vstd::utf8::encode_utf8(old(s)@).len() as int,
        ),
{
    s.replace_range(start..end, replacement);
}

/// `str::to_owned`.
pub fn to_owned(s: &str) -> (r: String)
    ensures
        r@ == s@,
{
    s.to_owned()
}

/// The string with ASCII capitals mapped to lower case.
pub fn to_ascii_lower(s: &str) -> (r: String)
    ensures
        r@ == ascii_lower(s@),
{
    let mut out = String::new();
    for c in it: s.chars()
        invariant
            it.seq() == s@,
            out@ == ascii_lower(s@).subrange(0, it.index() as int),
    {
        let lower = if 'A' <= c && c <= 'Z' {
            ((c as u8) + 32) as char
        } else {
            c
        };
        assert(lower == ascii_lower_char(c)) by {
            if 'A' <= c && c <= 'Z' {
                assert((c as u32) + 32 <= 0x7b);
            }
        }
        push_char(&mut out, lower);
        assert(out@ == ascii_lower(s@).subrange(0, it.index() + 1));
    }
    assert(ascii_lower(s@).subrange(0, s@.len() as int) == ascii_lower(s@));
    out
}

/// The bytes of a valid UTF-8 text that begins with a valid UTF-8 text `n` end a
/// character where `n` ends.
pub proof fn lemma_boundary_after_prefix(t: Seq<u8>, n: Seq<u8>)
    requires
        vstd::utf8::valid_utf8(t),
        vstd::utf8::valid_utf8(n),
        n.len() <= t.len(),
        t.subrange(0, n.len() as int) == n,
    ensures
        vstd::utf8::is_char_boundary(t, n.len() as int),
    decreases n.len(),
{
    if n.len() > 0 {
        assert(t[0] == n[0]);
        let l = vstd::utf8::length_of_first_scalar(n);
        assert(vstd::utf8::length_of_first_scalar(t) == l);
        assert(l <= n.len());
        let pt = vstd::utf8::pop_first_scalar(t);
        let pn = vstd::utf8::pop_first_scalar(n);
        assert(pt.subrange(0, pn.len() as int) == pn) by {
            assert forall|j: int| 0 <= j < pn.len() implies pt.subrange(0, pn.len() as int)[j]
                == pn[j] by {
                assert(pt[j] == t[j + l]);
                assert(pn[j] == n[j + l]);
                assert(t.subrange(0, n.len() as int)[j + l] == t[j + l]);
            }
        }
        lemma_boundary_after_prefix(pt, pn);
    }
}

/// A position where a valid UTF-8 text `n` occurs in a valid UTF-8 text `h` starts a
/// character, and so does the position where that occurrence ends.
pub proof fn lemma_match_boundaries(h: Seq<u8>, n: Seq<u8>, p: int)
    requires
        vstd::utf8::valid_utf8(h),
        vstd::utf8::valid_utf8(n),
        n.len() > 0,
        0 <= p,
        p + n.len() <= h.len(),
        h.subrange(p, p + n.len()) == n,
    ensures
        vstd::utf8::is_char_boundary(h, p),
        vstd::utf8::is_char_boundary(h, p + n.len()),
{
    assert(h[p] == n[0]) by {
        assert(h.subrange(p, p + n.len())[0] == h[p]);
    }
    assert(vstd::utf8::valid_first_scalar(n));
    vstd::utf8::is_char_boundary_iff_is_leading_byte(h, p);
    let t = h.subrange(p, h.len() as int);
    vstd::utf8::valid_utf8_split(h, p);
    assert(t.subrange(0, n.len() as int) == n);
    lemma_boundary_after_prefix(t, n);
    lemma_boundary_shift(h, p, n.len() as int);
}

/// A character boundary of the rest of a valid UTF-8 text after a boundary `p` is a
/// boundary of the whole text, shifted by `p`.
pub proof fn lemma_boundary_shift(h: Seq<u8>, p: int, k: int)
    requires
        vstd::utf8::valid_utf8(h),
        0 <= p <= h.len(),
        vstd::utf8::is_char_boundary(h, p),
        vstd::utf8::is_char_boundary(h.subrange(p, h.len() as int), k),
    ensures
        vstd::utf8::is_char_boundary(h, p + k),
        0 <= k <= h.len() - p,
{
    let t = h.subrange(p, h.len() as int);
    vstd::utf8::valid_utf8_split(h, p);
    if k < 0 || k > t.len() {
    } else if k == t.len() {
        vstd::utf8::is_char_boundary_start_end_of_seq(h);
    } else {
        vstd::utf8::is_char_boundary_iff_is_leading_byte(t, k);
        assert(t[k] == h[p + k]);
        vstd::utf8::is_char_boundary_iff_is_leading_byte(h, p + k);
    }
}

/// The bytes between two character boundaries of a valid UTF-8 text are valid UTF-8.
pub proof fn lemma_valid_between_boundaries(h: Seq<u8>, a: int, b: int)
    requires
        vstd::utf8::valid_utf8(h),
        0 <= a <= b <= h.len(),
        vstd::utf8::is_char_boundary(h, a),
        vstd::utf8::is_char_boundary(h, b),
    ensures
        vstd::utf8::valid_utf8(h.subrange(a, b)),
{
    let t = h.subrange(a, h.len() as int);
    vstd::utf8::valid_utf8_split(h, a);
    if b == h.len() {
        assert(h.subrange(a, b) == t);
    } else {
        vstd::utf8::is_char_boundary_iff_is_leading_byte(h, b);
        assert(t[b - a] == h[b]);
        vstd::utf8::is_char_boundary_iff_is_leading_byte(t, b - a);
        vstd::utf8::valid_utf8_split(t, b - a);
        assert(t.subrange(0, b - a) == h.subrange(a, b));
    }
}

/// `String::from_utf8`: the text that the bytes encode, or an error when they are not
/// valid UTF-8.
#[verifier::external_body]
pub fn string_from_utf8(bytes: Vec<u8>) -> (r: Option<String>)
    ensures
        r is Some <==> vstd::utf8::valid_utf8(bytes@),
        r matches Some(s) ==> s@ == vstd::utf8::decode_utf8(bytes@),
{
    String::from_utf8(bytes).ok()
}

/// The UTF-8 bytes of a string slice.
pub fn str_bytes(s: &str) -> (r: &[u8])
    ensures
        r@ == vstd::utf8::encode_utf8(s@),
        vstd::utf8::valid_utf8(r@),
{
    proof {
        vstd::utf8::encode_utf8_valid_utf8(s@);
    }
    s.as_bytes()
}

} // verus!
