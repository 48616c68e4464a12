//! Decimal text of integers: the formatting that `to_string` produces for
//! integers and the parsing that `str::parse` accepts for them.
use vstd::prelude::*;
use crate::text::push_char;

verus! {

broadcast use vstd::string::group_string_axioms;

pub open spec fn is_digit(c: char) -> bool {
    '0' <= c && c <= '9'
}

pub open spec fn digit_value(c: char) -> int {
    (c as int) - ('0' as int)
}

pub open spec fn digit_char(d: int) -> char
    recommends
        0 <= d < 10,
{
    (d + ('0' as int)) as char
}

/// The value of a run of decimal digits.
pub open spec fn digits_value(s: Seq<char>) -> int
    decreases s.len(),
{
    if s.len() == 0 {
        0
    } else {
        10 * digits_value(s.drop_last()) + digit_value(s.last())
    }
}

pub open spec fn all_digits(s: Seq<char>) -> bool {
    forall|i: int| 0 <= i < s.len() ==> is_digit(#[trigger] s[i])
}

/// The decimal digits of a natural number, without leading zeros.
pub open spec fn nat_digits(n: nat) -> Seq<char>
    decreases n,
{
    if n < 10 {
        seq![digit_char(n as int)]
    } else {
        nat_digits(n / 10).push(digit_char((n % 10) as int))
    }
}

/// The decimal text of an integer, as `to_string` writes it.
pub open spec fn decimal(x: int) -> Seq<char> {
    if x < 0 {
        seq!['-'] + nat_digits((-x) as nat)
    } else {
        nat_digits(x as nat)
    }
}

/// The integer that a text denotes under `str::parse`: an optional sign
/// followed by at least one decimal digit, and nothing else.
pub open spec fn parse_int(s: Seq<char>) -> Option<int> {
    if s.len() > 0 && (s[0] == '+' || s[0] == '-') {
        let rest = s.drop_first();
        if rest.len() > 0 && all_digits(rest) {
            if s[0] == '-' {
                Some(-digits_value(rest))
            } else {
                Some(digits_value(rest))
            }
        } else {
            None
        }
    } else if s.len() > 0 && all_digits(s) {
        Some(digits_value(s))
    } else {
        None
    }
}

pub open spec fn parse_i32(s: Seq<char>) -> Option<i32> {
    match parse_int(s) {
        Some(v) => if i32::MIN <= v <= i32::MAX {
            Some(v as i32)
        } else {
            None
        },
        None => None,
    }
}

pub open spec fn parse_i64(s: Seq<char>) -> Option<i64> {
    match parse_int(s) {
        Some(v) => if i64::MIN <= v <= i64::MAX {
            Some(v as i64)
        } else {
            None
        },
        None => None,
    }
}

pub proof fn lemma_digits_value_nonneg(s: Seq<char>)
    requires
        all_digits(s),
    ensures
        digits_value(s) >= 0,
    decreases s.len(),
{
    if s.len() > 0 {
        assert(is_digit(s[s.len() - 1]));
        lemma_digits_value_nonneg(s.drop_last());
    }
}

pub proof fn lemma_digits_value_grows(s: Seq<char>, c: char)
    requires
        all_digits(s),
        is_digit(c),
    ensures
        digits_value(s.push(c)) >= digits_value(s),
        digits_value(s.push(c)) == 10 * digits_value(s) + digit_value(c),
{
    lemma_digits_value_nonneg(s);
    assert(s.push(c).drop_last() == s);
}

/// The digits of `n` are all decimal digits, do not start with a zero unless `n` is
/// zero, and denote `n`.
pub proof fn lemma_nat_digits(n: nat)
    ensures
        all_digits(nat_digits(n)),
        digits_value(nat_digits(n)) == n,
        nat_digits(n).len() > 0,
        nat_digits(n)[0] != '-' && nat_digits(n)[0] != '+',
    decreases n,
{
    if n < 10 {
        let c = digit_char(n as int);
        assert(c as int == n + 48);
        assert(nat_digits(n) == seq![c]);
        assert(seq![c].drop_last() == Seq::<char>::empty());
        assert(seq![c].last() == c);
        assert(digits_value(seq![c]) == 10 * digits_value(seq![c].drop_last()) + digit_value(
            seq![c].last(),
        ));
        assert(digits_value(Seq::<char>::empty()) == 0);
    } else {
        lemma_nat_digits(n / 10);
        let d = nat_digits(n / 10);
        let c = digit_char((n % 10) as int);
        assert(c as int == (n % 10) + 48);
        assert(digit_value(c) == n % 10);
        assert(10 * (n / 10) + n % 10 == n);
        assert(nat_digits(n) == d.push(c));
        assert(d.push(c).drop_last() == d);
        assert(d.push(c).last() == c);
        assert(digits_value(d.push(c)) == 10 * digits_value(d.push(c).drop_last()) + digit_value(
            d.push(c).last(),
        ));
        assert forall|i: int| 0 <= i < d.push(c).len() implies is_digit(#[trigger] d.push(c)[i]) by {
            if i < d.len() {
                assert(d.push(c)[i] == d[i]);
            }
        }
        assert(d.push(c)[0] == d[0]);
    }
}

/// Parsing the decimal text of an integer gives the integer back.
pub proof fn lemma_parse_decimal(x: int)
    ensures
        parse_int(decimal(x)) == Some(x),
{
    if x < 0 {
        let n = (-x) as nat;
        lemma_nat_digits(n);
        let s = seq!['-'] + nat_digits(n);
        assert(s.drop_first() == nat_digits(n));
        assert(s[0] == '-');
    } else {
        lemma_nat_digits(x as nat);
    }
}

/// `acc` is the value of the digits `s`, or the cap when that value reaches it.
pub open spec fn saturated_value(acc: u128, s: Seq<char>) -> bool {
    &&& acc <= 0x1_0000_0000_0000_0000
    &&& acc < 0x1_0000_0000_0000_0000 ==> acc == digits_value(s)
    &&& acc == 0x1_0000_0000_0000_0000 ==> digits_value(s) >= 0x1_0000_0000_0000_0000
}

fn saturating_digit_step(acc: u128, d: u128) -> (r: u128)
    requires
        acc <= 0x1_0000_0000_0000_0000,
        d < 10,
    ensures
        acc < 0x1_0000_0000_0000_0000 && acc * 10 + d < 0x1_0000_0000_0000_0000 ==> r == acc * 10 + d,
        acc < 0x1_0000_0000_0000_0000 && acc * 10 + d >= 0x1_0000_0000_0000_0000 ==> r == 0x1_0000_0000_0000_0000,
        acc == 0x1_0000_0000_0000_0000 ==> r == acc,
{
    if acc < 0x1_0000_0000_0000_0000 {
        let next = acc * 10 + d;
        if next >= 0x1_0000_0000_0000_0000 {
            0x1_0000_0000_0000_0000
        } else {
            next
        }
    } else {
        acc
    }
}

proof fn lemma_saturated_step(s: Seq<char>, c: char, acc: u128, next: u128)
    requires
        all_digits(s),
        is_digit(c),
        saturated_value(acc, s),
        acc < 0x1_0000_0000_0000_0000 && acc * 10 + digit_value(c) < 0x1_0000_0000_0000_0000 ==> next == acc * 10 + digit_value(c),
        acc < 0x1_0000_0000_0000_0000 && acc * 10 + digit_value(c) >= 0x1_0000_0000_0000_0000 ==> next == 0x1_0000_0000_0000_0000,
        acc == 0x1_0000_0000_0000_0000 ==> next == acc,
    ensures
        all_digits(s.push(c)),
        saturated_value(next, s.push(c)),
{
    lemma_digits_value_grows(s, c);
    assert forall|j: int| 0 <= j < s.push(c).len() implies is_digit(#[trigger] s.push(c)[j]) by {
        if j < s.len() {
            assert(s.push(c)[j] == s[j]);
        }
    }
}

/// The decimal text of a `u64`, without sign.
fn format_u64(n: u64) -> (r: Vec<char>)
    ensures
        r@ == nat_digits(n as nat),
    decreases n,
{
    if n < 10 {
        let c = ((n as u8) + 48) as char;
        let mut v: Vec<char> = Vec::new();
        v.push(c);
        assert(v@ == seq![digit_char(n as int)]);
        v
    } else {
        let mut v = format_u64(n / 10);
        let d: u64 = n % 10;
        let c = ((d as u8) + 48) as char;
        v.push(c);
        v
    }
}

/// The decimal text of `x`, as `i64::to_string` writes it.
pub fn format_i64(x: i64) -> (r: String)
    ensures
        r@ == decimal(x as int),
{
    let mut out = String::new();
    let mag: u64 = if x < 0 {
        let wide: i128 = x as i128;
        (0i128 - wide) as u64
    } else {
        x as u64
    };
    if x < 0 {
        push_char(&mut out, '-');
    }
    let digits = format_u64(mag);
    let ghost prefix = out@;
    let mut i: usize = 0;
    while i < digits.len()
        invariant
            0 <= i <= digits.len(),
            out@ == prefix + digits@.subrange(0, i as int),
        decreases digits.len() - i,
    {
        push_char(&mut out, digits[i]);
        assert(digits@.subrange(0, i + 1) == digits@.subrange(0, i as int).push(digits@[i as int]));
        i = i + 1;
    }
    assert(digits@.subrange(0, digits.len() as int) == digits@);
    if x < 0 {
        assert(prefix == seq!['-']);
    } else {
        assert(prefix == Seq::<char>::empty());
    }
    out
}

/// The decimal text of `x`, as `usize::to_string` writes it.
pub fn format_usize(x: usize) -> (r: String)
    ensures
        r@ == decimal(x as int),
{
    let digits = format_u64(x as u64);
    let mut out = String::new();
    let mut i: usize = 0;
    while i < digits.len()
        invariant
            0 <= i <= digits.len(),
            out@ == digits@.subrange(0, i as int),
        decreases digits.len() - i,
    {
        push_char(&mut out, digits[i]);
        assert(digits@.subrange(0, i + 1) == digits@.subrange(0, i as int).push(digits@[i as int]));
        i = i + 1;
    }
    assert(digits@.subrange(0, digits.len() as int) == digits@);
    out
}

/// The decimal text of `x`, as `i32::to_string` writes it.
pub fn format_i32(x: i32) -> (r: String)
    ensures
        r@ == decimal(x as int),
{
    format_i64(x as i64)
}

/// Parses `s` as a decimal integer that fits in `i64`, as `str::parse::<i64>` does.
pub fn parse_i64_str(s: &str) -> (r: Option<i64>)
    ensures
        r == parse_i64(s@),
{
    let chars = chars_of(s);
    let len = chars.len();
    if len == 0 {
        return None;
    }
    let signed = chars[0] == '+' || chars[0] == '-';
    let negative = chars[0] == '-';
    let start: usize = if signed { 1 } else { 0 };
    if start == len {
        assert(s@.drop_first().len() == 0);
        return None;
    }
    let ghost body = s@.subrange(start as int, len as int);
    if signed {
        assert(body == s@.drop_first());
    } else {
        assert(body == s@);
    }
    // The magnitude read so far, saturated once it exceeds anything an `i64` holds.
    let mut acc: u128 = 0;
    let mut i: usize = start;
    assert(chars@.subrange(start as int, start as int) == Seq::<char>::empty());
    while i < len
        invariant
            chars@ == s@,
            len == chars@.len(),
            start <= i <= len,
            body == chars@.subrange(start as int, len as int),
            s@.len() > 0,
            signed == (s@[0] == '+' || s@[0] == '-'),
            signed ==> body == s@.drop_first(),
            !signed ==> body == s@,
            all_digits(chars@.subrange(start as int, i as int)),
            saturated_value(acc, chars@.subrange(start as int, i as int)),
        decreases len - i,
    {
        let c = chars[i];
        if !('0' <= c && c <= '9') {
            proof {
                assert(body[i - start] == c);
            }
            return None;
        }
        let ghost before = chars@.subrange(start as int, i as int);
        let d: u128 = ((c as u32) - 48) as u128;
        let next = saturating_digit_step(acc, d);
        proof {
            lemma_saturated_step(before, c, acc, next);
            assert(chars@.subrange(start as int, i + 1) == before.push(c));
        }
        acc = next;
        i = i + 1;
    }
    assert(chars@.subrange(start as int, len as int) == body);
    proof {
        lemma_digits_value_nonneg(body);
    }
    if acc >= 0x1_0000_0000_0000_0000 {
        return None;
    }
    if negative {
        if acc > 0x8000_0000_0000_0000 {
            None
        } else {
            let wide: i128 = 0i128 - (acc as i128);
            Some(wide as i64)
        }
    } else {
        if acc > 0x7fff_ffff_ffff_ffff {
            None
        } else {
            Some(acc as i64)
        }
    }
}

/// The characters of `s`, in order.
pub fn chars_of(s: &str) -> (r: Vec<char>)
    ensures
        r@ == s@,
{
    let mut out: Vec<char> = Vec::new();
    for c in it: s.chars()
        invariant
            it.seq() == s@,
            out@ == s@.subrange(0, it.index() as int),
    {
        out.push(c);
        assert(out@ == s@.subrange(0, it.index() + 1));
    }
    assert(s@.subrange(0, s@.len() as int) == s@);
    out
}

/// Parses `s` as a decimal integer that fits in `i32`, as `str::parse::<i32>` does.
pub fn parse_i32_str(s: &str) -> (r: Option<i32>)
    ensures
        r == parse_i32(s@),
{
    match parse_i64_str(s) {
        Some(v) => {
            if v < -2147483648 || v > 2147483647 {
                None
            } else {
                Some(v as i32)
            }
        },
        None => None,
    }
}

} // verus!
