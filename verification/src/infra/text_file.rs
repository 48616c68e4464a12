//! Text file contents in the supported encodings: decoding what was read and encoding
//! what will be written, with the size limit that both sides share.
use vstd::prelude::*;

use crate::domain::ui_settings::TextEncoding;
use crate::error::{AppError, TextEncodingUserMessage, TextFileTooLargeUserMessage};
use crate::text::str_bytes;

verus! {

broadcast use {vstd::utf8::char_is_scalar, vstd::utf8::char_u32_cast};

/// The largest text file, in bytes, that is read or written.
pub const TEXT_FILE_BYTE_LIMIT: usize = 16 * 1024 * 1024;

/// The same limit in MiB, as the user is told it.
pub const TEXT_FILE_MIB_LIMIT: usize = 16;

pub open spec fn utf8_bom() -> Seq<u8> {
    seq![0xEFu8, 0xBBu8, 0xBFu8]
}

pub open spec fn utf16_le_bom() -> Seq<u8> {
    seq![0xFFu8, 0xFEu8]
}

pub open spec fn utf16_be_bom() -> Seq<u8> {
    seq![0xFEu8, 0xFFu8]
}

pub open spec fn starts_with(bytes: Seq<u8>, prefix: Seq<u8>) -> bool {
    prefix.len() <= bytes.len() && bytes.take(prefix.len() as int) == prefix
}

pub open spec fn is_high_surrogate(unit: u16) -> bool {
    0xD800 <= unit <= 0xDBFF
}

pub open spec fn is_low_surrogate(unit: u16) -> bool {
    0xDC00 <= unit <= 0xDFFF
}

/// The UTF-16 code units of one character.
pub open spec fn utf16_units_of(c: char) -> Seq<u16> {
    let v = c as u32;
    if v < 0x10000 {
        seq![v as u16]
    } else {
        let w = v - 0x10000;
        seq![(0xD800 + w / 0x400) as u16, (0xDC00 + w % 0x400) as u16]
    }
}

/// The UTF-16 code units of a text.
pub open spec fn utf16_encode(s: Seq<char>) -> Seq<u16>
    decreases s.len(),
{
    if s.len() == 0 {
        Seq::empty()
    } else {
        utf16_units_of(s[0]) + utf16_encode(s.drop_first())
    }
}

/// Whether code units are well-formed UTF-16: every high surrogate is followed by a
/// low one, and no low surrogate stands alone.
pub open spec fn utf16_valid(units: Seq<u16>) -> bool
    decreases units.len(),
{
    if units.len() == 0 {
        true
    } else if is_high_surrogate(units[0]) {
        units.len() >= 2 && is_low_surrogate(units[1]) && utf16_valid(units.skip(2))
    } else if is_low_surrogate(units[0]) {
        false
    } else {
        utf16_valid(units.skip(1))
    }
}

/// The text that well-formed UTF-16 code units stand for.
pub open spec fn utf16_decode(units: Seq<u16>) -> Seq<char>
    decreases units.len(),
{
    if units.len() == 0 {
        Seq::empty()
    } else if is_high_surrogate(units[0]) && units.len() >= 2 && is_low_surrogate(units[1]) {
        let c = 0x10000 + (units[0] - 0xD800) * 0x400 + (units[1] - 0xDC00);
        seq![c as char] + utf16_decode(units.skip(2))
    } else {
        seq![units[0] as char] + utf16_decode(units.skip(1))
    }
}

/// The two bytes of a code unit in the given byte order.
pub open spec fn unit_bytes(unit: u16, little_endian: bool) -> Seq<u8> {
    if little_endian {
        seq![(unit % 256) as u8, (unit / 256) as u8]
    } else {
        seq![(unit / 256) as u8, (unit % 256) as u8]
    }
}

pub open spec fn units_bytes(units: Seq<u16>, little_endian: bool) -> Seq<u8>
    decreases units.len(),
{
    if units.len() == 0 {
        Seq::empty()
    } else {
        unit_bytes(units[0], little_endian) + units_bytes(units.drop_first(), little_endian)
    }
}

/// The code units that pairs of bytes make, in the given byte order; a last odd byte
/// is left over.
pub open spec fn bytes_units(bytes: Seq<u8>, little_endian: bool) -> Seq<u16> {
    Seq::new(
        (bytes.len() / 2) as nat,
        |i: int|
            if little_endian {
                (bytes[2 * i] + 256 * bytes[2 * i + 1]) as u16
            } else {
                (256 * bytes[2 * i] + bytes[2 * i + 1]) as u16
            },
    )
}

pub proof fn lemma_utf16_encode_push(s: Seq<char>, c: char)
    ensures
        utf16_encode(s.push(c)) == utf16_encode(s) + utf16_units_of(c),
    decreases s.len(),
{
    if s.len() == 0 {
        assert(s.push(c).drop_first() == Seq::<char>::empty());
        assert(utf16_encode(Seq::<char>::empty()) == Seq::<u16>::empty());
        assert(utf16_encode(s.push(c)) == utf16_units_of(c) + Seq::<u16>::empty());
    } else {
        lemma_utf16_encode_push(s.drop_first(), c);
        assert(s.push(c).drop_first() == s.drop_first().push(c));
        assert(s.push(c)[0] == s[0]);
    }
}

pub proof fn lemma_units_bytes_push(units: Seq<u16>, u: u16, little_endian: bool)
    ensures
        units_bytes(units.push(u), little_endian) == units_bytes(units, little_endian)
            + unit_bytes(u, little_endian),
    decreases units.len(),
{
    if units.len() == 0 {
        assert(units.push(u).drop_first() == Seq::<u16>::empty());
        assert(units_bytes(Seq::<u16>::empty(), little_endian) == Seq::<u8>::empty());
        assert(units_bytes(units.push(u), little_endian) == unit_bytes(u, little_endian)
            + Seq::<u8>::empty());
    } else {
        lemma_units_bytes_push(units.drop_first(), u, little_endian);
        assert(units.push(u).drop_first() == units.drop_first().push(u));
        assert(units.push(u)[0] == units[0]);
    }
}

/// The code units of two texts one after the other are those of each, in order.
pub proof fn lemma_utf16_encode_append(a: Seq<char>, b: Seq<char>)
    ensures
        utf16_encode(a + b) == utf16_encode(a) + utf16_encode(b),
    decreases b.len(),
{
    if b.len() == 0 {
        assert(a + b =~= a);
        assert(utf16_encode(a) + Seq::<u16>::empty() =~= utf16_encode(a));
    } else {
        let init = b.drop_last();
        lemma_utf16_encode_append(a, init);
        assert(a + b =~= (a + init).push(b.last()));
        assert(b =~= init.push(b.last()));
        lemma_utf16_encode_push(a + init, b.last());
        lemma_utf16_encode_push(init, b.last());
    }
}

/// The code units of a character decode back to it.
proof fn lemma_units_of_round_trip(c: char, rest: Seq<u16>)
    ensures
        utf16_valid(utf16_units_of(c) + rest) == utf16_valid(rest),
        utf16_decode(utf16_units_of(c) + rest) == seq![c] + utf16_decode(rest),
{
    let us = utf16_units_of(c);
    let all = us + rest;
    let v = c as u32;
    assert((v as char) == c);
    if v < 0x10000 {
        assert(all[0] == v as u16);
        assert(!(0xD800 <= v <= 0xDFFF));
        assert(all.skip(1) =~= rest);
        assert((all[0] as char) == c);
    } else {
        let w = v - 0x10000;
        assert(0 <= w <= 0xFFFFF);
        assert(0 <= w / 0x400 <= 0x3FF);
        assert(0 <= w % 0x400 < 0x400);
        assert(all[0] == (0xD800 + w / 0x400) as u16);
        assert(all[1] == (0xDC00 + w % 0x400) as u16);
        assert(all.skip(2) =~= rest);
        assert((w / 0x400) * 0x400 + w % 0x400 == w);
        assert(((0x10000 + (all[0] - 0xD800) * 0x400 + (all[1] - 0xDC00)) as char) == c);
    }
}

/// Encoding a text as UTF-16 and decoding it again gives the text back.
pub proof fn lemma_utf16_round_trip(s: Seq<char>)
    ensures
        utf16_valid(utf16_encode(s)),
        utf16_decode(utf16_encode(s)) == s,
    decreases s.len(),
{
    if s.len() > 0 {
        lemma_utf16_round_trip(s.drop_first());
        lemma_units_of_round_trip(s[0], utf16_encode(s.drop_first()));
        assert(seq![s[0]] + s.drop_first() =~= s);
    }
}

/// Writing code units as bytes and reading them back gives the units again.
pub proof fn lemma_units_bytes_round_trip(units: Seq<u16>, little_endian: bool)
    ensures
        units_bytes(units, little_endian).len() == 2 * units.len(),
        bytes_units(units_bytes(units, little_endian), little_endian) == units,
    decreases units.len(),
{
    if units.len() > 0 {
        let rest = units.drop_first();
        lemma_units_bytes_round_trip(rest, little_endian);
        let b = units_bytes(units, little_endian);
        let rb = units_bytes(rest, little_endian);
        assert(b == unit_bytes(units[0], little_endian) + rb);
        let u = units[0];
        assert((u / 256) * 256 + u % 256 == u);
        assert forall|i: int| 0 <= i < units.len() implies #[trigger] bytes_units(
            b,
            little_endian,
        )[i] == units[i] by {
            if i == 0 {
                assert(b[0] == unit_bytes(u, little_endian)[0]);
                assert(b[1] == unit_bytes(u, little_endian)[1]);
            } else {
                assert(b[2 * i] == rb[2 * (i - 1)]);
                assert(b[2 * i + 1] == rb[2 * (i - 1) + 1]);
                assert(bytes_units(rb, little_endian)[i - 1] == rest[i - 1]);
            }
        }
        assert(bytes_units(b, little_endian) =~= units);
    }
}

/// Appends the two bytes of a code unit in the given byte order.
fn push_unit_bytes(out: &mut Vec<u8>, unit: u16, little_endian: bool)
    ensures
        final(out)@ == old(out)@ + unit_bytes(unit, little_endian),
{
    let low: u8 = (unit % 256) as u8;
    let high: u8 = (unit / 256) as u8;
    if little_endian {
        out.push(low);
        out.push(high);
    } else {
        out.push(high);
        out.push(low);
    }
    assert(final(out)@ =~= old(out)@ + unit_bytes(unit, little_endian));
}

pub open spec fn utf16_bom(little_endian: bool) -> Seq<u8> {
    if little_endian {
        utf16_le_bom()
    } else {
        utf16_be_bom()
    }
}

/// The bytes of a text in UTF-16 with its byte order mark.
pub open spec fn utf16_file_bytes(s: Seq<char>, little_endian: bool) -> Seq<u8> {
    utf16_bom(little_endian) + units_bytes(utf16_encode(s), little_endian)
}

/// The number of bytes that `s` takes in UTF-16 with a byte order mark.
pub open spec fn utf16_file_len(s: Seq<char>) -> int {
    (2 + 2 * utf16_encode(s).len()) as int
}

/// The UTF-16 bytes of `content` with a byte order mark, or `None` as soon as they
/// would be longer than `limit`.
fn encode_utf16_within(content: &str, little_endian: bool, limit: usize) -> (r: Option<Vec<u8>>)
    requires
        2 <= limit,
    ensures
        match r {
            Some(bytes) => bytes@ == utf16_file_bytes(content@, little_endian) && bytes@.len()
                <= limit,
            None => utf16_file_len(content@) > limit,
        },
{
    let chars = crate::decimal::chars_of(content);
    let mut out: Vec<u8> = Vec::new();
    if little_endian {
        out.push(0xFF);
        out.push(0xFE);
    } else {
        out.push(0xFE);
        out.push(0xFF);
    }
    assert(out@ =~= utf16_bom(little_endian) + units_bytes(utf16_encode(chars@.take(0)), little_endian)) by {
        assert(chars@.take(0) =~= Seq::<char>::empty());
    }
    let mut i: usize = 0;
    while i < chars.len()
        invariant
            0 <= i <= chars.len(),
            chars@ == content@,
            2 <= limit,
            out@ == utf16_bom(little_endian) + units_bytes(utf16_encode(chars@.take(i as int)), little_endian),
            out@.len() == utf16_file_len(chars@.take(i as int)),
            out@.len() <= limit,
        decreases chars.len() - i,
    {
        let c = chars[i];
        let ghost before = chars@.take(i as int);
        proof {
            assert(chars@.take(i + 1) =~= before.push(c));
            lemma_utf16_encode_push(before, c);
            lemma_units_bytes_push(utf16_encode(before), 0, little_endian);
            lemma_utf16_encode_append(chars@.take(i + 1), chars@.skip(i + 1));
            assert(chars@.take(i + 1) + chars@.skip(i + 1) =~= chars@);
            lemma_units_bytes_round_trip(utf16_encode(before), little_endian);
        }
        let v: u32 = c as u32;
        if v < 0x10000 {
            if limit - out.len() < 2 {
                return None;
            }
            let unit: u16 = v as u16;
            let ghost mid = out@;
            push_unit_bytes(&mut out, unit, little_endian);
            proof {
                assert(utf16_units_of(c) =~= seq![unit]);
                lemma_units_bytes_push(utf16_encode(before), unit, little_endian);
                assert(utf16_encode(before) + seq![unit] =~= utf16_encode(before).push(unit));
            }
        } else {
            if limit - out.len() < 4 {
                return None;
            }
            let w: u32 = v - 0x10000;
            let high: u16 = (0xD800 + w / 0x400) as u16;
            let low: u16 = (0xDC00 + w % 0x400) as u16;
            push_unit_bytes(&mut out, high, little_endian);
            push_unit_bytes(&mut out, low, little_endian);
            proof {
                assert(utf16_units_of(c) =~= seq![high, low]);
                let eb = utf16_encode(before);
                lemma_units_bytes_push(eb, high, little_endian);
                lemma_units_bytes_push(eb.push(high), low, little_endian);
                assert(eb + seq![high, low] =~= eb.push(high).push(low));
            }
        }
        i = i + 1;
    }
    assert(chars@.take(chars.len() as int) =~= chars@);
    Some(out)
}

/// Appends a run of bytes.
fn append_bytes(out: &mut Vec<u8>, bytes: &[u8])
    ensures
        final(out)@ == old(out)@ + bytes@,
{
    let ghost start = out@;
    let mut i: usize = 0;
    while i < bytes.len()
        invariant
            0 <= i <= bytes.len(),
            out@ == start + bytes@.take(i as int),
        decreases bytes.len() - i,
    {
        out.push(bytes[i]);
        assert(bytes@.take(i + 1) =~= bytes@.take(i as int).push(bytes@[i as int]));
        i = i + 1;
    }
    assert(bytes@.take(bytes.len() as int) =~= bytes@);
}

/// The two legacy encodings that are read and written through `encoding_rs`.
#[derive(Debug, Clone, Copy, PartialEq, Eq, Structural)]
pub enum LegacyEncoding {
    EucKr,
    Windows1252,
}

/// What `encoding_rs` decodes the bytes to in the given legacy encoding, with no
/// byte order mark handling and no replacement: `None` when the bytes are malformed.
pub uninterp spec fn legacy_decoded(encoding: LegacyEncoding, bytes: Seq<u8>) -> Option<Seq<char>>;

/// What `encoding_rs` encodes the text to in the given legacy encoding: the bytes,
/// with numeric character references for what the encoding cannot represent, and
/// whether there was any such character.
pub uninterp spec fn legacy_encoded(encoding: LegacyEncoding, text: Seq<char>) -> (Seq<u8>, bool);

/// `Encoding::decode_without_bom_handling_and_without_replacement` of `EUC_KR` or
/// `WINDOWS_1252`. The crate sizes its output buffer from the input length (up to
/// three bytes per input byte) and panics if that overflows `usize`.
#[verifier::external_body]
fn legacy_decode(encoding: LegacyEncoding, bytes: &[u8]) -> (r: Option<String>)
    requires
        encoding is EucKr ==> bytes@.len() * 2 + 4 <= usize::MAX,
        encoding is Windows1252 ==> bytes@.len() * 3 <= usize::MAX,
    ensures
        match r {
            Some(text) => legacy_decoded(encoding, bytes@) == Some(text@),
            None => legacy_decoded(encoding, bytes@) is None,
        },
{
    let table = match encoding {
        LegacyEncoding::EucKr => encoding_rs::EUC_KR,
        LegacyEncoding::Windows1252 => encoding_rs::WINDOWS_1252,
    };
    match table.decode_without_bom_handling_and_without_replacement(bytes) {
        Some(text) => Some(text.into_owned()),
        None => None,
    }
}

/// `Encoding::encode` of `EUC_KR` or `WINDOWS_1252`: the bytes and whether a character
/// could not be represented. The crate sizes its output buffer from the input length
/// rounded up to a power of two and panics if that overflows `usize`.
#[verifier::external_body]
fn legacy_encode(encoding: LegacyEncoding, text: &str) -> (r: (Vec<u8>, bool))
    requires
        text@.len() <= usize::MAX / 8,
        vstd::utf8::encode_utf8(text@).len() <= usize::MAX / 8,
    ensures
        r.0@ == legacy_encoded(encoding, text@).0,
        r.1 == legacy_encoded(encoding, text@).1,
{
    let table = match encoding {
        LegacyEncoding::EucKr => encoding_rs::EUC_KR,
        LegacyEncoding::Windows1252 => encoding_rs::WINDOWS_1252,
    };
    let (bytes, _, had_errors) = table.encode(text);
    (bytes.into_owned(), had_errors)
}

/// `str::from_utf8` of the bytes, copied into a `String`; when the bytes are not UTF-8,
/// the text of the standard library's error, which is left unsaid.
#[verifier::external_body]
fn utf8_text(bytes: &[u8]) -> (r: Result<String, String>)
    ensures
        r is Ok <==> vstd::utf8::valid_utf8(bytes@),
        r matches Ok(text) ==> text@ == vstd::utf8::decode_utf8(bytes@),
{
    match std::str::from_utf8(bytes) {
        Ok(text) => Ok(text.to_owned()),
        Err(error) => Err(error.to_string()),
    }
}

/// `String::from_utf16`; when the units are not well-formed, the text of the standard
/// library's error, which is left unsaid.
#[verifier::external_body]
fn utf16_text(units: &[u16]) -> (r: Result<String, String>)
    ensures
        r is Ok <==> utf16_valid(units@),
        r matches Ok(text) ==> text@ == utf16_decode(units@),
{
    match String::from_utf16(units) {
        Ok(text) => Ok(text),
        Err(error) => Err(error.to_string()),
    }
}

/// Why bytes could not be read as text.
#[derive(Debug, Clone, Copy, PartialEq, Eq, Structural)]
pub enum DecodeFailure {
    MissingBom,
    InvalidUtf8,
    OddUtf16Length,
    InvalidUtf16,
    MalformedLegacy,
}

/// Why a text could not be written in an encoding.
#[derive(Debug, Clone, Copy, PartialEq, Eq, Structural)]
pub enum EncodeFailure {
    ImportOnly,
    Unmappable,
    TooLarge,
}

pub open spec fn legacy_of(encoding: TextEncoding) -> LegacyEncoding {
    if encoding == TextEncoding::KoreanEucKr {
        LegacyEncoding::EucKr
    } else {
        LegacyEncoding::Windows1252
    }
}

pub open spec fn decode_utf16_as(bytes: Seq<u8>, little_endian: bool) -> Result<Seq<char>, DecodeFailure> {
    if !starts_with(bytes, utf16_bom(little_endian)) {
        Err(DecodeFailure::MissingBom)
    } else {
        let rest = bytes.skip(2);
        if rest.len() % 2 == 1 {
            Err(DecodeFailure::OddUtf16Length)
        } else if utf16_valid(bytes_units(rest, little_endian)) {
            Ok(utf16_decode(bytes_units(rest, little_endian)))
        } else {
            Err(DecodeFailure::InvalidUtf16)
        }
    }
}

/// Reading bytes in one given encoding (not detection).
pub open spec fn decode_as(bytes: Seq<u8>, encoding: TextEncoding) -> Result<Seq<char>, DecodeFailure> {
    match encoding {
        TextEncoding::Utf8WithBom => if !starts_with(bytes, utf8_bom()) {
            Err(DecodeFailure::MissingBom)
        } else if vstd::utf8::valid_utf8(bytes.skip(3)) {
            Ok(vstd::utf8::decode_utf8(bytes.skip(3)))
        } else {
            Err(DecodeFailure::InvalidUtf8)
        },
        TextEncoding::Utf16LeWithBom => decode_utf16_as(bytes, true),
        TextEncoding::Utf16BeWithBom => decode_utf16_as(bytes, false),
        TextEncoding::KoreanEucKr | TextEncoding::Windows1252 => match legacy_decoded(
            legacy_of(encoding),
            bytes,
        ) {
            Some(text) => Ok(text),
            None => Err(DecodeFailure::MalformedLegacy),
        },
        _ => if vstd::utf8::valid_utf8(bytes) {
            Ok(vstd::utf8::decode_utf8(bytes))
        } else {
            Err(DecodeFailure::InvalidUtf8)
        },
    }
}

/// The encoding that detection settles on: a byte order mark, then UTF-8, then
/// EUC-KR, and Windows-1252 for everything else.
pub open spec fn detected_encoding(bytes: Seq<u8>) -> TextEncoding {
    if starts_with(bytes, utf8_bom()) {
        TextEncoding::Utf8WithBom
    } else if starts_with(bytes, utf16_le_bom()) {
        TextEncoding::Utf16LeWithBom
    } else if starts_with(bytes, utf16_be_bom()) {
        TextEncoding::Utf16BeWithBom
    } else if vstd::utf8::valid_utf8(bytes) {
        TextEncoding::Utf8
    } else if legacy_decoded(LegacyEncoding::EucKr, bytes) is Some {
        TextEncoding::KoreanEucKr
    } else {
        TextEncoding::Windows1252
    }
}

/// Detection reads bytes that are valid UTF-8 and carry no UTF-8 byte order mark as
/// UTF-8, whatever the legacy decoders would make of them: the text is the UTF-8 decoding
/// of the bytes and the encoding is UTF-8. (Valid UTF-8 cannot start with a UTF-16 byte
/// order mark.)
pub proof fn lemma_detection_reads_valid_utf8_as_utf8(bytes: Seq<u8>)
    requires
        vstd::utf8::valid_utf8(bytes),
        !starts_with(bytes, utf8_bom()),
    ensures
        detected_encoding(bytes) == TextEncoding::Utf8,
        decode_spec(bytes, TextEncoding::AutoDetect) == Ok::<
            (Seq<char>, TextEncoding),
            (TextEncoding, DecodeFailure),
        >((vstd::utf8::decode_utf8(bytes), TextEncoding::Utf8)),
{
    if bytes.len() >= 2 {
        assert(vstd::utf8::valid_first_scalar(bytes));
        assert(bytes.take(2)[0] == bytes[0]);
        assert(bytes[0] <= 0xf7);
        assert(!starts_with(bytes, utf16_le_bom()));
        assert(!starts_with(bytes, utf16_be_bom()));
    }
}

/// Detection reads bytes that start with the UTF-8 byte order mark as UTF-8 with that
/// mark: the text is the UTF-8 decoding of what follows the mark, when that is valid.
pub proof fn lemma_detection_reads_utf8_bom(bytes: Seq<u8>)
    requires
        starts_with(bytes, utf8_bom()),
        vstd::utf8::valid_utf8(bytes.skip(3)),
    ensures
        decode_spec(bytes, TextEncoding::AutoDetect) == Ok::<
            (Seq<char>, TextEncoding),
            (TextEncoding, DecodeFailure),
        >((vstd::utf8::decode_utf8(bytes.skip(3)), TextEncoding::Utf8WithBom)),
{
}

/// The encoding that bytes are read as when `encoding` is asked for.
pub open spec fn read_encoding(bytes: Seq<u8>, encoding: TextEncoding) -> TextEncoding {
    if encoding == TextEncoding::AutoDetect {
        detected_encoding(bytes)
    } else {
        encoding
    }
}

/// Reading bytes: the text and the encoding it was read as, or the encoding that
/// failed and why.
pub open spec fn decode_spec(bytes: Seq<u8>, encoding: TextEncoding) -> Result<
    (Seq<char>, TextEncoding),
    (TextEncoding, DecodeFailure),
> {
    let chosen = read_encoding(bytes, encoding);
    match decode_as(bytes, chosen) {
        Ok(text) => Ok((text, chosen)),
        Err(why) => Err((chosen, why)),
    }
}

/// The detail of a decoding error, where this library writes it; `None` where it is
/// the standard library's error text.
pub open spec fn decode_failure_detail(encoding: TextEncoding, why: DecodeFailure) -> Option<
    Seq<char>,
> {
    match why {
        DecodeFailure::MissingBom => Some(
            "missing "@ + encoding.spec_display_name() + " byte order mark"@,
        ),
        DecodeFailure::OddUtf16Length => Some(
            "UTF-16 content has an odd byte length after the BOM"@,
        ),
        DecodeFailure::MalformedLegacy => Some("legacy decoder reported malformed byte sequences"@),
        _ => None,
    }
}

pub open spec fn is_decode_error(error: AppError, encoding: TextEncoding, why: DecodeFailure) -> bool {
    &&& error matches AppError::TextEncoding { action, user_message, encoding: e, detail }
    &&& action@ == "decode text file"@
    &&& user_message == TextEncodingUserMessage::Decode
    &&& e == encoding
    &&& decode_failure_detail(encoding, why) matches Some(d) ==> detail@ == d
}

/// Writing a text: the bytes, or why it cannot be written in that encoding.
pub open spec fn encode_spec(content: Seq<char>, encoding: TextEncoding) -> Result<
    Seq<u8>,
    EncodeFailure,
> {
    match encoding {
        TextEncoding::AutoDetect => Err(EncodeFailure::ImportOnly),
        TextEncoding::Utf8 => Ok(vstd::utf8::encode_utf8(content)),
        TextEncoding::Utf8WithBom => Ok(utf8_bom() + vstd::utf8::encode_utf8(content)),
        TextEncoding::Utf16LeWithBom => Ok(utf16_file_bytes(content, true)),
        TextEncoding::Utf16BeWithBom => Ok(utf16_file_bytes(content, false)),
        _ => if legacy_encoded(legacy_of(encoding), content).1 {
            Err(EncodeFailure::Unmappable)
        } else {
            Ok(legacy_encoded(legacy_of(encoding), content).0)
        },
    }
}

/// Writing a text to a file: as `encode_spec`, and refused above the size limit.
pub open spec fn export_spec(content: Seq<char>, encoding: TextEncoding) -> Result<
    Seq<u8>,
    EncodeFailure,
> {
    match encode_spec(content, encoding) {
        Ok(bytes) => if bytes.len() <= TEXT_FILE_BYTE_LIMIT {
            Ok(bytes)
        } else {
            Err(EncodeFailure::TooLarge)
        },
        Err(why) => Err(why),
    }
}

pub open spec fn is_encode_error(error: AppError, encoding: TextEncoding, why: EncodeFailure) -> bool {
    match why {
        EncodeFailure::TooLarge => error == (AppError::TextFileTooLarge {
            user_message: TextFileTooLargeUserMessage::Export,
            limit_mib: TEXT_FILE_MIB_LIMIT,
        }),
        _ => {
            &&& error matches AppError::TextEncoding { action, user_message, encoding: e, detail }
            &&& action@ == "encode text file"@
            &&& user_message == TextEncodingUserMessage::Encode
            &&& e == encoding
            &&& detail@ == (if why == EncodeFailure::ImportOnly {
                "Auto Detect is only valid for import"@
            } else {
                "text contains characters that cannot be represented in the selected encoding"@
            })
        },
    }
}

/// Whether the outside calls that reading in `encoding` makes can take `bytes`: the
/// legacy decoders size their output from the input and panic if that overflows.
pub open spec fn decode_input_fits(bytes: Seq<u8>, encoding: TextEncoding) -> bool {
    let chosen = read_encoding(bytes, encoding);
    &&& (chosen == TextEncoding::KoreanEucKr || (encoding == TextEncoding::AutoDetect && chosen
        == TextEncoding::Windows1252)) ==> bytes.len() * 2 + 4 <= usize::MAX
    &&& chosen == TextEncoding::Windows1252 ==> bytes.len() * 3 <= usize::MAX
}

/// Whether the outside calls that writing in `encoding` makes can take `content`.
pub open spec fn encode_input_fits(content: Seq<char>, encoding: TextEncoding) -> bool {
    (encoding == TextEncoding::KoreanEucKr || encoding == TextEncoding::Windows1252) ==> (
    content.len() <= usize::MAX / 8 && vstd::utf8::encode_utf8(content).len() <= usize::MAX / 8)
}

/// Text read from a file, with the encoding it was read as.
#[derive(Debug, Clone, PartialEq, Eq)]
pub struct DecodedText {
    pub content: String,
    pub encoding: TextEncoding,
}

/// Bytes ready to be written as a text file, within the size limit.
#[derive(Debug, Clone, PartialEq, Eq)]
pub struct EncodedTextExport {
    bytes: Vec<u8>,
}

impl View for EncodedTextExport {
    type V = Seq<u8>;

    closed spec fn view(&self) -> Seq<u8> {
        self.bytes@
    }
}

impl EncodedTextExport {
    pub fn as_bytes(&self) -> (r: &[u8])
        ensures
            r@ == self@,
    {
        self.bytes.as_slice()
    }
}

fn starts_with_utf8_bom(bytes: &[u8]) -> (r: bool)
    ensures
        r == starts_with(bytes@, utf8_bom()),
{
    let r = bytes.len() >= 3 && bytes[0] == 0xEF && bytes[1] == 0xBB && bytes[2] == 0xBF;
    proof {
        if r {
            assert(bytes@.take(3) =~= utf8_bom());
        } else if bytes@.len() >= 3 {
            assert(bytes@.take(3)[0] == bytes@[0]);
            assert(bytes@.take(3)[1] == bytes@[1]);
            assert(bytes@.take(3)[2] == bytes@[2]);
        }
    }
    r
}

fn starts_with_utf16_bom(bytes: &[u8], little_endian: bool) -> (r: bool)
    ensures
        r == starts_with(bytes@, utf16_bom(little_endian)),
{
    let (first, second): (u8, u8) = if little_endian {
        (0xFF, 0xFE)
    } else {
        (0xFE, 0xFF)
    };
    let r = bytes.len() >= 2 && bytes[0] == first && bytes[1] == second;
    proof {
        if r {
            assert(bytes@.take(2) =~= utf16_bom(little_endian));
        } else if bytes@.len() >= 2 {
            assert(bytes@.take(2)[0] == bytes@[0]);
            assert(bytes@.take(2)[1] == bytes@[1]);
        }
    }
    r
}

fn decode_error(encoding: TextEncoding, detail: &str) -> (r: AppError)
    ensures
        r matches AppError::TextEncoding { action, user_message, encoding: e, detail: d }
            && action@ == "decode text file"@ && user_message == TextEncodingUserMessage::Decode
            && e == encoding && d@ == detail@,
{
    AppError::text_encoding("decode text file", encoding, detail)
}

fn missing_bom_error(encoding: TextEncoding) -> (r: AppError)
    ensures
        is_decode_error(r, encoding, DecodeFailure::MissingBom),
{
    let mut detail = crate::text::to_owned("missing ");
    crate::text::push_str(&mut detail, encoding.display_name());
    crate::text::push_str(&mut detail, " byte order mark");
    decode_error(encoding, detail.as_str())
}

/// Reads UTF-16 with the byte order mark of the given byte order.
fn decode_utf16(bytes: &[u8], encoding: TextEncoding, little_endian: bool) -> (r: Result<String, AppError>)
    ensures
        match r {
            Ok(text) => decode_utf16_as(bytes@, little_endian) == Ok::<Seq<char>, DecodeFailure>(text@),
            Err(e) => decode_utf16_as(bytes@, little_endian) matches Err(why) && is_decode_error(
                e,
                encoding,
                why,
            ),
        },
{
    if !starts_with_utf16_bom(bytes, little_endian) {
        return Err(missing_bom_error(encoding));
    }
    let rest = vstd::slice::slice_subrange(bytes, 2, bytes.len());
    assert(rest@ == bytes@.skip(2));
    let pairs: usize = rest.len() / 2;
    let mut units: Vec<u16> = Vec::new();
    let mut i: usize = 0;
    while i < pairs
        invariant
            0 <= i <= pairs,
            pairs == rest.len() / 2,
            2 * pairs <= rest.len(),
            rest.len() == rest@.len(),
            units@ == bytes_units(rest@, little_endian).take(i as int),
        decreases pairs - i,
    {
        let at: usize = i + i;
        let a: u16 = rest[at] as u16;
        let b: u16 = rest[at + 1] as u16;
        let unit: u16 = if little_endian {
            a + 256 * b
        } else {
            256 * a + b
        };
        units.push(unit);
        assert(units@ =~= bytes_units(rest@, little_endian).take(i + 1));
        i = i + 1;
    }
    assert(units@ =~= bytes_units(rest@, little_endian));
    if rest.len() % 2 != 0 {
        return Err(decode_error(encoding, "UTF-16 content has an odd byte length after the BOM"));
    }
    match utf16_text(units.as_slice()) {
        Ok(text) => Ok(text),
        Err(detail) => Err(decode_error(encoding, detail.as_str())),
    }
}

/// Reads bytes in one named encoding.
fn decode_fixed(bytes: &[u8], encoding: TextEncoding) -> (r: Result<String, AppError>)
    requires
        encoding != TextEncoding::AutoDetect,
        encoding == TextEncoding::KoreanEucKr ==> bytes@.len() * 2 + 4 <= usize::MAX,
        encoding == TextEncoding::Windows1252 ==> bytes@.len() * 3 <= usize::MAX,
    ensures
        match r {
            Ok(text) => decode_as(bytes@, encoding) == Ok::<Seq<char>, DecodeFailure>(text@),
            Err(e) => decode_as(bytes@, encoding) matches Err(why) && is_decode_error(
                e,
                encoding,
                why,
            ),
        },
{
    match encoding {
        TextEncoding::Utf8WithBom => {
            if !starts_with_utf8_bom(bytes) {
                return Err(missing_bom_error(encoding));
            }
            let rest = vstd::slice::slice_subrange(bytes, 3, bytes.len());
            assert(rest@ == bytes@.skip(3));
            match utf8_text(rest) {
                Ok(text) => Ok(text),
                Err(detail) => Err(decode_error(encoding, detail.as_str())),
            }
        },
        TextEncoding::Utf16LeWithBom => decode_utf16(bytes, encoding, true),
        TextEncoding::Utf16BeWithBom => decode_utf16(bytes, encoding, false),
        TextEncoding::KoreanEucKr | TextEncoding::Windows1252 => {
            let legacy = if encoding == TextEncoding::KoreanEucKr {
                LegacyEncoding::EucKr
            } else {
                LegacyEncoding::Windows1252
            };
            match legacy_decode(legacy, bytes) {
                Some(text) => Ok(text),
                None => Err(
                    decode_error(encoding, "legacy decoder reported malformed byte sequences"),
                ),
            }
        },
        _ => match utf8_text(bytes) {
            Ok(text) => Ok(text),
            Err(detail) => Err(decode_error(encoding, detail.as_str())),
        },
    }
}

fn decode_in(bytes: &[u8], encoding: TextEncoding) -> (r: Result<DecodedText, AppError>)
    requires
        encoding != TextEncoding::AutoDetect,
        encoding == TextEncoding::KoreanEucKr ==> bytes@.len() * 2 + 4 <= usize::MAX,
        encoding == TextEncoding::Windows1252 ==> bytes@.len() * 3 <= usize::MAX,
    ensures
        match r {
            Ok(d) => decode_as(bytes@, encoding) == Ok::<Seq<char>, DecodeFailure>(d.content@)
                && d.encoding == encoding,
            Err(e) => decode_as(bytes@, encoding) matches Err(why) && is_decode_error(
                e,
                encoding,
                why,
            ),
        },
{
    match decode_fixed(bytes, encoding) {
        Ok(content) => Ok(DecodedText { content, encoding }),
        Err(error) => Err(error),
    }
}

fn decode_auto_detect(bytes: &[u8]) -> (r: Result<DecodedText, AppError>)
    requires
        decode_input_fits(bytes@, TextEncoding::AutoDetect),
    ensures
        match r {
            Ok(d) => decode_spec(bytes@, TextEncoding::AutoDetect) == Ok::<
                (Seq<char>, TextEncoding),
                (TextEncoding, DecodeFailure),
            >((d.content@, d.encoding)),
            Err(e) => decode_spec(bytes@, TextEncoding::AutoDetect) matches Err((enc, why))
                && is_decode_error(e, enc, why),
        },
{
    if starts_with_utf8_bom(bytes) {
        return decode_in(bytes, TextEncoding::Utf8WithBom);
    }
    if starts_with_utf16_bom(bytes, true) {
        return decode_in(bytes, TextEncoding::Utf16LeWithBom);
    }
    if starts_with_utf16_bom(bytes, false) {
        return decode_in(bytes, TextEncoding::Utf16BeWithBom);
    }
    if let Ok(content) = utf8_text(bytes) {
        return Ok(DecodedText { content, encoding: TextEncoding::Utf8 });
    }
    // encoding_rs follows the WHATWG EUC-KR decoder, which includes common Windows-949 extensions.
    if let Some(content) = legacy_decode(LegacyEncoding::EucKr, bytes) {
        return Ok(DecodedText { content, encoding: TextEncoding::KoreanEucKr });
    }
    decode_in(bytes, TextEncoding::Windows1252)
}

/// Reads the bytes of a text file in `encoding`, or detects the encoding.
pub fn decode_text(bytes: &[u8], encoding: TextEncoding) -> (r: Result<DecodedText, AppError>)
    requires
        decode_input_fits(bytes@, encoding),
    ensures
        encoding == TextEncoding::AutoDetect && vstd::utf8::valid_utf8(bytes@) && !starts_with(
            bytes@,
            utf8_bom(),
        ) ==> (r matches Ok(d) && d.content@ == vstd::utf8::decode_utf8(bytes@) && d.encoding
            == TextEncoding::Utf8),
        match r {
            Ok(d) => decode_spec(bytes@, encoding) == Ok::<
                (Seq<char>, TextEncoding),
                (TextEncoding, DecodeFailure),
            >((d.content@, d.encoding)),
            Err(e) => decode_spec(bytes@, encoding) matches Err((enc, why)) && is_decode_error(
                e,
                enc,
                why,
            ),
        },
{
    proof {
        if encoding == TextEncoding::AutoDetect && vstd::utf8::valid_utf8(bytes@) && !starts_with(
            bytes@,
            utf8_bom(),
        ) {
            lemma_detection_reads_valid_utf8_as_utf8(bytes@);
        }
    }
    if encoding == TextEncoding::AutoDetect {
        decode_auto_detect(bytes)
    } else {
        decode_in(bytes, encoding)
    }
}

fn import_only_error(encoding: TextEncoding) -> (r: AppError)
    ensures
        is_encode_error(r, encoding, EncodeFailure::ImportOnly),
{
    AppError::text_encoding_with_user_message(
        "encode text file",
        TextEncodingUserMessage::Encode,
        encoding,
        "Auto Detect is only valid for import",
    )
}

fn legacy_encode_error(encoding: TextEncoding) -> (r: AppError)
    ensures
        is_encode_error(r, encoding, EncodeFailure::Unmappable),
{
    AppError::text_encoding_with_user_message(
        "encode text file",
        TextEncodingUserMessage::Encode,
        encoding,
        "text contains characters that cannot be represented in the selected encoding",
    )
}

fn text_file_too_large_error() -> (r: AppError)
    ensures
        r == (AppError::TextFileTooLarge {
            user_message: TextFileTooLargeUserMessage::Export,
            limit_mib: TEXT_FILE_MIB_LIMIT,
        }),
{
    AppError::text_file_too_large(TextFileTooLargeUserMessage::Export, TEXT_FILE_MIB_LIMIT)
}

fn utf8_file_bytes(content: &str, with_bom: bool) -> (r: Vec<u8>)
    ensures
        r@ == (if with_bom {
            utf8_bom() + vstd::utf8::encode_utf8(content@)
        } else {
            vstd::utf8::encode_utf8(content@)
        }),
{
    let mut out: Vec<u8> = Vec::new();
    if with_bom {
        out.push(0xEF);
        out.push(0xBB);
        out.push(0xBF);
        assert(out@ =~= utf8_bom());
    }
    append_bytes(&mut out, str_bytes(content));
    if !with_bom {
        assert(out@ =~= vstd::utf8::encode_utf8(content@));
    }
    out
}

fn legacy_encode_checked(content: &str, encoding: TextEncoding) -> (r: Result<Vec<u8>, AppError>)
    requires
        encoding == TextEncoding::KoreanEucKr || encoding == TextEncoding::Windows1252,
        encode_input_fits(content@, encoding),
    ensures
        match r {
            Ok(bytes) => encode_spec(content@, encoding) == Ok::<Seq<u8>, EncodeFailure>(bytes@),
            Err(e) => encode_spec(content@, encoding) matches Err(why) && is_encode_error(
                e,
                encoding,
                why,
            ),
        },
{
    let legacy = if encoding == TextEncoding::KoreanEucKr {
        LegacyEncoding::EucKr
    } else {
        LegacyEncoding::Windows1252
    };
    let (bytes, had_errors) = legacy_encode(legacy, content);
    if had_errors {
        return Err(legacy_encode_error(encoding));
    }
    Ok(bytes)
}

/// Writes a text in `encoding`.
pub fn encode_text(content: &str, encoding: TextEncoding) -> (r: Result<Vec<u8>, AppError>)
    requires
        encode_input_fits(content@, encoding),
        utf16_file_len(content@) <= usize::MAX,
    ensures
        match r {
            Ok(bytes) => encode_spec(content@, encoding) == Ok::<Seq<u8>, EncodeFailure>(bytes@),
            Err(e) => encode_spec(content@, encoding) matches Err(why) && is_encode_error(
                e,
                encoding,
                why,
            ),
        },
{
    match encoding {
        TextEncoding::AutoDetect => Err(import_only_error(encoding)),
        TextEncoding::Utf8 => Ok(utf8_file_bytes(content, false)),
        TextEncoding::Utf8WithBom => Ok(utf8_file_bytes(content, true)),
        TextEncoding::Utf16LeWithBom | TextEncoding::Utf16BeWithBom => {
            let little_endian = encoding == TextEncoding::Utf16LeWithBom;
            Ok(encode_utf16_within(content, little_endian, usize::MAX).unwrap())
        },
        _ => legacy_encode_checked(content, encoding),
    }
}

/// Writes a text in `encoding` for a file, refusing output above the size limit.
fn encode_text_for_export(content: &str, encoding: TextEncoding) -> (r: Result<Vec<u8>, AppError>)
    requires
        encode_input_fits(content@, encoding),
    ensures
        match r {
            Ok(bytes) => export_spec(content@, encoding) == Ok::<Seq<u8>, EncodeFailure>(bytes@),
            Err(e) => export_spec(content@, encoding) matches Err(why) && is_encode_error(
                e,
                encoding,
                why,
            ),
        },
{
    match encoding {
        TextEncoding::AutoDetect => Err(import_only_error(encoding)),
        TextEncoding::Utf8 | TextEncoding::Utf8WithBom => {
            let with_bom = encoding == TextEncoding::Utf8WithBom;
            let len = str_bytes(content).len();
            let bom_len: usize = if with_bom {
                3
            } else {
                0
            };
            if len > TEXT_FILE_BYTE_LIMIT - bom_len {
                return Err(text_file_too_large_error());
            }
            Ok(utf8_file_bytes(content, with_bom))
        },
        TextEncoding::Utf16LeWithBom | TextEncoding::Utf16BeWithBom => {
            let little_endian = encoding == TextEncoding::Utf16LeWithBom;
            match encode_utf16_within(content, little_endian, TEXT_FILE_BYTE_LIMIT) {
                Some(bytes) => Ok(bytes),
                None => {
                    proof {
                        lemma_units_bytes_round_trip(utf16_encode(content@), little_endian);
                    }
                    Err(text_file_too_large_error())
                },
            }
        },
        _ => {
            let bytes = legacy_encode_checked(content, encoding)?;
            if bytes.len() > TEXT_FILE_BYTE_LIMIT {
                return Err(text_file_too_large_error());
            }
            Ok(bytes)
        },
    }
}

/// The bytes of a text file to be written in `encoding`.
pub fn encode_text_file_for_export(content: &str, encoding: TextEncoding) -> (r: Result<
    EncodedTextExport,
    AppError,
>)
    requires
        encode_input_fits(content@, encoding),
    ensures
        match r {
            Ok(export) => export_spec(content@, encoding) == Ok::<Seq<u8>, EncodeFailure>(
                export@,
            ),
            Err(e) => export_spec(content@, encoding) matches Err(why) && is_encode_error(
                e,
                encoding,
                why,
            ),
        },
{
    match encode_text_for_export(content, encoding) {
        Ok(bytes) => Ok(EncodedTextExport { bytes }),
        Err(error) => Err(error),
    }
}

/// Checks that a text can be written in `encoding` within the size limit, as
/// `encode_text_file_for_export` would, without keeping the bytes.
pub fn validate_text_file_export_encoding(content: &str, encoding: TextEncoding) -> (r: Result<
    (),
    AppError,
>)
    requires
        encode_input_fits(content@, encoding),
    ensures
        r is Ok <==> export_spec(content@, encoding) is Ok,
        r matches Err(e) ==> export_spec(content@, encoding) matches Err(why) && is_encode_error(
            e,
            encoding,
            why,
        ),
{
    match encode_text_for_export(content, encoding) {
        Ok(_) => Ok(()),
        Err(error) => Err(error),
    }
}

/// Refuses a file larger than the limit before it is read.
pub fn ensure_text_file_byte_len_within_limit(
    len: u64,
    user_message: TextFileTooLargeUserMessage,
) -> (r: Result<(), AppError>)
    ensures
        r is Ok <==> len <= TEXT_FILE_BYTE_LIMIT,
        r matches Err(e) ==> e == (AppError::TextFileTooLarge {
            user_message,
            limit_mib: TEXT_FILE_MIB_LIMIT,
        }),
{
    if len <= TEXT_FILE_BYTE_LIMIT as u64 {
        return Ok(());
    }
    Err(AppError::text_file_too_large(user_message, TEXT_FILE_MIB_LIMIT))
}

/// Refuses an input path that is not a regular file.
pub fn ensure_regular_text_input_file(is_file: bool) -> (r: Result<(), AppError>)
    ensures
        r is Ok <==> is_file,
        r matches Err(e) ==> e matches AppError::User { message } && message@
            == "텍스트 파일은 일반 파일이어야 합니다."@,
{
    if is_file {
        return Ok(());
    }
    Err(AppError::user("텍스트 파일은 일반 파일이어야 합니다."))
}

/// How many bytes to reserve for a file of the reported length: the length, but never
/// more than the limit.
pub fn metadata_len_capacity(len: u64) -> (r: usize)
    ensures
        r == (if len < TEXT_FILE_BYTE_LIMIT {
            len as int
        } else {
            TEXT_FILE_BYTE_LIMIT as int
        }),
{
    if len < TEXT_FILE_BYTE_LIMIT as u64 {
        len as usize
    } else {
        TEXT_FILE_BYTE_LIMIT
    }
}

/// Text written in UTF-8 or UTF-16, with or without a byte order mark, reads back as
/// the same text in the same encoding.
pub proof fn lemma_unicode_round_trip(content: Seq<char>, encoding: TextEncoding)
    requires
        encoding == TextEncoding::Utf8 || encoding == TextEncoding::Utf8WithBom || encoding
            == TextEncoding::Utf16LeWithBom || encoding == TextEncoding::Utf16BeWithBom,
    ensures
        encode_spec(content, encoding) matches Ok(bytes) && decode_spec(bytes, encoding) == Ok::<
            (Seq<char>, TextEncoding),
            (TextEncoding, DecodeFailure),
        >((content, encoding)),
{
    let enc = vstd::utf8::encode_utf8(content);
    vstd::utf8::encode_utf8_valid_utf8(content);
    vstd::utf8::encode_utf8_decode_utf8(content);
    if encoding == TextEncoding::Utf8WithBom {
        let bytes = utf8_bom() + enc;
        assert(bytes.take(3) =~= utf8_bom());
        assert(bytes.skip(3) =~= enc);
    } else if encoding == TextEncoding::Utf16LeWithBom || encoding == TextEncoding::Utf16BeWithBom {
        let little_endian = encoding == TextEncoding::Utf16LeWithBom;
        let units = utf16_encode(content);
        let bytes = utf16_file_bytes(content, little_endian);
        lemma_units_bytes_round_trip(units, little_endian);
        lemma_utf16_round_trip(content);
        assert(bytes.take(2) =~= utf16_bom(little_endian));
        assert(bytes.skip(2) =~= units_bytes(units, little_endian));
    }
}

/// A text written with a byte order mark is detected as the encoding it was written in.
pub proof fn lemma_bom_detection(content: Seq<char>, encoding: TextEncoding)
    requires
        encoding == TextEncoding::Utf8WithBom || encoding == TextEncoding::Utf16LeWithBom
            || encoding == TextEncoding::Utf16BeWithBom,
    ensures
        encode_spec(content, encoding) matches Ok(bytes) && decode_spec(
            bytes,
            TextEncoding::AutoDetect,
        ) == decode_spec(bytes, encoding),
        encode_spec(content, encoding) matches Ok(bytes) && decode_spec(
            bytes,
            TextEncoding::AutoDetect,
        ) == Ok::<(Seq<char>, TextEncoding), (TextEncoding, DecodeFailure)>((content, encoding)),
{
    lemma_unicode_round_trip(content, encoding);
    if encoding == TextEncoding::Utf8WithBom {
        let bytes = utf8_bom() + vstd::utf8::encode_utf8(content);
        assert(bytes.take(3) =~= utf8_bom());
    } else {
        let little_endian = encoding == TextEncoding::Utf16LeWithBom;
        let bytes = utf16_file_bytes(content, little_endian);
        assert(bytes.take(2) =~= utf16_bom(little_endian));
        assert(bytes[0] == utf16_bom(little_endian)[0]);
        if bytes.len() >= 3 {
            assert(bytes.take(3)[0] == bytes[0]);
        }
        if !little_endian {
            assert(bytes.take(2)[0] == bytes[0]);
        }
    }
}

/// What is written to a file is what encoding gives, and never more than the limit.
pub proof fn lemma_export_within_limit(content: Seq<char>, encoding: TextEncoding)
    ensures
        export_spec(content, encoding) matches Ok(bytes) ==> encode_spec(content, encoding)
            == Ok::<Seq<u8>, EncodeFailure>(bytes) && bytes.len() <= TEXT_FILE_BYTE_LIMIT,
        encode_spec(content, encoding) matches Ok(bytes) ==> (export_spec(content, encoding) is Ok
            <==> bytes.len() <= TEXT_FILE_BYTE_LIMIT),
{
}

} // verus!
