//! Exact text building blocks (equality, decimal numerals, lowercase hexadecimal), the
//! alignment of laid-out text, and the checks that text and its explicit font pass before
//! layout: a static single-face TrueType outline font, no control or bidi characters, a glyph
//! for every character, and one supported alphabet per line.
use crate::error::{ErrorCode, PicError};
use rustybuzz::ttf_parser::Tag;
use rustybuzz::{Direction, Face, UnicodeBuffer};
use unicode_script::{Script, UnicodeScript};
use vstd::prelude::*;

verus! {

/// Horizontal alignment of each line within the text box.
#[derive(Debug, Clone, Copy, PartialEq, Eq, Structural)]
pub enum TextAlign {
    Left,
    Center,
    Right,
}

impl TextAlign {
    /// The wire name: `left`, `center` or `right`.
    pub fn parse(value: &str) -> (r: Result<TextAlign, PicError>)
        ensures
            match r {
                Ok(TextAlign::Left) => value@ == "left"@,
                Ok(TextAlign::Center) => value@ == "center"@,
                Ok(TextAlign::Right) => value@ == "right"@,
                Err(e) => value@ != "left"@ && value@ != "center"@ && value@ != "right"@ && e.code
                    == ErrorCode::InvalidArgument,
            },
    {
        if text_eq(value, "left") {
            Ok(TextAlign::Left)
        } else if text_eq(value, "center") {
            Ok(TextAlign::Center)
        } else if text_eq(value, "right") {
            Ok(TextAlign::Right)
        } else {
            Err(PicError::new(ErrorCode::InvalidArgument, "unknown variant; expected one of `left`, `center`, `right`"))
        }
    }
}

impl std::str::FromStr for TextAlign {
    type Err = PicError;

    /// As `TextAlign::parse`.
    fn from_str(value: &str) -> (r: Result<Self, PicError>)
        ensures
            match r {
                Ok(TextAlign::Left) => value@ == "left"@,
                Ok(TextAlign::Center) => value@ == "center"@,
                Ok(TextAlign::Right) => value@ == "right"@,
                Err(e) => value@ != "left"@ && value@ != "center"@ && value@ != "right"@ && e.code
                    == ErrorCode::InvalidArgument,
            },
    {
        TextAlign::parse(value)
    }
}

/// Character of a decimal digit.
pub open spec fn digit_char(d: nat) -> char {
    if d == 0 { '0' } else if d == 1 { '1' } else if d == 2 { '2' } else if d == 3 { '3' }
    else if d == 4 { '4' } else if d == 5 { '5' } else if d == 6 { '6' } else if d == 7 { '7' }
    else if d == 8 { '8' } else { '9' }
}

/// Shortest decimal numeral of `n` (no leading zeros).
pub open spec fn decimal(n: nat) -> Seq<char>
    decreases n,
{
    if n < 10 {
        seq![digit_char(n)]
    } else {
        decimal(n / 10).push(digit_char(n % 10))
    }
}

proof fn lemma_digit_char_injective(a: nat, b: nat)
    requires
        a < 10,
        b < 10,
        digit_char(a) == digit_char(b),
    ensures
        a == b,
{
}

pub proof fn lemma_decimal_len(n: nat)
    ensures
        decimal(n).len() >= 1,
        decimal(n).len() == 1 <==> n < 10,
    decreases n,
{
    if n >= 10 {
        lemma_decimal_len(n / 10);
    }
}

/// Distinct numbers have distinct numerals.
pub proof fn lemma_decimal_injective(a: nat, b: nat)
    requires
        decimal(a) == decimal(b),
    ensures
        a == b,
    decreases a,
{
    lemma_decimal_len(a);
    lemma_decimal_len(b);
    if a < 10 {
        assert(b < 10);
        assert(decimal(a)[0] == digit_char(a));
        assert(decimal(b)[0] == digit_char(b));
        lemma_digit_char_injective(a, b);
    } else {
        let da = decimal(a);
        let db = decimal(b);
        assert(da.last() == db.last());
        lemma_digit_char_injective(a % 10, b % 10);
        assert(da.drop_last() =~= decimal(a / 10));
        assert(db.drop_last() =~= decimal(b / 10));
        lemma_decimal_injective(a / 10, b / 10);
    }
}

/// The single-digit string of `d`.
pub fn digit_str(d: usize) -> (s: &'static str)
    requires
        d < 10,
    ensures
        s@ == seq![digit_char(d as nat)],
{
    proof {
        reveal_strlit("0");
        reveal_strlit("1");
        reveal_strlit("2");
        reveal_strlit("3");
        reveal_strlit("4");
        reveal_strlit("5");
        reveal_strlit("6");
        reveal_strlit("7");
        reveal_strlit("8");
        reveal_strlit("9");
    }
    match d {
        0 => "0",
        1 => "1",
        2 => "2",
        3 => "3",
        4 => "4",
        5 => "5",
        6 => "6",
        7 => "7",
        8 => "8",
        _ => "9",
    }
}

/// Append the decimal numeral of `n` to `out`.
pub fn push_decimal(out: &mut String, n: u64)
    ensures
        final(out)@ == old(out)@ + decimal(n as nat),
    decreases n,
{
    if n < 10 {
        out.append(digit_str(n as usize));
    } else {
        push_decimal(out, n / 10);
        out.append(digit_str((n % 10) as usize));
    }
}

/// `prefix` followed by the decimal numeral of `n`, e.g. `r12`.
pub fn numbered(prefix: &str, n: u64) -> (s: String)
    ensures
        s@ == prefix@ + decimal(n as nat),
{
    let mut s = String::from_str(prefix);
    push_decimal(&mut s, n);
    s
}

/// Exact equality of two string slices.
pub fn text_eq(a: &str, b: &str) -> (r: bool)
    ensures
        r == (a@ == b@),
{
    String::from_str(a) == String::from_str(b)
}

/// Lowercase hexadecimal character of a nibble.
pub open spec fn hex_char(d: nat) -> char {
    if d < 10 {
        digit_char(d)
    } else if d == 10 { 'a' } else if d == 11 { 'b' } else if d == 12 { 'c' }
    else if d == 13 { 'd' } else if d == 14 { 'e' } else { 'f' }
}

/// Two lowercase hexadecimal characters per byte, most significant nibble first.
pub open spec fn hex(bytes: Seq<u8>) -> Seq<char>
    decreases bytes.len(),
{
    if bytes.len() == 0 {
        Seq::empty()
    } else {
        hex(bytes.drop_last()).push(hex_char((bytes.last() / 16) as nat)).push(
            hex_char((bytes.last() % 16) as nat),
        )
    }
}

fn hex_str(d: u8) -> (s: &'static str)
    requires
        d < 16,
    ensures
        s@ == seq![hex_char(d as nat)],
{
    if d < 10 {
        digit_str(d as usize)
    } else {
        proof {
            reveal_strlit("a");
            reveal_strlit("b");
            reveal_strlit("c");
            reveal_strlit("d");
            reveal_strlit("e");
            reveal_strlit("f");
        }
        match d {
            10 => "a",
            11 => "b",
            12 => "c",
            13 => "d",
            14 => "e",
            _ => "f",
        }
    }
}

/// Lowercase hexadecimal text of `bytes`.
pub fn to_hex(bytes: &[u8]) -> (s: String)
    ensures
        s@ == hex(bytes@),
{
    let mut s = String::new();
    let mut i: usize = 0;
    while i < bytes.len()
        invariant
            i <= bytes@.len(),
            s@ == hex(bytes@.take(i as int)),
        decreases bytes@.len() - i,
    {
        let b = bytes[i];
        s.append(hex_str(b / 16));
        s.append(hex_str(b % 16));
        assert(bytes@.take(i + 1).drop_last() =~= bytes@.take(i as int));
        i += 1;
    }
    assert(bytes@.take(i as int) =~= bytes@);
    s
}

pub proof fn lemma_hex_len(bytes: Seq<u8>)
    ensures
        hex(bytes).len() == 2 * bytes.len(),
    decreases bytes.len(),
{
    if bytes.len() > 0 {
        lemma_hex_len(bytes.drop_last());
    }
}


/// The script class of a character, as far as layout distinguishes it.
#[derive(Debug, Clone, Copy, PartialEq, Eq, Structural)]
pub enum ScriptClass {
    Common,
    Inherited,
    Latin,
    Greek,
    Cyrillic,
    Other,
}

/// Whether `rustybuzz::Face::from_slice(font, 0)` parses the bytes.
pub uninterp spec fn face_parses(font: Seq<u8>) -> bool;

/// Whether the parsed face is variable (`ttf_parser::Face::is_variable`); false when the
/// bytes do not parse.
pub uninterp spec fn face_variable(font: Seq<u8>) -> bool;

/// Whether the parsed face's raw table directory holds `tag`; false when the bytes do not
/// parse.
pub uninterp spec fn face_table(font: Seq<u8>, tag: [u8; 4]) -> bool;

/// The glyph that the parsed face's character map gives `c`, if any; none when the bytes do
/// not parse.
pub uninterp spec fn glyph_of(font: Seq<u8>, c: char) -> Option<u16>;

/// The Unicode script of `c` (`unicode_script::UnicodeScript::script`), classified.
pub uninterp spec fn script_class(c: char) -> ScriptClass;

/// The glyph ids that `rustybuzz::shape` gives `line`, left to right with default features;
/// empty when the bytes do not parse.
pub uninterp spec fn shaped_ids(font: Seq<u8>, line: Seq<char>) -> Seq<u32>;

/// `rustybuzz::Face::from_slice(font, 0)` succeeds.
#[verifier::external_body]
fn parses(font: &[u8]) -> (r: bool)
    ensures
        r == face_parses(font@),
{
    Face::from_slice(font, 0).is_some()
}

/// `ttf_parser::Face::is_variable` of the parsed face.
#[verifier::external_body]
fn variable(font: &[u8]) -> (r: bool)
    ensures
        r == face_variable(font@),
{
    match Face::from_slice(font, 0) {
        Some(face) => face.is_variable(),
        None => false,
    }
}

/// `ttf_parser::RawFace::table` of the parsed face finds `tag`.
#[verifier::external_body]
fn has_table(font: &[u8], tag: [u8; 4]) -> (r: bool)
    ensures
        r == face_table(font@, tag),
{
    match Face::from_slice(font, 0) {
        Some(face) => face.raw_face().table(Tag::from_bytes(&tag)).is_some(),
        None => false,
    }
}

/// `ttf_parser::Face::glyph_index` of the parsed face, as the glyph number.
#[verifier::external_body]
fn glyph_index(font: &[u8], c: char) -> (r: Option<u16>)
    ensures
        r == glyph_of(font@, c),
{
    match Face::from_slice(font, 0) {
        Some(face) => face.glyph_index(c).map(|g| g.0),
        None => None,
    }
}

/// `unicode_script::UnicodeScript::script`, with every script other than Common,
/// Inherited, Latin, Greek and Cyrillic as `Other`.
#[verifier::external_body]
fn script(c: char) -> (s: ScriptClass)
    ensures
        s == script_class(c),
{
    match c.script() {
        Script::Common => ScriptClass::Common,
        Script::Inherited => ScriptClass::Inherited,
        Script::Latin => ScriptClass::Latin,
        Script::Greek => ScriptClass::Greek,
        Script::Cyrillic => ScriptClass::Cyrillic,
        _ => ScriptClass::Other,
    }
}

/// `rustybuzz::shape` of `line` (left to right, segment properties guessed, no features),
/// as the glyph ids of its output.
#[verifier::external_body]
fn shaped_glyphs(font: &[u8], line: &Vec<char>) -> (r: Vec<u32>)
    ensures
        r@ == shaped_ids(font@, line@),
{
    let Some(face) = Face::from_slice(font, 0) else { return Vec::new() };
    let mut buffer = UnicodeBuffer::new();
    buffer.push_str(&line.iter().collect::<String>());
    buffer.set_direction(Direction::LeftToRight);
    buffer.guess_segment_properties();
    rustybuzz::shape(&face, &[], buffer).glyph_infos().iter().map(|g| g.glyph_id).collect()
}

pub open spec fn starts_with_bytes(b: Seq<u8>, prefix: Seq<u8>) -> bool {
    b.len() >= prefix.len() && b.take(prefix.len() as int) == prefix
}

/// Why a font is refused, if it is: it must parse as a single face (not a `ttcf`
/// collection), be static, hold TrueType outlines (`glyf`) and no color or bitmap glyphs
/// (`COLR`, `CBDT`, `sbix`, `SVG `).
pub open spec fn face_refusal(font: Seq<u8>) -> Option<ErrorCode> {
    if !face_parses(font) || starts_with_bytes(font, seq![0x74u8, 0x74, 0x63, 0x66]) || face_variable(font)
        || !face_table(font, [0x67u8, 0x6c, 0x79, 0x66]) || face_table(font, [0x43u8, 0x4f, 0x4c, 0x52])
        || face_table(font, [0x43u8, 0x42, 0x44, 0x54]) || face_table(font, [0x73u8, 0x62, 0x69, 0x78])
        || face_table(font, [0x53u8, 0x56, 0x47, 0x20]) {
        Some(ErrorCode::InvalidFont)
    } else {
        None
    }
}

/// Control characters (general category Cc), zero-width and bidi controls, line and
/// paragraph separators, word joiners and invisible operators, and variation selectors.
pub open spec fn forbidden_char(c: char) -> bool {
    let u = c as u32;
    u <= 0x1f || (0x7f <= u && u <= 0x9f) || (0x200b <= u && u <= 0x200f) || (0x2028 <= u && u <= 0x202e) || (
    0x2060 <= u && u <= 0x206f) || (0xfe00 <= u && u <= 0xfe0f) || (0xe0100 <= u && u <= 0xe01ef)
}

pub open spec fn glyph_missing(font: Seq<u8>, c: char) -> bool {
    match glyph_of(font, c) {
        None => true,
        Some(g) => g == 0,
    }
}

/// A line whose shaping gives the missing glyph is refused.
pub open spec fn line_refusal(font: Seq<u8>, line: Seq<char>) -> Option<ErrorCode> {
    if shaped_ids(font, line).contains(0u32) {
        Some(ErrorCode::MissingGlyph)
    } else {
        None
    }
}

/// The refusal found reading `t` from position `i`, inside the line that began at `start`
/// and has used the alphabet `alphabet` so far: each character in order must not be a
/// control, must have a glyph, and must be Common, Inherited or the line's one alphabet
/// among Latin, Greek and Cyrillic; each line, at its end, must shape without the missing
/// glyph.
pub open spec fn scan_refusal(font: Seq<u8>, t: Seq<char>, i: nat, start: nat, alphabet: Option<ScriptClass>) -> Option<
    ErrorCode,
>
    decreases t.len() - i,
{
    if i >= t.len() {
        line_refusal(font, t.subrange(start as int, t.len() as int))
    } else if t[i as int] == '\n' {
        match line_refusal(font, t.subrange(start as int, i as int)) {
            Some(c) => Some(c),
            None => scan_refusal(font, t, i + 1, i + 1, None),
        }
    } else if forbidden_char(t[i as int]) {
        Some(ErrorCode::UnsupportedText)
    } else if glyph_missing(font, t[i as int]) {
        Some(ErrorCode::MissingGlyph)
    } else {
        let s = script_class(t[i as int]);
        if s == ScriptClass::Common || s == ScriptClass::Inherited {
            scan_refusal(font, t, i + 1, start, alphabet)
        } else if s == ScriptClass::Other {
            Some(ErrorCode::UnsupportedText)
        } else if alphabet is Some && alphabet->0 != s {
            Some(ErrorCode::UnsupportedText)
        } else {
            scan_refusal(font, t, i + 1, start, Some(s))
        }
    }
}

/// Why `text` cannot be laid out with `font`, if it cannot: the font first, then the text
/// line by line (lines end at LF).
pub open spec fn text_refusal(text: Seq<char>, font: Seq<u8>) -> Option<ErrorCode> {
    match face_refusal(font) {
        Some(c) => Some(c),
        None => scan_refusal(font, text, 0, 0, None),
    }
}

proof fn lemma_plain_scan(font: Seq<u8>, t: Seq<char>, alphabet: ScriptClass, i: nat, seen: Option<ScriptClass>)
    requires
        i <= t.len(),
        seen is None || seen == Some(alphabet),
        forall|k: int| 0 <= k < t.len() ==> !forbidden_char(#[trigger] t[k]) && t[k] != '\n',
        forall|k: int| 0 <= k < t.len() ==> !glyph_missing(font, #[trigger] t[k]),
        forall|k: int|
            0 <= k < t.len() ==> script_class(#[trigger] t[k]) == ScriptClass::Common || script_class(t[k])
                == ScriptClass::Inherited || script_class(t[k]) == alphabet,
        alphabet != ScriptClass::Other,
        line_refusal(font, t) is None,
    ensures
        scan_refusal(font, t, i, 0, seen) is None,
    decreases t.len() - i,
{
    if i >= t.len() {
        assert(t.subrange(0, t.len() as int) =~= t);
    } else {
        let c = t[i as int];
        let s = script_class(c);
        if s == ScriptClass::Common || s == ScriptClass::Inherited {
            lemma_plain_scan(font, t, alphabet, i + 1, seen);
        } else {
            lemma_plain_scan(font, t, alphabet, i + 1, Some(s));
        }
    }
}

/// Only control characters are refused as controls: a one-line text (no LF) with an
/// accepted font, none of whose characters lies in U+0000-001F, U+007F-009F, U+200B-200F,
/// U+2028-202E, U+2060-206F, U+FE00-FE0F or U+E0100-E01EF, each with a glyph, each of
/// script Common, Inherited or one alphabet other than `Other`, and whose shaping has no
/// missing glyph, is accepted. Letters such as `é` are never refused as controls.
pub proof fn only_controls_are_refused_as_controls(text: Seq<char>, font: Seq<u8>, alphabet: ScriptClass)
    requires
        face_refusal(font) is None,
        forall|k: int|
            0 <= k < text.len() ==> {
                let u = (#[trigger] text[k]) as u32;
                !(u <= 0x1f || (0x7f <= u && u <= 0x9f) || (0x200b <= u && u <= 0x200f) || (0x2028 <= u && u
                    <= 0x202e) || (0x2060 <= u && u <= 0x206f) || (0xfe00 <= u && u <= 0xfe0f) || (0xe0100 <= u
                    && u <= 0xe01ef))
            },
        forall|k: int| 0 <= k < text.len() ==> (glyph_of(font, #[trigger] text[k]) matches Some(g) && g != 0),
        forall|k: int|
            0 <= k < text.len() ==> script_class(#[trigger] text[k]) == ScriptClass::Common || script_class(
                text[k],
            ) == ScriptClass::Inherited || script_class(text[k]) == alphabet,
        alphabet != ScriptClass::Other,
        !shaped_ids(font, text).contains(0u32),
    ensures
        text_refusal(text, font) is None,
{
    assert forall|k: int| 0 <= k < text.len() implies !forbidden_char(#[trigger] text[k]) && text[k] != '\n' by {
        assert(('\n' as u32) == 0x0a);
    }
    assert forall|k: int| 0 <= k < text.len() implies !glyph_missing(font, #[trigger] text[k]) by {}
    lemma_plain_scan(font, text, alphabet, 0, None);
}

/// A text with an accepted font whose first character is a control (U+0000-001F other than
/// LF, U+007F-009F) or an invisible or bidi control (U+200B-200F, U+2028-202E,
/// U+2060-206F, U+FE00-FE0F, U+E0100-E01EF) is refused as unsupported text.
pub proof fn leading_control_is_refused(text: Seq<char>, font: Seq<u8>)
    requires
        face_refusal(font) is None,
        text.len() > 0,
        text[0] != '\n',
        ({
            let u = text[0] as u32;
            u <= 0x1f || (0x7f <= u && u <= 0x9f) || (0x200b <= u && u <= 0x200f) || (0x2028 <= u && u <= 0x202e)
                || (0x2060 <= u && u <= 0x206f) || (0xfe00 <= u && u <= 0xfe0f) || (0xe0100 <= u && u <= 0xe01ef)
        }),
    ensures
        text_refusal(text, font) == Some(ErrorCode::UnsupportedText),
{
}

/// Whether the font is refused.
pub fn check_font(font: &[u8]) -> (r: Result<(), PicError>)
    ensures
        match r {
            Ok(()) => face_refusal(font@) is None,
            Err(e) => face_refusal(font@) == Some(e.code),
        },
{
    let ttcf: [u8; 4] = [0x74, 0x74, 0x63, 0x66];
    let collection = font.len() >= 4 && font[0] == ttcf[0] && font[1] == ttcf[1] && font[2] == ttcf[2]
        && font[3] == ttcf[3];
    proof {
        let prefix = seq![0x74u8, 0x74, 0x63, 0x66];
        if font@.len() >= 4 {
            if collection {
                assert(font@.take(4) =~= prefix);
            } else {
                assert(font@.take(4) != prefix) by {
                    if font@.take(4) == prefix {
                        assert(font@.take(4)[0] == font@[0]);
                        assert(font@.take(4)[1] == font@[1]);
                        assert(font@.take(4)[2] == font@[2]);
                        assert(font@.take(4)[3] == font@[3]);
                    }
                }
            }
        }
    }
    if !parses(font) || collection || variable(font) || !has_table(font, [0x67, 0x6c, 0x79, 0x66])
        || has_table(font, [0x43, 0x4f, 0x4c, 0x52]) || has_table(font, [0x43, 0x42, 0x44, 0x54]) || has_table(
        font,
        [0x73, 0x62, 0x69, 0x78],
    ) || has_table(font, [0x53, 0x56, 0x47, 0x20]) {
        return Err(
            PicError::new(
                ErrorCode::InvalidFont,
                "only static, single-face TrueType outlines are supported; collections, variable, color and bitmap fonts are rejected",
            ),
        );
    }
    Ok(())
}

fn forbidden(c: char) -> (r: bool)
    ensures
        r == forbidden_char(c),
{
    let u = c as u32;
    u <= 0x1f || (0x7f <= u && u <= 0x9f) || (0x200b <= u && u <= 0x200f) || (0x2028 <= u && u <= 0x202e) || (
    0x2060 <= u && u <= 0x206f) || (0xfe00 <= u && u <= 0xfe0f) || (0xe0100 <= u && u <= 0xe01ef)
}

/// Whether the shaped line holds the missing glyph.
fn line_check(font: &[u8], line: &Vec<char>) -> (r: Result<(), PicError>)
    ensures
        match r {
            Ok(()) => line_refusal(font@, line@) is None,
            Err(e) => line_refusal(font@, line@) == Some(e.code),
        },
{
    let ids = shaped_glyphs(font, line);
    let mut k: usize = 0;
    while k < ids.len()
        invariant
            k <= ids@.len(),
            ids@ == shaped_ids(font@, line@),
            forall|j: int| 0 <= j < k ==> ids@[j] != 0u32,
        decreases ids@.len() - k,
    {
        if ids[k] == 0 {
            assert(ids@.contains(0u32)) by {
                assert(ids@[k as int] == 0u32);
            }
            return Err(PicError::new(ErrorCode::MissingGlyph, "shaping produced a missing glyph"));
        }
        k += 1;
    }
    assert(!ids@.contains(0u32));
    Ok(())
}

/// Check `text` against its explicit `font` before layout: the font must be a static,
/// single-face TrueType outline font; each character, line by line, must not be a control,
/// must have a glyph and must keep to one of Latin, Greek or Cyrillic per line (plus Common
/// and Inherited characters); each line must shape without the missing glyph.
pub fn check_text(text: &str, font: &[u8]) -> (r: Result<(), PicError>)
    ensures
        match r {
            Ok(()) => text_refusal(text@, font@) is None,
            Err(e) => text_refusal(text@, font@) == Some(e.code),
        },
{
    check_font(font)?;
    let ghost t = text@;
    let n = text.unicode_len();
    let mut line: Vec<char> = Vec::new();
    let mut alphabet: Option<ScriptClass> = None;
    let ghost mut start: nat = 0;
    let mut i: usize = 0;
    assert(t.subrange(0, 0) =~= line@);
    while i < n
        invariant
            t == text@,
            n == t.len(),
            start <= i <= n,
            line@ == t.subrange(start as int, i as int),
            face_refusal(font@) is None,
            text_refusal(t, font@) == scan_refusal(font@, t, i as nat, start, alphabet),
        decreases n - i,
    {
        let c = text.get_char(i);
        if c == '\n' {
            match line_check(font, &line) {
                Err(e) => return Err(e),
                Ok(()) => {},
            }
            line = Vec::new();
            alphabet = None;
            proof {
                start = (i + 1) as nat;
            }
            assert(t.subrange(start as int, (i + 1) as int) =~= line@);
        } else {
            if forbidden(c) {
                return Err(
                    PicError::new(
                        ErrorCode::UnsupportedText,
                        "unsupported text control; use LF for explicit line breaks",
                    ),
                );
            }
            let missing = match glyph_index(font, c) {
                None => true,
                Some(g) => g == 0,
            };
            if missing {
                return Err(PicError::new(ErrorCode::MissingGlyph, "the font has no glyph for a character"));
            }
            let s = script(c);
            if s == ScriptClass::Other {
                return Err(
                    PicError::new(
                        ErrorCode::UnsupportedText,
                        "supported scripts are Latin, Greek and Cyrillic (horizontal LTR); CJK, bidi and complex-script layout are not supported",
                    ),
                );
            }
            if s != ScriptClass::Common && s != ScriptClass::Inherited {
                match alphabet {
                    Some(old) => {
                        if old != s {
                            return Err(
                                PicError::new(
                                    ErrorCode::UnsupportedText,
                                    "use one supported alphabet per line; mixed-script itemization is not supported",
                                ),
                            );
                        }
                    },
                    None => {},
                }
                alphabet = Some(s);
            }
            line.push(c);
            assert(t.subrange(start as int, (i + 1) as int) =~= line@);
        }
        i += 1;
    }
    assert(t.subrange(start as int, t.len() as int) =~= line@);
    line_check(font, &line)
}

} // verus!
