use pic_core::text::{check_font, check_text, TextAlign};
use pic_core::ErrorCode;

fn be16(out: &mut Vec<u8>, v: u16) {
    out.extend_from_slice(&v.to_be_bytes());
}

fn be32(out: &mut Vec<u8>, v: u32) {
    out.extend_from_slice(&v.to_be_bytes());
}

const GLYPHS: u16 = 112;

/// Character ranges and the first glyph of each: space, A-Z, a-z, Greek small letters,
/// Cyrillic small letters, one Han character, and `~` mapped to the missing glyph.
fn groups() -> Vec<(u32, u32, u32)> {
    vec![
        (0x20, 0x20, 53),
        (0x41, 0x5a, 1),
        (0x61, 0x7a, 27),
        (0x7e, 0x7e, 0),
        (0x3b1, 0x3c9, 54),
        (0x430, 0x44f, 79),
        (0x4e2d, 0x4e2d, 111),
    ]
}

fn cmap() -> Vec<u8> {
    let groups = groups();
    let mut t = Vec::new();
    be16(&mut t, 0);
    be16(&mut t, 1);
    be16(&mut t, 3);
    be16(&mut t, 10);
    be32(&mut t, 12);
    be16(&mut t, 12);
    be16(&mut t, 0);
    be32(&mut t, 16 + 12 * groups.len() as u32);
    be32(&mut t, 0);
    be32(&mut t, groups.len() as u32);
    for (start, end, glyph) in groups {
        be32(&mut t, start);
        be32(&mut t, end);
        be32(&mut t, glyph);
    }
    t
}

fn head() -> Vec<u8> {
    let mut t = Vec::new();
    be32(&mut t, 0x0001_0000);
    be32(&mut t, 0x0001_0000);
    be32(&mut t, 0);
    be32(&mut t, 0x5f0f_3cf5);
    be16(&mut t, 0);
    be16(&mut t, 1000);
    t.extend_from_slice(&[0; 16]);
    for v in [0u16, 0xff38, 1000, 800] {
        be16(&mut t, v);
    }
    be16(&mut t, 0);
    be16(&mut t, 8);
    be16(&mut t, 2);
    be16(&mut t, 0);
    be16(&mut t, 0);
    t
}

fn hhea() -> Vec<u8> {
    let mut t = Vec::new();
    be32(&mut t, 0x0001_0000);
    be16(&mut t, 800);
    be16(&mut t, 0xff38);
    be16(&mut t, 0);
    be16(&mut t, 500);
    t.extend_from_slice(&[0; 22]);
    be16(&mut t, 1);
    t
}

fn hmtx() -> Vec<u8> {
    let mut t = Vec::new();
    be16(&mut t, 500);
    be16(&mut t, 0);
    t.extend(std::iter::repeat(0u8).take(2 * (GLYPHS as usize - 1)));
    t
}

fn maxp() -> Vec<u8> {
    let mut t = Vec::new();
    be32(&mut t, 0x0000_5000);
    be16(&mut t, GLYPHS);
    t
}

fn loca() -> Vec<u8> {
    vec![0; 2 * (GLYPHS as usize + 1)]
}

/// A TrueType font file holding `tables`, written with its table directory sorted by tag.
fn font_file(mut tables: Vec<(&[u8; 4], Vec<u8>)>) -> Vec<u8> {
    tables.sort_by_key(|t| *t.0);
    let mut out = Vec::new();
    be32(&mut out, 0x0001_0000);
    be16(&mut out, tables.len() as u16);
    be16(&mut out, 0);
    be16(&mut out, 0);
    be16(&mut out, 0);
    let mut offset = 12 + 16 * tables.len() as u32;
    for (tag, data) in &tables {
        out.extend_from_slice(*tag);
        be32(&mut out, 0);
        be32(&mut out, offset);
        be32(&mut out, data.len() as u32);
        offset += (data.len() as u32 + 3) / 4 * 4;
    }
    for (_, data) in &tables {
        out.extend_from_slice(data);
        while out.len() % 4 != 0 {
            out.push(0);
        }
    }
    out
}

fn base_tables() -> Vec<(&'static [u8; 4], Vec<u8>)> {
    vec![
        (b"cmap", cmap()),
        (b"glyf", Vec::new()),
        (b"head", head()),
        (b"hhea", hhea()),
        (b"hmtx", hmtx()),
        (b"loca", loca()),
        (b"maxp", maxp()),
    ]
}

fn font() -> Vec<u8> {
    font_file(base_tables())
}

fn refusal(text: &str, font: &[u8]) -> ErrorCode {
    check_text(text, font).unwrap_err().code
}

#[test]
fn a_static_truetype_font_is_accepted() {
    assert!(check_font(&font()).is_ok());
}

#[test]
fn bytes_that_are_no_font_are_an_invalid_font() {
    assert_eq!(check_font(b"not a font at all").unwrap_err().code, ErrorCode::InvalidFont);
    assert_eq!(refusal("Hello", b""), ErrorCode::InvalidFont);
}

#[test]
fn a_font_without_truetype_outlines_is_refused() {
    let tables = base_tables().into_iter().filter(|(tag, _)| *tag != b"glyf").collect();
    assert_eq!(refusal("Hello", &font_file(tables)), ErrorCode::InvalidFont);
}

#[test]
fn color_and_bitmap_fonts_are_refused() {
    for tag in [b"COLR", b"CBDT", b"sbix", b"SVG "] {
        let mut tables = base_tables();
        tables.push((tag, vec![0; 8]));
        assert_eq!(refusal("Hello", &font_file(tables)), ErrorCode::InvalidFont);
    }
}

#[test]
fn a_font_collection_is_refused() {
    let mut bytes = b"ttcf".to_vec();
    be32(&mut bytes, 0x0001_0000);
    be32(&mut bytes, 1);
    be32(&mut bytes, 16);
    bytes.extend_from_slice(&font());
    assert_eq!(refusal("Hello", &bytes), ErrorCode::InvalidFont);
}

#[test]
fn latin_greek_and_cyrillic_lines_are_accepted() {
    let font = font();
    assert!(check_text("Hello World", &font).is_ok());
    assert!(check_text("\u{3b1}\u{3b2}\u{3b3}", &font).is_ok());
    assert!(check_text("\u{43f}\u{440}\u{438}\u{432}\u{435}\u{442}", &font).is_ok());
    assert!(check_text("Hello\n\u{3b1}\u{3b2}\n\u{43f}\u{440}", &font).is_ok());
    assert!(check_text("", &font).is_ok());
    assert!(check_text("\n\n", &font).is_ok());
}

#[test]
fn two_alphabets_on_one_line_are_unsupported_text() {
    let font = font();
    assert_eq!(refusal("abc \u{3b1}\u{3b2}", &font), ErrorCode::UnsupportedText);
    assert_eq!(refusal("a\u{430}", &font), ErrorCode::UnsupportedText);
}

#[test]
fn controls_and_bidi_marks_are_unsupported_text() {
    let font = font();
    assert_eq!(refusal("a\tb", &font), ErrorCode::UnsupportedText);
    assert_eq!(refusal("a\r\nb", &font), ErrorCode::UnsupportedText);
    assert_eq!(refusal("a\u{200b}b", &font), ErrorCode::UnsupportedText);
    assert_eq!(refusal("a\u{202e}b", &font), ErrorCode::UnsupportedText);
    assert_eq!(refusal("a\u{fe0f}", &font), ErrorCode::UnsupportedText);
    assert_eq!(refusal("a\u{85}", &font), ErrorCode::UnsupportedText);
}

#[test]
fn han_characters_are_unsupported_text() {
    assert_eq!(refusal("\u{4e2d}", &font()), ErrorCode::UnsupportedText);
}

#[test]
fn characters_without_a_glyph_are_missing_glyphs() {
    let font = font();
    assert_eq!(refusal("Hello!", &font), ErrorCode::MissingGlyph);
    assert_eq!(refusal("a~b", &font), ErrorCode::MissingGlyph);
    assert_eq!(refusal("\u{5d0}", &font), ErrorCode::MissingGlyph);
}

#[test]
fn the_first_refusal_in_reading_order_is_reported() {
    let font = font();
    assert_eq!(refusal("!\t", &font), ErrorCode::MissingGlyph);
    assert_eq!(refusal("\t!", &font), ErrorCode::UnsupportedText);
    assert_eq!(refusal("ab\u{3b1}!", &font), ErrorCode::UnsupportedText);
    assert_eq!(refusal("ab\n\u{3b1}!", &font), ErrorCode::MissingGlyph);
}

#[test]
fn alphabets_may_change_between_lines() {
    let font = font();
    assert!(check_text("abc\n\u{3b1}\u{3b2}\nxyz", &font).is_ok());
    assert_eq!(refusal("abc\n\u{3b1}b", &font), ErrorCode::UnsupportedText);
}

#[test]
fn text_alignment_names_parse() {
    assert!(matches!(TextAlign::parse("center"), Ok(TextAlign::Center)));
    assert_eq!(TextAlign::parse("middle").unwrap_err().code, ErrorCode::InvalidArgument);
}
