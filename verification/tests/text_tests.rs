use pdf_verify::cmap::{parse_cmap, parse_hex_string, parse_hex_u32};
use pdf_verify::font::{glyph_to_unicode, FontMap, PdfFont};
use pdf_verify::object::{DictEntry, ObjectTable, PdfDict, PdfObj, PdfStream};
use pdf_verify::page::PageContent;
use pdf_verify::text::{
    decode_macroman, decode_text, decode_winansi, decode_with_font, extract_text_from_page_content,
    extract_text_from_stream, MAX_FORM_DEPTH,
};
use pdf_verify::{extract_text_from_document, extract_text_from_page};
use std::collections::BTreeMap;

fn font(subtype: &str, encoding: &str) -> PdfFont {
    PdfFont {
        base_font: "Test".to_string(),
        subtype: subtype.to_string(),
        encoding: encoding.to_string(),
        to_unicode: None,
        differences: None,
    }
}

fn text_of(content: &[u8], fonts: &FontMap) -> String {
    extract_text_from_stream(content, fonts, &PdfDict::new(), &ObjectTable::new(), MAX_FORM_DEPTH)
}

fn one_font(name: &str, f: PdfFont) -> FontMap {
    let mut fonts = FontMap::new();
    fonts.insert(name.to_string(), f);
    fonts
}

#[test]
fn glyph_names() {
    assert_eq!(glyph_to_unicode("space"), " ");
    assert_eq!(glyph_to_unicode("A"), "A");
    assert_eq!(glyph_to_unicode("z"), "z");
    assert_eq!(glyph_to_unicode("hyphen"), "-");
    assert_eq!(glyph_to_unicode("minus"), "-");
    assert_eq!(glyph_to_unicode("quotedbl"), "\"");
    assert_eq!(glyph_to_unicode("backslash"), "\\");
    assert_eq!(glyph_to_unicode("asciitilde"), "~");
    assert_eq!(glyph_to_unicode("Adieresis"), "?");
    assert_eq!(glyph_to_unicode(""), "?");
}

#[test]
fn winansi_and_macroman() {
    assert_eq!(decode_winansi(b'A'), 'A');
    assert_eq!(decode_winansi(b' '), ' ');
    assert_eq!(decode_winansi(0x80), '\u{20ac}');
    assert_eq!(decode_winansi(0x92), '\'');
    assert_eq!(decode_winansi(0x9f), '\u{178}');
    assert_eq!(decode_winansi(0x0a), '?');
    assert_eq!(decode_winansi(0xe9), '\u{e9}');
    assert_eq!(decode_macroman(0x80), '\u{c4}');
    assert_eq!(decode_macroman(0x8e), '\u{e9}');
    assert_eq!(decode_macroman(0x9f), '\u{fc}');
    assert_eq!(decode_macroman(0x1f), '?');
    assert_eq!(decode_macroman(b'~'), '~');
}

#[test]
fn text_without_a_font_is_printable_ascii() {
    assert_eq!(decode_text(b"A\x01b\xffc~\x7f ", None), "Abc~ ");
}

#[test]
fn single_byte_fonts() {
    assert_eq!(decode_with_font(b"a\x80\x05", &font("Type1", "WinAnsiEncoding")), "a\u{20ac}?");
    assert_eq!(decode_with_font(b"a\x80", &font("Type1", "MacRomanEncoding")), "a\u{c4}");
    assert_eq!(decode_with_font(b"a\x80", &font("Type1", "StandardEncoding")), "a?");
    let mut f = font("TrueType", "WinAnsiEncoding");
    let mut differences = BTreeMap::new();
    differences.insert(65u32, "!".to_string());
    let mut to_unicode = BTreeMap::new();
    to_unicode.insert(65u32, "no".to_string());
    to_unicode.insert(66u32, "yes".to_string());
    f.differences = Some(differences);
    f.to_unicode = Some(to_unicode);
    assert_eq!(decode_with_font(b"ABC", &f), "!yesC");
}

#[test]
fn two_byte_fonts() {
    let mut f = font("Type0", "Identity-H");
    let mut to_unicode = BTreeMap::new();
    to_unicode.insert(0x0041u32, "A".to_string());
    to_unicode.insert(0x0102u32, "fi".to_string());
    to_unicode.insert(0x0007u32, "last".to_string());
    f.to_unicode = Some(to_unicode);
    assert_eq!(decode_with_font(&[0x00, 0x41, 0x01, 0x02, 0x00, 0x09, 0x07], &f), "Afi\u{fffd}last");
    assert_eq!(decode_with_font(&[0x00, 0x41], &font("Type1", "Identity-V")), "\u{fffd}");
}

#[test]
fn two_byte_codes_shown_one_by_one() {
    let mut f = font("Type0", "Identity-H");
    let mut to_unicode = BTreeMap::new();
    to_unicode.insert(0x0041u32, "A".to_string());
    to_unicode.insert(0x0042u32, "B".to_string());
    f.to_unicode = Some(to_unicode);
    let fonts = one_font("F1", f);
    assert_eq!(text_of(b"BT /F1 12 Tf <0041> Tj <0042> Tj ET", &fonts), "AB");
    assert_eq!(text_of(b"BT /F1 12 Tf <00410042> Tj ET", &fonts), "AB");
    assert_eq!(text_of(b"BT /F1 12 Tf <0041><0042> Tj ET", &fonts), "AB");
    assert_eq!(text_of(b"BT /F1 12 Tf <0041> 3 <0042> Tj ET", &fonts), "B");
}

#[test]
fn cmap_codes_and_texts() {
    assert_eq!(parse_hex_u32(b"<0041>"), Some(0x41));
    assert_eq!(parse_hex_u32(b"<<ffffffff>>"), Some(u32::MAX));
    assert_eq!(parse_hex_u32(b"<100000000>"), None);
    assert_eq!(parse_hex_u32(b"<>"), None);
    assert_eq!(parse_hex_u32(b"<zz>"), None);
    assert_eq!(parse_hex_string(b"<00480069>"), Some("Hi".to_string()));
    assert_eq!(parse_hex_string(b"<>"), Some(String::new()));
    assert_eq!(parse_hex_string(b"<004>"), None);
    assert_eq!(parse_hex_string(b"<00gg>"), None);
}

#[test]
fn surrogate_pairs_and_orphans() {
    assert_eq!(parse_hex_string(b"<D83DDE00>"), Some("\u{1f600}".to_string()));
    assert_eq!(parse_hex_string(b"<D83D>"), Some("\u{fffd}".to_string()));
    assert_eq!(parse_hex_string(b"<DE00>"), Some("\u{fffd}".to_string()));
    assert_eq!(parse_hex_string(b"<D83D0041>"), Some("\u{fffd}A".to_string()));
    assert_eq!(parse_hex_string(b"<0041DE00D83D>"), Some("A\u{fffd}\u{fffd}".to_string()));
}

#[test]
fn cmap_blocks() {
    let cmap = b"begincmap\r\n2 beginbfchar\r\n<0041> <0061>\n  <0042>   <00620063>\nnot a line\n<0043>\nendbfchar\n\
1 beginbfrange\n<0050> <0052> <0070>\n<0060> <0061> [<0041> <0042>]\n<0070> <006F> <0041>\nendbfrange\n<0099> <0041>\nendcmap";
    let map = parse_cmap(cmap).unwrap();
    let mut expected = BTreeMap::new();
    expected.insert(0x41u32, "a".to_string());
    expected.insert(0x42u32, "bc".to_string());
    expected.insert(0x50u32, "p".to_string());
    expected.insert(0x51u32, "q".to_string());
    expected.insert(0x52u32, "r".to_string());
    assert_eq!(map, expected);
}

#[test]
fn cmap_range_moves_the_last_character() {
    let map = parse_cmap(b"beginbfrange\n<01> <02> <00410042>\n<10> <11> <DBFFDFFF>\nendbfrange\n").unwrap();
    assert_eq!(map.get(&1), Some(&"AB".to_string()));
    assert_eq!(map.get(&2), Some(&"AC".to_string()));
    assert_eq!(map.get(&0x10), Some(&"\u{10ffff}".to_string()));
    assert_eq!(map.get(&0x11), Some(&"?".to_string()));
}

#[test]
fn cmap_without_mappings_is_none() {
    assert_eq!(parse_cmap(b"begincmap\nendcmap\n"), None);
    assert_eq!(parse_cmap(b""), None);
    assert_eq!(parse_cmap(b"beginbfchar\n<41> <0041>\nendbfchar\n\xff"), None);
}

#[test]
fn text_objects_are_joined_by_a_space() {
    let fonts = FontMap::new();
    assert_eq!(text_of(b"BT (One) Tj ET BT (Two) Tj (Three) Tj ET", &fonts), "One TwoThree");
    assert_eq!(text_of(b"(outside) Tj BT ET BT (in) Tj", &fonts), "in");
    assert_eq!(text_of(b"", &fonts), "");
}

#[test]
fn tj_number_below_minus_200_is_one_space() {
    let fonts = FontMap::new();
    assert_eq!(text_of(b"BT [(A) -250 (B) -200 (C) 300 (D) -200.5 (E)] TJ ET", &fonts), "A BCD E");
    assert_eq!(text_of(b"BT [(A) [(x)] -1000 -1000 (B)] TJ ET", &fonts), "A  B");
}

#[test]
fn quote_operators_start_a_new_line() {
    let fonts = FontMap::new();
    assert_eq!(text_of(b"BT (a) Tj (b) ' (c) ' ET", &fonts), "a b c");
    assert_eq!(text_of(b"BT (a) Tj 1 2 (b) \" ET", &fonts), "a b");
    assert_eq!(text_of(b"BT (b) \" ET", &fonts), "");
}

#[test]
fn font_is_chosen_by_tf() {
    let fonts = one_font("F1", font("Type1", "WinAnsiEncoding"));
    assert_eq!(text_of(b"BT /F1 12 Tf (\x80) Tj /F2 9 Tf (\x80x) Tj ET", &fonts), "\u{20ac}x");
}

#[test]
fn page_text_joins_the_content_streams() {
    let mut page = PageContent::new();
    page.content_streams.push(b"BT (Hel".to_vec());
    page.content_streams.push(b"lo) Tj ET".to_vec());
    let objects = ObjectTable::new();
    assert_eq!(extract_text_from_page_content(&page, &objects), "Hel lo");
    assert_eq!(extract_text_from_page(&page, &objects), "Hel lo");
    let empty = PageContent::new();
    assert_eq!(extract_text_from_page(&empty, &objects), "");
    assert_eq!(
        extract_text_from_document(&vec![page, empty], &objects),
        Ok(vec!["Hel lo".to_string(), String::new()])
    );
}

#[test]
fn form_text_uses_the_fonts_of_the_form() {
    let mut objects = ObjectTable::new();
    let form_font = PdfDict {
        entries: vec![
            DictEntry { key: "Subtype".to_string(), value: PdfObj::Name("Type1".to_string()) },
            DictEntry {
                key: "Encoding".to_string(),
                value: PdfObj::Name("MacRomanEncoding".to_string()),
            },
        ],
    };
    let form_resources = PdfDict {
        entries: vec![DictEntry {
            key: "Font".to_string(),
            value: PdfObj::Dictionary(PdfDict {
                entries: vec![DictEntry {
                    key: "F1".to_string(),
                    value: PdfObj::Dictionary(form_font),
                }],
            }),
        }],
    };
    objects.insert(
        (9, 0),
        PdfObj::Stream(PdfStream {
            dict: PdfDict {
                entries: vec![
                    DictEntry { key: "Subtype".to_string(), value: PdfObj::Name("Form".to_string()) },
                    DictEntry { key: "Resources".to_string(), value: PdfObj::Dictionary(form_resources) },
                ],
            },
            data: b"BT /F1 1 Tf (\x80) Tj /F2 1 Tf (\x80) Tj ET".to_vec(),
        }),
    );
    let resources = PdfDict {
        entries: vec![DictEntry {
            key: "XObject".to_string(),
            value: PdfObj::Dictionary(PdfDict {
                entries: vec![DictEntry { key: "X".to_string(), value: PdfObj::Reference((9, 0)) }],
            }),
        }],
    };
    let mut fonts = one_font("F1", font("Type1", "WinAnsiEncoding"));
    fonts.insert("F2".to_string(), font("Type1", "WinAnsiEncoding"));
    let text = extract_text_from_stream(b"BT /F1 1 Tf (\x80) Tj ET /X Do /Y Do", &fonts, &resources, &objects, MAX_FORM_DEPTH);
    assert_eq!(text, "\u{20ac} \u{c4}\u{20ac}");
    let shallow = extract_text_from_stream(b"/X Do", &fonts, &resources, &objects, 0);
    assert_eq!(shallow, "");
}
