//! From the content streams of a page to its text.
use crate::bytes::{char_from_u32, string_push};
use crate::cmap::{cmap_get, CodeMap, replacement};
use crate::font::{
    extract_fonts, Font, font_get, font_option_model, FontMap, Fonts, fonts_extended, PdfFont,
    spec_fonts, text_is,
};
use crate::object::{
    Dict, dict_get, ObjectTable, PdfDict, PdfObj, resolved, spec_resolved, table_get, Value,
};
use crate::page::{Page, PageContent, stream_models};
use crate::stream::{handle_stream_filters, spec_stream_filters};
use crate::token::{spec_tokens, Tok, tok_models, Token, TokenParser};
use vstd::prelude::*;

verus! {

/// The code point of a byte in WinAnsiEncoding. The control characters
/// below 0x20 are `?`.
pub open spec fn winansi_code(b: u8) -> u32 {
    if b == 0x80 {
        0x20ACu32
    } else if b == 0x82 {
        0x201Au32
    } else if b == 0x83 {
        0x0192u32
    } else if b == 0x84 {
        0x201Eu32
    } else if b == 0x85 {
        0x2026u32
    } else if b == 0x86 {
        0x2020u32
    } else if b == 0x87 {
        0x2021u32
    } else if b == 0x88 {
        0x02C6u32
    } else if b == 0x89 {
        0x2030u32
    } else if b == 0x8A {
        0x0160u32
    } else if b == 0x8B {
        0x2039u32
    } else if b == 0x8C {
        0x0152u32
    } else if b == 0x8E {
        0x017Du32
    } else if b == 0x91 {
        0x0027u32
    } else if b == 0x92 {
        0x0027u32
    } else if b == 0x93 {
        0x0022u32
    } else if b == 0x94 {
        0x0022u32
    } else if b == 0x95 {
        0x2022u32
    } else if b == 0x96 {
        0x2013u32
    } else if b == 0x97 {
        0x2014u32
    } else if b == 0x98 {
        0x02DCu32
    } else if b == 0x99 {
        0x2122u32
    } else if b == 0x9A {
        0x0161u32
    } else if b == 0x9B {
        0x203Au32
    } else if b == 0x9C {
        0x0153u32
    } else if b == 0x9E {
        0x017Eu32
    } else if b == 0x9F {
        0x0178u32
    } else if b < 0x20 {
        0x3Fu32
    } else {
        b as u32
    }
}

/// The code point of a byte in MacRomanEncoding. The control characters
/// below 0x20 are `?`.
pub open spec fn macroman_code(b: u8) -> u32 {
    if b == 0x80 {
        0x00C4u32
    } else if b == 0x81 {
        0x00C5u32
    } else if b == 0x82 {
        0x00C7u32
    } else if b == 0x83 {
        0x00C9u32
    } else if b == 0x84 {
        0x00D1u32
    } else if b == 0x85 {
        0x00D6u32
    } else if b == 0x86 {
        0x00DCu32
    } else if b == 0x87 {
        0x00E1u32
    } else if b == 0x88 {
        0x00E0u32
    } else if b == 0x89 {
        0x00E2u32
    } else if b == 0x8A {
        0x00E4u32
    } else if b == 0x8B {
        0x00E3u32
    } else if b == 0x8C {
        0x00E5u32
    } else if b == 0x8D {
        0x00E7u32
    } else if b == 0x8E {
        0x00E9u32
    } else if b == 0x8F {
        0x00E8u32
    } else if b == 0x90 {
        0x00EAu32
    } else if b == 0x91 {
        0x00EBu32
    } else if b == 0x92 {
        0x00EDu32
    } else if b == 0x93 {
        0x00ECu32
    } else if b == 0x94 {
        0x00EEu32
    } else if b == 0x95 {
        0x00EFu32
    } else if b == 0x96 {
        0x00F1u32
    } else if b == 0x97 {
        0x00F3u32
    } else if b == 0x98 {
        0x00F2u32
    } else if b == 0x99 {
        0x00F4u32
    } else if b == 0x9A {
        0x00F6u32
    } else if b == 0x9B {
        0x00F5u32
    } else if b == 0x9C {
        0x00FAu32
    } else if b == 0x9D {
        0x00F9u32
    } else if b == 0x9E {
        0x00FBu32
    } else if b == 0x9F {
        0x00FCu32
    } else if b < 0x20 {
        0x3Fu32
    } else {
        b as u32
    }
}

fn winansi_code_of(b: u8) -> (r: u32)
    ensures
        r == winansi_code(b),
        vstd::utf8::is_scalar(r),
{
    if b == 0x80 {
        0x20AC
    } else if b == 0x82 {
        0x201A
    } else if b == 0x83 {
        0x0192
    } else if b == 0x84 {
        0x201E
    } else if b == 0x85 {
        0x2026
    } else if b == 0x86 {
        0x2020
    } else if b == 0x87 {
        0x2021
    } else if b == 0x88 {
        0x02C6
    } else if b == 0x89 {
        0x2030
    } else if b == 0x8A {
        0x0160
    } else if b == 0x8B {
        0x2039
    } else if b == 0x8C {
        0x0152
    } else if b == 0x8E {
        0x017D
    } else if b == 0x91 {
        0x0027
    } else if b == 0x92 {
        0x0027
    } else if b == 0x93 {
        0x0022
    } else if b == 0x94 {
        0x0022
    } else if b == 0x95 {
        0x2022
    } else if b == 0x96 {
        0x2013
    } else if b == 0x97 {
        0x2014
    } else if b == 0x98 {
        0x02DC
    } else if b == 0x99 {
        0x2122
    } else if b == 0x9A {
        0x0161
    } else if b == 0x9B {
        0x203A
    } else if b == 0x9C {
        0x0153
    } else if b == 0x9E {
        0x017E
    } else if b == 0x9F {
        0x0178
    } else if b < 0x20 {
        0x3F
    } else {
        b as u32
    }
}

fn macroman_code_of(b: u8) -> (r: u32)
    ensures
        r == macroman_code(b),
        vstd::utf8::is_scalar(r),
{
    if b == 0x80 {
        0x00C4
    } else if b == 0x81 {
        0x00C5
    } else if b == 0x82 {
        0x00C7
    } else if b == 0x83 {
        0x00C9
    } else if b == 0x84 {
        0x00D1
    } else if b == 0x85 {
        0x00D6
    } else if b == 0x86 {
        0x00DC
    } else if b == 0x87 {
        0x00E1
    } else if b == 0x88 {
        0x00E0
    } else if b == 0x89 {
        0x00E2
    } else if b == 0x8A {
        0x00E4
    } else if b == 0x8B {
        0x00E3
    } else if b == 0x8C {
        0x00E5
    } else if b == 0x8D {
        0x00E7
    } else if b == 0x8E {
        0x00E9
    } else if b == 0x8F {
        0x00E8
    } else if b == 0x90 {
        0x00EA
    } else if b == 0x91 {
        0x00EB
    } else if b == 0x92 {
        0x00ED
    } else if b == 0x93 {
        0x00EC
    } else if b == 0x94 {
        0x00EE
    } else if b == 0x95 {
        0x00EF
    } else if b == 0x96 {
        0x00F1
    } else if b == 0x97 {
        0x00F3
    } else if b == 0x98 {
        0x00F2
    } else if b == 0x99 {
        0x00F4
    } else if b == 0x9A {
        0x00F6
    } else if b == 0x9B {
        0x00F5
    } else if b == 0x9C {
        0x00FA
    } else if b == 0x9D {
        0x00F9
    } else if b == 0x9E {
        0x00FB
    } else if b == 0x9F {
        0x00FC
    } else if b < 0x20 {
        0x3F
    } else {
        b as u32
    }
}

/// The character of a byte in WinAnsiEncoding.
pub open spec fn spec_winansi(b: u8) -> char {
    winansi_code(b) as char
}

/// The character of a byte in MacRomanEncoding.
pub open spec fn spec_macroman(b: u8) -> char {
    macroman_code(b) as char
}

/// The character of a byte in WinAnsiEncoding.
pub fn decode_winansi(byte: u8) -> (r: char)
    ensures
        r == spec_winansi(byte),
{
    match char_from_u32(winansi_code_of(byte)) {
        Some(c) => c,
        None => '?',
    }
}

/// The character of a byte in MacRomanEncoding.
pub fn decode_macroman(byte: u8) -> (r: char)
    ensures
        r == spec_macroman(byte),
{
    match char_from_u32(macroman_code_of(byte)) {
        Some(c) => c,
        None => '?',
    }
}

/// Whether a byte is a printable ASCII character, 32 to 126.
pub open spec fn is_printable_ascii(b: u8) -> bool {
    32 <= b < 127
}

/// The printable ASCII characters among the bytes from `i` on, appended to
/// `acc`.
pub open spec fn ascii_text(bytes: Seq<u8>, i: int, acc: Seq<char>) -> Seq<char>
    decreases bytes.len() - i,
{
    if i < 0 || i >= bytes.len() {
        acc
    } else if is_printable_ascii(bytes[i]) {
        ascii_text(bytes, i + 1, acc.push(bytes[i] as char))
    } else {
        ascii_text(bytes, i + 1, acc)
    }
}

/// Whether a font takes two bytes for a character: a Type0 font, and every
/// font with the encoding Identity-H or Identity-V.
pub open spec fn is_cid_font(font: Font) -> bool {
    font.subtype == "Type0"@ || font.encoding == "Identity-H"@ || font.encoding == "Identity-V"@
}

/// The text of a code in a table, if the table has the code.
pub open spec fn code_text(table: Option<CodeMap>, code: u32) -> Option<Seq<char>> {
    match table {
        Some(m) => if m.contains_key(code) {
            Some(m[code])
        } else {
            None
        },
        None => None,
    }
}

/// The character code at `i` of a string shown in a two-byte font: two bytes,
/// the higher first, or the last byte alone.
pub open spec fn cid_at(bytes: Seq<u8>, i: int) -> u32 {
    if i + 1 < bytes.len() {
        (bytes[i] as u32 * 256 + bytes[i + 1] as u32) as u32
    } else {
        bytes[i] as u32
    }
}

/// The text of a string shown in a two-byte font, from `i` on: every code is
/// looked up in the ToUnicode table, and a code that is not there is U+FFFD.
pub open spec fn cid_text(bytes: Seq<u8>, i: int, font: Font, acc: Seq<char>) -> Seq<char>
    decreases bytes.len() - i,
{
    if i < 0 || i >= bytes.len() {
        acc
    } else {
        let next = if i + 2 > bytes.len() {
            bytes.len() as int
        } else {
            i + 2
        };
        match code_text(font.to_unicode, cid_at(bytes, i)) {
            Some(text) => cid_text(bytes, next, font, acc + text),
            None => cid_text(bytes, next, font, acc.push(replacement())),
        }
    }
}

/// The character of a byte in the named encoding: WinAnsiEncoding,
/// MacRomanEncoding, and for every other name the printable ASCII
/// characters, with `?` for the rest.
pub open spec fn encoded_char(encoding: Seq<char>, b: u8) -> char {
    if encoding == "WinAnsiEncoding"@ {
        spec_winansi(b)
    } else if encoding == "MacRomanEncoding"@ {
        spec_macroman(b)
    } else if is_printable_ascii(b) {
        b as char
    } else {
        '?'
    }
}

/// The text of a string shown in a one-byte font, from `i` on: for every
/// byte the `Differences` are asked first, then the ToUnicode table, then
/// the encoding.
pub open spec fn single_byte_text(bytes: Seq<u8>, i: int, font: Font, acc: Seq<char>) -> Seq<char>
    decreases bytes.len() - i,
{
    if i < 0 || i >= bytes.len() {
        acc
    } else {
        let code = bytes[i] as u32;
        match code_text(font.differences, code) {
            Some(text) => single_byte_text(bytes, i + 1, font, acc + text),
            None => match code_text(font.to_unicode, code) {
                Some(text) => single_byte_text(bytes, i + 1, font, acc + text),
                None => single_byte_text(
                    bytes,
                    i + 1,
                    font,
                    acc.push(encoded_char(font.encoding, bytes[i])),
                ),
            },
        }
    }
}

/// The text of a shown string in a font.
pub open spec fn spec_decode_with_font(bytes: Seq<u8>, font: Font) -> Seq<char> {
    if is_cid_font(font) {
        cid_text(bytes, 0, font, Seq::empty())
    } else {
        single_byte_text(bytes, 0, font, Seq::empty())
    }
}

/// The text of a shown string: in the current font, and without a font the
/// printable ASCII characters among its bytes.
pub open spec fn spec_decode_text(bytes: Seq<u8>, font: Option<Font>) -> Seq<char> {
    match font {
        Some(f) => spec_decode_with_font(bytes, f),
        None => ascii_text(bytes, 0, Seq::empty()),
    }
}

fn lookup_code<'a>(table: &'a Option<std::collections::BTreeMap<u32, String>>, code: u32) -> (r: Option<
    &'a String,
>)
    ensures
        match r {
            Some(s) => code_text(crate::cmap::cmap_option_model(*table), code) == Some(s@),
            None => code_text(crate::cmap::cmap_option_model(*table), code) is None,
        },
{
    match table {
        Some(m) => cmap_get(m, code),
        None => None,
    }
}

fn replacement_char() -> (r: char)
    ensures
        r == replacement(),
{
    match char_from_u32(0xFFFD) {
        Some(c) => c,
        None => '?',
    }
}

#[verifier::loop_isolation(false)]
fn decode_cid(bytes: &[u8], font: &PdfFont) -> (r: String)
    ensures
        r@ == cid_text(bytes@, 0, font.model(), Seq::empty()),
{
    let mut result = String::new();
    let mut i: usize = 0;
    while i < bytes.len()
        invariant
            i <= bytes.len(),
            cid_text(bytes@, i as int, font.model(), result@) == cid_text(
                bytes@,
                0,
                font.model(),
                Seq::empty(),
            ),
        decreases bytes.len() - i,
    {
        let cid: u32 = if bytes.len() - i > 1 {
            bytes[i] as u32 * 256 + bytes[i + 1] as u32
        } else {
            bytes[i] as u32
        };
        match lookup_code(&font.to_unicode, cid) {
            Some(text) => {
                result.append(text.as_str());
            },
            None => {
                string_push(&mut result, replacement_char());
            },
        }
        if bytes.len() - i > 1 {
            i += 2;
        } else {
            i = bytes.len();
        }
    }
    result
}

fn encode_char(encoding: &String, byte: u8) -> (r: char)
    ensures
        r == encoded_char(encoding@, byte),
{
    if text_is(encoding.as_str(), "WinAnsiEncoding") {
        decode_winansi(byte)
    } else if text_is(encoding.as_str(), "MacRomanEncoding") {
        decode_macroman(byte)
    } else if 32 <= byte && byte < 127 {
        byte as char
    } else {
        '?'
    }
}

#[verifier::loop_isolation(false)]
fn decode_single_byte(bytes: &[u8], font: &PdfFont) -> (r: String)
    ensures
        r@ == single_byte_text(bytes@, 0, font.model(), Seq::empty()),
{
    let mut result = String::new();
    let mut i: usize = 0;
    while i < bytes.len()
        invariant
            i <= bytes.len(),
            single_byte_text(bytes@, i as int, font.model(), result@) == single_byte_text(
                bytes@,
                0,
                font.model(),
                Seq::empty(),
            ),
        decreases bytes.len() - i,
    {
        let byte = bytes[i];
        let code = byte as u32;
        match lookup_code(&font.differences, code) {
            Some(text) => {
                result.append(text.as_str());
            },
            None => match lookup_code(&font.to_unicode, code) {
                Some(text) => {
                    result.append(text.as_str());
                },
                None => {
                    string_push(&mut result, encode_char(&font.encoding, byte));
                },
            },
        }
        i += 1;
    }
    result
}

/// The text of a shown string in a font.
pub fn decode_with_font(bytes: &[u8], font: &PdfFont) -> (r: String)
    ensures
        r@ == spec_decode_with_font(bytes@, font.model()),
{
    let is_cid = text_is(font.subtype.as_str(), "Type0") || text_is(
        font.encoding.as_str(),
        "Identity-H",
    ) || text_is(font.encoding.as_str(), "Identity-V");
    if is_cid {
        decode_cid(bytes, font)
    } else {
        decode_single_byte(bytes, font)
    }
}

#[verifier::loop_isolation(false)]
fn decode_ascii(bytes: &[u8]) -> (r: String)
    ensures
        r@ == ascii_text(bytes@, 0, Seq::empty()),
{
    let mut result = String::new();
    let mut i: usize = 0;
    while i < bytes.len()
        invariant
            i <= bytes.len(),
            ascii_text(bytes@, i as int, result@) == ascii_text(bytes@, 0, Seq::empty()),
        decreases bytes.len() - i,
    {
        let b = bytes[i];
        if 32 <= b && b < 127 {
            string_push(&mut result, b as char);
        }
        i += 1;
    }
    result
}

/// The text of a shown string in the current font, if there is one.
pub fn decode_text(bytes: &[u8], font: Option<&PdfFont>) -> (r: String)
    ensures
        r@ == spec_decode_text(bytes@, crate::font::font_option_model(font)),
{
    match font {
        Some(f) => decode_with_font(bytes, f),
        None => decode_ascii(bytes),
    }
}

/// How deep form XObjects may be nested in one another; a form beyond this
/// depth adds no text.
pub const MAX_FORM_DEPTH: usize = 32;

/// The state of text extraction between two tokens: the text so far, the
/// line that is being shown, whether a text object is open, and the font.
pub struct TextState {
    pub text: Seq<char>,
    pub line: Seq<char>,
    pub in_text: bool,
    pub font: Option<Font>,
}

/// A text with a piece added, a space between the two where the text is not
/// empty.
pub open spec fn appended(text: Seq<char>, piece: Seq<char>) -> Seq<char> {
    if text.len() > 0 {
        text.push(' ') + piece
    } else {
        piece
    }
}

/// The state with the line, if there is one, moved to the text.
pub open spec fn flushed(s: TextState) -> TextState {
    if s.line.len() > 0 {
        TextState { text: appended(s.text, s.line), line: Seq::empty(), ..s }
    } else {
        s
    }
}

/// Where the run of string tokens that stands directly in front of `end`
/// starts; `end` itself where no string stands there.
pub open spec fn strings_start(tokens: Seq<Tok>, end: int) -> int
    decreases end,
{
    if 0 < end <= tokens.len() && tokens[end - 1] is String {
        strings_start(tokens, end - 1)
    } else {
        end
    }
}

/// The text of the string tokens from `from` up to `end`, appended to `acc`.
pub open spec fn strings_text(
    tokens: Seq<Tok>,
    from: int,
    end: int,
    font: Option<Font>,
    acc: Seq<char>,
) -> Seq<char>
    decreases end - from,
{
    if from < 0 || from >= end || from >= tokens.len() {
        acc
    } else {
        strings_text(
            tokens,
            from + 1,
            end,
            font,
            acc + spec_decode_text(tokens[from]->String_0, font),
        )
    }
}

/// What a text-showing operator at `end` shows: the text of the strings that
/// stand directly in front of it, in their order.
pub open spec fn shown(tokens: Seq<Tok>, end: int, font: Option<Font>) -> Seq<char> {
    strings_text(tokens, strings_start(tokens, end), end, font, Seq::empty())
}

/// The positions of the elements of the array that ends behind `j`, from the
/// last to the first. `depth` counts the arrays that are open, and the
/// elements are the tokens of the outermost one. The token at position 0 is
/// never looked at.
pub open spec fn tj_items(tokens: Seq<Tok>, j: int, depth: nat, acc: Seq<usize>) -> Seq<usize>
    decreases j,
{
    if j <= 0 || j >= tokens.len() || depth == 0 {
        acc
    } else {
        match tokens[j] {
            Tok::ArrayEnd => tj_items(tokens, j - 1, depth + 1, acc),
            Tok::ArrayStart => tj_items(tokens, j - 1, (depth - 1) as nat, acc),
            _ => if depth == 1 {
                tj_items(tokens, j - 1, depth, acc.push(j as usize))
            } else {
                tj_items(tokens, j - 1, depth, acc)
            },
        }
    }
}

/// What an element of a `TJ` array shows: a string its text, a number below
/// -200 one space, anything else nothing.
pub open spec fn item_text(tok: Tok, font: Option<Font>) -> Seq<char> {
    match tok {
        Tok::String(bytes) => spec_decode_text(bytes, font),
        Tok::Number(n) => if n.spec_below_minus_200() {
            seq![' ']
        } else {
            Seq::empty()
        },
        _ => Seq::empty(),
    }
}

/// The line with the first `k` of the collected elements shown, the element
/// collected last first.
pub open spec fn tj_text(
    tokens: Seq<Tok>,
    items: Seq<usize>,
    k: int,
    font: Option<Font>,
    acc: Seq<char>,
) -> Seq<char>
    decreases k,
{
    if k <= 0 || k > items.len() {
        acc
    } else {
        tj_text(tokens, items, k - 1, font, acc + item_text(tokens[items[k - 1] as int], font))
    }
}

/// The state behind the token at `i`. Of the operators, `BT` and `ET` open
/// and close a text object, `Tf` sets the font, `Tj`, `TJ`, `'` and `"` show
/// text, and `Do` adds the text of a form, which is given as `form_text`.
/// Every other token leaves the state as it is.
pub open spec fn op_step(
    tokens: Seq<Tok>,
    i: int,
    s: TextState,
    fonts: Fonts,
    form_text: Option<Seq<char>>,
) -> TextState {
    match tokens[i] {
        Tok::Operator(op) => if op == "BT"@ {
            TextState { in_text: true, line: Seq::empty(), ..s }
        } else if op == "ET"@ {
            TextState { in_text: false, ..flushed(s) }
        } else if op == "Tf"@ {
            if i >= 2 && tokens[i - 2] is Name {
                TextState { font: font_get(fonts, tokens[i - 2]->Name_0), ..s }
            } else {
                s
            }
        } else if op == "Tj"@ {
            if i >= 1 && s.in_text {
                TextState { line: s.line + shown(tokens, i, s.font), ..s }
            } else {
                s
            }
        } else if op == "TJ"@ {
            if i >= 2 && s.in_text && tokens[i - 1] is ArrayEnd {
                let items = tj_items(tokens, i - 2, 1, Seq::empty());
                TextState { line: tj_text(tokens, items, items.len() as int, s.font, s.line), ..s }
            } else {
                s
            }
        } else if op == "'"@ {
            if i >= 1 && s.in_text {
                TextState { line: flushed(s).line + shown(tokens, i, s.font), ..flushed(s) }
            } else {
                s
            }
        } else if op == "\""@ {
            if i >= 3 && s.in_text {
                TextState { line: flushed(s).line + shown(tokens, i, s.font), ..flushed(s) }
            } else {
                s
            }
        } else if op == "Do"@ {
            match form_text {
                Some(t) => TextState { text: appended(s.text, t), ..s },
                None => s,
            }
        } else {
            s
        },
        _ => s,
    }
}

/// The dictionary under a key, with one reference followed.
pub open spec fn dict_under(d: Dict, key: Seq<char>, table: Map<u64, Value>) -> Option<Dict> {
    match dict_get(d, key) {
        Some(entry) => match spec_resolved(entry, table) {
            Some(Value::Dictionary(found)) => Some(found),
            _ => None,
        },
        None => None,
    }
}

/// The stream of the form XObject of the given name: the resources must
/// name it by a reference to a stream whose `Subtype` is `Form`.
pub open spec fn form_stream(name: Seq<char>, resources: Dict, table: Map<u64, Value>) -> Option<
    (Dict, Seq<u8>),
> {
    match dict_under(resources, "XObject"@, table) {
        Some(xobjects) => match dict_get(xobjects, name) {
            Some(Value::Reference(r)) => match table_get(table, r) {
                Some(Value::Stream(d, data)) => if dict_get(d, "Subtype"@) == Some(
                    Value::Name("Form"@),
                ) {
                    Some((d, data))
                } else {
                    None
                },
                _ => None,
            },
            _ => None,
        },
        None => None,
    }
}

/// The resources of a form: the dictionary under `Resources`, or none.
pub open spec fn form_resources(d: Dict, table: Map<u64, Value>) -> Dict {
    match dict_under(d, "Resources"@, table) {
        Some(res) => res,
        None => Seq::empty(),
    }
}

/// The fonts inside a form: those of the page, with the fonts of the form's
/// own resources entered over them.
pub open spec fn form_fonts(xres: Dict, parent: Fonts, table: Map<u64, Value>) -> Fonts {
    match dict_get(xres, "Font"@) {
        Some(Value::Dictionary(fd)) => fonts_extended(parent, spec_fonts(fd, table), 0),
        _ => parent,
    }
}

/// The state behind the tokens from `i` on.
pub open spec fn run_text(
    tokens: Seq<Tok>,
    i: int,
    s: TextState,
    fonts: Fonts,
    resources: Dict,
    table: Map<u64, Value>,
    depth: nat,
) -> TextState
    decreases depth, 1nat, tokens.len() - i,
{
    if i < 0 || i >= tokens.len() {
        s
    } else {
        run_text(
            tokens,
            i + 1,
            op_step(tokens, i, s, fonts, form_at(tokens, i, fonts, resources, table, depth)),
            fonts,
            resources,
            table,
            depth,
        )
    }
}

/// The text of a form XObject, `None` where the name is no form or its
/// filters fail. `depth` is how many forms may still be entered.
pub open spec fn xobject_text(
    name: Seq<char>,
    resources: Dict,
    table: Map<u64, Value>,
    parent_fonts: Fonts,
    depth: nat,
) -> Option<Seq<char>>
    decreases depth, 0nat, 0nat,
{
    if depth == 0 {
        None
    } else {
        match form_stream(name, resources, table) {
            Some((d, raw)) => match spec_stream_filters(d, raw) {
                Some(data) => {
                    let xres = form_resources(d, table);
                    Some(
                        spec_stream_text(
                            data,
                            form_fonts(xres, parent_fonts, table),
                            xres,
                            table,
                            (depth - 1) as nat,
                        ),
                    )
                },
                None => None,
            },
            None => None,
        }
    }
}

/// The state before the first token.
pub open spec fn initial_state() -> TextState {
    TextState { text: Seq::empty(), line: Seq::empty(), in_text: false, font: None }
}

/// The text that a content stream shows.
pub open spec fn spec_stream_text(
    data: Seq<u8>,
    fonts: Fonts,
    resources: Dict,
    table: Map<u64, Value>,
    depth: nat,
) -> Seq<char>
    decreases depth, 2nat, 0nat,
{
    flushed(
        run_text(
            spec_tokens(data, 0, Seq::empty()),
            0,
            initial_state(),
            fonts,
            resources,
            table,
            depth,
        ),
    ).text
}

/// Adds a piece to a text, behind a space where the text is not empty.
fn append_piece(text: &mut String, piece: &str)
    ensures
        final(text)@ == appended(old(text)@, piece@),
{
    if !text.as_str().is_empty() {
        crate::bytes::string_push(text, ' ');
    }
    text.append(piece);
}

/// Moves the line, if there is one, to the text.
fn flush_line(text: &mut String, line: &mut String)
    ensures
        final(text)@ == if old(line)@.len() > 0 {
            appended(old(text)@, old(line)@)
        } else {
            old(text)@
        },
        final(line)@ == Seq::<char>::empty(),
{
    if !line.as_str().is_empty() {
        append_piece(text, line.as_str());
    }
    *line = String::new();
}

/// Where the run of string tokens in front of `end` starts.
#[verifier::loop_isolation(false)]
fn find_strings_start(tokens: &Vec<Token>, end: usize) -> (r: usize)
    requires
        end <= tokens@.len(),
    ensures
        r == strings_start(tok_models(tokens@), end as int),
        r <= end,
        forall|k: int| r <= k < end ==> tokens@[k] is String,
{
    let mut start = end;
    while start > 0 && is_string(&tokens[start - 1])
        invariant
            start <= end,
            strings_start(tok_models(tokens@), start as int) == strings_start(
                tok_models(tokens@),
                end as int,
            ),
            forall|k: int| start <= k < end ==> tokens@[k] is String,
        decreases start,
    {
        start -= 1;
    }
    start
}

fn is_string(token: &Token) -> (r: bool)
    ensures
        r == (token is String),
        r == (token.model() is String),
{
    match token {
        Token::String(_) => true,
        _ => false,
    }
}

/// Shows the strings that stand directly in front of `end`.
#[verifier::loop_isolation(false)]
fn show_strings(line: &mut String, tokens: &Vec<Token>, end: usize, font: Option<&PdfFont>)
    requires
        end <= tokens@.len(),
    ensures
        final(line)@ == old(line)@ + shown(tok_models(tokens@), end as int, font_option_model(font)),
{
    let start = find_strings_start(tokens, end);
    let mut piece = String::new();
    let mut k: usize = start;
    while k < end
        invariant
            start <= k <= end,
            strings_text(tok_models(tokens@), k as int, end as int, font_option_model(font), piece@)
                == shown(tok_models(tokens@), end as int, font_option_model(font)),
        decreases end - k,
    {
        match &tokens[k] {
            Token::String(bytes) => {
                let decoded = decode_text(bytes.as_slice(), font);
                piece.append(decoded.as_str());
            },
            _ => {},
        }
        k += 1;
    }
    line.append(piece.as_str());
}

#[verifier::loop_isolation(false)]
fn collect_tj_items(tokens: &Vec<Token>, from: usize) -> (r: Vec<usize>)
    requires
        from < tokens@.len(),
    ensures
        r@ == tj_items(tok_models(tokens@), from as int, 1, Seq::empty()),
        forall|k: int| 0 <= k < r@.len() ==> r@[k] < tokens@.len(),
{
    let count = tokens.len();
    let mut items: Vec<usize> = Vec::new();
    let mut depth: usize = 1;
    let mut j: usize = from;
    while j > 0 && depth > 0
        invariant
            j <= from,
            depth <= from - j + 1,
            forall|k: int| 0 <= k < items@.len() ==> items@[k] < tokens@.len(),
            tj_items(tok_models(tokens@), j as int, depth as nat, items@) == tj_items(
                tok_models(tokens@),
                from as int,
                1,
                Seq::empty(),
            ),
        decreases j,
    {
        match &tokens[j] {
            Token::ArrayEnd => {
                depth += 1;
            },
            Token::ArrayStart => {
                depth -= 1;
            },
            _ => {
                if depth == 1 {
                    items.push(j);
                }
            },
        }
        j -= 1;
    }
    items
}

fn show_item(line: &mut String, token: &Token, font: Option<&PdfFont>)
    ensures
        final(line)@ == old(line)@ + item_text(token.model(), font_option_model(font)),
{
    match token {
        Token::String(bytes) => {
            let decoded = decode_text(bytes.as_slice(), font);
            line.append(decoded.as_str());
        },
        Token::Number(n) => {
            if n.below_minus_200() {
                crate::bytes::string_push(line, ' ');
                assert(line@ =~= old(line)@ + seq![' ']);
            } else {
                assert(old(line)@ + Seq::<char>::empty() =~= old(line)@);
            }
        },
        _ => {
            assert(old(line)@ + Seq::<char>::empty() =~= old(line)@);
        },
    }
}

#[verifier::loop_isolation(false)]
fn show_array(line: &mut String, tokens: &Vec<Token>, from: usize, font: Option<&PdfFont>)
    requires
        from < tokens@.len(),
    ensures
        ({
            let items = tj_items(tok_models(tokens@), from as int, 1, Seq::empty());
            final(line)@ == tj_text(
                tok_models(tokens@),
                items,
                items.len() as int,
                font_option_model(font),
                old(line)@,
            )
        }),
{
    let items = collect_tj_items(tokens, from);
    let mut k: usize = items.len();
    while k > 0
        invariant
            k <= items.len(),
            tj_text(tok_models(tokens@), items@, k as int, font_option_model(font), line@)
                == tj_text(
                tok_models(tokens@),
                items@,
                items@.len() as int,
                font_option_model(font),
                old(line)@,
            ),
        decreases k,
    {
        k -= 1;
        show_item(line, &tokens[items[k]], font);
    }
}

/// The text of the form XObject of the given name.
pub fn process_xobject(
    xobj_name: &str,
    resources: &PdfDict,
    objects: &ObjectTable,
    parent_fonts: &FontMap,
    depth: usize,
) -> (r: Option<String>)
    ensures
        match xobject_text(
            xobj_name@,
            resources.model(),
            objects.model(),
            parent_fonts.model(),
            depth as nat,
        ) {
            Some(text) => r is Some && r->0@ == text,
            None => r is None,
        },
    decreases depth, 0nat, 0nat,
{
    if depth == 0 {
        return None;
    }
    let stream = match find_form(xobj_name, resources, objects) {
        Some(s) => s,
        None => {
            return None;
        },
    };
    let data = match handle_stream_filters(&stream.dict, stream.data.as_slice()) {
        Ok(d) => d,
        Err(_) => {
            return None;
        },
    };
    let no_resources = PdfDict::new();
    let xobj_resources: &PdfDict = match dictionary_under(&stream.dict, "Resources", objects) {
        Some(res) => res,
        None => &no_resources,
    };
    let mut fonts = parent_fonts.deep_clone();
    match xobj_resources.get("Font") {
        Some(PdfObj::Dictionary(font_dict)) => {
            proof {
                crate::object::lemma_model_of_dictionary(*font_dict);
            }
            let xobj_fonts = extract_fonts(font_dict, objects);
            fonts.extend(&xobj_fonts);
        },
        _ => {},
    }
    Some(extract_text_from_stream(data.as_slice(), &fonts, xobj_resources, objects, depth - 1))
}

/// The dictionary under a key, with one reference followed.
pub fn dictionary_under<'a>(dict: &'a PdfDict, key: &str, objects: &'a ObjectTable) -> (r: Option<
    &'a PdfDict,
>)
    ensures
        match dict_under(dict.model(), key@, objects.model()) {
            Some(d) => r is Some && r->0.model() == d,
            None => r is None,
        },
{
    match dict.get(key) {
        Some(entry) => match resolved(entry, objects) {
            Some(target) => target.as_dictionary(),
            None => None,
        },
        None => None,
    }
}

fn find_form<'a>(xobj_name: &str, resources: &'a PdfDict, objects: &'a ObjectTable) -> (r: Option<
    &'a crate::object::PdfStream,
>)
    ensures
        match form_stream(xobj_name@, resources.model(), objects.model()) {
            Some((d, data)) => r is Some && r->0.dict.model() == d && r->0.data@ == data,
            None => r is None,
        },
{
    let xobjects = match dictionary_under(resources, "XObject", objects) {
        Some(d) => d,
        None => {
            return None;
        },
    };
    let xobj_ref = match xobjects.get(xobj_name) {
        Some(PdfObj::Reference(r)) => r,
        _ => {
            return None;
        },
    };
    let stream = match objects.get(xobj_ref) {
        Some(xobj) => match xobj.as_stream() {
            Some(s) => s,
            None => {
                return None;
            },
        },
        None => {
            return None;
        },
    };
    match stream.dict.get("Subtype") {
        Some(PdfObj::Name(subtype)) => {
            if text_is(subtype.as_str(), "Form") {
                Some(stream)
            } else {
                None
            }
        },
        _ => None,
    }
}

/// The state of text extraction as it is computed.
pub struct Extraction<'a> {
    pub text: String,
    pub line: String,
    pub in_text: bool,
    pub font: Option<&'a PdfFont>,
}

impl<'a> Extraction<'a> {
    /// The value of the state.
    pub open spec fn model(self) -> TextState {
        TextState {
            text: self.text@,
            line: self.line@,
            in_text: self.in_text,
            font: font_option_model(self.font),
        }
    }
}

/// The text of the form that a `Do` at `i` draws.
pub open spec fn form_at(
    tokens: Seq<Tok>,
    i: int,
    fonts: Fonts,
    resources: Dict,
    table: Map<u64, Value>,
    depth: nat,
) -> Option<Seq<char>>
    decreases depth, 0nat, 1nat,
{
    if tokens[i] == Tok::Operator("Do"@) && i >= 1 && tokens[i - 1] is Name {
        xobject_text(tokens[i - 1]->Name_0, resources, table, fonts, depth)
    } else {
        None
    }
}

fn apply_show(state: &mut Extraction, tokens: &Vec<Token>, i: usize, flush_first: bool)
    requires
        1 <= i < tokens@.len(),
    ensures
        final(state).font == old(state).font,
        final(state).in_text == old(state).in_text,
        flush_first ==> final(state).text@ == flushed(old(state).model()).text,
        flush_first ==> final(state).line@ == flushed(old(state).model()).line + shown(
            tok_models(tokens@),
            i as int,
            old(state).model().font,
        ),
        !flush_first ==> final(state).text@ == old(state).text@,
        !flush_first ==> final(state).line@ == old(state).line@ + shown(
            tok_models(tokens@),
            i as int,
            old(state).model().font,
        ),
{
    if flush_first {
        assert(state.line@.len() == 0 ==> state.line@ =~= Seq::<char>::empty());
        flush_line(&mut state.text, &mut state.line);
    }
    show_strings(&mut state.line, tokens, i, state.font);
}

fn apply_operator<'a>(
    state: &mut Extraction<'a>,
    op: &str,
    tokens: &Vec<Token>,
    i: usize,
    fonts: &'a FontMap,
    resources: &PdfDict,
    objects: &ObjectTable,
    depth: usize,
)
    requires
        i < tokens@.len(),
        tokens@[i as int] is Operator,
        tokens@[i as int]->Operator_0@ == op@,
    ensures
        final(state).model() == op_step(
            tok_models(tokens@),
            i as int,
            old(state).model(),
            fonts.model(),
            form_at(
                tok_models(tokens@),
                i as int,
                fonts.model(),
                resources.model(),
                objects.model(),
                depth as nat,
            ),
        ),
    decreases depth, 1nat, 0nat,
{
    let ghost toks = tok_models(tokens@);
    assert(toks[i as int] == Tok::Operator(op@));
    assert(state.line@.len() == 0 ==> state.line@ =~= Seq::<char>::empty());
    if text_is(op, "BT") {
        state.in_text = true;
        state.line = String::new();
    } else if text_is(op, "ET") {
        flush_line(&mut state.text, &mut state.line);
        state.in_text = false;
    } else if text_is(op, "Tf") {
        if i >= 2 {
            match &tokens[i - 2] {
                Token::Name(font_name) => {
                    state.font = fonts.get(font_name.as_str());
                },
                _ => {},
            }
        }
    } else if text_is(op, "Tj") {
        if i >= 1 && state.in_text {
            apply_show(state, tokens, i, false);
        }
    } else if text_is(op, "TJ") {
        if i >= 2 && state.in_text {
            match &tokens[i - 1] {
                Token::ArrayEnd => {
                    show_array(&mut state.line, tokens, i - 2, state.font);
                },
                _ => {},
            }
        }
    } else if text_is(op, "'") {
        if i >= 1 && state.in_text {
            apply_show(state, tokens, i, true);
        }
    } else if text_is(op, "\"") {
        if i >= 3 && state.in_text {
            apply_show(state, tokens, i, true);
        }
    } else if text_is(op, "Do") {
        if i >= 1 {
            match &tokens[i - 1] {
                Token::Name(xobj_name) => {
                    match process_xobject(xobj_name.as_str(), resources, objects, fonts, depth) {
                        Some(xobj_text) => {
                            append_piece(&mut state.text, xobj_text.as_str());
                        },
                        None => {},
                    }
                },
                _ => {},
            }
        }
    }
}

/// The text that a content stream shows.
pub fn extract_text_from_stream(
    stream_data: &[u8],
    fonts: &FontMap,
    resources: &PdfDict,
    objects: &ObjectTable,
    depth: usize,
) -> (r: String)
    ensures
        r@ == spec_stream_text(
            stream_data@,
            fonts.model(),
            resources.model(),
            objects.model(),
            depth as nat,
        ),
    decreases depth, 2nat, 0nat,
{
    let mut parser = TokenParser::new(stream_data);
    let tokens = parser.parse_all();
    let ghost toks = tok_models(tokens@);
    let mut state = Extraction {
        text: String::new(),
        line: String::new(),
        in_text: false,
        font: None,
    };
    let mut i: usize = 0;
    while i < tokens.len()
        invariant
            i <= tokens@.len(),
            toks == tok_models(tokens@),
            toks == spec_tokens(stream_data@, 0, Seq::empty()),
            run_text(
                toks,
                i as int,
                state.model(),
                fonts.model(),
                resources.model(),
                objects.model(),
                depth as nat,
            ) == run_text(
                toks,
                0,
                initial_state(),
                fonts.model(),
                resources.model(),
                objects.model(),
                depth as nat,
            ),
        decreases tokens@.len() - i,
    {
        match &tokens[i] {
            Token::Operator(op) => {
                apply_operator(&mut state, op.as_str(), &tokens, i, fonts, resources, objects, depth);
            },
            _ => {},
        }
        i += 1;
    }
    assert(state.line@.len() == 0 ==> state.line@ =~= Seq::<char>::empty());
    flush_line(&mut state.text, &mut state.line);
    state.text
}

/// The content streams from `i` on in one, a space between every two; a
/// stream goes without a space in front while nothing stands before it.
pub open spec fn joined_streams(streams: Seq<Seq<u8>>, i: int, acc: Seq<u8>) -> Seq<u8>
    decreases streams.len() - i,
{
    if i < 0 || i >= streams.len() {
        acc
    } else if acc.len() > 0 {
        joined_streams(streams, i + 1, acc.push(0x20u8) + streams[i])
    } else {
        joined_streams(streams, i + 1, acc + streams[i])
    }
}

/// The text of a page: the text of its content streams taken as one.
pub open spec fn spec_page_text(page: Page, table: Map<u64, Value>) -> Seq<char> {
    let content = joined_streams(page.content_streams, 0, Seq::empty());
    if content.len() == 0 {
        Seq::empty()
    } else {
        spec_stream_text(content, page.fonts, page.resources, table, MAX_FORM_DEPTH as nat)
    }
}

/// The text of a page.
#[verifier::loop_isolation(false)]
pub fn extract_text_from_page_content(page: &PageContent, objects: &ObjectTable) -> (r: String)
    ensures
        r@ == spec_page_text(page.model(), objects.model()),
{
    let mut all_content: Vec<u8> = Vec::new();
    let mut i: usize = 0;
    let ghost streams = stream_models(page.content_streams@);
    while i < page.content_streams.len()
        invariant
            i <= page.content_streams.len(),
            joined_streams(streams, i as int, all_content@) == joined_streams(
                streams,
                0,
                Seq::empty(),
            ),
        decreases page.content_streams.len() - i,
    {
        if all_content.len() > 0 {
            all_content.push(0x20u8);
        }
        let mut copy = vstd::slice::slice_to_vec(page.content_streams[i].as_slice());
        all_content.append(&mut copy);
        i += 1;
    }
    if all_content.len() == 0 {
        return String::new();
    }
    extract_text_from_stream(
        all_content.as_slice(),
        &page.fonts,
        &page.resources,
        objects,
        MAX_FORM_DEPTH,
    )
}

/// In a `TJ` array a number below -200 shows exactly one space, and every
/// other number shows nothing.
pub proof fn lemma_tj_number_spacing(n: crate::number::PdfNumber, font: Option<Font>)
    ensures
        n.spec_below_minus_200() ==> item_text(Tok::Number(n), font) == seq![' '],
        !n.spec_below_minus_200() ==> item_text(Tok::Number(n), font) == Seq::<char>::empty(),
{
}

} // verus!
