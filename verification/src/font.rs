//! Fonts: the encodings and tables by which the bytes of shown strings
//! become text.
use crate::bytes::bytes_eq;
use crate::cmap::{cmap_insert, cmap_model, cmap_option_model, CodeMap, parse_cmap, spec_cmap};
use crate::object::{
    Dict, dict_get, obj_models, ObjectTable, PdfDict, PdfObj, resolved, spec_resolved, Value,
};
use crate::stream::{handle_stream_filters, spec_stream_filters};
use std::collections::BTreeMap;
use vstd::prelude::*;

verus! {

/// Whether two texts hold the same characters.
pub fn text_is(s: &str, lit: &str) -> (r: bool)
    ensures
        r == (s@ == lit@),
{
    proof {
        vstd::utf8::encode_utf8_decode_utf8(s@);
        vstd::utf8::encode_utf8_decode_utf8(lit@);
    }
    bytes_eq(s.as_bytes(), lit.as_bytes())
}

/// The text of a glyph name: the printable ASCII characters by their
/// standard names, and `?` for every other name.
pub open spec fn spec_glyph(name: Seq<char>) -> Seq<char> {
    if name == "space"@ {
        " "@
    } else if name == "exclam"@ {
        "!"@
    } else if name == "quotedbl"@ {
        "\""@
    } else if name == "numbersign"@ {
        "#"@
    } else if name == "dollar"@ {
        "$"@
    } else if name == "percent"@ {
        "%"@
    } else if name == "ampersand"@ {
        "&"@
    } else if name == "quotesingle"@ {
        "'"@
    } else if name == "parenleft"@ {
        "("@
    } else if name == "parenright"@ {
        ")"@
    } else if name == "asterisk"@ {
        "*"@
    } else if name == "plus"@ {
        "+"@
    } else if name == "comma"@ {
        ","@
    } else if name == "hyphen"@ {
        "-"@
    } else if name == "minus"@ {
        "-"@
    } else if name == "period"@ {
        "."@
    } else if name == "slash"@ {
        "/"@
    } else if name == "zero"@ {
        "0"@
    } else if name == "one"@ {
        "1"@
    } else if name == "two"@ {
        "2"@
    } else if name == "three"@ {
        "3"@
    } else if name == "four"@ {
        "4"@
    } else if name == "five"@ {
        "5"@
    } else if name == "six"@ {
        "6"@
    } else if name == "seven"@ {
        "7"@
    } else if name == "eight"@ {
        "8"@
    } else if name == "nine"@ {
        "9"@
    } else if name == "colon"@ {
        ":"@
    } else if name == "semicolon"@ {
        ";"@
    } else if name == "less"@ {
        "<"@
    } else if name == "equal"@ {
        "="@
    } else if name == "greater"@ {
        ">"@
    } else if name == "question"@ {
        "?"@
    } else if name == "at"@ {
        "@"@
    } else if name == "A"@ {
        "A"@
    } else if name == "B"@ {
        "B"@
    } else if name == "C"@ {
        "C"@
    } else if name == "D"@ {
        "D"@
    } else if name == "E"@ {
        "E"@
    } else if name == "F"@ {
        "F"@
    } else if name == "G"@ {
        "G"@
    } else if name == "H"@ {
        "H"@
    } else if name == "I"@ {
        "I"@
    } else if name == "J"@ {
        "J"@
    } else if name == "K"@ {
        "K"@
    } else if name == "L"@ {
        "L"@
    } else if name == "M"@ {
        "M"@
    } else if name == "N"@ {
        "N"@
    } else if name == "O"@ {
        "O"@
    } else if name == "P"@ {
        "P"@
    } else if name == "Q"@ {
        "Q"@
    } else if name == "R"@ {
        "R"@
    } else if name == "S"@ {
        "S"@
    } else if name == "T"@ {
        "T"@
    } else if name == "U"@ {
        "U"@
    } else if name == "V"@ {
        "V"@
    } else if name == "W"@ {
        "W"@
    } else if name == "X"@ {
        "X"@
    } else if name == "Y"@ {
        "Y"@
    } else if name == "Z"@ {
        "Z"@
    } else if name == "bracketleft"@ {
        "["@
    } else if name == "backslash"@ {
        "\\"@
    } else if name == "bracketright"@ {
        "]"@
    } else if name == "asciicircum"@ {
        "^"@
    } else if name == "underscore"@ {
        "_"@
    } else if name == "grave"@ {
        "`"@
    } else if name == "a"@ {
        "a"@
    } else if name == "b"@ {
        "b"@
    } else if name == "c"@ {
        "c"@
    } else if name == "d"@ {
        "d"@
    } else if name == "e"@ {
        "e"@
    } else if name == "f"@ {
        "f"@
    } else if name == "g"@ {
        "g"@
    } else if name == "h"@ {
        "h"@
    } else if name == "i"@ {
        "i"@
    } else if name == "j"@ {
        "j"@
    } else if name == "k"@ {
        "k"@
    } else if name == "l"@ {
        "l"@
    } else if name == "m"@ {
        "m"@
    } else if name == "n"@ {
        "n"@
    } else if name == "o"@ {
        "o"@
    } else if name == "p"@ {
        "p"@
    } else if name == "q"@ {
        "q"@
    } else if name == "r"@ {
        "r"@
    } else if name == "s"@ {
        "s"@
    } else if name == "t"@ {
        "t"@
    } else if name == "u"@ {
        "u"@
    } else if name == "v"@ {
        "v"@
    } else if name == "w"@ {
        "w"@
    } else if name == "x"@ {
        "x"@
    } else if name == "y"@ {
        "y"@
    } else if name == "z"@ {
        "z"@
    } else if name == "braceleft"@ {
        "{"@
    } else if name == "bar"@ {
        "|"@
    } else if name == "braceright"@ {
        "}"@
    } else if name == "asciitilde"@ {
        "~"@
    } else {
        "?"@
    }
}

/// The text of a glyph name.
pub fn glyph_to_unicode(glyph_name: &str) -> (r: String)
    ensures
        r@ == spec_glyph(glyph_name@),
{
    if text_is(glyph_name, "space") {
        String::from_str(" ")
    } else if text_is(glyph_name, "exclam") {
        String::from_str("!")
    } else if text_is(glyph_name, "quotedbl") {
        String::from_str("\"")
    } else if text_is(glyph_name, "numbersign") {
        String::from_str("#")
    } else if text_is(glyph_name, "dollar") {
        String::from_str("$")
    } else if text_is(glyph_name, "percent") {
        String::from_str("%")
    } else if text_is(glyph_name, "ampersand") {
        String::from_str("&")
    } else if text_is(glyph_name, "quotesingle") {
        String::from_str("'")
    } else if text_is(glyph_name, "parenleft") {
        String::from_str("(")
    } else if text_is(glyph_name, "parenright") {
        String::from_str(")")
    } else if text_is(glyph_name, "asterisk") {
        String::from_str("*")
    } else if text_is(glyph_name, "plus") {
        String::from_str("+")
    } else if text_is(glyph_name, "comma") {
        String::from_str(",")
    } else if text_is(glyph_name, "hyphen") {
        String::from_str("-")
    } else if text_is(glyph_name, "minus") {
        String::from_str("-")
    } else if text_is(glyph_name, "period") {
        String::from_str(".")
    } else if text_is(glyph_name, "slash") {
        String::from_str("/")
    } else if text_is(glyph_name, "zero") {
        String::from_str("0")
    } else if text_is(glyph_name, "one") {
        String::from_str("1")
    } else if text_is(glyph_name, "two") {
        String::from_str("2")
    } else if text_is(glyph_name, "three") {
        String::from_str("3")
    } else if text_is(glyph_name, "four") {
        String::from_str("4")
    } else if text_is(glyph_name, "five") {
        String::from_str("5")
    } else if text_is(glyph_name, "six") {
        String::from_str("6")
    } else if text_is(glyph_name, "seven") {
        String::from_str("7")
    } else if text_is(glyph_name, "eight") {
        String::from_str("8")
    } else if text_is(glyph_name, "nine") {
        String::from_str("9")
    } else if text_is(glyph_name, "colon") {
        String::from_str(":")
    } else if text_is(glyph_name, "semicolon") {
        String::from_str(";")
    } else if text_is(glyph_name, "less") {
        String::from_str("<")
    } else if text_is(glyph_name, "equal") {
        String::from_str("=")
    } else if text_is(glyph_name, "greater") {
        String::from_str(">")
    } else if text_is(glyph_name, "question") {
        String::from_str("?")
    } else if text_is(glyph_name, "at") {
        String::from_str("@")
    } else if text_is(glyph_name, "A") {
        String::from_str("A")
    } else if text_is(glyph_name, "B") {
        String::from_str("B")
    } else if text_is(glyph_name, "C") {
        String::from_str("C")
    } else if text_is(glyph_name, "D") {
        String::from_str("D")
    } else if text_is(glyph_name, "E") {
        String::from_str("E")
    } else if text_is(glyph_name, "F") {
        String::from_str("F")
    } else if text_is(glyph_name, "G") {
        String::from_str("G")
    } else if text_is(glyph_name, "H") {
        String::from_str("H")
    } else if text_is(glyph_name, "I") {
        String::from_str("I")
    } else if text_is(glyph_name, "J") {
        String::from_str("J")
    } else if text_is(glyph_name, "K") {
        String::from_str("K")
    } else if text_is(glyph_name, "L") {
        String::from_str("L")
    } else if text_is(glyph_name, "M") {
        String::from_str("M")
    } else if text_is(glyph_name, "N") {
        String::from_str("N")
    } else if text_is(glyph_name, "O") {
        String::from_str("O")
    } else if text_is(glyph_name, "P") {
        String::from_str("P")
    } else if text_is(glyph_name, "Q") {
        String::from_str("Q")
    } else if text_is(glyph_name, "R") {
        String::from_str("R")
    } else if text_is(glyph_name, "S") {
        String::from_str("S")
    } else if text_is(glyph_name, "T") {
        String::from_str("T")
    } else if text_is(glyph_name, "U") {
        String::from_str("U")
    } else if text_is(glyph_name, "V") {
        String::from_str("V")
    } else if text_is(glyph_name, "W") {
        String::from_str("W")
    } else if text_is(glyph_name, "X") {
        String::from_str("X")
    } else if text_is(glyph_name, "Y") {
        String::from_str("Y")
    } else if text_is(glyph_name, "Z") {
        String::from_str("Z")
    } else if text_is(glyph_name, "bracketleft") {
        String::from_str("[")
    } else if text_is(glyph_name, "backslash") {
        String::from_str("\\")
    } else if text_is(glyph_name, "bracketright") {
        String::from_str("]")
    } else if text_is(glyph_name, "asciicircum") {
        String::from_str("^")
    } else if text_is(glyph_name, "underscore") {
        String::from_str("_")
    } else if text_is(glyph_name, "grave") {
        String::from_str("`")
    } else if text_is(glyph_name, "a") {
        String::from_str("a")
    } else if text_is(glyph_name, "b") {
        String::from_str("b")
    } else if text_is(glyph_name, "c") {
        String::from_str("c")
    } else if text_is(glyph_name, "d") {
        String::from_str("d")
    } else if text_is(glyph_name, "e") {
        String::from_str("e")
    } else if text_is(glyph_name, "f") {
        String::from_str("f")
    } else if text_is(glyph_name, "g") {
        String::from_str("g")
    } else if text_is(glyph_name, "h") {
        String::from_str("h")
    } else if text_is(glyph_name, "i") {
        String::from_str("i")
    } else if text_is(glyph_name, "j") {
        String::from_str("j")
    } else if text_is(glyph_name, "k") {
        String::from_str("k")
    } else if text_is(glyph_name, "l") {
        String::from_str("l")
    } else if text_is(glyph_name, "m") {
        String::from_str("m")
    } else if text_is(glyph_name, "n") {
        String::from_str("n")
    } else if text_is(glyph_name, "o") {
        String::from_str("o")
    } else if text_is(glyph_name, "p") {
        String::from_str("p")
    } else if text_is(glyph_name, "q") {
        String::from_str("q")
    } else if text_is(glyph_name, "r") {
        String::from_str("r")
    } else if text_is(glyph_name, "s") {
        String::from_str("s")
    } else if text_is(glyph_name, "t") {
        String::from_str("t")
    } else if text_is(glyph_name, "u") {
        String::from_str("u")
    } else if text_is(glyph_name, "v") {
        String::from_str("v")
    } else if text_is(glyph_name, "w") {
        String::from_str("w")
    } else if text_is(glyph_name, "x") {
        String::from_str("x")
    } else if text_is(glyph_name, "y") {
        String::from_str("y")
    } else if text_is(glyph_name, "z") {
        String::from_str("z")
    } else if text_is(glyph_name, "braceleft") {
        String::from_str("{")
    } else if text_is(glyph_name, "bar") {
        String::from_str("|")
    } else if text_is(glyph_name, "braceright") {
        String::from_str("}")
    } else if text_is(glyph_name, "asciitilde") {
        String::from_str("~")
    } else {
        String::from_str("?")
    }
}

/// A font of a page.
#[derive(Debug)]
pub struct PdfFont {
    pub base_font: String,
    pub subtype: String,
    pub encoding: String,
    /// From character codes to text, as the font's ToUnicode CMap has it.
    pub to_unicode: Option<BTreeMap<u32, String>>,
    /// From character codes to the text of the glyph names that the
    /// encoding's `Differences` put in their place.
    pub differences: Option<BTreeMap<u32, String>>,
}

/// What a font holds, as a mathematical value.
pub struct Font {
    pub base_font: Seq<char>,
    pub subtype: Seq<char>,
    pub encoding: Seq<char>,
    pub to_unicode: Option<CodeMap>,
    pub differences: Option<CodeMap>,
}

fn clone_code_map(m: &Option<BTreeMap<u32, String>>) -> (r: Option<BTreeMap<u32, String>>)
    ensures
        cmap_option_model(r) == cmap_option_model(*m),
{
    match m {
        Some(map) => Some(map.clone()),
        None => None,
    }
}

impl PdfFont {
    /// The value of the font.
    pub open spec fn model(self) -> Font {
        Font {
            base_font: self.base_font@,
            subtype: self.subtype@,
            encoding: self.encoding@,
            to_unicode: cmap_option_model(self.to_unicode),
            differences: cmap_option_model(self.differences),
        }
    }

    /// A copy of the font with the same value.
    pub fn deep_clone(&self) -> (r: PdfFont)
        ensures
            r.model() == self.model(),
    {
        PdfFont {
            base_font: self.base_font.clone(),
            subtype: self.subtype.clone(),
            encoding: self.encoding.clone(),
            to_unicode: clone_code_map(&self.to_unicode),
            differences: clone_code_map(&self.differences),
        }
    }
}

/// One font of a font table, under its resource name.
#[derive(Debug)]
pub struct FontEntry {
    pub name: String,
    pub font: PdfFont,
}

/// The fonts of a page by their resource names. Looking a name up gives the
/// first entry that has it; entering a name that is there replaces the font
/// of that entry.
#[derive(Debug)]
pub struct FontMap {
    pub entries: Vec<FontEntry>,
}

/// The entries of a font table as a value.
pub type Fonts = Seq<(Seq<char>, Font)>;

/// The position of the first entry at or after `i` that has the name.
pub open spec fn font_index_from(fonts: Fonts, name: Seq<char>, i: int) -> Option<int>
    decreases fonts.len() - i,
{
    if i < 0 || i >= fonts.len() {
        None
    } else if fonts[i].0 == name {
        Some(i)
    } else {
        font_index_from(fonts, name, i + 1)
    }
}

/// The font that a table has for a name.
pub open spec fn font_get(fonts: Fonts, name: Seq<char>) -> Option<Font> {
    match font_index_from(fonts, name, 0) {
        Some(at) => Some(fonts[at].1),
        None => None,
    }
}

/// A font table with `name` set to `font`.
pub open spec fn font_insert(fonts: Fonts, name: Seq<char>, font: Font) -> Fonts {
    match font_index_from(fonts, name, 0) {
        Some(at) => fonts.update(at, (name, font)),
        None => fonts.push((name, font)),
    }
}

/// A font table with the entries of `other` from `i` on entered in their
/// order.
pub open spec fn fonts_extended(fonts: Fonts, other: Fonts, i: int) -> Fonts
    decreases other.len() - i,
{
    if i < 0 || i >= other.len() {
        fonts
    } else {
        fonts_extended(font_insert(fonts, other[i].0, other[i].1), other, i + 1)
    }
}

/// The value of an optional font.
pub open spec fn font_option_model(f: Option<&PdfFont>) -> Option<Font> {
    match f {
        Some(f) => Some(f.model()),
        None => None,
    }
}

impl FontMap {
    /// The entries of the table as a value.
    pub open spec fn model(self) -> Fonts {
        Seq::new(
            self.entries@.len(),
            |i: int| (self.entries@[i].name@, self.entries@[i].font.model()),
        )
    }

    /// A font table without fonts.
    pub fn new() -> (r: FontMap)
        ensures
            r.model() == Seq::<(Seq<char>, Font)>::empty(),
    {
        let r = FontMap { entries: Vec::new() };
        assert(r.model() =~= Seq::<(Seq<char>, Font)>::empty());
        r
    }

    #[verifier::loop_isolation(false)]
    fn position(&self, name: &str) -> (r: Option<usize>)
        ensures
            match r {
                Some(at) => at < self.entries@.len() && font_index_from(self.model(), name@, 0)
                    == Some(at as int),
                None => font_index_from(self.model(), name@, 0) is None,
            },
    {
        let mut i: usize = 0;
        while i < self.entries.len()
            invariant
                i <= self.entries.len(),
                font_index_from(self.model(), name@, i as int) == font_index_from(
                    self.model(),
                    name@,
                    0,
                ),
            decreases self.entries.len() - i,
        {
            if text_is(self.entries[i].name.as_str(), name) {
                return Some(i);
            }
            i += 1;
        }
        None
    }

    /// The font of a name.
    pub fn get(&self, name: &str) -> (r: Option<&PdfFont>)
        ensures
            font_option_model(r) == font_get(self.model(), name@),
    {
        match self.position(name) {
            Some(at) => Some(&self.entries[at].font),
            None => None,
        }
    }

    /// Sets a name to a font.
    pub fn insert(&mut self, name: String, font: PdfFont)
        ensures
            final(self).model() == font_insert(old(self).model(), name@, font.model()),
    {
        let ghost before = self.model();
        match self.position(name.as_str()) {
            Some(at) => {
                self.entries.set(at, FontEntry { name, font });
                assert(self.model() =~= before.update(at as int, (name@, font.model())));
            },
            None => {
                self.entries.push(FontEntry { name, font });
                assert(self.model() =~= before.push((name@, font.model())));
            },
        }
    }

    /// A copy of the table with the same value.
    pub fn deep_clone(&self) -> (r: FontMap)
        ensures
            r.model() == self.model(),
    {
        let mut out: Vec<FontEntry> = Vec::new();
        let mut i: usize = 0;
        while i < self.entries.len()
            invariant
                i <= self.entries.len(),
                out@.len() == i,
                forall|j: int|
                    0 <= j < i ==> out@[j].name@ == self.entries@[j].name@ && out@[j].font.model()
                        == self.entries@[j].font.model(),
            decreases self.entries.len() - i,
        {
            let entry = &self.entries[i];
            out.push(FontEntry { name: entry.name.clone(), font: entry.font.deep_clone() });
            i += 1;
        }
        let r = FontMap { entries: out };
        assert(r.model() =~= self.model());
        r
    }

    /// Enters the fonts of `other`, in their order.
    #[verifier::loop_isolation(false)]
    pub fn extend(&mut self, other: &FontMap)
        ensures
            final(self).model() == fonts_extended(old(self).model(), other.model(), 0),
    {
        let mut i: usize = 0;
        while i < other.entries.len()
            invariant
                i <= other.entries.len(),
                fonts_extended(self.model(), other.model(), i as int) == fonts_extended(
                    old(self).model(),
                    other.model(),
                    0,
                ),
            decreases other.entries.len() - i,
        {
            let entry = &other.entries[i];
            self.insert(entry.name.clone(), entry.font.deep_clone());
            i += 1;
        }
    }
}

/// The base encoding of an encoding dictionary, `Identity-H` where it names
/// none.
pub open spec fn base_encoding(d: Dict) -> Seq<char> {
    match dict_get(d, "BaseEncoding"@) {
        Some(Value::Name(n)) => n,
        _ => "Identity-H"@,
    }
}

/// The encoding of a font: the name under `Encoding`, or the base encoding
/// of the dictionary there, with one reference followed; `Identity-H` in
/// every other case.
pub open spec fn spec_encoding(font: Dict, table: Map<u64, Value>) -> Seq<char> {
    match dict_get(font, "Encoding"@) {
        Some(entry) => match spec_resolved(entry, table) {
            Some(Value::Name(n)) => n,
            Some(Value::Dictionary(d)) => base_encoding(d),
            _ => "Identity-H"@,
        },
        None => "Identity-H"@,
    }
}

fn base_encoding_of(dict: &PdfDict) -> (r: String)
    ensures
        r@ == base_encoding(dict.model()),
{
    match dict.get("BaseEncoding") {
        Some(PdfObj::Name(name)) => name.clone(),
        _ => String::from_str("Identity-H"),
    }
}

/// The encoding of a font.
pub fn extract_encoding(font_dict: &PdfDict, objects: &ObjectTable) -> (r: String)
    ensures
        r@ == spec_encoding(font_dict.model(), objects.model()),
{
    let entry = match font_dict.get("Encoding") {
        Some(e) => e,
        None => {
            return String::from_str("Identity-H");
        },
    };
    match resolved(entry, objects) {
        Some(target) => {
            match target.as_name() {
                Some(name) => {
                    return name.clone();
                },
                None => {},
            }
            match target.as_dictionary() {
                Some(dict) => base_encoding_of(dict),
                None => String::from_str("Identity-H"),
            }
        },
        None => String::from_str("Identity-H"),
    }
}

/// The ToUnicode table of a font: the CMap in the stream under `ToUnicode`,
/// with one reference followed. `None` where there is no such stream, where
/// its filters fail, and where the CMap has no mapping.
pub open spec fn spec_to_unicode(font: Dict, table: Map<u64, Value>) -> Option<CodeMap> {
    match dict_get(font, "ToUnicode"@) {
        Some(entry) => match spec_resolved(entry, table) {
            Some(Value::Stream(d, data)) => match spec_stream_filters(d, data) {
                Some(bytes) => spec_cmap(bytes),
                None => None,
            },
            _ => None,
        },
        None => None,
    }
}

/// The ToUnicode table of a font.
pub fn extract_to_unicode(font_dict: &PdfDict, objects: &ObjectTable) -> (r: Option<
    BTreeMap<u32, String>,
>)
    ensures
        cmap_option_model(r) == spec_to_unicode(font_dict.model(), objects.model()),
{
    let entry = match font_dict.get("ToUnicode") {
        Some(e) => e,
        None => {
            return None;
        },
    };
    let stream = match resolved(entry, objects) {
        Some(target) => match target.as_stream() {
            Some(s) => s,
            None => {
                return None;
            },
        },
        None => {
            return None;
        },
    };
    match handle_stream_filters(&stream.dict, stream.data.as_slice()) {
        Ok(data) => parse_cmap(data.as_slice()),
        Err(_) => None,
    }
}

/// The code behind `code`, with 0 behind the highest.
pub open spec fn next_code(code: u32) -> u32 {
    if code == u32::MAX {
        0
    } else {
        (code + 1) as u32
    }
}

/// The table that the items of a `Differences` array from `i` on make: a
/// number sets the code, and every name is entered at the code, which then
/// goes up by one.
pub open spec fn differences_from(items: Seq<Value>, i: int, code: u32, acc: CodeMap) -> CodeMap
    decreases items.len() - i,
{
    if i < 0 || i >= items.len() {
        acc
    } else {
        match items[i] {
            Value::Number(n) => differences_from(items, i + 1, n.spec_to_u32(), acc),
            Value::Name(name) => differences_from(
                items,
                i + 1,
                next_code(code),
                acc.insert(code, spec_glyph(name)),
            ),
            _ => differences_from(items, i + 1, code, acc),
        }
    }
}

/// The `Differences` of a font: the array of that name in the encoding
/// dictionary, with one reference followed for either. `None` where the
/// encoding is no dictionary or has no such array.
pub open spec fn spec_differences(font: Dict, table: Map<u64, Value>) -> Option<CodeMap> {
    match dict_get(font, "Encoding"@) {
        Some(entry) => match spec_resolved(entry, table) {
            Some(Value::Dictionary(encoding)) => match dict_get(encoding, "Differences"@) {
                Some(diff) => match spec_resolved(diff, table) {
                    Some(Value::Array(items)) => Some(differences_from(items, 0, 0, Map::empty())),
                    _ => None,
                },
                None => None,
            },
            _ => None,
        },
        None => None,
    }
}

#[verifier::loop_isolation(false)]
fn differences_of(items: &Vec<PdfObj>) -> (r: BTreeMap<u32, String>)
    ensures
        cmap_model(r) == differences_from(obj_models(items@), 0, 0, Map::empty()),
{
    let mut result: BTreeMap<u32, String> = BTreeMap::new();
    assert(cmap_model(result) =~= Map::<u32, Seq<char>>::empty());
    let mut current_code: u32 = 0;
    let mut i: usize = 0;
    while i < items.len()
        invariant
            i <= items.len(),
            differences_from(obj_models(items@), i as int, current_code, cmap_model(result))
                == differences_from(obj_models(items@), 0, 0, Map::empty()),
        decreases items.len() - i,
    {
        match &items[i] {
            PdfObj::Number(n) => {
                current_code = n.to_u32();
            },
            PdfObj::Name(name) => {
                cmap_insert(&mut result, current_code, glyph_to_unicode(name.as_str()));
                current_code = if current_code == u32::MAX {
                    0
                } else {
                    current_code + 1
                };
            },
            _ => {},
        }
        i += 1;
    }
    result
}

/// The `Differences` of a font.
pub fn extract_differences(font_dict: &PdfDict, objects: &ObjectTable) -> (r: Option<
    BTreeMap<u32, String>,
>)
    ensures
        cmap_option_model(r) == spec_differences(font_dict.model(), objects.model()),
{
    let entry = match font_dict.get("Encoding") {
        Some(e) => e,
        None => {
            return None;
        },
    };
    let encoding = match resolved(entry, objects) {
        Some(target) => match target.as_dictionary() {
            Some(d) => d,
            None => {
                return None;
            },
        },
        None => {
            return None;
        },
    };
    let diff = match encoding.get("Differences") {
        Some(d) => d,
        None => {
            return None;
        },
    };
    let items = match resolved(diff, objects) {
        Some(target) => match target.as_array() {
            Some(a) => a,
            None => {
                return None;
            },
        },
        None => {
            return None;
        },
    };
    Some(differences_of(items))
}

/// The name under a key, or a default.
pub open spec fn name_or(d: Dict, key: Seq<char>, default: Seq<char>) -> Seq<char> {
    match dict_get(d, key) {
        Some(Value::Name(n)) => n,
        _ => default,
    }
}

/// The font that a font dictionary describes.
pub open spec fn spec_font(font: Dict, table: Map<u64, Value>) -> Font {
    Font {
        base_font: name_or(font, "BaseFont"@, "Unknown"@),
        subtype: name_or(font, "Subtype"@, "Type1"@),
        encoding: spec_encoding(font, table),
        to_unicode: spec_to_unicode(font, table),
        differences: spec_differences(font, table),
    }
}

fn name_or_default(dict: &PdfDict, key: &str, default: &str) -> (r: String)
    ensures
        r@ == name_or(dict.model(), key@, default@),
{
    match dict.get(key) {
        Some(PdfObj::Name(name)) => name.clone(),
        _ => String::from_str(default),
    }
}

/// Reads a font dictionary.
pub fn parse_font(font_dict: &PdfDict, objects: &ObjectTable) -> (r: Option<PdfFont>)
    ensures
        r is Some,
        r->0.model() == spec_font(font_dict.model(), objects.model()),
{
    Some(
        PdfFont {
            base_font: name_or_default(font_dict, "BaseFont", "Unknown"),
            subtype: name_or_default(font_dict, "Subtype", "Type1"),
            encoding: extract_encoding(font_dict, objects),
            to_unicode: extract_to_unicode(font_dict, objects),
            differences: extract_differences(font_dict, objects),
        },
    )
}

/// The fonts that the entries of a font dictionary from `i` on describe,
/// entered into `acc`. An entry counts when it is a dictionary or refers to
/// one.
pub open spec fn spec_fonts_from(font_dict: Dict, table: Map<u64, Value>, i: int, acc: Fonts) -> Fonts
    decreases font_dict.len() - i,
{
    if i < 0 || i >= font_dict.len() {
        acc
    } else {
        match spec_resolved(font_dict[i].1, table) {
            Some(Value::Dictionary(d)) => spec_fonts_from(
                font_dict,
                table,
                i + 1,
                font_insert(acc, font_dict[i].0, spec_font(d, table)),
            ),
            _ => spec_fonts_from(font_dict, table, i + 1, acc),
        }
    }
}

/// The fonts of a font dictionary.
pub open spec fn spec_fonts(font_dict: Dict, table: Map<u64, Value>) -> Fonts {
    spec_fonts_from(font_dict, table, 0, Seq::empty())
}

/// Reads the fonts of a font dictionary.
#[verifier::loop_isolation(false)]
pub fn extract_fonts(font_dict: &PdfDict, objects: &ObjectTable) -> (r: FontMap)
    ensures
        r.model() == spec_fonts(font_dict.model(), objects.model()),
{
    let mut fonts = FontMap::new();
    let mut i: usize = 0;
    while i < font_dict.entries.len()
        invariant
            i <= font_dict.entries.len(),
            spec_fonts_from(font_dict.model(), objects.model(), i as int, fonts.model())
                == spec_fonts(font_dict.model(), objects.model()),
        decreases font_dict.entries.len() - i,
    {
        let entry = &font_dict.entries[i];
        let font = match resolved(&entry.value, objects) {
            Some(target) => match target.as_dictionary() {
                Some(dict) => parse_font(dict, objects),
                None => None,
            },
            None => None,
        };
        match font {
            Some(f) => {
                fonts.insert(entry.key.clone(), f);
            },
            None => {},
        }
        i += 1;
    }
    fonts
}

} // verus!
