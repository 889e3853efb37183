//! ToUnicode CMaps: the tables that map character codes to Unicode text.
//!
//! Of a CMap only the `bfchar` and `bfrange` blocks are read, line by line.
use crate::bytes::{
    char_from_u32, hex_digit_value, hex_value, is_hex_digit, occurs_at, split_words, starts_with_at,
    str_from_utf8, string_push, trim_bounds, trimmed, words_of,
};
use crate::lexer::all_hex_digits;
use std::collections::BTreeMap;
use vstd::prelude::*;
use vstd::string::StringSliceAdditionalSpecFns;

verus! {

/// A table from character codes to text.
pub type CodeMap = Map<u32, Seq<char>>;

/// The table that a map of strings holds.
pub open spec fn cmap_model(m: BTreeMap<u32, String>) -> CodeMap {
    Map::new(|k: u32| m@.contains_key(k), |k: u32| m@[k]@)
}

/// The table that an optional map of strings holds.
pub open spec fn cmap_option_model(m: Option<BTreeMap<u32, String>>) -> Option<CodeMap> {
    match m {
        Some(m) => Some(cmap_model(m)),
        None => None,
    }
}

/// Enters a code with its text into a table.
pub fn cmap_insert(map: &mut BTreeMap<u32, String>, key: u32, value: String)
    ensures
        cmap_model(*final(map)) == cmap_model(*old(map)).insert(key, value@),
{
    broadcast use vstd::std_specs::btree::group_btree_axioms;
    broadcast use vstd::laws_cmp::group_laws_cmp;

    let ghost before = cmap_model(*map);
    map.insert(key, value);
    assert(cmap_model(*map) =~= before.insert(key, value@));
}

/// The text of a code, if the table has the code.
pub fn cmap_get<'a>(map: &'a BTreeMap<u32, String>, key: u32) -> (r: Option<&'a String>)
    ensures
        match r {
            Some(s) => cmap_model(*map).contains_key(key) && cmap_model(*map)[key] == s@,
            None => !cmap_model(*map).contains_key(key),
        },
{
    broadcast use vstd::std_specs::btree::group_btree_axioms;
    broadcast use vstd::laws_cmp::group_laws_cmp;

    map.get(&key)
}

/// The number that a run of hexadecimal digits denotes.
pub open spec fn hex_number(digits: Seq<u8>) -> nat
    decreases digits.len(),
{
    if digits.len() == 0 {
        0
    } else {
        hex_number(digits.drop_last()) * 16 + hex_value(digits.last()) as nat
    }
}

proof fn lemma_hex_number_prefix(s: Seq<u8>, k: int)
    requires
        0 <= k <= s.len(),
    ensures
        hex_number(s.take(k)) <= hex_number(s),
    decreases s.len() - k,
{
    if k < s.len() {
        lemma_hex_number_prefix(s, k + 1);
        assert(s.take(k + 1).drop_last() =~= s.take(k));
    } else {
        assert(s.take(k) =~= s);
    }
}

/// The digits of a text in base 16: the text without a leading `+`.
pub open spec fn radix16_digits(text: Seq<u8>) -> Seq<u8> {
    if text.len() > 0 && text[0] == 0x2B {
        text.subrange(1, text.len() as int)
    } else {
        text
    }
}

/// The number that a text denotes in base 16: an optional `+`, then one or
/// more digits, with a value of `max` at most.
pub open spec fn spec_radix16(text: Seq<u8>, max: nat) -> Option<nat> {
    let d = radix16_digits(text);
    if d.len() == 0 || !all_hex_digits(d) || hex_number(d) > max {
        None
    } else {
        Some(hex_number(d))
    }
}

#[verifier::loop_isolation(false)]
fn parse_radix16(text: &[u8], max: u32) -> (r: Option<u32>)
    ensures
        match spec_radix16(text@, max as nat) {
            Some(v) => r == Some(v as u32),
            None => r is None,
        },
{
    let from: usize = if text.len() > 0 && text[0] == 0x2B {
        1
    } else {
        0
    };
    let ghost d = radix16_digits(text@);
    assert(d == text@.subrange(from as int, text@.len() as int)) by {
        assert(text@.subrange(0, text@.len() as int) =~= text@);
    }
    if from == text.len() {
        return None;
    }
    let mut value: u64 = 0;
    let mut over = false;
    let mut k: usize = from;
    while k < text.len()
        invariant
            from <= k <= text.len(),
            all_hex_digits(d.take(k - from)),
            !over ==> value == hex_number(d.take(k - from)) && value <= max,
            over ==> hex_number(d.take(k - from)) > max,
        decreases text.len() - k,
    {
        let b = text[k];
        proof {
            assert(d[k - from] == b);
            assert(d.take(k - from + 1).drop_last() =~= d.take(k - from));
        }
        let digit = match hex_digit_value(b) {
            Some(v) => v,
            None => {
                return None;
            },
        };
        assert(all_hex_digits(d.take(k - from + 1))) by {
            assert forall|j: int| 0 <= j < k - from + 1 implies is_hex_digit(
                #[trigger] d.take(k - from + 1)[j],
            ) by {
                if j < k - from {
                    assert(d.take(k - from)[j] == d[j]);
                }
            }
        }
        if !over {
            value = value * 16 + digit as u64;
            if value > max as u64 {
                over = true;
            }
        }
        k += 1;
    }
    proof {
        assert(d.take(k - from) =~= d);
    }
    if over {
        None
    } else {
        Some(value as u32)
    }
}

/// The first index at or after `i` whose byte is neither `a` nor `b`.
pub open spec fn strip_front(s: Seq<u8>, i: int, a: u8, b: u8) -> int
    decreases s.len() - i,
{
    if 0 <= i < s.len() && (s[i] == a || s[i] == b) {
        strip_front(s, i + 1, a, b)
    } else {
        i
    }
}

/// The index behind the last byte before `j`, and not before `from`, that is
/// neither `a` nor `b`.
pub open spec fn strip_back(s: Seq<u8>, from: int, j: int, a: u8, b: u8) -> int
    decreases j,
{
    if 0 <= from < j <= s.len() && (s[j - 1] == a || s[j - 1] == b) {
        strip_back(s, from, j - 1, a, b)
    } else {
        j
    }
}

/// A text without the bytes `fa` and `fb` at its front and without the bytes
/// `ba` and `bb` at its back.
pub open spec fn stripped(s: Seq<u8>, fa: u8, fb: u8, ba: u8, bb: u8) -> Seq<u8> {
    let a = strip_front(s, 0, fa, fb);
    let b = strip_back(s, a, s.len() as int, ba, bb);
    s.subrange(a, b)
}

/// A text without every `<` at its front and every `>` at its back.
pub open spec fn angle_trimmed(s: Seq<u8>) -> Seq<u8> {
    stripped(s, 0x3C, 0x3C, 0x3E, 0x3E)
}

/// A text without every `<` and `>` at its front and at its back.
pub open spec fn bracket_trimmed(s: Seq<u8>) -> Seq<u8> {
    stripped(s, 0x3C, 0x3E, 0x3C, 0x3E)
}

#[verifier::loop_isolation(false)]
fn strip_bounds(text: &[u8], fa: u8, fb: u8, ba: u8, bb: u8) -> (r: (usize, usize))
    ensures
        r.0 <= r.1 <= text@.len(),
        text@.subrange(r.0 as int, r.1 as int) == stripped(text@, fa, fb, ba, bb),
{
    let mut a: usize = 0;
    while a < text.len() && (text[a] == fa || text[a] == fb)
        invariant
            a <= text.len(),
            strip_front(text@, a as int, fa, fb) == strip_front(text@, 0, fa, fb),
        decreases text.len() - a,
    {
        a += 1;
    }
    let mut b: usize = text.len();
    while b > a && (text[b - 1] == ba || text[b - 1] == bb)
        invariant
            a <= b <= text.len(),
            strip_back(text@, a as int, b as int, ba, bb) == strip_back(
                text@,
                a as int,
                text@.len() as int,
                ba,
                bb,
            ),
        decreases b,
    {
        b -= 1;
    }
    (a, b)
}

/// The code that a source text of a CMap denotes: hexadecimal between angle
/// brackets.
pub open spec fn spec_hex_u32(text: Seq<u8>) -> Option<u32> {
    match spec_radix16(angle_trimmed(text), u32::MAX as nat) {
        Some(v) => Some(v as u32),
        None => None,
    }
}

/// Reads the hexadecimal text of a source code.
pub fn parse_hex_u32(s: &[u8]) -> (r: Option<u32>)
    ensures
        r == spec_hex_u32(s@),
{
    let (a, b) = strip_bounds(s, 0x3C, 0x3C, 0x3E, 0x3E);
    parse_radix16(vstd::slice::slice_subrange(s, a, b), u32::MAX)
}

/// The UTF-16 code units that a text of groups of four hexadecimal digits
/// denotes, from the group `k` on. `None` when a group is no number.
pub open spec fn spec_units(text: Seq<u8>, k: int, acc: Seq<u16>) -> Option<Seq<u16>>
    decreases text.len() - 4 * k,
{
    if k < 0 || 4 * k + 4 > text.len() {
        Some(acc)
    } else {
        match spec_radix16(text.subrange(4 * k, 4 * k + 4), 0xFFFF) {
            Some(v) => spec_units(text, k + 1, acc.push(v as u16)),
            None => None,
        }
    }
}

/// Whether a code unit is a high surrogate, 0xD800 to 0xDBFF.
pub open spec fn is_high_surrogate(u: u16) -> bool {
    0xD800 <= u <= 0xDBFF
}

/// Whether a code unit is a low surrogate, 0xDC00 to 0xDFFF.
pub open spec fn is_low_surrogate(u: u16) -> bool {
    0xDC00 <= u <= 0xDFFF
}

/// The replacement character, U+FFFD.
pub open spec fn replacement() -> char {
    0xFFFDu32 as char
}

/// The code point of a surrogate pair.
pub open spec fn pair_code_point(high: u16, low: u16) -> u32 {
    (0x10000 + (high - 0xD800) * 0x400 + (low - 0xDC00)) as u32
}

/// The text of UTF-16 code units from `i` on, appended to `acc`. A high
/// surrogate and the low surrogate behind it are one character; a surrogate
/// without its partner is U+FFFD.
pub open spec fn utf16_text(units: Seq<u16>, i: int, acc: Seq<char>) -> Seq<char>
    decreases units.len() - i,
{
    if i < 0 || i >= units.len() {
        acc
    } else if is_high_surrogate(units[i]) {
        if i + 1 < units.len() && is_low_surrogate(units[i + 1]) {
            utf16_text(units, i + 2, acc.push(pair_code_point(units[i], units[i + 1]) as char))
        } else {
            utf16_text(units, i + 1, acc.push(replacement()))
        }
    } else if is_low_surrogate(units[i]) {
        utf16_text(units, i + 1, acc.push(replacement()))
    } else {
        utf16_text(units, i + 1, acc.push(units[i] as char))
    }
}

/// A surrogate pair is the one character of its code point; a high or a low
/// surrogate alone is U+FFFD.
pub proof fn lemma_surrogates(high: u16, low: u16, other: u16)
    requires
        is_high_surrogate(high),
        is_low_surrogate(low),
        !is_low_surrogate(other),
    ensures
        utf16_text(seq![high, low], 0, Seq::empty()) == seq![pair_code_point(high, low) as char],
        0x10000 <= pair_code_point(high, low) <= 0x10FFFF,
        utf16_text(seq![high], 0, Seq::empty()) == seq![replacement()],
        utf16_text(seq![low], 0, Seq::empty()) == seq![replacement()],
        utf16_text(seq![high, other], 0, Seq::empty())[0] == replacement(),
{
    reveal_with_fuel(utf16_text, 4);
    assert(utf16_text(seq![high, low], 0, Seq::empty()) =~= seq![
        pair_code_point(high, low) as char,
    ]);
    assert(utf16_text(seq![high], 0, Seq::empty()) =~= seq![replacement()]);
    assert(utf16_text(seq![low], 0, Seq::empty()) =~= seq![replacement()]);
    lemma_utf16_text_keeps(seq![high, other], 1, seq![replacement()]);
}

proof fn lemma_utf16_text_keeps(units: Seq<u16>, i: int, acc: Seq<char>)
    requires
        acc.len() > 0,
    ensures
        utf16_text(units, i, acc).len() >= acc.len(),
        utf16_text(units, i, acc)[0] == acc[0],
    decreases units.len() - i,
{
    if 0 <= i < units.len() {
        if is_high_surrogate(units[i]) {
            if i + 1 < units.len() && is_low_surrogate(units[i + 1]) {
                lemma_utf16_text_keeps(
                    units,
                    i + 2,
                    acc.push(pair_code_point(units[i], units[i + 1]) as char),
                );
            } else {
                lemma_utf16_text_keeps(units, i + 1, acc.push(replacement()));
            }
        } else if is_low_surrogate(units[i]) {
            lemma_utf16_text_keeps(units, i + 1, acc.push(replacement()));
        } else {
            lemma_utf16_text_keeps(units, i + 1, acc.push(units[i] as char));
        }
    }
}

/// The text that a destination of a CMap denotes: hexadecimal between angle
/// brackets, four digits a UTF-16 code unit. `None` when the digits are no
/// whole number of groups or a group is no number.
pub open spec fn spec_cmap_string(text: Seq<u8>) -> Option<Seq<char>> {
    let t = angle_trimmed(text);
    if t.len() % 4 != 0 {
        None
    } else {
        match spec_units(t, 0, Seq::empty()) {
            Some(units) => Some(utf16_text(units, 0, Seq::empty())),
            None => None,
        }
    }
}

#[verifier::loop_isolation(false)]
fn parse_units(text: &[u8]) -> (r: Option<Vec<u16>>)
    ensures
        match spec_units(text@, 0, Seq::empty()) {
            Some(units) => r is Some && r->0@ == units,
            None => r is None,
        },
{
    let mut units: Vec<u16> = Vec::new();
    let mut k: usize = 0;
    while text.len() - 4 * k >= 4
        invariant
            4 * k <= text.len(),
            spec_units(text@, k as int, units@) == spec_units(text@, 0, Seq::empty()),
        decreases text.len() - 4 * k,
    {
        let group = vstd::slice::slice_subrange(text, 4 * k, 4 * k + 4);
        match parse_radix16(group, 0xFFFF) {
            Some(v) => {
                units.push(v as u16);
            },
            None => {
                return None;
            },
        }
        k += 1;
    }
    Some(units)
}

fn replacement_char() -> (r: char)
    ensures
        r == replacement(),
{
    match char_from_u32(0xFFFD) {
        Some(c) => c,
        None => ' ',
    }
}

#[verifier::loop_isolation(false)]
fn units_to_string(units: &Vec<u16>) -> (r: String)
    ensures
        r@ == utf16_text(units@, 0, Seq::empty()),
{
    let mut out = String::new();
    let mut i: usize = 0;
    while i < units.len()
        invariant
            i <= units.len(),
            utf16_text(units@, i as int, out@) == utf16_text(units@, 0, Seq::empty()),
        decreases units.len() - i,
    {
        let code = units[i];
        if 0xD800 <= code && code <= 0xDBFF {
            if i + 1 < units.len() && 0xDC00 <= units[i + 1] && units[i + 1] <= 0xDFFF {
                let low = units[i + 1];
                let combined: u32 = 0x10000 + (code - 0xD800) as u32 * 0x400 + (low - 0xDC00) as u32;
                match char_from_u32(combined) {
                    Some(ch) => {
                        string_push(&mut out, ch);
                    },
                    None => {
                        assert(false);
                    },
                }
                i += 2;
            } else {
                string_push(&mut out, replacement_char());
                i += 1;
            }
        } else if 0xDC00 <= code && code <= 0xDFFF {
            string_push(&mut out, replacement_char());
            i += 1;
        } else {
            match char_from_u32(code as u32) {
                Some(ch) => {
                    string_push(&mut out, ch);
                },
                None => {
                    assert(false);
                },
            }
            i += 1;
        }
    }
    out
}

/// Reads the hexadecimal text of a destination.
pub fn parse_hex_string(hex: &[u8]) -> (r: Option<String>)
    ensures
        match spec_cmap_string(hex@) {
            Some(text) => r is Some && r->0@ == text,
            None => r is None,
        },
{
    let (a, b) = strip_bounds(hex, 0x3C, 0x3C, 0x3E, 0x3E);
    let t = vstd::slice::slice_subrange(hex, a, b);
    if t.len() % 4 != 0 {
        return None;
    }
    match parse_units(t) {
        Some(units) => Some(units_to_string(&units)),
        None => None,
    }
}

/// Where in a CMap a line stands.
#[derive(Clone, Copy, Debug, PartialEq, Eq, Structural)]
pub enum CMapBlock {
    Outside,
    BfChar,
    BfRange,
}

/// The position of the first line feed at or after `pos`, or the length of
/// the data.
pub open spec fn line_end(data: Seq<u8>, pos: int) -> int
    decreases data.len() - pos,
{
    if 0 <= pos < data.len() && data[pos] != 0x0A {
        line_end(data, pos + 1)
    } else {
        pos
    }
}

/// The end of a line lies between its start and the end of the data.
pub proof fn lemma_line_end(data: Seq<u8>, pos: int)
    requires
        0 <= pos <= data.len(),
    ensures
        pos <= line_end(data, pos) <= data.len(),
    decreases data.len() - pos,
{
    if pos < data.len() && data[pos] != 0x0A {
        lemma_line_end(data, pos + 1);
    }
}

/// The line that starts at `pos`, without its line feed and without a
/// carriage return in front of the line feed.
pub open spec fn line_at(data: Seq<u8>, pos: int) -> Seq<u8> {
    let e = line_end(data, pos);
    if e > pos && data[e - 1] == 0x0D {
        data.subrange(pos, e - 1)
    } else {
        data.subrange(pos, e)
    }
}

/// Whether a text ends with `suffix`.
pub open spec fn ends_with(s: Seq<u8>, suffix: Seq<u8>) -> bool {
    occurs_at(s, s.len() - suffix.len(), suffix)
}

fn text_ends_with(text: &[u8], suffix: &str) -> (r: bool)
    ensures
        r == ends_with(text@, suffix.spec_bytes()),
{
    let pattern = suffix.as_bytes();
    if pattern.len() > text.len() {
        return false;
    }
    starts_with_at(text, text.len() - pattern.len(), pattern)
}

/// The text of a word of a line.
pub open spec fn word(line: Seq<u8>, w: (usize, usize)) -> Seq<u8> {
    line.subrange(w.0 as int, w.1 as int)
}

/// The character of a code point, and `?` for a number that is none.
pub open spec fn char_or_question(v: nat) -> char {
    if v <= u32::MAX && vstd::utf8::is_scalar(v as u32) {
        (v as u32) as char
    } else {
        '?'
    }
}

/// A text with the code point of its last character raised by `offset`.
pub open spec fn shifted_text(dest: Seq<char>, offset: nat) -> Seq<char> {
    if dest.len() == 0 {
        dest
    } else {
        dest.drop_last().push(char_or_question((dest.last() as u32) as nat + offset))
    }
}

/// The table with the codes from `code` to `end` entered: the first with
/// the text `dest` shifted by `offset`, each following one with the last
/// character one further.
pub open spec fn range_insert(map: CodeMap, code: int, end: int, dest: Seq<char>, offset: nat) -> CodeMap
    decreases end - code + 1,
{
    if code < 0 || code > end || end > u32::MAX {
        map
    } else {
        range_insert(
            map.insert(code as u32, shifted_text(dest, offset)),
            code + 1,
            end,
            dest,
            offset + 1,
        )
    }
}

/// The table after a line of a `bfchar` block: a line that starts with `<`
/// and has two words or more maps the code of the first word to the text of
/// the second. Any other line changes nothing.
pub open spec fn bfchar_line(t: Seq<u8>, map: CodeMap) -> CodeMap {
    let ws = words_of(t);
    if t.len() > 0 && t[0] == 0x3C && ws.len() >= 2 {
        match (spec_hex_u32(word(t, ws[0])), spec_cmap_string(word(t, ws[1]))) {
            (Some(src), Some(dst)) => map.insert(src, dst),
            _ => map,
        }
    } else {
        map
    }
}

/// The table after a line of a `bfrange` block: a line that starts with `<`
/// and has three words or more maps the codes from the first word to the
/// second to the texts that start at the third. A destination that starts
/// with `[` is passed over.
pub open spec fn bfrange_line(t: Seq<u8>, map: CodeMap) -> CodeMap {
    let ws = words_of(t);
    if t.len() > 0 && t[0] == 0x3C && ws.len() >= 3 {
        match (
            spec_radix16(bracket_trimmed(word(t, ws[0])), u32::MAX as nat),
            spec_radix16(bracket_trimmed(word(t, ws[1])), u32::MAX as nat),
        ) {
            (Some(start), Some(end)) => if word(t, ws[2]).len() > 0 && word(t, ws[2])[0] == 0x5B {
                map
            } else {
                match spec_cmap_string(bracket_trimmed(word(t, ws[2]))) {
                    Some(dest) => range_insert(map, start as int, end as int, dest, 0),
                    None => map,
                }
            },
            _ => map,
        }
    } else {
        map
    }
}

/// The block and the table after a line.
pub open spec fn cmap_step(block: CMapBlock, line: Seq<u8>, map: CodeMap) -> (CMapBlock, CodeMap) {
    let t = trimmed(line);
    match block {
        CMapBlock::Outside => if ends_with(t, "beginbfchar".spec_bytes()) {
            (CMapBlock::BfChar, map)
        } else if ends_with(t, "beginbfrange".spec_bytes()) {
            (CMapBlock::BfRange, map)
        } else {
            (CMapBlock::Outside, map)
        },
        CMapBlock::BfChar => if ends_with(t, "endbfchar".spec_bytes()) {
            (CMapBlock::Outside, map)
        } else {
            (CMapBlock::BfChar, bfchar_line(t, map))
        },
        CMapBlock::BfRange => if ends_with(t, "endbfrange".spec_bytes()) {
            (CMapBlock::Outside, map)
        } else {
            (CMapBlock::BfRange, bfrange_line(t, map))
        },
    }
}

/// The table after the lines from `pos` on.
pub open spec fn cmap_lines(data: Seq<u8>, pos: int, block: CMapBlock, map: CodeMap) -> CodeMap
    decreases data.len() - pos,
{
    let e = line_end(data, pos);
    if pos < 0 || pos >= data.len() || e < pos || e > data.len() {
        map
    } else {
        let step = cmap_step(block, line_at(data, pos), map);
        if e + 1 > data.len() {
            step.1
        } else {
            cmap_lines(data, e + 1, step.0, step.1)
        }
    }
}

/// The table of a CMap: `None` for data that is no UTF-8 and for a CMap
/// without any mapping.
pub open spec fn spec_cmap(data: Seq<u8>) -> Option<CodeMap> {
    if !vstd::utf8::valid_utf8(data) {
        None
    } else {
        let m = cmap_lines(data, 0, CMapBlock::Outside, Map::empty());
        if m.dom() =~= Set::<u32>::empty() {
            None
        } else {
            Some(m)
        }
    }
}

fn apply_bfchar_line(t: &[u8], map: &mut BTreeMap<u32, String>)
    ensures
        cmap_model(*final(map)) == bfchar_line(t@, cmap_model(*old(map))),
{
    if !(t.len() > 0 && t[0] == 0x3C) {
        return ;
    }
    let words = split_words(t);
    if words.len() < 2 {
        return ;
    }
    let w0 = words[0];
    let w1 = words[1];
    let src = parse_hex_u32(vstd::slice::slice_subrange(t, w0.0, w0.1));
    let dst = parse_hex_string(vstd::slice::slice_subrange(t, w1.0, w1.1));
    match (src, dst) {
        (Some(code), Some(text)) => {
            cmap_insert(map, code, text);
        },
        _ => {},
    }
}

/// The characters of a string.
#[verifier::loop_isolation(false)]
fn string_chars(s: &String) -> (r: Vec<char>)
    ensures
        r@ == s@,
{
    let text = s.as_str();
    let n = text.unicode_len();
    let mut out: Vec<char> = Vec::new();
    let mut i: usize = 0;
    while i < n
        invariant
            i <= n,
            out@ == s@.take(i as int),
        decreases n - i,
    {
        out.push(text.get_char(i));
        assert(s@.take(i + 1) =~= s@.take(i as int).push(s@[i as int]));
        i += 1;
    }
    assert(s@.take(n as int) =~= s@);
    out
}

fn char_code(c: char) -> (r: u32)
    ensures
        r == c as u32,
{
    c as u32
}

#[verifier::loop_isolation(false)]
fn shifted_string(dest: &Vec<char>, offset: u64) -> (r: String)
    requires
        offset <= 0x1_0000_0000,
    ensures
        r@ == shifted_text(dest@, offset as nat),
{
    let mut out = String::new();
    if dest.len() == 0 {
        assert(out@ =~= shifted_text(dest@, offset as nat));
        return out;
    }
    let last_index = dest.len() - 1;
    let mut i: usize = 0;
    while i < last_index
        invariant
            i <= last_index,
            out@ == dest@.take(i as int),
        decreases last_index - i,
    {
        string_push(&mut out, dest[i]);
        assert(dest@.take(i + 1) =~= dest@.take(i as int).push(dest@[i as int]));
        i += 1;
    }
    assert(dest@.take(last_index as int) =~= dest@.drop_last());
    let raised: u64 = char_code(dest[last_index]) as u64 + offset;
    let mut last: char = '?';
    if raised <= u32::MAX as u64 {
        match char_from_u32(raised as u32) {
            Some(c) => {
                last = c;
            },
            None => {},
        }
    }
    string_push(&mut out, last);
    out
}

#[verifier::loop_isolation(false)]
fn insert_range(map: &mut BTreeMap<u32, String>, start: u32, end: u32, dest: &Vec<char>)
    ensures
        cmap_model(*final(map)) == range_insert(
            cmap_model(*old(map)),
            start as int,
            end as int,
            dest@,
            0,
        ),
{
    if start > end {
        return ;
    }
    let mut code: u64 = start as u64;
    let mut offset: u64 = 0;
    while code <= end as u64
        invariant
            start <= code <= end + 1,
            offset == code - start,
            range_insert(cmap_model(*map), code as int, end as int, dest@, offset as nat)
                == range_insert(cmap_model(*old(map)), start as int, end as int, dest@, 0),
        decreases end + 1 - code,
    {
        let text = shifted_string(dest, offset);
        cmap_insert(map, code as u32, text);
        code += 1;
        offset += 1;
    }
}

fn apply_bfrange_line(t: &[u8], map: &mut BTreeMap<u32, String>)
    ensures
        cmap_model(*final(map)) == bfrange_line(t@, cmap_model(*old(map))),
{
    if !(t.len() > 0 && t[0] == 0x3C) {
        return ;
    }
    let words = split_words(t);
    if words.len() < 3 {
        return ;
    }
    let w0 = vstd::slice::slice_subrange(t, words[0].0, words[0].1);
    let w1 = vstd::slice::slice_subrange(t, words[1].0, words[1].1);
    let w2 = vstd::slice::slice_subrange(t, words[2].0, words[2].1);
    let (a0, b0) = strip_bounds(w0, 0x3C, 0x3E, 0x3C, 0x3E);
    let (a1, b1) = strip_bounds(w1, 0x3C, 0x3E, 0x3C, 0x3E);
    let start = parse_radix16(vstd::slice::slice_subrange(w0, a0, b0), u32::MAX);
    let end = parse_radix16(vstd::slice::slice_subrange(w1, a1, b1), u32::MAX);
    match (start, end) {
        (Some(start_code), Some(end_code)) => {
            if w2.len() > 0 && w2[0] == 0x5B {
                return ;
            }
            let (a2, b2) = strip_bounds(w2, 0x3C, 0x3E, 0x3C, 0x3E);
            match parse_hex_string(vstd::slice::slice_subrange(w2, a2, b2)) {
                Some(dest) => {
                    let chars = string_chars(&dest);
                    insert_range(map, start_code, end_code, &chars);
                },
                None => {},
            }
        },
        _ => {},
    }
}

fn apply_line(block: CMapBlock, line: &[u8], map: &mut BTreeMap<u32, String>) -> (r: CMapBlock)
    ensures
        (r, cmap_model(*final(map))) == cmap_step(block, line@, cmap_model(*old(map))),
{
    let (a, b) = trim_bounds(line);
    let t = vstd::slice::slice_subrange(line, a, b);
    match block {
        CMapBlock::Outside => {
            if text_ends_with(t, "beginbfchar") {
                CMapBlock::BfChar
            } else if text_ends_with(t, "beginbfrange") {
                CMapBlock::BfRange
            } else {
                CMapBlock::Outside
            }
        },
        CMapBlock::BfChar => {
            if text_ends_with(t, "endbfchar") {
                CMapBlock::Outside
            } else {
                apply_bfchar_line(t, map);
                CMapBlock::BfChar
            }
        },
        CMapBlock::BfRange => {
            if text_ends_with(t, "endbfrange") {
                CMapBlock::Outside
            } else {
                apply_bfrange_line(t, map);
                CMapBlock::BfRange
            }
        },
    }
}

/// The end of the line that starts at `pos`.
#[verifier::loop_isolation(false)]
fn find_line_end(data: &[u8], pos: usize) -> (r: usize)
    requires
        pos <= data@.len(),
    ensures
        r == line_end(data@, pos as int),
        pos <= r <= data@.len(),
{
    proof {
        lemma_line_end(data@, pos as int);
    }
    let mut e = pos;
    while e < data.len() && data[e] != 0x0A
        invariant
            pos <= e <= data@.len(),
            line_end(data@, e as int) == line_end(data@, pos as int),
        decreases data@.len() - e,
    {
        e += 1;
    }
    e
}

fn map_is_empty(map: &BTreeMap<u32, String>) -> (r: bool)
    ensures
        r == (cmap_model(*map).dom() =~= Set::<u32>::empty()),
{
    broadcast use vstd::std_specs::btree::group_btree_axioms;

    let r = map.is_empty();
    assert(cmap_model(*map).dom() =~= map@.dom());
    r
}

/// Reads a ToUnicode CMap.
#[verifier::loop_isolation(false)]
pub fn parse_cmap(data: &[u8]) -> (r: Option<BTreeMap<u32, String>>)
    ensures
        cmap_option_model(r) == spec_cmap(data@),
{
    if str_from_utf8(data).is_none() {
        return None;
    }
    let mut map: BTreeMap<u32, String> = BTreeMap::new();
    assert(cmap_model(map) =~= Map::<u32, Seq<char>>::empty());
    let mut block = CMapBlock::Outside;
    let mut pos: usize = 0;
    while pos < data.len()
        invariant
            pos <= data@.len(),
            cmap_lines(data@, pos as int, block, cmap_model(map)) == cmap_lines(
                data@,
                0,
                CMapBlock::Outside,
                Map::empty(),
            ),
        decreases data@.len() - pos,
    {
        let e = find_line_end(data, pos);
        let line_stop = if e > pos && data[e - 1] == 0x0D {
            e - 1
        } else {
            e
        };
        let line = vstd::slice::slice_subrange(data, pos, line_stop);
        block = apply_line(block, line, &mut map);
        if e == data.len() {
            pos = e;
        } else {
            pos = e + 1;
        }
    }
    if map_is_empty(&map) {
        None
    } else {
        Some(map)
    }
}

} // verus!
