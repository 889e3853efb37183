//! Locating the signed byte ranges and the signature of a signed PDF.
//!
//! `/ByteRange [a b c d]` declares that the bytes `a..a+b` and `c..c+d` are
//! signed; the hexadecimal signature stands in the gap between them, behind
//! `/Contents`.
use crate::bytes::{
    all_digits, copy_range, digits_value, find_byte_from, find_from, hex_bytes, hex_pair, hex_value,
    index_of, is_hex_digit, is_hex_text, is_text_space, lemma_digits_prefix, skip_spaces,
    skip_spaces_back, spec_find, spec_find_byte, split_words, str_from_utf8, trim_bounds, trimmed,
    words_of,
};
use vstd::prelude::*;
use vstd::string::StringSliceAdditionalSpecFns;

verus! {

/// The four numbers of `/ByteRange`.
#[derive(Clone, Copy, Debug, PartialEq, Eq, Structural)]
pub struct ByteRange {
    pub offset1: usize,
    pub length1: usize,
    pub offset2: usize,
    pub length2: usize,
}

/// The digits of a number text: the text without a leading `+`.
pub open spec fn unsigned_digits(s: Seq<u8>) -> Seq<u8> {
    if s.len() > 0 && s[0] == 0x2B {
        s.subrange(1, s.len() as int)
    } else {
        s
    }
}

/// The number that a text denotes: an optional `+`, then one or more decimal
/// digits, with a value that fits a `usize`.
pub open spec fn spec_parse_usize(s: Seq<u8>) -> Option<usize> {
    let d = unsigned_digits(s);
    if d.len() == 0 || !all_digits(d) || digits_value(d) > usize::MAX {
        None
    } else {
        Some(digits_value(d) as usize)
    }
}

/// Reads an unsigned decimal number.
#[verifier::loop_isolation(false)]
pub fn parse_usize(s: &[u8]) -> (r: Result<usize, String>)
    ensures
        match spec_parse_usize(s@) {
            Some(v) => r == Ok::<usize, String>(v),
            None => r is Err,
        },
{
    let from: usize = if s.len() > 0 && s[0] == 0x2B {
        1
    } else {
        0
    };
    let ghost d = unsigned_digits(s@);
    assert(d == s@.subrange(from as int, s@.len() as int)) by {
        assert(s@.subrange(0, s@.len() as int) =~= s@);
    }
    if from == s.len() {
        return Err(String::from_str("Failed to parse number"));
    }
    let mut val: usize = 0;
    let mut k: usize = from;
    while k < s.len()
        invariant
            from <= k <= s.len(),
            d == s@.subrange(from as int, s@.len() as int),
            all_digits(d.take(k - from)),
            val == digits_value(d.take(k - from)),
        decreases s.len() - k,
    {
        let b = s[k];
        proof {
            assert(d[k - from] == b);
            assert(d.take(k - from + 1).drop_last() =~= d.take(k - from));
        }
        if b < 0x30 || b > 0x39 {
            return Err(String::from_str("Failed to parse number"));
        }
        assert(all_digits(d.take(k - from + 1))) by {
            assert forall|j: int| 0 <= j < k - from + 1 implies 0x30 <= #[trigger] d.take(
                k - from + 1,
            )[j] <= 0x39 by {
                if j < k - from {
                    assert(d.take(k - from)[j] == d[j]);
                }
            }
        }
        let next = match val.checked_mul(10) {
            Some(m) => m.checked_add((b - 0x30) as usize),
            None => None,
        };
        match next {
            Some(n) => {
                val = n;
            },
            None => {
                proof {
                    if all_digits(d) {
                        lemma_digits_prefix(d, k - from + 1);
                    }
                }
                return Err(String::from_str("Failed to parse number"));
            },
        }
        k += 1;
    }
    proof {
        assert(d.take(k - from) =~= d);
    }
    Ok(val)
}

/// The byte range that a PDF declares: the four numbers between the first
/// `[` and the next `]` behind the first `/ByteRange`.
pub open spec fn spec_byte_range(pdf: Seq<u8>) -> Option<ByteRange> {
    match spec_find(pdf, 0, "/ByteRange".spec_bytes()) {
        None => None,
        Some(pos) => match spec_find_byte(pdf, 0x5B, pos + "/ByteRange".spec_bytes().len()) {
            None => None,
            Some(open) => match spec_find_byte(pdf, 0x5D, open) {
                None => None,
                Some(close) => {
                    let inner = pdf.subrange(open + 1, close);
                    let words = words_of(inner);
                    if words.len() != 4 {
                        None
                    } else {
                        let n0 = spec_parse_usize(inner.subrange(words[0].0 as int, words[0].1 as int));
                        let n1 = spec_parse_usize(inner.subrange(words[1].0 as int, words[1].1 as int));
                        let n2 = spec_parse_usize(inner.subrange(words[2].0 as int, words[2].1 as int));
                        let n3 = spec_parse_usize(inner.subrange(words[3].0 as int, words[3].1 as int));
                        if n0 is Some && n1 is Some && n2 is Some && n3 is Some {
                            Some(
                                ByteRange {
                                    offset1: n0->0,
                                    length1: n1->0,
                                    offset2: n2->0,
                                    length2: n3->0,
                                },
                            )
                        } else {
                            None
                        }
                    }
                },
            },
        },
    }
}

fn parse_word(inner: &[u8], word: (usize, usize)) -> (r: Result<usize, String>)
    requires
        word.0 <= word.1 <= inner@.len(),
    ensures
        match spec_parse_usize(inner@.subrange(word.0 as int, word.1 as int)) {
            Some(v) => r == Ok::<usize, String>(v),
            None => r is Err,
        },
{
    parse_usize(vstd::slice::slice_subrange(inner, word.0, word.1))
}

/// Finds and reads `/ByteRange`.
pub fn extract_byte_range(pdf_bytes: &[u8]) -> (r: Result<ByteRange, String>)
    ensures
        match spec_byte_range(pdf_bytes@) {
            Some(range) => r == Ok::<ByteRange, String>(range),
            None => r is Err,
        },
{
    let pattern = "/ByteRange".as_bytes();
    let pos = match find_from(pdf_bytes, 0, pattern) {
        Some(p) => p,
        None => {
            return Err(String::from_str("ByteRange not found"));
        },
    };
    let start = pos + pattern.len();
    let open = match find_byte_from(pdf_bytes, 0x5B, start) {
        Some(p) => p,
        None => {
            return Err(String::from_str("ByteRange opening bracket not found"));
        },
    };
    let close = match find_byte_from(pdf_bytes, 0x5D, open) {
        Some(p) => p,
        None => {
            return Err(String::from_str("ByteRange closing bracket not found"));
        },
    };
    let inner = vstd::slice::slice_subrange(pdf_bytes, open + 1, close);
    let words = split_words(inner);
    if words.len() != 4 {
        return Err(String::from_str("ByteRange should have exactly 4 values"));
    }
    let n0 = parse_word(inner, words[0]);
    let n1 = parse_word(inner, words[1]);
    let n2 = parse_word(inner, words[2]);
    let n3 = parse_word(inner, words[3]);
    match (n0, n1, n2, n3) {
        (Ok(a), Ok(b), Ok(c), Ok(d)) => Ok(
            ByteRange { offset1: a, length1: b, offset2: c, length2: d },
        ),
        (Err(e), _, _, _) => Err(e),
        (_, Err(e), _, _) => Err(e),
        (_, _, Err(e), _) => Err(e),
        (_, _, _, Err(e)) => Err(e),
    }
}

/// The signed bytes: the two declared ranges, one after the other. `None`
/// when a range reaches beyond the end of the file.
pub open spec fn spec_signed_data(pdf: Seq<u8>, range: ByteRange) -> Option<Seq<u8>> {
    if range.offset1 + range.length1 > pdf.len() || range.offset2 + range.length2 > pdf.len() {
        None
    } else {
        Some(
            pdf.subrange(range.offset1 as int, range.offset1 + range.length1) + pdf.subrange(
                range.offset2 as int,
                range.offset2 + range.length2,
            ),
        )
    }
}

/// The signed bytes that a byte range declares.
pub fn extract_signed_data(pdf_bytes: &[u8], byte_range: &ByteRange) -> (r: Result<
    Vec<u8>,
    String,
>)
    ensures
        match spec_signed_data(pdf_bytes@, *byte_range) {
            Some(data) => r is Ok && r->Ok_0@ == data,
            None => r is Err,
        },
{
    let total = pdf_bytes.len();
    let end1 = match byte_range.offset1.checked_add(byte_range.length1) {
        Some(e) => e,
        None => {
            return Err(String::from_str("First ByteRange segment out of bounds"));
        },
    };
    if end1 > pdf_bytes.len() {
        return Err(String::from_str("First ByteRange segment out of bounds"));
    }
    let end2 = match byte_range.offset2.checked_add(byte_range.length2) {
        Some(e) => e,
        None => {
            return Err(String::from_str("Second ByteRange segment out of bounds"));
        },
    };
    if end2 > pdf_bytes.len() {
        return Err(String::from_str("Second ByteRange segment out of bounds"));
    }
    let mut signed_data = copy_range(pdf_bytes, byte_range.offset1, end1);
    let mut second = copy_range(pdf_bytes, byte_range.offset2, end2);
    signed_data.append(&mut second);
    Ok(signed_data)
}

/// How far before `/ByteRange` the search for `/Contents` starts.
pub const CONTENTS_SEARCH_WINDOW: usize = 500;

/// The text of the signature: the bytes between the first `<` and the next
/// `>` behind the first `/Contents` that stands no more than 500 bytes before
/// `/ByteRange`. `None` when the gap between the two ranges is empty or
/// outside the file, when a marker is missing, or when the text is not UTF-8.
pub open spec fn spec_signature_hex(pdf: Seq<u8>, range: ByteRange) -> Option<Seq<u8>> {
    if range.offset1 + range.length1 >= range.offset2 || range.offset2 > pdf.len() {
        None
    } else {
        match spec_find(pdf, 0, "/ByteRange".spec_bytes()) {
            None => None,
            Some(pos) => {
                let from = if pos > 500 {
                    pos - 500
                } else {
                    0
                };
                match spec_find(pdf, from, "/Contents".spec_bytes()) {
                    None => None,
                    Some(contents) => match spec_find_byte(
                        pdf,
                        0x3C,
                        contents + "/Contents".spec_bytes().len(),
                    ) {
                        None => None,
                        Some(open) => match spec_find_byte(pdf, 0x3E, open + 1) {
                            None => None,
                            Some(close) => if vstd::utf8::valid_utf8(pdf.subrange(open + 1, close)) {
                                Some(pdf.subrange(open + 1, close))
                            } else {
                                None
                            },
                        },
                    },
                }
            },
        }
    }
}

/// The hexadecimal text of the signature.
pub fn extract_signature_hex(pdf_bytes: &[u8], byte_range: &ByteRange) -> (r: Result<
    String,
    String,
>)
    ensures
        match spec_signature_hex(pdf_bytes@, *byte_range) {
            Some(text) => r is Ok && r->Ok_0@ == vstd::utf8::decode_utf8(text)
                && vstd::utf8::encode_utf8(r->Ok_0@) == text,
            None => r is Err,
        },
{
    let total = pdf_bytes.len();
    let sig_start = match byte_range.offset1.checked_add(byte_range.length1) {
        Some(e) => e,
        None => {
            return Err(String::from_str("Invalid signature position"));
        },
    };
    let sig_end = byte_range.offset2;
    if sig_start >= sig_end || sig_end > pdf_bytes.len() {
        return Err(String::from_str("Invalid signature position"));
    }
    let contents_pattern = "/Contents".as_bytes();
    let byte_range_pos = match find_from(pdf_bytes, 0, "/ByteRange".as_bytes()) {
        Some(p) => p,
        None => {
            return Err(String::from_str("ByteRange not found"));
        },
    };
    let search_start = if byte_range_pos > CONTENTS_SEARCH_WINDOW {
        byte_range_pos - CONTENTS_SEARCH_WINDOW
    } else {
        0
    };
    let contents_pos = match find_from(pdf_bytes, search_start, contents_pattern) {
        Some(p) => p,
        None => {
            return Err(String::from_str("/Contents not found near ByteRange"));
        },
    };
    let hex_start = match find_byte_from(pdf_bytes, 0x3C, contents_pos + contents_pattern.len()) {
        Some(p) => p + 1,
        None => {
            return Err(String::from_str("Signature hex start not found"));
        },
    };
    let hex_end = match find_byte_from(pdf_bytes, 0x3E, hex_start) {
        Some(p) => p,
        None => {
            return Err(String::from_str("Signature hex end not found"));
        },
    };
    let text = vstd::slice::slice_subrange(pdf_bytes, hex_start, hex_end);
    match str_from_utf8(text) {
        Some(s) => {
            proof {
                vstd::utf8::decode_utf8_encode_utf8(text@);
            }
            Ok(String::from_str(s))
        },
        None => Err(String::from_str("Invalid UTF-8 in signature hex")),
    }
}

/// `hex::decode`: the bytes that the text denotes when it is an even number
/// of hexadecimal digits of either case, and an error for an odd length or
/// any other character. The error is handed on as a message.
#[verifier::external_body]
fn hex_decode(text: &[u8]) -> (r: Result<Vec<u8>, String>)
    ensures
        r is Ok <==> is_hex_text(text@),
        r is Ok ==> r->Ok_0@ == hex_bytes(text@),
{
    match hex::decode(text) {
        Ok(bytes) => Ok(bytes),
        Err(e) => Err(format!("Failed to decode hex: {:?}", e)),
    }
}

/// The bytes that a signature text denotes: the text is trimmed, a text of
/// odd length gets a `0` in front, and every two digits give a byte.
pub open spec fn spec_hex_to_bytes(text: Seq<u8>) -> Option<Seq<u8>> {
    let t = trimmed(text);
    let padded = if t.len() % 2 == 1 {
        seq![0x30u8] + t
    } else {
        t
    };
    if is_hex_text(padded) {
        Some(hex_bytes(padded))
    } else {
        None
    }
}

fn hex_to_bytes_internal(text: &[u8]) -> (r: Result<Vec<u8>, String>)
    ensures
        match spec_hex_to_bytes(text@) {
            Some(bytes) => r is Ok && r->Ok_0@ == bytes,
            None => r is Err,
        },
{
    let (a, b) = trim_bounds(text);
    let mut padded: Vec<u8> = Vec::new();
    if (b - a) % 2 == 1 {
        padded.push(0x30u8);
    }
    let mut body = copy_range(text, a, b);
    padded.append(&mut body);
    proof {
        let t = trimmed(text@);
        if t.len() % 2 == 1 {
            assert(padded@ =~= seq![0x30u8] + t);
        } else {
            assert(padded@ =~= t);
        }
    }
    hex_decode(padded.as_slice())
}

/// Decodes the hexadecimal text of a signature.
pub fn hex_to_bytes(hex_str: &str) -> (r: Result<Vec<u8>, String>)
    ensures
        match spec_hex_to_bytes(hex_str.spec_bytes()) {
            Some(bytes) => r is Ok && r->Ok_0@ == bytes,
            None => r is Err,
        },
{
    hex_to_bytes_internal(hex_str.as_bytes())
}

/// The first position where `needle` stands in `haystack`.
pub fn find_pattern(haystack: &[u8], needle: &[u8]) -> (r: Option<usize>)
    ensures
        index_of(r) == spec_find(haystack@, 0, needle@),
        match r {
            Some(at) => crate::bytes::first_occurrence(haystack@, 0, needle@, at as int),
            None => crate::bytes::no_occurrence(haystack@, 0, needle@),
        },
{
    find_from(haystack, 0, needle)
}

/// The first position at or after `start` where the byte `needle` stands.
pub fn find_byte(haystack: &[u8], needle: u8, start: usize) -> (r: Option<usize>)
    ensures
        index_of(r) == spec_find_byte(haystack@, needle, start as int),
        r matches Some(at) ==> start <= at < haystack@.len() && haystack@[at as int] == needle,
{
    find_byte_from(haystack, needle, start)
}

/// The signature and the signed bytes of a PDF.
pub open spec fn spec_signature_der(pdf: Seq<u8>) -> Option<(Seq<u8>, Seq<u8>)> {
    match spec_byte_range(pdf) {
        None => None,
        Some(range) => match spec_signed_data(pdf, range) {
            None => None,
            Some(signed) => match spec_signature_hex(pdf, range) {
                None => None,
                Some(text) => match spec_hex_to_bytes(text) {
                    None => None,
                    Some(der) => Some((der, signed)),
                },
            },
        },
    }
}

/// Finds the signature of a PDF and the bytes that it signs.
pub fn get_signature_der(pdf_bytes: &[u8]) -> (r: Result<(Vec<u8>, Vec<u8>), String>)
    ensures
        match spec_signature_der(pdf_bytes@) {
            Some((der, signed)) => r is Ok && r->Ok_0.0@ == der && r->Ok_0.1@ == signed,
            None => r is Err,
        },
{
    let byte_range = match extract_byte_range(pdf_bytes) {
        Ok(b) => b,
        Err(e) => {
            return Err(e);
        },
    };
    let signed_data = match extract_signed_data(pdf_bytes, &byte_range) {
        Ok(d) => d,
        Err(e) => {
            return Err(e);
        },
    };
    let signature_hex = match extract_signature_hex(pdf_bytes, &byte_range) {
        Ok(h) => h,
        Err(e) => {
            return Err(e);
        },
    };
    let signature_der = match hex_to_bytes(signature_hex.as_str()) {
        Ok(d) => d,
        Err(e) => {
            return Err(e);
        },
    };
    Ok((signature_der, signed_data))
}

/// The lower-case hexadecimal digit of a number below 16.
pub open spec fn hex_digit_of(v: u8) -> u8 {
    if v < 10 {
        (0x30 + v) as u8
    } else {
        (0x61 + v - 10) as u8
    }
}

/// The hexadecimal text of some bytes: two lower-case digits a byte.
pub open spec fn hex_text(bytes: Seq<u8>) -> Seq<u8> {
    Seq::new(
        2 * bytes.len(),
        |k: int|
            if k % 2 == 0 {
                hex_digit_of(bytes[k / 2] / 16)
            } else {
                hex_digit_of(bytes[k / 2] % 16)
            },
    )
}

/// Decoding the hexadecimal text of some bytes gives the bytes back.
pub proof fn lemma_hex_round_trip(bytes: Seq<u8>)
    ensures
        spec_hex_to_bytes(hex_text(bytes)) == Some(bytes),
{
    let t = hex_text(bytes);
    assert forall|k: int| 0 <= k < t.len() implies is_hex_digit(#[trigger] t[k]) && !is_text_space(
        t[k],
    ) by {
        let b = bytes[k / 2];
        assert(b / 16 < 16 && b % 16 < 16);
    }
    assert(skip_spaces(t, 0) == 0);
    assert(skip_spaces_back(t, 0, t.len() as int) == t.len());
    assert(t.subrange(0, t.len() as int) =~= t);
    assert(trimmed(t) == t);
    assert(is_hex_text(t));
    assert forall|k: int| 0 <= k < bytes.len() implies hex_bytes(t)[k] == bytes[k] by {
        let b = bytes[k];
        assert(t[2 * k] == hex_digit_of(b / 16));
        assert(t[2 * k + 1] == hex_digit_of(b % 16));
        assert(hex_value(hex_digit_of(b / 16)) == b / 16);
        assert(hex_value(hex_digit_of(b % 16)) == b % 16);
        assert(hex_pair(t[2 * k], t[2 * k + 1]) == b);
    }
    assert(hex_bytes(t) =~= bytes);
}

} // verus!
