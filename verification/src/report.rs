//! The report of a run over one document: eight 32-bit words.
//!
//! A host hands a document over as 32-bit words, four bytes to a word with
//! the first byte in the high bits, and takes eight words back. After a
//! successful run the words are: signature valid, text found, the page on
//! which the text was found, the number of pages, the size of the document, a
//! check value of the text of the first page, the size of the expected text,
//! and 0. A failure is reported as 0xFFFFFFFF, a code, and words of detail.
use crate::bytes::{find_from, spec_find};
use crate::texts;
use vstd::prelude::*;
use vstd::utf8::encode_utf8;

verus! {

/// The largest document that is accepted, in bytes.
pub const MAX_INPUT_SIZE: usize = 10_000_000;

/// The smallest input that can be a document.
pub const MIN_INPUT_SIZE: usize = 10;

/// The first word of a failure report.
pub const FAILURE: u32 = 0xFFFF_FFFF;

/// The stated size of the document is 0 or beyond the limit.
pub const CODE_INVALID_SIZE: u32 = 1;

/// The text of the document could not be extracted.
pub const CODE_EXTRACTION_FAILED: u32 = 2;

/// The expected text is not valid UTF-8.
pub const CODE_EXPECTED_TEXT_NOT_UTF8: u32 = 3;

/// The document does not start with `%PDF`.
pub const CODE_BAD_HEADER: u32 = 5;

/// Whether a document of the stated size is read at all.
pub fn size_accepted(size: usize) -> (r: bool)
    ensures
        r == (0 < size <= MAX_INPUT_SIZE),
{
    0 < size && size <= MAX_INPUT_SIZE
}

/// The number of words that hold `size` packed bytes.
pub fn words_for(size: usize) -> (r: usize)
    ensures
        r == (size + 3) / 4,
{
    size / 4 + if size % 4 == 0 {
        0
    } else {
        1
    }
}

/// The byte at position `k` of the packed words: the first byte of a word
/// stands in its high bits.
pub open spec fn packed_byte(words: Seq<u32>, k: int) -> u8 {
    let w = words[k / 4];
    if k % 4 == 0 {
        ((w >> 24) & 0xFF) as u8
    } else if k % 4 == 1 {
        ((w >> 16) & 0xFF) as u8
    } else if k % 4 == 2 {
        ((w >> 8) & 0xFF) as u8
    } else {
        (w & 0xFF) as u8
    }
}

/// The number of bytes that `unpack_words` gives: `size`, or as many as the
/// words hold where they hold fewer.
pub open spec fn unpacked_len(words: Seq<u32>, size: int) -> int {
    if size < 4 * words.len() {
        size
    } else {
        4 * (words.len() as int)
    }
}

/// The first `size` bytes that the words hold.
pub open spec fn spec_unpacked(words: Seq<u32>, size: int) -> Seq<u8> {
    Seq::new(unpacked_len(words, size) as nat, |k: int| packed_byte(words, k))
}

/// The byte that stands at place `place` (0 to 3) of a word.
fn byte_of_word(w: u32, place: usize) -> (r: u8)
    requires
        place < 4,
    ensures
        r == packed_byte(seq![w], place as int),
{
    assert(forall|x: u32| (x & 0xFF) < 256) by (bit_vector);
    if place == 0 {
        ((w >> 24) & 0xFF) as u8
    } else if place == 1 {
        ((w >> 16) & 0xFF) as u8
    } else if place == 2 {
        ((w >> 8) & 0xFF) as u8
    } else {
        (w & 0xFF) as u8
    }
}

/// Unpacks the first `size` bytes of the words.
pub fn unpack_words(words: &[u32], size: usize) -> (r: Vec<u8>)
    ensures
        r@ == spec_unpacked(words@, size as int),
{
    let n: usize = if size / 4 < words.len() {
        size
    } else {
        4 * words.len()
    };
    let mut data: Vec<u8> = Vec::new();
    let mut k: usize = 0;
    while k < n
        invariant
            k <= n,
            n == unpacked_len(words@, size as int),
            n <= 4 * words@.len(),
            data@ == Seq::new(k as nat, |j: int| packed_byte(words@, j)),
        decreases n - k,
    {
        let b = byte_of_word(words[k / 4], k % 4);
        data.push(b);
        assert(data@ =~= Seq::new((k + 1) as nat, |j: int| packed_byte(words@, j)));
        k += 1;
    }
    data
}

/// `h` rotated left by `shift` bits, the shift taken modulo 32.
pub open spec fn rotated(h: u32, shift: u32) -> u32 {
    let s = shift % 32;
    if s == 0 {
        h
    } else {
        (h << s) | (h >> ((32 - s) as u32))
    }
}

/// Rotates `h` left by `shift` bits.
pub fn rotate(h: u32, shift: u32) -> (r: u32)
    ensures
        r == rotated(h, shift),
{
    let s = shift % 32;
    if s == 0 {
        h
    } else {
        (h << s) | (h >> (32 - s))
    }
}

/// The check value of the bytes from `i` on, up to the byte at `limit`, with
/// `acc` the value of the bytes before `i`: each byte rotates the value left
/// and is then mixed in with exclusive or.
pub open spec fn spec_rolling_check(bytes: Seq<u8>, i: int, limit: int, shift: u32, acc: u32) -> u32
    decreases bytes.len() - i,
{
    if i < 0 || i >= bytes.len() || i >= limit {
        acc
    } else {
        spec_rolling_check(bytes, i + 1, limit, shift, rotated(acc, shift) ^ (bytes[i] as u32))
    }
}

/// A check value of the first `limit` bytes of a text.
pub fn rolling_check(bytes: &[u8], limit: usize, shift: u32) -> (r: u32)
    ensures
        r == spec_rolling_check(bytes@, 0, limit as int, shift, 0),
{
    let mut hash: u32 = 0;
    let mut i: usize = 0;
    while i < bytes.len() && i < limit
        invariant
            i <= bytes@.len(),
            spec_rolling_check(bytes@, i as int, limit as int, shift, hash) == spec_rolling_check(
                bytes@,
                0,
                limit as int,
                shift,
                0,
            ),
        decreases bytes@.len() - i,
    {
        hash = rotate(hash, shift) ^ (bytes[i] as u32);
        i += 1;
    }
    hash
}

/// Whether the text `expected` stands somewhere in the text `page`.
pub open spec fn text_contains(page: Seq<char>, expected: Seq<char>) -> bool {
    spec_find(encode_utf8(page), 0, encode_utf8(expected)) is Some
}

/// The first page from `i` on whose text contains `expected`.
pub open spec fn spec_find_page(pages: Seq<Seq<char>>, i: int, expected: Seq<char>) -> Option<int>
    decreases pages.len() - i,
{
    if i < 0 || i >= pages.len() {
        None
    } else if text_contains(pages[i], expected) {
        Some(i)
    } else {
        spec_find_page(pages, i + 1, expected)
    }
}

/// The first page whose text contains `expected`, if any does.
pub fn find_page(pages: &Vec<String>, expected: &str) -> (r: Option<usize>)
    ensures
        match r {
            Some(at) => spec_find_page(texts(pages@), 0, expected@) == Some(at as int),
            None => spec_find_page(texts(pages@), 0, expected@) is None,
        },
        match r {
            Some(at) => at < pages@.len() && text_contains(pages@[at as int]@, expected@)
                && forall|j: int| 0 <= j < at ==> !text_contains(pages@[j]@, expected@),
            None => forall|j: int| 0 <= j < pages@.len() ==> !text_contains(pages@[j]@, expected@),
        },
{
    let mut i: usize = 0;
    while i < pages.len()
        invariant
            i <= pages@.len(),
            spec_find_page(texts(pages@), i as int, expected@) == spec_find_page(
                texts(pages@),
                0,
                expected@,
            ),
            forall|j: int| 0 <= j < i ==> !text_contains(pages@[j]@, expected@),
        decreases pages@.len() - i,
    {
        let found = find_from(pages[i].as_str().as_bytes(), 0, expected.as_bytes());
        if found.is_some() {
            return Some(i);
        }
        i += 1;
    }
    None
}

/// The words of a report on a document that was read: `found` is the page
/// on which the expected text stands, where a text was expected.
pub open spec fn spec_success_report(
    signature_valid: bool,
    pages: Seq<Seq<char>>,
    expected: Option<Seq<char>>,
    pdf_size: u32,
    expected_size: u32,
) -> Seq<u32> {
    let found = match expected {
        Some(text) => spec_find_page(pages, 0, text),
        None => Some(0int),
    };
    seq![
        if signature_valid {
            1u32
        } else {
            0u32
        },
        if found is Some {
            1u32
        } else {
            0u32
        },
        match found {
            Some(at) => at as u32,
            None => 0u32,
        },
        pages.len() as u32,
        pdf_size,
        if pages.len() > 0 {
            spec_rolling_check(encode_utf8(pages[0]), 0, 32, 7, 0)
        } else {
            0u32
        },
        expected_size,
        0u32,
    ]
}

/// The report on a document that was read.
pub fn success_report(
    signature_valid: bool,
    text_pages: &Vec<String>,
    expected_text: Option<&str>,
    pdf_size: u32,
    expected_size: u32,
) -> (r: [u32; 8])
    ensures
        r@ == spec_success_report(
            signature_valid,
            texts(text_pages@),
            match expected_text {
                Some(text) => Some(text@),
                None => None,
            },
            pdf_size,
            expected_size,
        ),
{
    let (text_found, page_found): (u32, u32) = match expected_text {
        Some(expected) => match find_page(text_pages, expected) {
            Some(at) => (1, at as u32),
            None => (0, 0),
        },
        None => (1, 0),
    };
    let first_page_check: u32 = if text_pages.len() > 0 {
        rolling_check(text_pages[0].as_str().as_bytes(), 32, 7)
    } else {
        0
    };
    let sig_valid: u32 = if signature_valid {
        1
    } else {
        0
    };
    let r = [
        sig_valid,
        text_found,
        page_found,
        text_pages.len() as u32,
        pdf_size,
        first_page_check,
        expected_size,
        0,
    ];
    assert(r@ =~= spec_success_report(
        signature_valid,
        texts(text_pages@),
        match expected_text {
            Some(text) => Some(text@),
            None => None,
        },
        pdf_size,
        expected_size,
    ));
    r
}

/// The report on a failure: the failure mark, the code, and the detail.
pub fn failure_report(code: u32, detail: [u32; 4]) -> (r: [u32; 8])
    ensures
        r@ == seq![FAILURE, code, detail@[0], detail@[1], detail@[2], detail@[3], 0u32, 0u32],
{
    let r = [FAILURE, code, detail[0], detail[1], detail[2], detail[3], 0, 0];
    assert(r@ =~= seq![FAILURE, code, detail@[0], detail@[1], detail@[2], detail@[3], 0u32, 0u32]);
    r
}

/// Whether the document starts with `%PDF`.
pub fn has_pdf_header(pdf: &[u8]) -> (r: bool)
    ensures
        r == (pdf@.len() >= 4 && pdf@[0] == 0x25 && pdf@[1] == 0x50 && pdf@[2] == 0x44 && pdf@[3]
            == 0x46),
{
    pdf.len() >= 4 && pdf[0] == 0x25 && pdf[1] == 0x50 && pdf[2] == 0x44 && pdf[3] == 0x46
}

} // verus!
