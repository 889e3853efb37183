//! Byte-level predicates and searches shared by the parsers.
use vstd::prelude::*;

verus! {


/// White space of the PDF syntax: NUL, TAB, LF, FF, CR and SP.
pub open spec fn is_whitespace(b: u8) -> bool {
    b == 0x00 || b == 0x09 || b == 0x0A || b == 0x0C || b == 0x0D || b == 0x20
}

/// The delimiter characters `( ) < > [ ] { } / %`.
pub open spec fn is_delimiter(b: u8) -> bool {
    b == 0x28 || b == 0x29 || b == 0x3C || b == 0x3E || b == 0x5B || b == 0x5D || b == 0x7B || b
        == 0x7D || b == 0x2F || b == 0x25
}

/// A byte that ends a name or an operator: white space or a delimiter.
pub open spec fn ends_regular_run(b: u8) -> bool {
    is_whitespace(b) || is_delimiter(b)
}

/// Whether a byte is a decimal digit.
pub open spec fn is_digit(b: u8) -> bool {
    0x30 <= b <= 0x39
}

/// Whether a byte is a hexadecimal digit of either case.
pub open spec fn is_hex_digit(b: u8) -> bool {
    (0x30 <= b <= 0x39) || (0x41 <= b <= 0x46) || (0x61 <= b <= 0x66)
}

/// The value of a hexadecimal digit; 0 for any other byte.
pub open spec fn hex_value(b: u8) -> u8 {
    if 0x30 <= b <= 0x39 {
        (b - 0x30) as u8
    } else if 0x41 <= b <= 0x46 {
        (b - 0x41 + 10) as u8
    } else if 0x61 <= b <= 0x66 {
        (b - 0x61 + 10) as u8
    } else {
        0
    }
}

/// The byte that two hexadecimal digits denote.
pub open spec fn hex_pair(hi: u8, lo: u8) -> u8 {
    (hex_value(hi) * 16 + hex_value(lo)) as u8
}

/// Whether a byte is white space of the PDF syntax.
pub fn byte_is_whitespace(b: u8) -> (r: bool)
    ensures
        r == is_whitespace(b),
{
    b == 0x00 || b == 0x09 || b == 0x0A || b == 0x0C || b == 0x0D || b == 0x20
}

/// Whether a byte is a delimiter of the PDF syntax.
pub fn byte_is_delimiter(b: u8) -> (r: bool)
    ensures
        r == is_delimiter(b),
{
    b == 0x28 || b == 0x29 || b == 0x3C || b == 0x3E || b == 0x5B || b == 0x5D || b == 0x7B || b
        == 0x7D || b == 0x2F || b == 0x25
}

/// Whether a byte is a decimal digit.
pub fn byte_is_digit(b: u8) -> (r: bool)
    ensures
        r == is_digit(b),
{
    0x30 <= b && b <= 0x39
}

/// Whether a byte is a hexadecimal digit of either case.
pub fn byte_is_hex_digit(b: u8) -> (r: bool)
    ensures
        r == is_hex_digit(b),
{
    (0x30 <= b && b <= 0x39) || (0x41 <= b && b <= 0x46) || (0x61 <= b && b <= 0x66)
}

/// The value of one hexadecimal digit, `None` for any other byte.
pub fn hex_digit_value(ch: u8) -> (r: Option<u8>)
    ensures
        r is Some <==> is_hex_digit(ch),
        r is Some ==> r->0 == hex_value(ch) && r->0 < 16,
{
    if 0x30 <= ch && ch <= 0x39 {
        Some(ch - 0x30)
    } else if 0x41 <= ch && ch <= 0x46 {
        Some(ch - 0x41 + 10)
    } else if 0x61 <= ch && ch <= 0x66 {
        Some(ch - 0x61 + 10)
    } else {
        None
    }
}

/// Whether `pat` stands in `data` at position `pos`.
pub open spec fn occurs_at(data: Seq<u8>, pos: int, pat: Seq<u8>) -> bool {
    0 <= pos && pos + pat.len() <= data.len() && data.subrange(pos, pos + pat.len()) == pat
}

/// Whether `pat` stands in `data` at position `pos`.
pub fn starts_with_at(data: &[u8], pos: usize, pat: &[u8]) -> (r: bool)
    ensures
        r == occurs_at(data@, pos as int, pat@),
{
    if pos > data.len() || pat.len() > data.len() - pos {
        return false;
    }
    let mut k: usize = 0;
    while k < pat.len()
        invariant
            pos + pat.len() <= data.len(),
            k <= pat.len(),
            forall|j: int| 0 <= j < k ==> data@[pos + j] == pat@[j],
        decreases pat.len() - k,
    {
        if data[pos + k] != pat[k] {
            proof {
                let window = data@.subrange(pos as int, pos + pat.len());
                assert(window[k as int] == data@[pos + k]);
            }
            return false;
        }
        k += 1;
    }
    proof {
        assert(data@.subrange(pos as int, pos + pat.len()) =~= pat@);
    }
    true
}

/// The first position at or after `from` where `pat` stands in `data`.
pub open spec fn first_occurrence(data: Seq<u8>, from: int, pat: Seq<u8>, at: int) -> bool {
    &&& from <= at
    &&& occurs_at(data, at, pat)
    &&& forall|j: int| from <= j < at ==> !occurs_at(data, j, pat)
}

/// Whether `pat` stands nowhere in `data` at or after `from`.
pub open spec fn no_occurrence(data: Seq<u8>, from: int, pat: Seq<u8>) -> bool {
    forall|j: int| from <= j ==> !occurs_at(data, j, pat)
}

/// The first position at or after `from` where `pat` stands in `data`, if
/// there is one.
pub open spec fn spec_find(data: Seq<u8>, from: int, pat: Seq<u8>) -> Option<int>
    decreases data.len() - from,
{
    if from < 0 || from + pat.len() > data.len() {
        None
    } else if occurs_at(data, from, pat) {
        Some(from)
    } else if from >= data.len() {
        None
    } else {
        spec_find(data, from + 1, pat)
    }
}

/// `spec_find` gives the first occurrence, and `None` only where there is none.
pub proof fn lemma_spec_find(data: Seq<u8>, from: int, pat: Seq<u8>)
    requires
        0 <= from,
    ensures
        match spec_find(data, from, pat) {
            Some(at) => first_occurrence(data, from, pat, at),
            None => no_occurrence(data, from, pat),
        },
    decreases data.len() - from,
{
    if from + pat.len() <= data.len() && !occurs_at(data, from, pat) {
        if from >= data.len() {
            assert(data.subrange(from, from + pat.len()) =~= pat);
        } else {
            lemma_spec_find(data, from + 1, pat);
        }
    }
}

/// A position as a mathematical integer.
pub open spec fn index_of(r: Option<usize>) -> Option<int> {
    match r {
        Some(at) => Some(at as int),
        None => None,
    }
}

/// Searches `data` from `from` on for the first occurrence of `pat`.
#[verifier::loop_isolation(false)]
pub fn find_from(data: &[u8], from: usize, pat: &[u8]) -> (r: Option<usize>)
    ensures
        index_of(r) == spec_find(data@, from as int, pat@),
        r matches Some(at) ==> at + pat@.len() <= data@.len() <= usize::MAX,
        match r {
            Some(at) => first_occurrence(data@, from as int, pat@, at as int),
            None => no_occurrence(data@, from as int, pat@),
        },
{
    proof {
        lemma_spec_find(data@, from as int, pat@);
    }
    if from > data.len() || pat.len() > data.len() - from {
        return None;
    }
    let last = data.len() - pat.len();
    let mut i: usize = from;
    while i < last
        invariant
            from <= i <= last,
            last == data.len() - pat.len(),
            spec_find(data@, i as int, pat@) == spec_find(data@, from as int, pat@),
        decreases last - i,
    {
        if starts_with_at(data, i, pat) {
            return Some(i);
        }
        i += 1;
    }
    if starts_with_at(data, last, pat) {
        Some(last)
    } else {
        assert(spec_find(data@, last + 1, pat@) is None);
        None
    }
}

/// The first position at or after `from` that holds `needle`.
pub open spec fn spec_find_byte(data: Seq<u8>, needle: u8, from: int) -> Option<int>
    decreases data.len() - from,
{
    if from < 0 || from >= data.len() {
        None
    } else if data[from] == needle {
        Some(from)
    } else {
        spec_find_byte(data, needle, from + 1)
    }
}

/// `spec_find_byte` gives the first position of the byte, and `None` only where
/// the byte does not stand.
pub proof fn lemma_spec_find_byte(data: Seq<u8>, needle: u8, from: int)
    requires
        0 <= from,
    ensures
        match spec_find_byte(data, needle, from) {
            Some(at) => from <= at < data.len() && data[at] == needle && forall|j: int|
                from <= j < at ==> data[j] != needle,
            None => forall|j: int| from <= j < data.len() ==> data[j] != needle,
        },
    decreases data.len() - from,
{
    if from < data.len() && data[from] != needle {
        lemma_spec_find_byte(data, needle, from + 1);
    }
}

/// Searches `data` from `from` on for the first byte equal to `needle`.
#[verifier::loop_isolation(false)]
pub fn find_byte_from(data: &[u8], needle: u8, from: usize) -> (r: Option<usize>)
    ensures
        index_of(r) == spec_find_byte(data@, needle, from as int),
        r matches Some(at) ==> from <= at < data@.len() <= usize::MAX && data@[at as int]
            == needle,
{
    proof {
        lemma_spec_find_byte(data@, needle, from as int);
    }
    let mut i: usize = from;
    while i < data.len()
        invariant
            from <= i,
            spec_find_byte(data@, needle, i as int) == spec_find_byte(data@, needle, from as int),
        decreases data.len() - i,
    {
        if data[i] == needle {
            return Some(i);
        }
        i += 1;
    }
    None
}

/// The bytes `data[from..to]` as a vector.
pub fn copy_range(data: &[u8], from: usize, to: usize) -> (r: Vec<u8>)
    requires
        from <= to <= data.len(),
    ensures
        r@ == data@.subrange(from as int, to as int),
{
    vstd::slice::slice_to_vec(vstd::slice::slice_subrange(data, from, to))
}

/// `String::push`: appends one character to the end of the string.
#[verifier::external_body]
pub(crate) fn string_push(s: &mut String, c: char)
    ensures
        final(s)@ == old(s)@.push(c),
{
    s.push(c)
}

/// `core::str::from_utf8`: the bytes as a string slice when they are valid
/// UTF-8, `None` when they are not. The slice holds exactly those bytes.
#[verifier::external_body]
pub(crate) fn str_from_utf8(bytes: &[u8]) -> (r: Option<&str>)
    ensures
        r is Some <==> vstd::utf8::valid_utf8(bytes@),
        r is Some ==> r->0@ == vstd::utf8::decode_utf8(bytes@),
{
    core::str::from_utf8(bytes).ok()
}

/// Whether a string holds exactly the characters of `lit`.
pub fn str_is(s: &String, lit: &str) -> (r: bool)
    ensures
        r == (s@ == lit@),
{
    let t = String::from_str(lit);
    *s == t
}

/// Whether two runs of bytes are equal.
pub fn bytes_eq(a: &[u8], b: &[u8]) -> (r: bool)
    ensures
        r == (a@ == b@),
{
    if a.len() != b.len() {
        return false;
    }
    let mut k: usize = 0;
    while k < a.len()
        invariant
            k <= a.len(),
            a.len() == b.len(),
            forall|j: int| 0 <= j < k ==> a@[j] == b@[j],
        decreases a.len() - k,
    {
        if a[k] != b[k] {
            return false;
        }
        k += 1;
    }
    assert(a@ =~= b@);
    true
}

/// Whether every byte is a decimal digit.
pub open spec fn all_digits(s: Seq<u8>) -> bool {
    forall|k: int| 0 <= k < s.len() ==> 0x30 <= #[trigger] s[k] <= 0x39
}

/// The number that a run of decimal digits denotes.
pub open spec fn digits_value(s: Seq<u8>) -> nat
    decreases s.len(),
{
    if s.len() == 0 {
        0
    } else {
        digits_value(s.drop_last()) * 10 + (s.last() - 0x30) as nat
    }
}

/// The value of a prefix of a run of digits is no more than the value of the
/// run.
pub proof fn lemma_digits_prefix(s: Seq<u8>, k: int)
    requires
        all_digits(s),
        0 <= k <= s.len(),
    ensures
        digits_value(s.take(k)) <= digits_value(s),
    decreases s.len() - k,
{
    if k < s.len() {
        lemma_digits_prefix(s, k + 1);
        assert(s.take(k + 1).drop_last() =~= s.take(k));
    } else {
        assert(s.take(k) =~= s);
    }
}

/// Whether a text is an even number of hexadecimal digits.
pub open spec fn is_hex_text(text: Seq<u8>) -> bool {
    text.len() % 2 == 0 && forall|k: int| 0 <= k < text.len() ==> is_hex_digit(#[trigger] text[k])
}

/// The bytes that a text of hexadecimal digits denotes, two digits a byte.
pub open spec fn hex_bytes(text: Seq<u8>) -> Seq<u8> {
    Seq::new(text.len() / 2, |k: int| hex_pair(text[2 * k], text[2 * k + 1]))
}

/// `char::from_u32`: the character of a code point, and `None` for a
/// surrogate and for a number beyond 0x10FFFF.
#[verifier::external_body]
pub(crate) fn char_from_u32(v: u32) -> (r: Option<char>)
    ensures
        r is Some <==> vstd::utf8::is_scalar(v),
        r is Some ==> r->0 == v as char,
{
    char::from_u32(v)
}

/// TAB, LF, VT, FF, CR and SP: the white space of plain text.
pub open spec fn is_text_space(b: u8) -> bool {
    (0x09 <= b <= 0x0D) || b == 0x20
}

/// Whether a byte is white space of plain text.
pub fn byte_is_text_space(b: u8) -> (r: bool)
    ensures
        r == is_text_space(b),
{
    (0x09 <= b && b <= 0x0D) || b == 0x20
}

/// The index of the first byte at or after `i` that is no white space.
pub open spec fn skip_spaces(s: Seq<u8>, i: int) -> int
    decreases s.len() - i,
{
    if 0 <= i < s.len() && is_text_space(s[i]) {
        skip_spaces(s, i + 1)
    } else {
        i
    }
}

/// The index behind the last byte before `j`, and not before `from`, that is
/// no white space.
pub open spec fn skip_spaces_back(s: Seq<u8>, from: int, j: int) -> int
    decreases j,
{
    if 0 <= from < j <= s.len() && is_text_space(s[j - 1]) {
        skip_spaces_back(s, from, j - 1)
    } else {
        j
    }
}

/// A text without the white space at its two ends.
pub open spec fn trimmed(s: Seq<u8>) -> Seq<u8> {
    let a = skip_spaces(s, 0);
    let b = skip_spaces_back(s, a, s.len() as int);
    s.subrange(a, b)
}

/// The bounds of a text without the white space at its two ends.
#[verifier::loop_isolation(false)]
pub fn trim_bounds(text: &[u8]) -> (r: (usize, usize))
    ensures
        r.0 <= r.1 <= text@.len(),
        text@.subrange(r.0 as int, r.1 as int) == trimmed(text@),
{
    let mut a: usize = 0;
    while a < text.len() && byte_is_text_space(text[a])
        invariant
            a <= text.len(),
            skip_spaces(text@, a as int) == skip_spaces(text@, 0),
        decreases text.len() - a,
    {
        a += 1;
    }
    let mut b: usize = text.len();
    while b > a && byte_is_text_space(text[b - 1])
        invariant
            a <= b <= text.len(),
            skip_spaces_back(text@, a as int, b as int) == skip_spaces_back(
                text@,
                a as int,
                text@.len() as int,
            ),
        decreases b,
    {
        b -= 1;
    }
    (a, b)
}

/// The maximal runs of bytes of `s` that hold no white space, as index
/// ranges, from `i` on. `start` is where the run that `i` is in began.
pub open spec fn spec_words(s: Seq<u8>, i: int, start: Option<int>, acc: Seq<(usize, usize)>) -> Seq<
    (usize, usize),
>
    decreases s.len() - i,
{
    if i < 0 || i >= s.len() {
        match start {
            Some(b) => acc.push((b as usize, i as usize)),
            None => acc,
        }
    } else if is_text_space(s[i]) {
        match start {
            Some(b) => spec_words(s, i + 1, None, acc.push((b as usize, i as usize))),
            None => spec_words(s, i + 1, None, acc),
        }
    } else {
        match start {
            Some(b) => spec_words(s, i + 1, start, acc),
            None => spec_words(s, i + 1, Some(i), acc),
        }
    }
}

/// Whether every word lies within a text of the given length.
pub open spec fn words_in_bounds(words: Seq<(usize, usize)>, len: int) -> bool {
    forall|k: int| 0 <= k < words.len() ==> (#[trigger] words[k]).0 <= words[k].1 <= len
}

/// The words of a text.
pub open spec fn words_of(s: Seq<u8>) -> Seq<(usize, usize)> {
    spec_words(s, 0, None, Seq::empty())
}

/// The words of a text, as index ranges.
#[verifier::loop_isolation(false)]
pub fn split_words(s: &[u8]) -> (r: Vec<(usize, usize)>)
    ensures
        r@ == words_of(s@),
        words_in_bounds(r@, s@.len() as int),
{
    let mut words: Vec<(usize, usize)> = Vec::new();
    let mut start: Option<usize> = None;
    let mut i: usize = 0;
    while i < s.len()
        invariant
            i <= s.len(),
            start matches Some(b) ==> b <= i,
            words_in_bounds(words@, i as int),
            spec_words(s@, i as int, index_of(start), words@) == spec_words(
                s@,
                0,
                None,
                Seq::empty(),
            ),
        decreases s.len() - i,
    {
        if byte_is_text_space(s[i]) {
            match start {
                Some(b) => {
                    words.push((b, i));
                    start = None;
                },
                None => {},
            }
        } else {
            match start {
                Some(_) => {},
                None => {
                    start = Some(i);
                },
            }
        }
        i += 1;
    }
    match start {
        Some(b) => {
            words.push((b, i));
        },
        None => {},
    }
    words
}

} // verus!
