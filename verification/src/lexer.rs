//! Scanning the lexical elements that the object parser and the content
//! tokenizer share: white space, numbers, names, literal strings and
//! hexadecimal strings.
use crate::bytes::{
    byte_is_delimiter, byte_is_digit, byte_is_hex_digit, byte_is_whitespace, ends_regular_run,
    hex_bytes, hex_digit_value, hex_pair, hex_value, is_digit, is_hex_digit, is_whitespace,
};
use vstd::prelude::*;

verus! {

/// The first position at or after `pos` that holds no white space.
pub open spec fn spec_skip_whitespace(data: Seq<u8>, pos: int) -> int
    decreases data.len() - pos,
{
    if 0 <= pos < data.len() && is_whitespace(data[pos]) {
        spec_skip_whitespace(data, pos + 1)
    } else {
        pos
    }
}

/// Skipping white space ends inside the data, at a byte that is none.
pub proof fn lemma_skip_whitespace(data: Seq<u8>, pos: int)
    requires
        0 <= pos <= data.len(),
    ensures
        pos <= spec_skip_whitespace(data, pos) <= data.len(),
        spec_skip_whitespace(data, pos) < data.len() ==> !is_whitespace(
            data[spec_skip_whitespace(data, pos)],
        ),
    decreases data.len() - pos,
{
    if pos < data.len() && is_whitespace(data[pos]) {
        lemma_skip_whitespace(data, pos + 1);
    }
}

/// The first position at or after `pos` that holds no white space.
#[verifier::loop_isolation(false)]
pub fn skip_whitespace_from(data: &[u8], pos: usize) -> (r: usize)
    requires
        pos <= data@.len(),
    ensures
        r == spec_skip_whitespace(data@, pos as int),
        pos <= r <= data@.len(),
{
    proof {
        lemma_skip_whitespace(data@, pos as int);
    }
    let mut p = pos;
    while p < data.len() && byte_is_whitespace(data[p])
        invariant
            pos <= p <= data@.len(),
            spec_skip_whitespace(data@, p as int) == spec_skip_whitespace(data@, pos as int),
        decreases data@.len() - p,
    {
        p += 1;
    }
    p
}

/// The position behind a comment that starts at `pos`: behind the first end
/// of line, or the end of the data.
pub open spec fn spec_comment_end(data: Seq<u8>, pos: int) -> int
    decreases data.len() - pos,
{
    if 0 <= pos < data.len() {
        if data[pos] == 0x0A || data[pos] == 0x0D {
            pos + 1
        } else {
            spec_comment_end(data, pos + 1)
        }
    } else {
        pos
    }
}

/// A comment ends behind where it starts, and inside the data.
pub proof fn lemma_comment_end(data: Seq<u8>, pos: int)
    requires
        0 <= pos <= data.len(),
    ensures
        pos <= spec_comment_end(data, pos) <= data.len(),
        pos < data.len() ==> pos < spec_comment_end(data, pos),
    decreases data.len() - pos,
{
    if pos < data.len() && !(data[pos] == 0x0A || data[pos] == 0x0D) {
        lemma_comment_end(data, pos + 1);
    }
}

/// The position behind the comment that starts at `pos`.
#[verifier::loop_isolation(false)]
pub fn comment_end(data: &[u8], pos: usize) -> (r: usize)
    requires
        pos <= data@.len(),
    ensures
        r == spec_comment_end(data@, pos as int),
        pos <= r <= data@.len(),
        pos < data@.len() ==> pos < r,
{
    proof {
        lemma_comment_end(data@, pos as int);
    }
    let mut p = pos;
    while p < data.len()
        invariant
            pos <= p <= data@.len(),
            spec_comment_end(data@, p as int) == spec_comment_end(data@, pos as int),
        decreases data@.len() - p,
    {
        let ch = data[p];
        p += 1;
        if ch == 0x0A || ch == 0x0D {
            return p;
        }
    }
    p
}

/// The first position at or after `pos` that holds neither white space nor
/// a comment.
pub open spec fn spec_skip_blank(data: Seq<u8>, pos: int) -> int
    decreases data.len() - pos,
{
    let p = spec_skip_whitespace(data, pos);
    if 0 <= pos <= p < data.len() && data[p] == 0x25 && p < spec_comment_end(data, p)
        <= data.len() {
        spec_skip_blank(data, spec_comment_end(data, p))
    } else {
        p
    }
}

/// Skipping white space and comments ends inside the data, at a byte that is
/// neither, and skipping again changes nothing.
pub proof fn lemma_skip_blank(data: Seq<u8>, pos: int)
    requires
        0 <= pos <= data.len(),
    ensures
        pos <= spec_skip_blank(data, pos) <= data.len(),
        spec_skip_blank(data, pos) < data.len() ==> !is_whitespace(
            data[spec_skip_blank(data, pos)],
        ) && data[spec_skip_blank(data, pos)] != 0x25,
        spec_skip_blank(data, spec_skip_blank(data, pos)) == spec_skip_blank(data, pos),
    decreases data.len() - pos,
{
    lemma_skip_whitespace(data, pos);
    let p = spec_skip_whitespace(data, pos);
    if p < data.len() && data[p] == 0x25 {
        lemma_comment_end(data, p);
        lemma_skip_blank(data, spec_comment_end(data, p));
    } else {
        lemma_skip_whitespace_idempotent(data, p);
    }
}

/// At a byte that is no white space, skipping white space stays.
pub proof fn lemma_skip_whitespace_idempotent(data: Seq<u8>, p: int)
    requires
        0 <= p <= data.len(),
        p < data.len() ==> !is_whitespace(data[p]),
    ensures
        spec_skip_whitespace(data, p) == p,
{
}

/// The first position at or after `pos` that holds neither white space nor a
/// comment.
#[verifier::loop_isolation(false)]
pub fn skip_blank_from(data: &[u8], pos: usize) -> (r: usize)
    requires
        pos <= data@.len(),
    ensures
        r == spec_skip_blank(data@, pos as int),
        pos <= r <= data@.len(),
{
    proof {
        lemma_skip_blank(data@, pos as int);
    }
    let mut p = pos;
    loop
        invariant
            pos <= p <= data@.len(),
            spec_skip_blank(data@, p as int) == spec_skip_blank(data@, pos as int),
        decreases data@.len() - p,
    {
        let q = skip_whitespace_from(data, p);
        if q < data.len() && data[q] == 0x25 {
            p = comment_end(data, q);
        } else {
            return q;
        }
    }
}

/// The end of the run of bytes from `pos` on that are neither white space
/// nor delimiters.
pub open spec fn spec_regular_end(data: Seq<u8>, pos: int) -> int
    decreases data.len() - pos,
{
    if 0 <= pos < data.len() && !ends_regular_run(data[pos]) {
        spec_regular_end(data, pos + 1)
    } else {
        pos
    }
}

/// A run of regular bytes ends inside the data.
pub proof fn lemma_regular_end(data: Seq<u8>, pos: int)
    requires
        0 <= pos <= data.len(),
    ensures
        pos <= spec_regular_end(data, pos) <= data.len(),
    decreases data.len() - pos,
{
    if pos < data.len() && !ends_regular_run(data[pos]) {
        lemma_regular_end(data, pos + 1);
    }
}

/// The end of the run of regular bytes from `pos` on.
#[verifier::loop_isolation(false)]
pub fn regular_end(data: &[u8], pos: usize) -> (r: usize)
    requires
        pos <= data@.len(),
    ensures
        r == spec_regular_end(data@, pos as int),
        pos <= r <= data@.len(),
{
    proof {
        lemma_regular_end(data@, pos as int);
    }
    let mut p = pos;
    while p < data.len() && !(byte_is_whitespace(data[p]) || byte_is_delimiter(data[p]))
        invariant
            pos <= p <= data@.len(),
            spec_regular_end(data@, p as int) == spec_regular_end(data@, pos as int),
        decreases data@.len() - p,
    {
        p += 1;
    }
    p
}

/// The end of a run of digits with at most one decimal point among them.
pub open spec fn spec_digits_end(data: Seq<u8>, pos: int, has_dot: bool) -> int
    decreases data.len() - pos,
{
    if 0 <= pos < data.len() && is_digit(data[pos]) {
        spec_digits_end(data, pos + 1, has_dot)
    } else if 0 <= pos < data.len() && data[pos] == 0x2E && !has_dot {
        spec_digits_end(data, pos + 1, true)
    } else {
        pos
    }
}

/// The end of the number text at `pos`: an optional sign, then digits with
/// at most one decimal point.
pub open spec fn spec_number_end(data: Seq<u8>, pos: int) -> int {
    if 0 <= pos < data.len() && (data[pos] == 0x2D || data[pos] == 0x2B) {
        spec_digits_end(data, pos + 1, false)
    } else {
        spec_digits_end(data, pos, false)
    }
}

/// A run of digits ends inside the data.
pub proof fn lemma_digits_end(data: Seq<u8>, pos: int, has_dot: bool)
    requires
        0 <= pos <= data.len(),
    ensures
        pos <= spec_digits_end(data, pos, has_dot) <= data.len(),
    decreases data.len() - pos,
{
    if pos < data.len() && is_digit(data[pos]) {
        lemma_digits_end(data, pos + 1, has_dot);
    } else if pos < data.len() && data[pos] == 0x2E && !has_dot {
        lemma_digits_end(data, pos + 1, true);
    }
}

/// Whether a byte can start a number: a digit, a sign or a decimal point.
pub open spec fn starts_number(b: u8) -> bool {
    is_digit(b) || b == 0x2D || b == 0x2B || b == 0x2E
}

/// A number text ends inside the data, and behind its start where a byte
/// that can start a number stands there.
pub proof fn lemma_number_end(data: Seq<u8>, pos: int)
    requires
        0 <= pos <= data.len(),
    ensures
        pos <= spec_number_end(data, pos) <= data.len(),
        pos < data.len() && starts_number(data[pos]) ==> pos < spec_number_end(data, pos),
{
    if pos < data.len() && (data[pos] == 0x2D || data[pos] == 0x2B) {
        lemma_digits_end(data, pos + 1, false);
    } else {
        lemma_digits_end(data, pos, false);
        if pos < data.len() && is_digit(data[pos]) {
            lemma_digits_end(data, pos + 1, false);
        } else if pos < data.len() && data[pos] == 0x2E {
            lemma_digits_end(data, pos + 1, true);
        }
    }
}

/// The end of the number text at `pos`.
#[verifier::loop_isolation(false)]
pub fn number_end(data: &[u8], pos: usize) -> (r: usize)
    requires
        pos <= data@.len(),
    ensures
        r == spec_number_end(data@, pos as int),
        pos <= r <= data@.len(),
        pos < data@.len() && starts_number(data@[pos as int]) ==> pos < r,
{
    proof {
        lemma_number_end(data@, pos as int);
    }
    let mut p = pos;
    if p < data.len() && (data[p] == 0x2D || data[p] == 0x2B) {
        p += 1;
    }
    let mut has_dot = false;
    proof {
        lemma_digits_end(data@, p as int, false);
    }
    while p < data.len() && (byte_is_digit(data[p]) || (data[p] == 0x2E && !has_dot))
        invariant
            pos <= p <= data@.len(),
            spec_digits_end(data@, p as int, has_dot) == spec_number_end(data@, pos as int),
        decreases data@.len() - p,
    {
        if data[p] == 0x2E {
            has_dot = true;
        }
        p += 1;
    }
    p
}

/// What an escaped character stands for: `n`, `r`, `t`, `b` and `f` for the
/// control characters, every other character for itself.
pub open spec fn unescaped(ch: u8) -> u8 {
    if ch == 0x6E {
        0x0Au8
    } else if ch == 0x72 {
        0x0Du8
    } else if ch == 0x74 {
        0x09u8
    } else if ch == 0x62 {
        0x08u8
    } else if ch == 0x66 {
        0x0Cu8
    } else {
        ch
    }
}

/// Whether a byte is an octal digit.
pub open spec fn is_octal(b: u8) -> bool {
    0x30 <= b <= 0x37
}

/// The number of octal digits of an escape at `pos`: up to three.
pub open spec fn octal_len(data: Seq<u8>, pos: int) -> int {
    if pos + 1 < data.len() && is_octal(data[pos + 1]) {
        if pos + 2 < data.len() && is_octal(data[pos + 2]) {
            3
        } else {
            2
        }
    } else {
        1
    }
}

/// The value of the octal escape at `pos`, kept within a byte.
pub open spec fn octal_value(data: Seq<u8>, pos: int) -> u8 {
    let d0 = (data[pos] - 0x30) as int;
    let v = if octal_len(data, pos) == 1 {
        d0
    } else if octal_len(data, pos) == 2 {
        d0 * 8 + (data[pos + 1] - 0x30)
    } else {
        (d0 * 8 + (data[pos + 1] - 0x30)) * 8 + (data[pos + 2] - 0x30)
    };
    if v > 255 {
        255u8
    } else {
        v as u8
    }
}

/// The bytes of a literal string from `pos` on, and the position behind its
/// closing parenthesis. `depth` counts the parentheses that are open, and
/// `escape` says that a backslash came just before. `None` when the data
/// ends inside the string.
///
/// Parentheses that balance are part of the string. Behind a backslash,
/// one to three octal digits are a byte, and any other character is
/// unescaped.
pub open spec fn spec_literal(data: Seq<u8>, pos: int, depth: nat, escape: bool, acc: Seq<u8>) -> Option<
    (Seq<u8>, int),
>
    decreases data.len() - pos,
{
    if depth == 0 {
        Some((acc, pos))
    } else if pos < 0 || pos >= data.len() {
        None
    } else if escape {
        if is_octal(data[pos]) {
            spec_literal(
                data,
                pos + octal_len(data, pos),
                depth,
                false,
                acc.push(octal_value(data, pos)),
            )
        } else {
            spec_literal(data, pos + 1, depth, false, acc.push(unescaped(data[pos])))
        }
    } else if data[pos] == 0x5C {
        spec_literal(data, pos + 1, depth, true, acc)
    } else if data[pos] == 0x28 {
        spec_literal(data, pos + 1, depth + 1, false, acc.push(data[pos]))
    } else if data[pos] == 0x29 {
        if depth > 1 {
            spec_literal(data, pos + 1, (depth - 1) as nat, false, acc.push(data[pos]))
        } else {
            spec_literal(data, pos + 1, 0, false, acc)
        }
    } else {
        spec_literal(data, pos + 1, depth, false, acc.push(data[pos]))
    }
}

/// A literal string ends behind where the scan starts, and inside the data.
pub proof fn lemma_literal_end(data: Seq<u8>, pos: int, depth: nat, escape: bool, acc: Seq<u8>)
    requires
        0 <= pos <= data.len(),
        depth > 0,
    ensures
        spec_literal(data, pos, depth, escape, acc) matches Some((_, end)) ==> pos < end
            <= data.len(),
    decreases data.len() - pos,
{
    if pos < data.len() {
        if escape {
            if is_octal(data[pos]) {
                lemma_literal_end(
                    data,
                    pos + octal_len(data, pos),
                    depth,
                    false,
                    acc.push(octal_value(data, pos)),
                );
            } else {
                lemma_literal_end(data, pos + 1, depth, false, acc.push(unescaped(data[pos])));
            }
        } else if data[pos] == 0x5C {
            lemma_literal_end(data, pos + 1, depth, true, acc);
        } else if data[pos] == 0x28 {
            lemma_literal_end(data, pos + 1, depth + 1, false, acc.push(data[pos]));
        } else if data[pos] == 0x29 {
            if depth > 1 {
                lemma_literal_end(data, pos + 1, (depth - 1) as nat, false, acc.push(data[pos]));
            } else {
                assert(spec_literal(data, pos + 1, 0, false, acc) == Some((acc, pos + 1)));
            }
        } else {
            lemma_literal_end(data, pos + 1, depth, false, acc.push(data[pos]));
        }
    }
}

fn unescape(ch: u8) -> (r: u8)
    ensures
        r == unescaped(ch),
{
    if ch == 0x6E {
        0x0A
    } else if ch == 0x72 {
        0x0D
    } else if ch == 0x74 {
        0x09
    } else if ch == 0x62 {
        0x08
    } else if ch == 0x66 {
        0x0C
    } else {
        ch
    }
}

fn byte_is_octal(b: u8) -> (r: bool)
    ensures
        r == is_octal(b),
{
    0x30 <= b && b <= 0x37
}

/// Reads the octal escape at `pos`: its value and its length.
fn read_octal(data: &[u8], pos: usize) -> (r: (u8, usize))
    requires
        pos < data@.len(),
        is_octal(data@[pos as int]),
    ensures
        r.0 == octal_value(data@, pos as int),
        r.1 == octal_len(data@, pos as int),
        1 <= r.1 <= 3,
        pos + r.1 <= data@.len(),
{
    let mut value: u32 = (data[pos] - 0x30) as u32;
    let mut used: usize = 1;
    if data.len() - pos > 1 && byte_is_octal(data[pos + 1]) {
        value = value * 8 + (data[pos + 1] - 0x30) as u32;
        used = 2;
        if data.len() - pos > 2 && byte_is_octal(data[pos + 2]) {
            value = value * 8 + (data[pos + 2] - 0x30) as u32;
            used = 3;
        }
    }
    if value > 255 {
        (255, used)
    } else {
        (value as u8, used)
    }
}

/// Reads a literal string whose opening parenthesis stands just before
/// `pos`.
#[verifier::loop_isolation(false)]
pub fn scan_literal(data: &[u8], pos: usize) -> (r: Option<(Vec<u8>, usize)>)
    requires
        1 <= pos <= data@.len(),
    ensures
        match spec_literal(data@, pos as int, 1, false, Seq::empty()) {
            Some((bytes, end)) => r is Some && r->Some_0.0@ == bytes && r->Some_0.1 == end && pos < end
                <= data@.len(),
            None => r is None,
        },
{
    proof {
        lemma_literal_end(data@, pos as int, 1, false, Seq::empty());
    }
    let mut result: Vec<u8> = Vec::new();
    let mut depth: usize = 1;
    let mut escape = false;
    let mut p = pos;
    while depth > 0
        invariant
            pos <= p <= data@.len(),
            depth <= p - pos + 1,
            spec_literal(data@, p as int, depth as nat, escape, result@) == spec_literal(
                data@,
                pos as int,
                1,
                false,
                Seq::empty(),
            ),
        decreases data@.len() - p,
    {
        if p >= data.len() {
            return None;
        }
        let ch = data[p];
        if escape {
            if byte_is_octal(ch) {
                let (value, used) = read_octal(data, p);
                result.push(value);
                p += used;
            } else {
                result.push(unescape(ch));
                p += 1;
            }
            escape = false;
        } else if ch == 0x5C {
            escape = true;
            p += 1;
        } else if ch == 0x28 {
            depth += 1;
            result.push(ch);
            p += 1;
        } else if ch == 0x29 {
            depth -= 1;
            if depth > 0 {
                result.push(ch);
            }
            p += 1;
        } else {
            result.push(ch);
            p += 1;
        }
    }
    Some((result, p))
}

/// How the scan of a hexadecimal string ended.
#[derive(Clone, Copy, Debug, PartialEq, Eq, Structural)]
pub enum HexEnd {
    /// At the closing `>`.
    Closed,
    /// At the end of the data.
    Unclosed,
    /// At a character that is neither a digit nor white space.
    Invalid,
}

/// The hexadecimal digits from `pos` on, white space left out, with the way
/// the scan ended and the position where it stopped: behind the closing `>`,
/// at the end of the data, or at the character that is no digit.
pub open spec fn spec_hex_digits(data: Seq<u8>, pos: int, acc: Seq<u8>) -> (Seq<u8>, int, HexEnd)
    decreases data.len() - pos,
{
    if pos < 0 || pos >= data.len() {
        (acc, pos, HexEnd::Unclosed)
    } else if data[pos] == 0x3E {
        (acc, pos + 1, HexEnd::Closed)
    } else if is_hex_digit(data[pos]) {
        spec_hex_digits(data, pos + 1, acc.push(data[pos]))
    } else if is_whitespace(data[pos]) {
        spec_hex_digits(data, pos + 1, acc)
    } else {
        (acc, pos, HexEnd::Invalid)
    }
}

/// Whether every byte is a hexadecimal digit.
pub open spec fn all_hex_digits(digits: Seq<u8>) -> bool {
    forall|k: int| 0 <= k < digits.len() ==> is_hex_digit(#[trigger] digits[k])
}

/// The scan of a hexadecimal string collects hexadecimal digits only and stops
/// inside the data.
pub proof fn lemma_hex_digits(data: Seq<u8>, pos: int, acc: Seq<u8>)
    requires
        0 <= pos <= data.len(),
        all_hex_digits(acc),
    ensures
        all_hex_digits(spec_hex_digits(data, pos, acc).0),
        pos <= spec_hex_digits(data, pos, acc).1 <= data.len(),
        spec_hex_digits(data, pos, acc).2 == HexEnd::Closed ==> pos < spec_hex_digits(
            data,
            pos,
            acc,
        ).1,
    decreases data.len() - pos,
{
    if pos < data.len() && data[pos] != 0x3E {
        if is_hex_digit(data[pos]) {
            lemma_hex_digits(data, pos + 1, acc.push(data[pos]));
        } else if is_whitespace(data[pos]) {
            lemma_hex_digits(data, pos + 1, acc);
        }
    }
}

/// The bytes of a hexadecimal string: two digits a byte, a last digit
/// without a partner being the high half of a byte whose low half is zero.
pub open spec fn hex_string_bytes(digits: Seq<u8>) -> Seq<u8> {
    if digits.len() % 2 == 1 {
        hex_bytes(digits.push(0x30u8))
    } else {
        hex_bytes(digits)
    }
}

/// In a hexadecimal string of odd length the last digit is the high half of
/// the last byte, and the low half of that byte is zero.
pub proof fn lemma_odd_hex_string(digits: Seq<u8>)
    requires
        digits.len() % 2 == 1,
    ensures
        hex_string_bytes(digits).len() == (digits.len() + 1) / 2,
        hex_string_bytes(digits).last() == (hex_value(digits.last()) * 16) as u8,
        forall|k: int|
            0 <= k < digits.len() / 2 ==> hex_string_bytes(digits)[k] == hex_pair(
                digits[2 * k],
                digits[2 * k + 1],
            ),
{
}

fn pair_bytes(digits: &Vec<u8>) -> (r: Vec<u8>)
    requires
        all_hex_digits(digits@),
    ensures
        r@ == hex_string_bytes(digits@),
{
    let ghost padded = if digits@.len() % 2 == 1 {
        digits@.push(0x30u8)
    } else {
        digits@
    };
    let pairs = digits.len() / 2 + digits.len() % 2;
    let mut out: Vec<u8> = Vec::new();
    let mut j: usize = 0;
    while j < pairs
        invariant
            j <= pairs,
            pairs == digits@.len() / 2 + digits@.len() % 2,
            digits@.len() <= usize::MAX,
            out@.len() == j,
            all_hex_digits(digits@),
            padded == if digits@.len() % 2 == 1 {
                digits@.push(0x30u8)
            } else {
                digits@
            },
            forall|i: int| 0 <= i < j ==> out@[i] == hex_pair(padded[2 * i], padded[2 * i + 1]),
        decreases pairs - j,
    {
        assert(digits@.len() == 2 * (digits@.len() / 2) + digits@.len() % 2);
        assert(2 * j < digits@.len());
        let hi = digits[2 * j];
        let lo: u8 = if 2 * j + 1 < digits.len() {
            digits[2 * j + 1]
        } else {
            0x30
        };
        assert(is_hex_digit(hi));
        assert(is_hex_digit(lo));
        let h = match hex_digit_value(hi) {
            Some(v) => v,
            None => 0,
        };
        let l = match hex_digit_value(lo) {
            Some(v) => v,
            None => 0,
        };
        out.push(h * 16 + l);
        j += 1;
    }
    assert(out@ =~= hex_bytes(padded));
    out
}

/// Reads a hexadecimal string whose opening `<` stands just before `pos`:
/// its bytes, the position where the scan stopped, and how it ended.
#[verifier::loop_isolation(false)]
pub fn scan_hex_string(data: &[u8], pos: usize) -> (r: (Vec<u8>, usize, HexEnd))
    requires
        pos <= data@.len(),
    ensures
        r.0@ == hex_string_bytes(spec_hex_digits(data@, pos as int, Seq::empty()).0),
        r.1 == spec_hex_digits(data@, pos as int, Seq::empty()).1,
        r.2 == spec_hex_digits(data@, pos as int, Seq::empty()).2,
        pos <= r.1 <= data@.len(),
        r.2 == HexEnd::Closed ==> pos < r.1,
{
    proof {
        lemma_hex_digits(data@, pos as int, Seq::empty());
    }
    let mut digits: Vec<u8> = Vec::new();
    let mut p = pos;
    let mut ending = HexEnd::Unclosed;
    while p < data.len()
        invariant
            pos <= p <= data@.len(),
            all_hex_digits(digits@),
            ending == HexEnd::Unclosed,
            spec_hex_digits(data@, p as int, digits@) == spec_hex_digits(
                data@,
                pos as int,
                Seq::empty(),
            ),
        decreases data@.len() - p,
    {
        let ch = data[p];
        if ch == 0x3E {
            let bytes = pair_bytes(&digits);
            return (bytes, p + 1, HexEnd::Closed);
        } else if byte_is_hex_digit(ch) {
            digits.push(ch);
        } else if byte_is_whitespace(ch) {
        } else {
            let bytes = pair_bytes(&digits);
            return (bytes, p, HexEnd::Invalid);
        }
        p += 1;
    }
    let bytes = pair_bytes(&digits);
    (bytes, p, ending)
}

} // verus!
