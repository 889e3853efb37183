//! The filters of stream data: Flate, ASCIIHex and ASCII85, and the PNG
//! predictor that may follow them.
use crate::bytes::{
    byte_is_whitespace, hex_digit_value, hex_value, is_hex_digit, is_whitespace, str_is,
};
use crate::error::{decompression_error, PdfError};
use crate::object::{
    Dict, dict_get, lemma_model_of_array, lemma_model_of_dictionary, obj_models, PdfDict, PdfObj,
    Value,
};
use vstd::prelude::*;

verus! {

/// What `miniz_oxide::inflate::decompress_to_vec_zlib` makes of an input:
/// the decompressed bytes, or `None` where it fails.
pub uninterp spec fn zlib_inflated(data: Seq<u8>) -> Option<Seq<u8>>;

/// `miniz_oxide::inflate::decompress_to_vec_zlib`: the data that a zlib
/// stream holds. A failure is handed on as a message.
#[verifier::external_body]
fn zlib_inflate(data: &[u8]) -> (r: Result<Vec<u8>, String>)
    ensures
        match zlib_inflated(data@) {
            Some(bytes) => r is Ok && r->Ok_0@ == bytes,
            None => r is Err,
        },
{
    match miniz_oxide::inflate::decompress_to_vec_zlib(data) {
        Ok(bytes) => Ok(bytes),
        Err(e) => Err(format!("Failed to decompress FlateDecode data: {:?}", e)),
    }
}

/// The bytes that ASCIIHexDecode makes of `data` from `i` on. White space is
/// skipped, `>` ends the data, and a last digit without a partner is the
/// high half of a byte whose low half is zero. `pending` is the high digit
/// that waits for its partner.
pub open spec fn spec_ascii_hex(data: Seq<u8>, i: int, pending: Option<u8>, acc: Seq<u8>) -> Option<
    Seq<u8>,
>
    decreases data.len() - i,
{
    if i < 0 || i >= data.len() || data[i] == 0x3E {
        match pending {
            Some(h) => Some(acc.push((h * 16) as u8)),
            None => Some(acc),
        }
    } else if is_whitespace(data[i]) {
        spec_ascii_hex(data, i + 1, pending, acc)
    } else if !is_hex_digit(data[i]) {
        None
    } else {
        match pending {
            Some(h) => spec_ascii_hex(
                data,
                i + 1,
                None,
                acc.push((h * 16 + hex_value(data[i])) as u8),
            ),
            None => spec_ascii_hex(data, i + 1, Some(hex_value(data[i])), acc),
        }
    }
}

/// The bytes of an outcome, and `None` for an error.
pub open spec fn decoded(r: Result<Vec<u8>, PdfError>) -> Option<Seq<u8>> {
    match r {
        Ok(v) => Some(v@),
        Err(_) => None,
    }
}

/// Whether an outcome, if it is an error, is a filter failure.
pub open spec fn is_decompression_failure(r: Result<Vec<u8>, PdfError>) -> bool {
    r is Err ==> r->Err_0 is DecompressionError
}

/// Undoes ASCIIHexDecode.
#[verifier::loop_isolation(false)]
pub fn decode_ascii_hex(data: &[u8]) -> (r: Result<Vec<u8>, PdfError>)
    ensures
        decoded(r) == spec_ascii_hex(data@, 0, None, Seq::empty()),
        is_decompression_failure(r),
{
    let mut result: Vec<u8> = Vec::new();
    let mut pending: Option<u8> = None;
    let mut i: usize = 0;
    while i < data.len() && data[i] != 0x3E
        invariant
            i <= data.len(),
            pending matches Some(h) ==> h < 16,
            spec_ascii_hex(data@, i as int, pending, result@) == spec_ascii_hex(
                data@,
                0,
                None,
                Seq::empty(),
            ),
        decreases data.len() - i,
    {
        let b = data[i];
        if !byte_is_whitespace(b) {
            let v = match hex_digit_value(b) {
                Some(v) => v,
                None => {
                    return Err(decompression_error("Invalid hex digit"));
                },
            };
            match pending {
                Some(h) => {
                    result.push(h * 16 + v);
                    pending = None;
                },
                None => {
                    pending = Some(v);
                },
            }
        }
        i += 1;
    }
    match pending {
        Some(h) => {
            result.push(h * 16);
        },
        None => {},
    }
    Ok(result)
}

/// The number that five base-85 digits denote.
pub open spec fn group_value(t: Seq<u8>) -> nat {
    ((((t[0] as nat * 85 + t[1] as nat) * 85 + t[2] as nat) * 85 + t[3] as nat) * 85
        + t[4] as nat) as nat
}

/// The four bytes of a number below 2^32, most significant first.
pub open spec fn be32(v: nat) -> Seq<u8> {
    seq![
        ((v / 0x100_0000) % 256) as u8,
        ((v / 0x1_0000) % 256) as u8,
        ((v / 0x100) % 256) as u8,
        (v % 256) as u8,
    ]
}

/// Up to five digits continued to five with the highest digit, 84.
pub open spec fn padded_group(pending: Seq<u8>) -> Seq<u8> {
    Seq::new(
        5,
        |k: int|
            if k < pending.len() {
                pending[k]
            } else {
                84u8
            },
    )
}

/// The bytes of a group of five digits: its value as a 32-bit number.
pub open spec fn group_bytes(t: Seq<u8>) -> Seq<u8> {
    be32(group_value(t) % 0x1_0000_0000)
}

/// The output with the digits that were left over at the end: `k` digits
/// give the first `k - 1` bytes of the group that they start.
pub open spec fn ascii85_finish(pending: Seq<u8>, acc: Seq<u8>) -> Seq<u8> {
    if pending.len() == 0 {
        acc
    } else {
        acc + group_bytes(padded_group(pending)).take(pending.len() - 1)
    }
}

/// The bytes that ASCII85Decode makes of `data` from `i` on. White space is
/// skipped, `~` ends the data, `z` between groups stands for four zero
/// bytes, and the characters `!` to `u` are the digits 0 to 84.
pub open spec fn spec_ascii85(data: Seq<u8>, i: int, pending: Seq<u8>, acc: Seq<u8>) -> Option<
    Seq<u8>,
>
    decreases data.len() - i,
{
    if i < 0 || i >= data.len() || data[i] == 0x7E {
        Some(ascii85_finish(pending, acc))
    } else if is_whitespace(data[i]) {
        spec_ascii85(data, i + 1, pending, acc)
    } else if data[i] == 0x7A && pending.len() == 0 {
        spec_ascii85(data, i + 1, pending, acc + seq![0u8, 0u8, 0u8, 0u8])
    } else if data[i] < 0x21 || data[i] > 0x75 {
        None
    } else {
        let group = pending.push((data[i] - 0x21) as u8);
        if group.len() >= 5 {
            spec_ascii85(data, i + 1, Seq::empty(), acc + group_bytes(group))
        } else {
            spec_ascii85(data, i + 1, group, acc)
        }
    }
}

/// Appends the first `count` bytes of the group that the five digits of
/// `tuple` denote.
fn push_group(result: &mut Vec<u8>, tuple: &Vec<u8>, count: usize)
    requires
        tuple@.len() == 5,
        forall|k: int| 0 <= k < 5 ==> tuple@[k] <= 84,
        count <= 4,
    ensures
        final(result)@ == old(result)@ + group_bytes(tuple@).take(count as int),
{
    let whole: u64 = (((tuple[0] as u64 * 85 + tuple[1] as u64) * 85 + tuple[2] as u64) * 85
        + tuple[3] as u64) * 85 + tuple[4] as u64;
    let value: u64 = whole % 0x1_0000_0000;
    let ghost before = result@;
    let ghost bytes = group_bytes(tuple@);
    if count > 0 {
        result.push(((value / 0x100_0000) % 256) as u8);
    }
    if count > 1 {
        result.push(((value / 0x1_0000) % 256) as u8);
    }
    if count > 2 {
        result.push(((value / 0x100) % 256) as u8);
    }
    if count > 3 {
        result.push((value % 256) as u8);
    }
    assert(result@ =~= before + bytes.take(count as int));
}

/// Undoes ASCII85Decode.
#[verifier::loop_isolation(false)]
pub fn decode_ascii85(data: &[u8]) -> (r: Result<Vec<u8>, PdfError>)
    ensures
        decoded(r) == spec_ascii85(data@, 0, Seq::empty(), Seq::empty()),
        is_decompression_failure(r),
{
    let mut result: Vec<u8> = Vec::new();
    let mut tuple: Vec<u8> = Vec::new();
    let mut i: usize = 0;
    while i < data.len() && data[i] != 0x7E
        invariant
            i <= data.len(),
            tuple@.len() < 5,
            forall|k: int| 0 <= k < tuple@.len() ==> tuple@[k] <= 84,
            spec_ascii85(data@, i as int, tuple@, result@) == spec_ascii85(
                data@,
                0,
                Seq::empty(),
                Seq::empty(),
            ),
        decreases data.len() - i,
    {
        let byte = data[i];
        if byte_is_whitespace(byte) {
        } else if byte == 0x7A && tuple.len() == 0 {
            let ghost before = result@;
            result.push(0);
            result.push(0);
            result.push(0);
            result.push(0);
            assert(result@ =~= before + seq![0u8, 0u8, 0u8, 0u8]);
        } else if byte < 0x21 || byte > 0x75 {
            return Err(decompression_error("Invalid ASCII85 character"));
        } else {
            tuple.push(byte - 0x21);
            if tuple.len() == 5 {
                let ghost before = result@;
                push_group(&mut result, &tuple, 4);
                assert(group_bytes(tuple@).take(4) =~= group_bytes(tuple@));
                tuple = Vec::new();
            }
        }
        i += 1;
    }
    let count = tuple.len();
    if count > 0 {
        let ghost pending = tuple@;
        let mut k: usize = count;
        while k < 5
            invariant
                count <= k <= 5,
                tuple@.len() == k,
                forall|j: int| 0 <= j < count ==> tuple@[j] == pending[j],
                forall|j: int| count <= j < k ==> tuple@[j] == 84,
            decreases 5 - k,
        {
            tuple.push(84);
            k += 1;
        }
        assert(tuple@ =~= padded_group(pending));
        push_group(&mut result, &tuple, count - 1);
    }
    Ok(result)
}

/// The digits that a run of the characters `!` to `u` stands for.
pub open spec fn digit_values(text: Seq<u8>) -> Seq<u8> {
    Seq::new(text.len(), |k: int| (text[k] - 0x21) as u8)
}

proof fn lemma_ascii85_digits_only(text: Seq<u8>, i: int)
    requires
        0 <= i <= text.len() < 5,
        forall|k: int| 0 <= k < text.len() ==> 0x21 <= #[trigger] text[k] <= 0x75,
    ensures
        spec_ascii85(text, i, digit_values(text).take(i), Seq::empty()) == Some(
            ascii85_finish(digit_values(text), Seq::empty()),
        ),
    decreases text.len() - i,
{
    let values = digit_values(text);
    if i < text.len() {
        assert(!is_whitespace(text[i]) && text[i] != 0x7E && text[i] != 0x7A);
        assert(values.take(i).push((text[i] - 0x21) as u8) =~= values.take(i + 1));
        lemma_ascii85_digits_only(text, i + 1);
    } else {
        assert(values.take(i) =~= values);
    }
}

/// A partial final group of `k` digits gives `k - 1` bytes.
pub proof fn lemma_ascii85_partial_group(digits: Seq<u8>)
    requires
        1 <= digits.len() < 5,
        forall|k: int| 0 <= k < digits.len() ==> 0x21 <= #[trigger] digits[k] <= 0x75,
    ensures
        spec_ascii85(digits, 0, Seq::empty(), Seq::empty()) is Some,
        spec_ascii85(digits, 0, Seq::empty(), Seq::empty())->0.len() == digits.len() - 1,
{
    lemma_ascii85_digits_only(digits, 0);
    assert(digit_values(digits).take(0) =~= Seq::<u8>::empty());
}

/// The Paeth predictor: of left, above and upper left, the one nearest to
/// `left + above - upper left`, the earlier one where two are equally near.
pub open spec fn paeth(a: u8, b: u8, c: u8) -> u8 {
    let p = a + b - c;
    let pa = if p >= a {
        p - a
    } else {
        a - p
    };
    let pb = if p >= b {
        p - b
    } else {
        b - p
    };
    let pc = if p >= c {
        p - c
    } else {
        c - p
    };
    if pa <= pb && pa <= pc {
        a
    } else if pb <= pc {
        b
    } else {
        c
    }
}

/// The Paeth predictor of left, above and upper left.
pub fn paeth_predictor(a: u8, b: u8, c: u8) -> (r: u8)
    ensures
        r == paeth(a, b, c),
{
    let p: i16 = a as i16 + b as i16 - c as i16;
    let pa: i16 = if p >= a as i16 {
        p - a as i16
    } else {
        a as i16 - p
    };
    let pb: i16 = if p >= b as i16 {
        p - b as i16
    } else {
        b as i16 - p
    };
    let pc: i16 = if p >= c as i16 {
        p - c as i16
    } else {
        c as i16 - p
    };
    if pa <= pb && pa <= pc {
        a
    } else if pb <= pc {
        b
    } else {
        c
    }
}

/// What a row filter predicts for a byte from its neighbours: nothing for
/// None (0), the left byte for Sub (1), the byte above for Up (2), the
/// floor of their mean for Average (3), and Paeth (4).
pub open spec fn predicted(kind: u8, left: u8, up: u8, upleft: u8) -> u8 {
    if kind == 1 {
        left
    } else if kind == 2 {
        up
    } else if kind == 3 {
        ((left + up) / 2) as u8
    } else if kind == 4 {
        paeth(left, up, upleft)
    } else {
        0
    }
}

/// The sum of two bytes modulo 256.
pub open spec fn wrapping_sum(a: u8, b: u8) -> u8 {
    ((a + b) % 256) as u8
}

/// The row filter that the first byte of a row selects: 0 to 4 stand for
/// themselves, and 10, 11 and 12 for 0, 1 and 2.
pub open spec fn row_kind(predictor_byte: u8) -> Option<u8> {
    if predictor_byte <= 4 {
        Some(predictor_byte)
    } else if 10 <= predictor_byte <= 12 {
        Some((predictor_byte - 10) as u8)
    } else {
        None
    }
}

/// A row with its filter undone, given the decoded row above it. `acc` is
/// the part of the row that is decoded.
pub open spec fn decode_row(kind: u8, row: Seq<u8>, prev: Seq<u8>, acc: Seq<u8>) -> Seq<u8>
    decreases row.len() - acc.len(),
{
    if acc.len() >= row.len() {
        acc
    } else {
        let i = acc.len() as int;
        let left = if i > 0 {
            acc[i - 1]
        } else {
            0u8
        };
        let upleft = if i > 0 {
            prev[i - 1]
        } else {
            0u8
        };
        decode_row(
            kind,
            row,
            prev,
            acc.push(wrapping_sum(row[i], predicted(kind, left, prev[i], upleft))),
        )
    }
}

/// A decoded row is as long as the row.
pub proof fn lemma_decode_row_len(kind: u8, row: Seq<u8>, prev: Seq<u8>, acc: Seq<u8>)
    requires
        acc.len() <= row.len(),
    ensures
        decode_row(kind, row, prev, acc).len() == row.len(),
    decreases row.len() - acc.len(),
{
    if acc.len() < row.len() {
        let i = acc.len() as int;
        let left = if i > 0 {
            acc[i - 1]
        } else {
            0u8
        };
        let upleft = if i > 0 {
            prev[i - 1]
        } else {
            0u8
        };
        lemma_decode_row_len(
            kind,
            row,
            prev,
            acc.push(wrapping_sum(row[i], predicted(kind, left, prev[i], upleft))),
        );
    }
}

/// The rows of `data` from the byte `start` on with their filters undone,
/// appended to `acc`. Every row is a filter byte and `columns` bytes.
pub open spec fn decode_rows(data: Seq<u8>, columns: int, start: int, prev: Seq<u8>, acc: Seq<u8>) -> Option<
    Seq<u8>,
>
    decreases data.len() - start,
{
    if start < 0 || columns < 0 || start + columns + 1 > data.len() {
        Some(acc)
    } else {
        match row_kind(data[start]) {
            None => None,
            Some(kind) => {
                let row = decode_row(
                    kind,
                    data.subrange(start + 1, start + 1 + columns),
                    prev,
                    Seq::empty(),
                );
                decode_rows(data, columns, start + columns + 1, row, acc + row)
            },
        }
    }
}

/// The data with the PNG predictor undone: `None` when the data is no whole
/// number of rows or a row names an unknown filter.
pub open spec fn spec_png_predictor(data: Seq<u8>, columns: int) -> Option<Seq<u8>> {
    if columns < 0 || columns + 1 > usize::MAX || data.len() % ((columns + 1) as nat) != 0 {
        None
    } else {
        decode_rows(data, columns, 0, Seq::new(columns as nat, |k: int| 0u8), Seq::empty())
    }
}

#[verifier::loop_isolation(false)]
fn decode_png_row(kind: u8, row: &[u8], prev: &Vec<u8>) -> (r: Vec<u8>)
    requires
        row@.len() == prev@.len(),
    ensures
        r@ == decode_row(kind, row@, prev@, Seq::empty()),
        r@.len() == row@.len(),
{
    proof {
        lemma_decode_row_len(kind, row@, prev@, Seq::empty());
    }
    let mut out: Vec<u8> = Vec::new();
    let mut i: usize = 0;
    while i < row.len()
        invariant
            i <= row.len(),
            out@.len() == i,
            decode_row(kind, row@, prev@, out@) == decode_row(kind, row@, prev@, Seq::empty()),
        decreases row.len() - i,
    {
        let left: u8 = if i > 0 {
            out[i - 1]
        } else {
            0
        };
        let up: u8 = prev[i];
        let upleft: u8 = if i > 0 {
            prev[i - 1]
        } else {
            0
        };
        let guess: u8 = if kind == 1 {
            left
        } else if kind == 2 {
            up
        } else if kind == 3 {
            ((left as u16 + up as u16) / 2) as u8
        } else if kind == 4 {
            paeth_predictor(left, up, upleft)
        } else {
            0
        };
        out.push(((row[i] as u16 + guess as u16) % 256) as u8);
        i += 1;
    }
    out
}

fn zero_row(columns: usize) -> (r: Vec<u8>)
    ensures
        r@ == Seq::new(columns as nat, |k: int| 0u8),
{
    let mut out: Vec<u8> = Vec::new();
    let mut i: usize = 0;
    while i < columns
        invariant
            i <= columns,
            out@.len() == i,
            forall|k: int| 0 <= k < i ==> out@[k] == 0,
        decreases columns - i,
    {
        out.push(0);
        i += 1;
    }
    assert(out@ =~= Seq::new(columns as nat, |k: int| 0u8));
    out
}

/// Undoes the PNG predictor on rows of `columns` bytes.
#[verifier::loop_isolation(false)]
pub fn apply_png_predictor(data: &[u8], _predictor: i32, columns: usize) -> (r: Result<
    Vec<u8>,
    PdfError,
>)
    ensures
        decoded(r) == spec_png_predictor(data@, columns as int),
        is_decompression_failure(r),
{
    if columns == usize::MAX {
        return Err(decompression_error("Invalid data size for predictor"));
    }
    let row_size = columns + 1;
    if data.len() % row_size != 0 {
        return Err(decompression_error("Invalid data size for predictor"));
    }
    let mut result: Vec<u8> = Vec::new();
    let mut prev_row = zero_row(columns);
    let mut start: usize = 0;
    while data.len() - start >= row_size
        invariant
            start <= data.len(),
            prev_row@.len() == columns,
            decode_rows(data@, columns as int, start as int, prev_row@, result@) == decode_rows(
                data@,
                columns as int,
                0,
                Seq::new(columns as nat, |k: int| 0u8),
                Seq::empty(),
            ),
        decreases data.len() - start,
    {
        let predictor_byte = data[start];
        let kind: u8 = if predictor_byte <= 4 {
            predictor_byte
        } else if 10 <= predictor_byte && predictor_byte <= 12 {
            predictor_byte - 10
        } else {
            return Err(decompression_error("Unsupported predictor algorithm"));
        };
        let row = vstd::slice::slice_subrange(data, start + 1, start + 1 + columns);
        let decoded_row = decode_png_row(kind, row, &prev_row);
        let mut copy = vstd::slice::slice_to_vec(decoded_row.as_slice());
        result.append(&mut copy);
        prev_row = decoded_row;
        start = start + row_size;
    }
    Ok(result)
}

/// What the filter of the given name makes of `data`: `FlateDecode`
/// inflates data that is not empty, `ASCIIHexDecode` and `ASCII85Decode`
/// decode their texts, and every other name fails.
pub open spec fn spec_apply_filter(name: Seq<char>, data: Seq<u8>) -> Option<Seq<u8>> {
    if name == "FlateDecode"@ {
        if data.len() == 0 {
            None
        } else {
            zlib_inflated(data)
        }
    } else if name == "ASCIIHexDecode"@ {
        spec_ascii_hex(data, 0, None, Seq::empty())
    } else if name == "ASCII85Decode"@ {
        spec_ascii85(data, 0, Seq::empty(), Seq::empty())
    } else {
        None
    }
}

/// Undoes the filter of the given name.
pub fn apply_filter(filter_name: &String, data: &[u8]) -> (r: Result<Vec<u8>, PdfError>)
    ensures
        decoded(r) == spec_apply_filter(filter_name@, data@),
        is_decompression_failure(r),
{
    if str_is(filter_name, "FlateDecode") {
        if data.len() == 0 {
            return Err(decompression_error("FlateDecode data is empty"));
        }
        match zlib_inflate(data) {
            Ok(bytes) => Ok(bytes),
            Err(message) => Err(PdfError::DecompressionError(message)),
        }
    } else if str_is(filter_name, "ASCIIHexDecode") {
        decode_ascii_hex(data)
    } else if str_is(filter_name, "ASCII85Decode") {
        decode_ascii85(data)
    } else {
        Err(decompression_error("Unsupported filter"))
    }
}

/// What the decode parameters make of filtered data. A dictionary with a
/// `Predictor` of 10 to 15 asks for the PNG predictor on rows of `Columns`
/// bytes; a predictor of 1 or less, no predictor, and null leave the data as
/// it is; every other predictor and every other object fail.
pub open spec fn spec_decode_parms(data: Seq<u8>, parms: Value) -> Option<Seq<u8>> {
    match parms {
        Value::Dictionary(d) => match dict_get(d, "Predictor"@) {
            Some(Value::Number(p)) => if p.spec_to_i32() > 1 {
                if 10 <= p.spec_to_i32() <= 15 {
                    match dict_get(d, "Columns"@) {
                        Some(Value::Number(n)) => spec_png_predictor(
                            data,
                            n.spec_to_usize() as int,
                        ),
                        _ => None,
                    }
                } else {
                    None
                }
            } else {
                Some(data)
            },
            _ => Some(data),
        },
        Value::Null => Some(data),
        _ => None,
    }
}

/// Applies decode parameters to filtered data.
pub fn apply_decode_parms(data: &[u8], decode_parms: &PdfObj) -> (r: Result<Vec<u8>, PdfError>)
    ensures
        decoded(r) == spec_decode_parms(data@, decode_parms.model()),
        is_decompression_failure(r),
{
    match decode_parms {
        PdfObj::Dictionary(dict) => {
            proof {
                lemma_model_of_dictionary(*dict);
            }
            match dict.get("Predictor") {
                Some(PdfObj::Number(p)) => {
                    let predictor = p.to_i32();
                    if predictor > 1 {
                        if 10 <= predictor && predictor <= 15 {
                            match dict.get("Columns") {
                                Some(PdfObj::Number(n)) => apply_png_predictor(
                                    data,
                                    predictor,
                                    n.to_usize(),
                                ),
                                _ => Err(decompression_error("Missing Columns for predictor")),
                            }
                        } else {
                            Err(decompression_error("Unsupported predictor"))
                        }
                    } else {
                        Ok(vstd::slice::slice_to_vec(data))
                    }
                },
                _ => Ok(vstd::slice::slice_to_vec(data)),
            }
        },
        PdfObj::Null => Ok(vstd::slice::slice_to_vec(data)),
        _ => Err(decompression_error("Invalid DecodeParms type")),
    }
}

/// The decode parameters of the filter at `i`, applied where there are any.
pub open spec fn spec_parms_at(parms: Option<Seq<Value>>, i: int, data: Seq<u8>) -> Option<
    Seq<u8>,
> {
    match parms {
        Some(p) => if 0 <= i < p.len() {
            spec_decode_parms(data, p[i])
        } else {
            Some(data)
        },
        None => Some(data),
    }
}

/// What the filters from `i` on make of `data`, each followed by the decode
/// parameters of its position. Entries that are no names are passed over.
pub open spec fn spec_filter_chain(
    filters: Seq<Value>,
    parms: Option<Seq<Value>>,
    i: int,
    data: Seq<u8>,
) -> Option<Seq<u8>>
    decreases filters.len() - i,
{
    if i < 0 || i >= filters.len() {
        Some(data)
    } else {
        match filters[i] {
            Value::Name(name) => match spec_apply_filter(name, data) {
                None => None,
                Some(filtered) => match spec_parms_at(parms, i, filtered) {
                    None => None,
                    Some(d) => spec_filter_chain(filters, parms, i + 1, d),
                },
            },
            _ => spec_filter_chain(filters, parms, i + 1, data),
        }
    }
}

/// The decode parameters of a stream when they are an array.
pub open spec fn parms_array(dict: Dict) -> Option<Seq<Value>> {
    match dict_get(dict, "DecodeParms"@) {
        Some(Value::Array(a)) => Some(a),
        _ => None,
    }
}

/// The data of a stream with its filters undone. `Filter` is one name or an
/// array of names; a stream without it is left as it is.
pub open spec fn spec_stream_filters(dict: Dict, data: Seq<u8>) -> Option<Seq<u8>> {
    match dict_get(dict, "Filter"@) {
        Some(Value::Name(name)) => match spec_apply_filter(name, data) {
            None => None,
            Some(filtered) => match dict_get(dict, "DecodeParms"@) {
                Some(p) => spec_decode_parms(filtered, p),
                None => Some(filtered),
            },
        },
        Some(Value::Array(filters)) => spec_filter_chain(filters, parms_array(dict), 0, data),
        None => Some(data),
        _ => None,
    }
}

fn apply_parms_at(parms: Option<&Vec<PdfObj>>, i: usize, data: Vec<u8>) -> (r: Result<
    Vec<u8>,
    PdfError,
>)
    ensures
        decoded(r) == spec_parms_at(
            match parms {
                Some(p) => Some(obj_models(p@)),
                None => None,
            },
            i as int,
            data@,
        ),
        is_decompression_failure(r),
{
    match parms {
        Some(p) => if i < p.len() {
            apply_decode_parms(data.as_slice(), &p[i])
        } else {
            Ok(data)
        },
        None => Ok(data),
    }
}

#[verifier::loop_isolation(false)]
fn apply_filter_chain(filters: &Vec<PdfObj>, parms: Option<&Vec<PdfObj>>, data: &[u8]) -> (r: Result<
    Vec<u8>,
    PdfError,
>)
    ensures
        decoded(r) == spec_filter_chain(
            obj_models(filters@),
            match parms {
                Some(p) => Some(obj_models(p@)),
                None => None,
            },
            0,
            data@,
        ),
        is_decompression_failure(r),
{
    let ghost fs = obj_models(filters@);
    let ghost ps = match parms {
        Some(p) => Some(obj_models(p@)),
        None => None,
    };
    let mut result = vstd::slice::slice_to_vec(data);
    let mut i: usize = 0;
    while i < filters.len()
        invariant
            i <= filters.len(),
            spec_filter_chain(fs, ps, i as int, result@) == spec_filter_chain(fs, ps, 0, data@),
        decreases filters.len() - i,
    {
        match &filters[i] {
            PdfObj::Name(filter_name) => {
                let filtered = match apply_filter(filter_name, result.as_slice()) {
                    Ok(d) => d,
                    Err(e) => {
                        return Err(e);
                    },
                };
                result = match apply_parms_at(parms, i, filtered) {
                    Ok(d) => d,
                    Err(e) => {
                        return Err(e);
                    },
                };
            },
            _ => {},
        }
        i += 1;
    }
    Ok(result)
}

/// Undoes the filters of a stream.
pub fn handle_stream_filters(stream_dict: &PdfDict, data: &[u8]) -> (r: Result<Vec<u8>, PdfError>)
    ensures
        decoded(r) == spec_stream_filters(stream_dict.model(), data@),
        is_decompression_failure(r),
{
    match stream_dict.get("Filter") {
        Some(PdfObj::Name(filter)) => {
            let result = match apply_filter(filter, data) {
                Ok(d) => d,
                Err(e) => {
                    return Err(e);
                },
            };
            match stream_dict.get("DecodeParms") {
                Some(decode_parms) => apply_decode_parms(result.as_slice(), decode_parms),
                None => Ok(result),
            }
        },
        Some(PdfObj::Array(filters)) => {
            proof {
                lemma_model_of_array(*filters);
            }
            let decode_parms_array = match stream_dict.get("DecodeParms") {
                Some(PdfObj::Array(arr)) => {
                    proof {
                        lemma_model_of_array(*arr);
                    }
                    Some(arr)
                },
                _ => None,
            };
            apply_filter_chain(filters, decode_parms_array, data)
        },
        None => Ok(vstd::slice::slice_to_vec(data)),
        _ => Err(decompression_error("Invalid Filter type")),
    }
}

/// A stream whose inflated data is no whole number of predictor rows cannot
/// be decoded.
pub proof fn lemma_partial_rows_rejected(
    dict: Dict,
    parms: Dict,
    predictor: crate::number::PdfNumber,
    columns: crate::number::PdfNumber,
    data: Seq<u8>,
)
    requires
        dict_get(dict, "Filter"@) == Some(Value::Name("FlateDecode"@)),
        dict_get(dict, "DecodeParms"@) == Some(Value::Dictionary(parms)),
        dict_get(parms, "Predictor"@) == Some(Value::Number(predictor)),
        10 <= predictor.spec_to_i32() <= 15,
        dict_get(parms, "Columns"@) == Some(Value::Number(columns)),
        zlib_inflated(data) is Some,
        zlib_inflated(data)->0.len() % ((columns.spec_to_usize() + 1) as nat) != 0,
    ensures
        spec_stream_filters(dict, data) is None,
{
}

} // verus!
