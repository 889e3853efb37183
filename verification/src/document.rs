//! From the bytes of a file to its object table and its pages.
//!
//! The objects are read in one pass from the start of the file. The
//! trailer, or where there is none a cross-reference stream, names the
//! catalog, from which the page tree is walked.
use crate::bytes::{byte_is_whitespace, copy_range, is_whitespace, occurs_at, starts_with_at};
use crate::error::{parse_error, PdfError};
use crate::lexer::{
    lemma_number_end, lemma_skip_blank, lemma_skip_whitespace, skip_blank_from, spec_number_end,
    spec_skip_blank, spec_skip_whitespace,
};
use crate::number::spec_number;
use crate::object::{
    clone_dict, Dict, dict_get, has_xref_stream, least_xref_key, lemma_model_of_dictionary,
    lemma_model_of_stream, obj_models, object_key, ObjectTable, PdfDict, PdfObj, PdfStream, Value,
};
use crate::page::{Page, page_models, PageContent};
use crate::pagetree::{Fault, fault_of, parse_page_tree, spec_page_tree};
use crate::parser::{Parser, spec_dictionary, spec_object};
use crate::stream::{handle_stream_filters, spec_stream_filters};
use vstd::prelude::*;
use vstd::string::StringSliceAdditionalSpecFns;

verus! {

/// The keywords of the file structure have the lengths that they look to
/// have.
pub proof fn lemma_structure_keywords()
    ensures
        "obj".spec_bytes().len() == 3,
        "endobj".spec_bytes().len() == 6,
        "stream".spec_bytes().len() == 6,
        "endstream".spec_bytes().len() == 9,
        "startxref".spec_bytes().len() == 9,
        "trailer".spec_bytes().len() == 7,
        "xref".spec_bytes().len() == 4,
        "%PDF".spec_bytes().len() == 4,
        "%%EOF".spec_bytes().len() == 5,
{
    reveal_strlit("obj");
    reveal_strlit("endobj");
    reveal_strlit("stream");
    reveal_strlit("endstream");
    reveal_strlit("startxref");
    reveal_strlit("trailer");
    reveal_strlit("xref");
    reveal_strlit("%PDF");
    reveal_strlit("%%EOF");
    vstd::string::is_ascii_spec_bytes("obj");
    vstd::string::is_ascii_spec_bytes("endobj");
    vstd::string::is_ascii_spec_bytes("stream");
    vstd::string::is_ascii_spec_bytes("endstream");
    vstd::string::is_ascii_spec_bytes("startxref");
    vstd::string::is_ascii_spec_bytes("trailer");
    vstd::string::is_ascii_spec_bytes("xref");
    vstd::string::is_ascii_spec_bytes("%PDF");
    vstd::string::is_ascii_spec_bytes("%%EOF");
}

/// The position behind one end of line at `pos`: carriage return and line
/// feed, or one of the two alone. Where no end of line stands, `pos`.
pub open spec fn line_break_end(data: Seq<u8>, pos: int) -> int {
    if 0 <= pos < data.len() && data[pos] == 0x0D {
        if pos + 1 < data.len() && data[pos + 1] == 0x0A {
            pos + 2
        } else {
            pos + 1
        }
    } else if 0 <= pos < data.len() && data[pos] == 0x0A {
        pos + 1
    } else {
        pos
    }
}

fn skip_line_break(data: &[u8], pos: usize) -> (r: usize)
    requires
        pos <= data@.len(),
    ensures
        r == line_break_end(data@, pos as int),
        pos <= r <= data@.len(),
{
    if pos < data.len() && data[pos] == 0x0D {
        if data.len() - pos > 1 && data[pos + 1] == 0x0A {
            pos + 2
        } else {
            pos + 1
        }
    } else if pos < data.len() && data[pos] == 0x0A {
        pos + 1
    } else {
        pos
    }
}

/// The first position at or after `pos` that holds an end of line
/// character, or the length of the data.
pub open spec fn line_break_position(data: Seq<u8>, pos: int) -> int
    decreases data.len() - pos,
{
    if 0 <= pos < data.len() && data[pos] != 0x0A && data[pos] != 0x0D {
        line_break_position(data, pos + 1)
    } else {
        pos
    }
}

proof fn lemma_line_break_position(data: Seq<u8>, pos: int)
    requires
        0 <= pos <= data.len(),
    ensures
        pos <= line_break_position(data, pos) <= data.len(),
    decreases data.len() - pos,
{
    if pos < data.len() && data[pos] != 0x0A && data[pos] != 0x0D {
        lemma_line_break_position(data, pos + 1);
    }
}

/// The position behind the header line `%PDF-…`, or 0 where the file has
/// none.
pub open spec fn header_end(data: Seq<u8>) -> int {
    if data.len() > 0 && occurs_at(data, 0, "%PDF".spec_bytes()) {
        line_break_end(data, line_break_position(data, 0))
    } else {
        0
    }
}

#[verifier::loop_isolation(false)]
fn skip_header(data: &[u8]) -> (r: usize)
    ensures
        r == header_end(data@),
        r <= data@.len(),
{
    if !(data.len() > 0 && starts_with_at(data, 0, "%PDF".as_bytes())) {
        return 0;
    }
    proof {
        lemma_line_break_position(data@, 0);
    }
    let mut p: usize = 0;
    while p < data.len() && data[p] != 0x0A && data[p] != 0x0D
        invariant
            p <= data@.len(),
            line_break_position(data@, p as int) == line_break_position(data@, 0),
        decreases data@.len() - p,
    {
        p += 1;
    }
    skip_line_break(data, p)
}

/// The position `p` moved back over the white space in front of it, and
/// not before `low`.
pub open spec fn back_over_whitespace(data: Seq<u8>, low: int, p: int) -> int
    decreases p,
{
    if 0 <= low < p <= data.len() && is_whitespace(data[p - 1]) {
        back_over_whitespace(data, low, p - 1)
    } else {
        p
    }
}

proof fn lemma_back_over_whitespace(data: Seq<u8>, low: int, p: int)
    requires
        0 <= low <= p <= data.len(),
    ensures
        low <= back_over_whitespace(data, low, p) <= p,
    decreases p,
{
    if low < p && is_whitespace(data[p - 1]) {
        lemma_back_over_whitespace(data, low, p - 1);
    }
}

#[verifier::loop_isolation(false)]
fn move_back_over_whitespace(data: &[u8], low: usize, p: usize) -> (r: usize)
    requires
        low <= p <= data@.len(),
    ensures
        r == back_over_whitespace(data@, low as int, p as int),
        low <= r <= p,
{
    proof {
        lemma_back_over_whitespace(data@, low as int, p as int);
    }
    let mut q = p;
    while q > low && byte_is_whitespace(data[q - 1])
        invariant
            low <= q <= p,
            back_over_whitespace(data@, low as int, q as int) == back_over_whitespace(
                data@,
                low as int,
                p as int,
            ),
        decreases q,
    {
        q -= 1;
    }
    q
}

/// Whether `term` stands at `i` as the end of a stream: white space or the
/// start of the data in front of it, and white space, `endobj` or the end of
/// the data behind it.
pub open spec fn ends_stream_at(data: Seq<u8>, i: int, term: Seq<u8>) -> bool {
    &&& occurs_at(data, i, term)
    &&& (i == 0 || is_whitespace(data[i - 1]))
    &&& (i + term.len() >= data.len() || occurs_at(data, i + term.len(), "endobj".spec_bytes())
        || is_whitespace(data[i + term.len()]))
}

/// The first position at or after `from` where `term` ends a stream.
pub open spec fn spec_find_endstream(data: Seq<u8>, from: int, term: Seq<u8>) -> Option<int>
    decreases data.len() - from,
{
    if from < 0 || from + term.len() > data.len() {
        None
    } else if ends_stream_at(data, from, term) {
        Some(from)
    } else if from >= data.len() {
        None
    } else {
        spec_find_endstream(data, from + 1, term)
    }
}

fn check_ends_stream_at(data: &[u8], i: usize, term: &[u8]) -> (r: bool)
    requires
        i + term@.len() <= data@.len(),
    ensures
        r == ends_stream_at(data@, i as int, term@),
{
    if !starts_with_at(data, i, term) {
        return false;
    }
    let prev_ok = i == 0 || byte_is_whitespace(data[i - 1]);
    let after = i + term.len();
    let next_ok = after >= data.len() || starts_with_at(data, after, "endobj".as_bytes())
        || byte_is_whitespace(data[after]);
    prev_ok && next_ok
}

#[verifier::loop_isolation(false)]
fn find_endstream(data: &[u8], from: usize, term: &[u8]) -> (r: Option<usize>)
    ensures
        match r {
            Some(at) => spec_find_endstream(data@, from as int, term@) == Some(at as int) && from
                <= at && at + term@.len() <= data@.len(),
            None => spec_find_endstream(data@, from as int, term@) is None,
        },
{
    if from > data.len() || term.len() > data.len() - from {
        return None;
    }
    let last = data.len() - term.len();
    let mut i: usize = from;
    while i < last
        invariant
            from <= i <= last,
            spec_find_endstream(data@, i as int, term@) == spec_find_endstream(
                data@,
                from as int,
                term@,
            ),
        decreases last - i,
    {
        if check_ends_stream_at(data, i, term) {
            return Some(i);
        }
        i += 1;
    }
    if check_ends_stream_at(data, last, term) {
        Some(last)
    } else {
        assert(spec_find_endstream(data@, last + 1, term@) is None);
        None
    }
}

/// The bytes of a stream that starts at `stream_start` and is ended by the
/// first fitting `term`, without the white space in front of `term`.
pub open spec fn spec_search_for_endstream(data: Seq<u8>, stream_start: int, term: Seq<u8>) -> Option<
    Seq<u8>,
> {
    match spec_find_endstream(data, stream_start, term) {
        Some(at) => Some(data.subrange(stream_start, back_over_whitespace(data, stream_start, at))),
        None => None,
    }
}

/// Looks for the end of a stream and hands its bytes out.
pub fn search_for_endstream(parser: &Parser, stream_start: usize, search_term: &[u8]) -> (r: Result<
    Vec<u8>,
    PdfError,
>)
    ensures
        match spec_search_for_endstream(parser.data@, stream_start as int, search_term@) {
            Some(bytes) => r is Ok && r->Ok_0@ == bytes,
            None => r is Err && r->Err_0 is ParseError,
        },
{
    match find_endstream(parser.data, stream_start, search_term) {
        Some(end_idx) => {
            let data_end = move_back_over_whitespace(parser.data, stream_start, end_idx);
            Ok(copy_range(parser.data, stream_start, data_end))
        },
        None => Err(parse_error("Missing 'endstream'")),
    }
}

/// The bytes of the stream that starts at `stream_start`, and the position
/// behind its `endstream`.
///
/// Where the dictionary states a `Length` and `endstream` stands behind that
/// many bytes, white space and comments apart, the stream is those bytes.
/// Else the stream reaches to the first fitting `endstream`, without the
/// white space in front of it.
pub open spec fn spec_stream_body(data: Seq<u8>, dict: Dict, stream_start: int) -> Option<
    (Seq<u8>, int),
> {
    let term = "endstream".spec_bytes();
    let by_length: Option<(Seq<u8>, int)> = match dict_get(dict, "Length"@) {
        Some(Value::Number(n)) => {
            let data_end = stream_start + n.spec_to_usize();
            let q = spec_skip_blank(data, back_over_whitespace(data, stream_start, data_end));
            if 0 <= stream_start && data_end <= data.len() && occurs_at(data, q, term) {
                Some((data.subrange(stream_start, data_end), q + term.len()))
            } else {
                None
            }
        },
        _ => None,
    };
    match by_length {
        Some(found) => Some(found),
        None => match spec_find_endstream(data, stream_start, term) {
            Some(at) => Some(
                (
                    data.subrange(stream_start, back_over_whitespace(data, stream_start, at)),
                    at + term.len(),
                ),
            ),
            None => None,
        },
    }
}

fn stream_by_length(data: &[u8], dict: &PdfDict, stream_start: usize) -> (r: Option<(Vec<u8>, usize)>)
    requires
        stream_start <= data@.len(),
    ensures
        match dict_get(dict.model(), "Length"@) {
            Some(Value::Number(n)) => {
                let data_end = stream_start + n.spec_to_usize();
                let q = spec_skip_blank(
                    data@,
                    back_over_whitespace(data@, stream_start as int, data_end),
                );
                if data_end <= data@.len() && occurs_at(data@, q, "endstream".spec_bytes()) {
                    r is Some && r->Some_0.0@ == data@.subrange(stream_start as int, data_end)
                        && r->Some_0.1 == q + "endstream".spec_bytes().len() && stream_start
                        < r->Some_0.1 <= data@.len()
                } else {
                    r is None
                }
            },
            _ => r is None,
        },
{
    let length = match dict.get("Length") {
        Some(PdfObj::Number(n)) => n.to_usize(),
        _ => {
            return None;
        },
    };
    let total = data.len();
    if length > total - stream_start {
        return None;
    }
    let data_end = stream_start + length;
    let tail_end = move_back_over_whitespace(data, stream_start, data_end);
    proof {
        lemma_skip_blank(data@, tail_end as int);
        lemma_structure_keywords();
    }
    let q = skip_blank_from(data, tail_end);
    let term = "endstream".as_bytes();
    if starts_with_at(data, q, term) {
        Some((copy_range(data, stream_start, data_end), q + term.len()))
    } else {
        None
    }
}

/// Reads the bytes of the stream that starts at `stream_start`.
pub fn read_stream_body(data: &[u8], dict: &PdfDict, stream_start: usize) -> (r: Option<
    (Vec<u8>, usize),
>)
    requires
        stream_start <= data@.len(),
    ensures
        match spec_stream_body(data@, dict.model(), stream_start as int) {
            Some((bytes, after)) => r is Some && r->Some_0.0@ == bytes && r->Some_0.1 == after
                && stream_start < after <= data@.len(),
            None => r is None,
        },
{
    proof {
        lemma_structure_keywords();
    }
    let total = data.len();
    match stream_by_length(data, dict, stream_start) {
        Some(found) => Some(found),
        None => {
            let term = "endstream".as_bytes();
            match find_endstream(data, stream_start, term) {
                Some(at) => {
                    let data_end = move_back_over_whitespace(data, stream_start, at);
                    Some((copy_range(data, stream_start, data_end), at + term.len()))
                },
                None => None,
            }
        },
    }
}

/// The value of the indirect object whose body starts at `pos`, and the
/// position behind its `endobj`. A dictionary that is followed by `stream`
/// is the dictionary of a stream, whose bytes start behind one end of line.
pub open spec fn spec_indirect_value(data: Seq<u8>, pos: int) -> Option<(Value, int)> {
    let endobj = "endobj".spec_bytes();
    if 0 <= pos && pos + 1 < data.len() && data[pos] == 0x3C && data[pos + 1] == 0x3C {
        match spec_dictionary(data, pos) {
            None => None,
            Some((dict, end)) => {
                let q = spec_skip_blank(data, end);
                if occurs_at(data, q, "stream".spec_bytes()) {
                    let start = line_break_end(data, q + "stream".spec_bytes().len());
                    match spec_stream_body(data, dict, start) {
                        None => None,
                        Some((body, after)) => {
                            let q2 = spec_skip_blank(data, after);
                            if occurs_at(data, q2, endobj) {
                                Some((Value::Stream(dict, body), q2 + endobj.len()))
                            } else {
                                None
                            }
                        },
                    }
                } else if occurs_at(data, q, endobj) {
                    Some((Value::Dictionary(dict), q + endobj.len()))
                } else {
                    None
                }
            },
        }
    } else {
        match spec_object(data, pos) {
            None => None,
            Some((v, end)) => {
                let q = spec_skip_blank(data, end);
                if occurs_at(data, q, endobj) {
                    Some((v, q + endobj.len()))
                } else {
                    None
                }
            },
        }
    }
}

/// Passes white space and comments and then the keyword `endobj`.
fn expect_endobj(parser: &mut Parser) -> (r: bool)
    requires
        old(parser).wf(),
    ensures
        final(parser).wf(),
        final(parser).data == old(parser).data,
        r == occurs_at(
            old(parser).data@,
            spec_skip_blank(old(parser).data@, old(parser).pos as int),
            "endobj".spec_bytes(),
        ),
        r ==> final(parser).pos == spec_skip_blank(old(parser).data@, old(parser).pos as int)
            + "endobj".spec_bytes().len(),
        r ==> old(parser).pos < final(parser).pos,
{
    proof {
        lemma_skip_blank(parser.data@, parser.pos as int);
        lemma_structure_keywords();
    }
    parser.skip_whitespace_and_comments();
    if parser.remaining_starts_with("endobj".as_bytes()) {
        parser.pos += 6;
        true
    } else {
        false
    }
}

fn parse_stream_rest(parser: &mut Parser, dict: PdfDict) -> (r: Result<PdfObj, PdfError>)
    requires
        old(parser).wf(),
        occurs_at(old(parser).data@, old(parser).pos as int, "stream".spec_bytes()),
    ensures
        final(parser).wf(),
        final(parser).data == old(parser).data,
        ({
            let data = old(parser).data@;
            let start = line_break_end(data, old(parser).pos + "stream".spec_bytes().len());
            match spec_stream_body(data, dict.model(), start) {
                None => r is Err && r->Err_0 is ParseError,
                Some((body, after)) => {
                    let q2 = spec_skip_blank(data, after);
                    if occurs_at(data, q2, "endobj".spec_bytes()) {
                        r is Ok && r->Ok_0.model() == Value::Stream(dict.model(), body) && final(parser).pos == q2 + "endobj".spec_bytes().len() && old(parser).pos < final(parser).pos
                    } else {
                        r is Err && r->Err_0 is ParseError
                    }
                },
            }
        }),
{
    proof {
        lemma_structure_keywords();
    }
    let stream_start = skip_line_break(parser.data, parser.pos + 6);
    let (body, after) = match read_stream_body(parser.data, &dict, stream_start) {
        Some(found) => found,
        None => {
            return Err(parse_error("Missing 'endstream'"));
        },
    };
    parser.pos = after;
    if !expect_endobj(parser) {
        return Err(parse_error("Missing 'endobj' after stream"));
    }
    let stream = PdfStream { dict, data: body };
    proof {
        lemma_model_of_stream(stream);
    }
    Ok(PdfObj::Stream(stream))
}

/// Reads the value of an indirect object, up to and with its `endobj`.
pub fn parse_indirect_value(parser: &mut Parser) -> (r: Result<PdfObj, PdfError>)
    requires
        old(parser).wf(),
    ensures
        final(parser).wf(),
        final(parser).data == old(parser).data,
        match spec_indirect_value(old(parser).data@, old(parser).pos as int) {
            Some((v, end)) => r is Ok && r->Ok_0.model() == v && final(parser).pos == end && old(parser).pos < end,
            None => r is Err && r->Err_0 is ParseError,
        },
{
    proof {
        lemma_structure_keywords();
    }
    if parser.data.len() - parser.pos >= 2 && parser.data[parser.pos] == 0x3C
        && parser.data[parser.pos + 1] == 0x3C {
        let dict = match parser.parse_dictionary() {
            Ok(d) => d,
            Err(message) => {
                return Err(PdfError::ParseError(message));
            },
        };
        proof {
            lemma_skip_blank(parser.data@, parser.pos as int);
        }
        parser.skip_whitespace_and_comments();
        if parser.remaining_starts_with("stream".as_bytes()) {
            parse_stream_rest(parser, dict)
        } else if parser.remaining_starts_with("endobj".as_bytes()) {
            parser.pos += 6;
            proof {
                lemma_model_of_dictionary(dict);
            }
            Ok(PdfObj::Dictionary(dict))
        } else {
            Err(parse_error("Missing 'endobj' for dictionary object"))
        }
    } else {
        let value = match parser.parse_value() {
            Ok(v) => v,
            Err(message) => {
                return Err(PdfError::ParseError(message));
            },
        };
        if expect_endobj(parser) {
            Ok(value)
        } else {
            Err(parse_error("Missing 'endobj' for object"))
        }
    }
}

/// The number at `pos`, behind white space and comments, and the position
/// behind it.
pub open spec fn spec_blank_number(data: Seq<u8>, pos: int) -> Option<(crate::number::PdfNumber, int)> {
    let p = spec_skip_blank(data, pos);
    let e = spec_number_end(data, p);
    if 0 <= pos <= p <= e <= data.len() {
        match spec_number(data.subrange(p, e)) {
            Some(n) => Some((n, e)),
            None => None,
        }
    } else {
        None
    }
}

fn parse_blank_number(parser: &mut Parser) -> (r: Option<crate::number::PdfNumber>)
    requires
        old(parser).wf(),
    ensures
        final(parser).wf(),
        final(parser).data == old(parser).data,
        match spec_blank_number(old(parser).data@, old(parser).pos as int) {
            Some((n, end)) => r == Some(n) && final(parser).pos == end && old(parser).pos < end,
            None => r is None,
        },
{
    proof {
        lemma_skip_blank(parser.data@, parser.pos as int);
        lemma_number_end(parser.data@, spec_skip_blank(parser.data@, parser.pos as int));
        crate::number::lemma_number_text_not_empty(
            parser.data@.subrange(
                spec_skip_blank(parser.data@, parser.pos as int),
                spec_number_end(parser.data@, spec_skip_blank(parser.data@, parser.pos as int)),
            ),
        );
    }
    parser.skip_whitespace_and_comments();
    match parser.parse_number() {
        Ok(PdfObj::Number(n)) => Some(n),
        _ => None,
    }
}

/// The header `n g obj` of an indirect object at `pos`: the reference that
/// it states and the position of the body.
pub open spec fn spec_object_header(data: Seq<u8>, pos: int) -> Option<((u32, u16), int)> {
    match spec_blank_number(data, pos) {
        None => None,
        Some((id, e1)) => match spec_blank_number(data, e1) {
            None => None,
            Some((gen, e2)) => {
                let q = spec_skip_blank(data, e2);
                if occurs_at(data, q, "obj".spec_bytes()) {
                    Some(
                        (
                            (id.spec_to_u32(), gen.spec_to_u16()),
                            spec_skip_blank(data, q + "obj".spec_bytes().len()),
                        ),
                    )
                } else {
                    None
                }
            },
        },
    }
}

fn parse_object_header(parser: &mut Parser) -> (r: Result<(u32, u16), PdfError>)
    requires
        old(parser).wf(),
    ensures
        final(parser).wf(),
        final(parser).data == old(parser).data,
        match spec_object_header(old(parser).data@, old(parser).pos as int) {
            Some((id, body)) => r == Ok::<(u32, u16), PdfError>(id) && final(parser).pos == body
                && old(parser).pos < body,
            None => r is Err && r->Err_0 is ParseError,
        },
{
    proof {
        lemma_structure_keywords();
    }
    let obj_id = match parse_blank_number(parser) {
        Some(n) => n.to_u32(),
        None => {
            return Err(parse_error("Invalid object id"));
        },
    };
    let gen_id = match parse_blank_number(parser) {
        Some(n) => n.to_u16(),
        None => {
            return Err(parse_error("Invalid generation number"));
        },
    };
    proof {
        lemma_skip_blank(parser.data@, parser.pos as int);
    }
    parser.skip_whitespace_and_comments();
    if !parser.remaining_starts_with("obj".as_bytes()) {
        return Err(parse_error("Missing 'obj' keyword"));
    }
    parser.pos += 3;
    proof {
        lemma_skip_blank(parser.data@, parser.pos as int);
    }
    parser.skip_whitespace_and_comments();
    Ok((obj_id, gen_id))
}

/// The headers of an object stream from `pos` on: for each of the `count`
/// objects its number and its offset. `None` where a number is missing.
pub open spec fn spec_objstm_headers(
    data: Seq<u8>,
    pos: int,
    k: nat,
    count: nat,
    acc: Seq<(u32, usize)>,
) -> Option<Seq<(u32, usize)>>
    decreases count - k,
{
    if k >= count {
        Some(acc)
    } else {
        match spec_blank_number(data, pos) {
            None => None,
            Some((num, e1)) => match spec_blank_number(data, e1) {
                None => None,
                Some((offset, e2)) => spec_objstm_headers(
                    data,
                    e2,
                    k + 1,
                    count,
                    acc.push((num.spec_to_u32(), offset.spec_to_usize())),
                ),
            },
        }
    }
}

/// Where the object of the header `i` ends: at the start of the next
/// object, or at the end of the data.
pub open spec fn objstm_end(data: Seq<u8>, first: int, headers: Seq<(u32, usize)>, i: int) -> int {
    if i + 1 < headers.len() {
        first + headers[i + 1].1
    } else {
        data.len() as int
    }
}

/// The table with the objects of an object stream entered from the header
/// `i` on, each with generation 0. An object whose bounds do not lie in the
/// data, or that cannot be read, is passed over.
pub open spec fn spec_objstm_entries(
    data: Seq<u8>,
    first: int,
    headers: Seq<(u32, usize)>,
    i: int,
    table: Map<u64, Value>,
) -> Map<u64, Value>
    decreases headers.len() - i,
{
    if i < 0 || i >= headers.len() {
        table
    } else {
        let start = first + headers[i].1;
        let end = objstm_end(data, first, headers, i);
        let next = if start < data.len() && end <= data.len() && start < end {
            match spec_object(data.subrange(start, end), 0) {
                Some((v, _)) => table.insert(object_key((headers[i].0, 0u16)), v),
                None => table,
            }
        } else {
            table
        };
        spec_objstm_entries(data, first, headers, i + 1, next)
    }
}

/// The table with the objects of an object stream entered. `first` is where
/// the objects start, `count` how many there are.
pub open spec fn spec_obj_stream(data: Seq<u8>, first: usize, count: usize, table: Map<u64, Value>) -> Option<
    Map<u64, Value>,
> {
    match spec_objstm_headers(data, 0, 0, count as nat, Seq::empty()) {
        Some(headers) => Some(spec_objstm_entries(data, first as int, headers, 0, table)),
        None => None,
    }
}

#[verifier::loop_isolation(false)]
fn parse_objstm_headers(data: &[u8], count: usize) -> (r: Option<Vec<(u32, usize)>>)
    ensures
        match spec_objstm_headers(data@, 0, 0, count as nat, Seq::empty()) {
            Some(headers) => r is Some && r->0@ == headers,
            None => r is None,
        },
{
    let mut parser = Parser::new(data);
    let mut headers: Vec<(u32, usize)> = Vec::new();
    let mut k: usize = 0;
    while k < count
        invariant
            k <= count,
            parser.wf(),
            parser.data@ == data@,
            spec_objstm_headers(data@, parser.pos as int, k as nat, count as nat, headers@)
                == spec_objstm_headers(data@, 0, 0, count as nat, Seq::empty()),
        decreases count - k,
    {
        let obj_num = match parse_blank_number(&mut parser) {
            Some(n) => n.to_u32(),
            None => {
                return None;
            },
        };
        let offset = match parse_blank_number(&mut parser) {
            Some(n) => n.to_usize(),
            None => {
                return None;
            },
        };
        headers.push((obj_num, offset));
        k += 1;
    }
    Some(headers)
}

fn enter_objstm_object(
    data: &[u8],
    first: usize,
    headers: &Vec<(u32, usize)>,
    i: usize,
    objects: &mut ObjectTable,
)
    requires
        old(objects).wf(),
        i < headers@.len(),
    ensures
        final(objects).wf(),
        ({
            let start = first + headers@[i as int].1;
            let end = objstm_end(data@, first as int, headers@, i as int);
            final(objects).model() == if start < data@.len() && end <= data@.len() && start < end {
                match spec_object(data@.subrange(start, end), 0) {
                    Some((v, _)) => old(objects).model().insert(
                        object_key((headers@[i as int].0, 0u16)),
                        v,
                    ),
                    None => old(objects).model(),
                }
            } else {
                old(objects).model()
            }
        }),
{
    let total = data.len();
    let count = headers.len();
    let start = match first.checked_add(headers[i].1) {
        Some(s) => s,
        None => {
            return ;
        },
    };
    let end = if i + 1 < count {
        match first.checked_add(headers[i + 1].1) {
            Some(e) => e,
            None => {
                return ;
            },
        }
    } else {
        total
    };
    if start < total && end <= total && start < end {
        let mut sub_parser = Parser::new(vstd::slice::slice_subrange(data, start, end));
        match sub_parser.parse_value() {
            Ok(value) => {
                objects.insert((headers[i].0, 0), value);
            },
            Err(_) => {},
        }
    }
}

/// Enters the objects of an object stream into the table.
#[verifier::loop_isolation(false)]
pub fn parse_obj_stream(data: &[u8], first: usize, count: usize, objects: &mut ObjectTable) -> (r: Result<
    (),
    PdfError,
>)
    requires
        old(objects).wf(),
    ensures
        final(objects).wf(),
        match spec_obj_stream(data@, first, count, old(objects).model()) {
            Some(table) => r is Ok && final(objects).model() == table,
            None => r is Err && r->Err_0 is ParseError,
        },
{
    let headers = match parse_objstm_headers(data, count) {
        Some(h) => h,
        None => {
            return Err(parse_error("Invalid object header in ObjStm"));
        },
    };
    let mut i: usize = 0;
    while i < headers.len()
        invariant
            i <= headers.len(),
            objects.wf(),
            spec_objstm_entries(data@, first as int, headers@, i as int, objects.model())
                == spec_objstm_entries(data@, first as int, headers@, 0, old(objects).model()),
        decreases headers.len() - i,
    {
        enter_objstm_object(data, first, &headers, i, objects);
        i += 1;
    }
    Ok(())
}

/// The table with the members of an object stream entered, when the value
/// is one: a stream of the type `ObjStm` that states `First` and `N`. A
/// stream whose filters fail has no members; an object stream whose headers
/// cannot be read is an error.
pub open spec fn objstm_members(value: Value, table: Map<u64, Value>) -> Option<Map<u64, Value>> {
    match value {
        Value::Stream(dict, body) => if dict_get(dict, "Type"@) == Some(Value::Name("ObjStm"@)) {
            match (dict_get(dict, "First"@), dict_get(dict, "N"@)) {
                (Some(Value::Number(first)), Some(Value::Number(n))) => match spec_stream_filters(
                    dict,
                    body,
                ) {
                    Some(decoded) => spec_obj_stream(
                        decoded,
                        first.spec_to_usize(),
                        n.spec_to_usize(),
                        table,
                    ),
                    None => Some(table),
                },
                _ => Some(table),
            }
        } else {
            Some(table)
        },
        _ => Some(table),
    }
}

fn enter_objstm_members(value: &PdfObj, objects: &mut ObjectTable) -> (r: Result<(), PdfError>)
    requires
        old(objects).wf(),
    ensures
        final(objects).wf(),
        match objstm_members(value.model(), old(objects).model()) {
            Some(table) => r is Ok && final(objects).model() == table,
            None => r is Err && r->Err_0 is ParseError,
        },
{
    let stream = match value.as_stream() {
        Some(s) => s,
        None => {
            return Ok(());
        },
    };
    match stream.dict.get("Type") {
        Some(PdfObj::Name(t)) => {
            if !crate::bytes::str_is(t, "ObjStm") {
                return Ok(());
            }
        },
        _ => {
            return Ok(());
        },
    }
    let first = match stream.dict.get("First") {
        Some(PdfObj::Number(n)) => n.to_usize(),
        _ => {
            return Ok(());
        },
    };
    let count = match stream.dict.get("N") {
        Some(PdfObj::Number(n)) => n.to_usize(),
        _ => {
            return Ok(());
        },
    };
    match handle_stream_filters(&stream.dict, stream.data.as_slice()) {
        Ok(decompressed) => parse_obj_stream(decompressed.as_slice(), first, count, objects),
        Err(_) => Ok(()),
    }
}

/// The position behind a `startxref` at `p`: behind the keyword, the number
/// that follows it, and an end-of-file mark.
pub open spec fn startxref_end(data: Seq<u8>, p: int) -> int {
    let q = spec_skip_blank(data, p + "startxref".spec_bytes().len());
    let q2 = if q < data.len() {
        spec_number_end(data, q)
    } else {
        q
    };
    let q3 = spec_skip_blank(data, q2);
    if occurs_at(data, q3, "%%EOF".spec_bytes()) {
        q3 + "%%EOF".spec_bytes().len()
    } else {
        q3
    }
}

fn skip_startxref(parser: &mut Parser)
    requires
        old(parser).wf(),
        occurs_at(old(parser).data@, old(parser).pos as int, "startxref".spec_bytes()),
    ensures
        final(parser).wf(),
        final(parser).data == old(parser).data,
        final(parser).pos == startxref_end(old(parser).data@, old(parser).pos as int),
        old(parser).pos < final(parser).pos,
{
    proof {
        lemma_structure_keywords();
    }
    parser.pos += 9;
    proof {
        lemma_skip_blank(parser.data@, parser.pos as int);
    }
    parser.skip_whitespace_and_comments();
    if parser.pos < parser.data.len() {
        proof {
            lemma_number_end(parser.data@, parser.pos as int);
        }
        let _ = parser.parse_number();
    }
    proof {
        lemma_skip_blank(parser.data@, parser.pos as int);
    }
    parser.skip_whitespace_and_comments();
    if parser.remaining_starts_with("%%EOF".as_bytes()) {
        parser.pos += 5;
    }
}

/// The table with the indirect objects from `pos` on entered, and the
/// position where the scan stopped: at the end of the data, or at `xref` or
/// `trailer`. `None` where an object cannot be read.
pub open spec fn spec_scan(data: Seq<u8>, pos: int, table: Map<u64, Value>) -> Option<
    (Map<u64, Value>, int),
>
    decreases data.len() - pos,
{
    let p = spec_skip_blank(data, pos);
    if pos < 0 || p < pos || p >= data.len() {
        Some((table, p))
    } else if occurs_at(data, p, "xref".spec_bytes()) || occurs_at(data, p, "trailer".spec_bytes()) {
        Some((table, p))
    } else if occurs_at(data, p, "startxref".spec_bytes()) {
        let next = startxref_end(data, p);
        if p < next <= data.len() {
            spec_scan(data, next, table)
        } else {
            Some((table, p))
        }
    } else {
        match spec_object_header(data, p) {
            None => None,
            Some((id, body)) => match spec_indirect_value(data, body) {
                None => None,
                Some((value, end)) => match objstm_members(value, table) {
                    None => None,
                    Some(with_members) => if p < end <= data.len() {
                        spec_scan(data, end, with_members.insert(object_key(id), value))
                    } else {
                        None
                    },
                },
            },
        }
    }
}

/// Reads the indirect objects from the cursor on into the table.
pub fn scan_objects(parser: &mut Parser, objects: &mut ObjectTable) -> (r: Result<(), PdfError>)
    requires
        old(parser).wf(),
        old(objects).wf(),
    ensures
        final(parser).wf(),
        final(parser).data == old(parser).data,
        final(objects).wf(),
        match spec_scan(old(parser).data@, old(parser).pos as int, old(objects).model()) {
            Some((table, end)) => r is Ok && final(objects).model() == table && final(parser).pos
                == end,
            None => r is Err && r->Err_0 is ParseError,
        },
{
    let ghost data = parser.data@;
    let ghost expected = spec_scan(data, parser.pos as int, objects.model());
    loop
        invariant
            parser.wf(),
            objects.wf(),
            parser.data == old(parser).data,
            data == old(parser).data@,
            expected == spec_scan(old(parser).data@, old(parser).pos as int, old(objects).model()),
            spec_scan(data, parser.pos as int, objects.model()) == expected,
        decreases data.len() - parser.pos,
    {
        proof {
            lemma_skip_blank(data, parser.pos as int);
            lemma_structure_keywords();
        }
        parser.skip_whitespace_and_comments();
        if parser.pos >= parser.data.len() {
            return Ok(());
        }
        if parser.remaining_starts_with("xref".as_bytes()) || parser.remaining_starts_with(
            "trailer".as_bytes(),
        ) {
            return Ok(());
        }
        if parser.remaining_starts_with("startxref".as_bytes()) {
            skip_startxref(parser);
            continue ;
        }
        let id = match parse_object_header(parser) {
            Ok(id) => id,
            Err(e) => {
                return Err(e);
            },
        };
        let value = match parse_indirect_value(parser) {
            Ok(v) => v,
            Err(e) => {
                return Err(e);
            },
        };
        match enter_objstm_members(&value, objects) {
            Ok(_) => {},
            Err(e) => {
                return Err(e);
            },
        }
        objects.insert(id, value);
    }
}

/// The width of the field `i` of a cross-reference entry: the number at
/// that place of `W`, and 0 where no number stands.
pub open spec fn width_at(w: Seq<Value>, i: int) -> usize {
    match w[i] {
        Value::Number(n) => n.spec_to_usize(),
        _ => 0,
    }
}

/// The three field widths of a cross-reference stream: `W` must be an array
/// of three.
pub open spec fn xref_widths(dict: Dict) -> Option<(usize, usize, usize)> {
    match dict_get(dict, "W"@) {
        Some(Value::Array(w)) => if w.len() == 3 {
            Some((width_at(w, 0), width_at(w, 1), width_at(w, 2)))
        } else {
            None
        },
        _ => None,
    }
}

/// The pairs of first object number and count that an `Index` array states,
/// from `i` on. A pair that is not two numbers is left out.
pub open spec fn index_pairs(arr: Seq<Value>, i: int, acc: Seq<(u32, u32)>) -> Seq<(u32, u32)>
    decreases arr.len() - i,
{
    if i < 0 || i >= arr.len() {
        acc
    } else {
        let next = if i + 1 < arr.len() && arr[i] is Number && arr[i + 1] is Number {
            acc.push((arr[i]->Number_0.spec_to_u32(), arr[i + 1]->Number_0.spec_to_u32()))
        } else {
            acc
        };
        if i + 2 > arr.len() {
            next
        } else {
            index_pairs(arr, i + 2, next)
        }
    }
}

/// The sections of a cross-reference stream: those of `Index`, and without
/// it one section from 0 of `Size` entries.
pub open spec fn xref_index(dict: Dict) -> Seq<(u32, u32)> {
    match dict_get(dict, "Index"@) {
        Some(Value::Array(arr)) => index_pairs(arr, 0, Seq::empty()),
        _ => match dict_get(dict, "Size"@) {
            Some(Value::Number(n)) => seq![(0u32, n.spec_to_u32())],
            _ => seq![(0u32, 0u32)],
        },
    }
}

/// The number of `width` bytes from `from` on, most significant first, kept
/// to its low 64 bits.
pub open spec fn be_field(entry: Seq<u8>, from: int, width: int, acc: u64) -> u64
    decreases width,
{
    if width <= 0 || from < 0 || from >= entry.len() {
        acc
    } else {
        be_field(
            entry,
            from + 1,
            width - 1,
            ((acc % 0x100_0000_0000_0000) * 256 + entry[from]) as u64,
        )
    }
}

#[verifier::loop_isolation(false)]
fn read_be_field(entry: &[u8], from: usize, width: usize) -> (r: u64)
    requires
        from + width <= entry@.len(),
    ensures
        r == be_field(entry@, from as int, width as int, 0),
{
    let total = entry.len();
    let mut val: u64 = 0;
    let mut j: usize = 0;
    while j < width
        invariant
            j <= width,
            be_field(entry@, from + j, width - j, val) == be_field(
                entry@,
                from as int,
                width as int,
                0,
            ),
        decreases width - j,
    {
        val = (val % 0x100_0000_0000_0000) * 256 + entry[from + j] as u64;
        j += 1;
    }
    val
}

/// The value of an object that a cross-reference entry points to, from the
/// position of its body on. A stream reaches to the first fitting
/// `endstream`; `endobj` is not asked for.
pub open spec fn spec_object_value(data: Seq<u8>, pos: int) -> Option<Value> {
    if 0 <= pos && pos + 1 < data.len() && data[pos] == 0x3C && data[pos + 1] == 0x3C {
        match spec_dictionary(data, pos) {
            None => None,
            Some((dict, end)) => {
                let q = spec_skip_blank(data, end);
                if occurs_at(data, q, "stream".spec_bytes()) {
                    let start = line_break_end(data, q + "stream".spec_bytes().len());
                    match spec_search_for_endstream(data, start, "endstream".spec_bytes()) {
                        Some(body) => Some(Value::Stream(dict, body)),
                        None => None,
                    }
                } else {
                    Some(Value::Dictionary(dict))
                }
            },
        }
    } else {
        match spec_object(data, pos) {
            Some((v, _)) => Some(v),
            None => None,
        }
    }
}

/// Reads the value of an object that a cross-reference entry points to.
pub fn parse_object_value(parser: &mut Parser) -> (r: Result<PdfObj, String>)
    requires
        old(parser).wf(),
    ensures
        final(parser).wf(),
        final(parser).data == old(parser).data,
        match spec_object_value(old(parser).data@, old(parser).pos as int) {
            Some(v) => r is Ok && r->Ok_0.model() == v,
            None => r is Err,
        },
{
    proof {
        lemma_structure_keywords();
    }
    if parser.data.len() - parser.pos >= 2 && parser.data[parser.pos] == 0x3C
        && parser.data[parser.pos + 1] == 0x3C {
        let dict = match parser.parse_dictionary() {
            Ok(d) => d,
            Err(e) => {
                return Err(e);
            },
        };
        proof {
            lemma_skip_blank(parser.data@, parser.pos as int);
        }
        parser.skip_whitespace_and_comments();
        if parser.remaining_starts_with("stream".as_bytes()) {
            let stream_start = skip_line_break(parser.data, parser.pos + 6);
            match search_for_endstream(parser, stream_start, "endstream".as_bytes()) {
                Ok(data) => {
                    let stream = PdfStream { dict, data };
                    proof {
                        lemma_model_of_stream(stream);
                    }
                    Ok(PdfObj::Stream(stream))
                },
                Err(_) => Err(String::from_str("Missing 'endstream'")),
            }
        } else {
            proof {
                lemma_model_of_dictionary(dict);
            }
            Ok(PdfObj::Dictionary(dict))
        }
    } else {
        parser.parse_object()
    }
}

/// The number at `pos` and, behind white space, the position behind it.
pub open spec fn spec_plain_number(data: Seq<u8>, pos: int) -> Option<(crate::number::PdfNumber, int)> {
    let e = spec_number_end(data, pos);
    if 0 <= pos <= e <= data.len() {
        match spec_number(data.subrange(pos, e)) {
            Some(n) => Some((n, spec_skip_whitespace(data, e))),
            None => None,
        }
    } else {
        None
    }
}

fn parse_plain_number(parser: &mut Parser) -> (r: Option<crate::number::PdfNumber>)
    requires
        old(parser).wf(),
    ensures
        final(parser).wf(),
        final(parser).data == old(parser).data,
        match spec_plain_number(old(parser).data@, old(parser).pos as int) {
            Some((n, end)) => r == Some(n) && final(parser).pos == end,
            None => r is None,
        },
{
    proof {
        lemma_number_end(parser.data@, parser.pos as int);
    }
    match parser.parse_number() {
        Ok(PdfObj::Number(n)) => {
            proof {
                lemma_skip_whitespace(parser.data@, parser.pos as int);
            }
            parser.skip_whitespace();
            Some(n)
        },
        _ => None,
    }
}

/// The object that stands at the start of `data` when that is the object of
/// the number `obj_num`: a header `n g obj` whose first number is `obj_num`,
/// then the value.
pub open spec fn spec_object_at(data: Seq<u8>, obj_num: u32) -> Option<Value> {
    match spec_plain_number(data, 0) {
        Some((n, q)) => if n.spec_to_u32() == obj_num {
            match spec_plain_number(data, q) {
                Some((_, q2)) => if occurs_at(data, q2, "obj".spec_bytes()) {
                    spec_object_value(
                        data,
                        spec_skip_blank(data, q2 + "obj".spec_bytes().len()),
                    )
                } else {
                    None
                },
                None => None,
            }
        } else {
            None
        },
        None => None,
    }
}

fn parse_object_at(data: &[u8], obj_num: u32) -> (r: Option<PdfObj>)
    ensures
        match spec_object_at(data@, obj_num) {
            Some(v) => r is Some && r->0.model() == v,
            None => r is None,
        },
{
    proof {
        lemma_structure_keywords();
    }
    let mut parser = Parser::new(data);
    match parse_plain_number(&mut parser) {
        Some(n) => {
            if n.to_u32() != obj_num {
                return None;
            }
        },
        None => {
            return None;
        },
    }
    if parse_plain_number(&mut parser).is_none() {
        return None;
    }
    if !parser.remaining_starts_with("obj".as_bytes()) {
        return None;
    }
    parser.pos += 3;
    proof {
        lemma_skip_blank(parser.data@, parser.pos as int);
    }
    parser.skip_whitespace_and_comments();
    match parse_object_value(&mut parser) {
        Ok(v) => Some(v),
        Err(_) => None,
    }
}

/// The table after one cross-reference entry. An entry of type 1 states the
/// offset and the generation of an object in use; where the object of the
/// number `obj_num` can be read at that offset, it is entered. Every other
/// entry changes nothing. A first field of width 0 stands for type 1.
pub open spec fn spec_xref_entry(
    pdf: Seq<u8>,
    entry: Seq<u8>,
    w: (usize, usize, usize),
    obj_num: u32,
    table: Map<u64, Value>,
) -> Map<u64, Value> {
    let entry_type = if w.0 == 0 {
        1u64
    } else {
        be_field(entry, 0, w.0 as int, 0)
    };
    let offset = be_field(entry, w.0 as int, w.1 as int, 0);
    let gen = be_field(entry, w.0 + w.1, w.2 as int, 0);
    if entry_type == 1 && offset < pdf.len() {
        match spec_object_at(pdf.subrange(offset as int, pdf.len() as int), obj_num) {
            Some(v) => table.insert(object_key((obj_num, (gen % 65536) as u16)), v),
            None => table,
        }
    } else {
        table
    }
}

fn apply_xref_entry(
    pdf_data: &[u8],
    entry: &[u8],
    w: (usize, usize, usize),
    obj_num: u32,
    objects: &mut ObjectTable,
)
    requires
        old(objects).wf(),
        w.0 + w.1 + w.2 == entry@.len(),
    ensures
        final(objects).wf(),
        final(objects).model() == spec_xref_entry(
            pdf_data@,
            entry@,
            w,
            obj_num,
            old(objects).model(),
        ),
{
    let entry_len = entry.len();
    let entry_type: u64 = if w.0 == 0 {
        1
    } else {
        read_be_field(entry, 0, w.0)
    };
    let field2 = read_be_field(entry, w.0, w.1);
    let field3 = read_be_field(entry, w.0 + w.1, w.2);
    let total = pdf_data.len();
    if entry_type == 1 && field2 < total as u64 {
        let offset = field2 as usize;
        let gen = (field3 % 65536) as u16;
        match parse_object_at(vstd::slice::slice_subrange(pdf_data, offset, total), obj_num) {
            Some(obj_value) => {
                objects.insert((obj_num, gen), obj_value);
            },
            None => {},
        }
    }
}

/// The object number of the entry `i` of a section that starts at `start`.
pub open spec fn section_number(start: u32, i: int) -> u32 {
    ((start + i) % 0x1_0000_0000) as u32
}

/// The table after the entries of one section from the entry `i` on, and
/// the position in the data behind them. The section ends early where the
/// data holds no whole entry any more.
pub open spec fn spec_xref_section(
    pdf: Seq<u8>,
    decoded_data: Seq<u8>,
    w: (usize, usize, usize),
    start: u32,
    count: u32,
    i: int,
    data_pos: int,
    table: Map<u64, Value>,
) -> (Map<u64, Value>, int)
    decreases count - i,
{
    let entry_size = w.0 + w.1 + w.2;
    if i < 0 || i >= count || data_pos < 0 || data_pos + entry_size > decoded_data.len() {
        (table, data_pos)
    } else {
        spec_xref_section(
            pdf,
            decoded_data,
            w,
            start,
            count,
            i + 1,
            data_pos + entry_size,
            spec_xref_entry(
                pdf,
                decoded_data.subrange(data_pos, data_pos + entry_size),
                w,
                section_number(start, i),
                table,
            ),
        )
    }
}

/// The table after the sections from the section `k` on.
pub open spec fn spec_xref_sections(
    pdf: Seq<u8>,
    decoded_data: Seq<u8>,
    w: (usize, usize, usize),
    index: Seq<(u32, u32)>,
    k: int,
    data_pos: int,
    table: Map<u64, Value>,
) -> Map<u64, Value>
    decreases index.len() - k,
{
    if k < 0 || k >= index.len() {
        table
    } else {
        let after = spec_xref_section(
            pdf,
            decoded_data,
            w,
            index[k].0,
            index[k].1,
            0,
            data_pos,
            table,
        );
        spec_xref_sections(pdf, decoded_data, w, index, k + 1, after.1, after.0)
    }
}

/// The table with the objects entered that a cross-reference stream points
/// to. Without `W`, and where the filters of the stream fail, an error.
pub open spec fn spec_xref_stream(
    table: Map<u64, Value>,
    pdf: Seq<u8>,
    dict: Dict,
    raw: Seq<u8>,
) -> Result<Map<u64, Value>, Fault> {
    match xref_widths(dict) {
        None => Err(Fault::Parse),
        Some(w) => match spec_stream_filters(dict, raw) {
            None => Err(Fault::Decompression),
            Some(decoded_data) => Ok(
                spec_xref_sections(pdf, decoded_data, w, xref_index(dict), 0, 0, table),
            ),
        },
    }
}

fn width_of(w: &Vec<PdfObj>, i: usize) -> (r: usize)
    requires
        i < w@.len(),
    ensures
        r == width_at(obj_models(w@), i as int),
{
    match &w[i] {
        PdfObj::Number(n) => n.to_usize(),
        _ => 0,
    }
}

fn read_widths(dict: &PdfDict) -> (r: Option<(usize, usize, usize)>)
    ensures
        r == xref_widths(dict.model()),
{
    match dict.get("W") {
        Some(obj) => match obj.as_array() {
            Some(w) => {
                if w.len() != 3 {
                    return None;
                }
                Some((width_of(w, 0), width_of(w, 1), width_of(w, 2)))
            },
            None => None,
        },
        None => None,
    }
}

#[verifier::loop_isolation(false)]
fn read_index_pairs(arr: &Vec<PdfObj>) -> (r: Vec<(u32, u32)>)
    ensures
        r@ == index_pairs(obj_models(arr@), 0, Seq::empty()),
{
    let count = arr.len();
    let mut indices: Vec<(u32, u32)> = Vec::new();
    let mut i: usize = 0;
    while i < count
        invariant
            i <= count,
            index_pairs(obj_models(arr@), i as int, indices@) == index_pairs(
                obj_models(arr@),
                0,
                Seq::empty(),
            ),
        decreases count - i,
    {
        if count - i > 1 {
            match (&arr[i], &arr[i + 1]) {
                (PdfObj::Number(start), PdfObj::Number(n)) => {
                    indices.push((start.to_u32(), n.to_u32()));
                },
                _ => {},
            }
            i += 2;
        } else {
            i = count;
        }
    }
    indices
}

fn read_index(dict: &PdfDict) -> (r: Vec<(u32, u32)>)
    ensures
        r@ == xref_index(dict.model()),
{
    match dict.get("Index") {
        Some(PdfObj::Array(arr)) => {
            proof {
                crate::object::lemma_model_of_array(*arr);
            }
            read_index_pairs(arr)
        },
        _ => {
            let size: u32 = match dict.get("Size") {
                Some(PdfObj::Number(n)) => n.to_u32(),
                _ => 0,
            };
            let mut one: Vec<(u32, u32)> = Vec::new();
            one.push((0, size));
            assert(one@ =~= seq![(0u32, size)]);
            one
        },
    }
}

#[verifier::loop_isolation(false)]
fn apply_xref_section(
    pdf_data: &[u8],
    decoded_data: &[u8],
    w: (usize, usize, usize),
    start: u32,
    count: u32,
    data_pos: usize,
    objects: &mut ObjectTable,
) -> (r: usize)
    requires
        old(objects).wf(),
        data_pos <= decoded_data@.len(),
    ensures
        final(objects).wf(),
        (final(objects).model(), r as int) == spec_xref_section(
            pdf_data@,
            decoded_data@,
            w,
            start,
            count,
            0,
            data_pos as int,
            old(objects).model(),
        ),
        data_pos <= r <= decoded_data@.len(),
{
    let total = decoded_data.len();
    let entry_size = match w.0.checked_add(w.1) {
        Some(a) => match a.checked_add(w.2) {
            Some(b) => b,
            None => {
                return data_pos;
            },
        },
        None => {
            return data_pos;
        },
    };
    let mut pos = data_pos;
    let mut i: u32 = 0;
    while i < count && entry_size <= total - pos
        invariant
            i <= count,
            data_pos <= pos <= total,
            objects.wf(),
            spec_xref_section(
                pdf_data@,
                decoded_data@,
                w,
                start,
                count,
                i as int,
                pos as int,
                objects.model(),
            ) == spec_xref_section(
                pdf_data@,
                decoded_data@,
                w,
                start,
                count,
                0,
                data_pos as int,
                old(objects).model(),
            ),
        decreases count - i,
    {
        let obj_num = ((start as u64 + i as u64) % 0x1_0000_0000) as u32;
        let entry = vstd::slice::slice_subrange(decoded_data, pos, pos + entry_size);
        apply_xref_entry(pdf_data, entry, w, obj_num, objects);
        pos = pos + entry_size;
        i += 1;
    }
    pos
}

/// The table after a step that may fail.
pub open spec fn table_result(r: Result<(), PdfError>, table: Map<u64, Value>) -> Result<
    Map<u64, Value>,
    Fault,
> {
    match r {
        Ok(_) => Ok(table),
        Err(e) => Err(fault_of(e)),
    }
}

/// Enters the objects that a cross-reference stream points to.
#[verifier::loop_isolation(false)]
pub fn parse_xref_stream(objects: &mut ObjectTable, pdf_data: &[u8], xref_stream: &PdfStream) -> (r: Result<
    (),
    PdfError,
>)
    requires
        old(objects).wf(),
    ensures
        final(objects).wf(),
        table_result(r, final(objects).model()) == spec_xref_stream(
            old(objects).model(),
            pdf_data@,
            xref_stream.dict.model(),
            xref_stream.data@,
        ),
{
    let w = match read_widths(&xref_stream.dict) {
        Some(w) => w,
        None => {
            return Err(parse_error("XRef stream W array must have 3 elements"));
        },
    };
    let index_array = read_index(&xref_stream.dict);
    let decompressed_data = match handle_stream_filters(
        &xref_stream.dict,
        xref_stream.data.as_slice(),
    ) {
        Ok(d) => d,
        Err(e) => {
            return Err(e);
        },
    };
    let mut data_pos: usize = 0;
    let mut k: usize = 0;
    while k < index_array.len()
        invariant
            k <= index_array.len(),
            data_pos <= decompressed_data@.len(),
            objects.wf(),
            spec_xref_sections(
                pdf_data@,
                decompressed_data@,
                w,
                index_array@,
                k as int,
                data_pos as int,
                objects.model(),
            ) == spec_xref_sections(
                pdf_data@,
                decompressed_data@,
                w,
                index_array@,
                0,
                0,
                old(objects).model(),
            ),
        decreases index_array.len() - k,
    {
        let section = index_array[k];
        data_pos = apply_xref_section(
            pdf_data,
            decompressed_data.as_slice(),
            w,
            section.0,
            section.1,
            data_pos,
            objects,
        );
        k += 1;
    }
    Ok(())
}

/// The last position at or before `i` where `trailer` stands.
pub open spec fn spec_last_trailer(data: Seq<u8>, i: int) -> Option<int>
    decreases i,
{
    if i < 0 {
        None
    } else if occurs_at(data, i, "trailer".spec_bytes()) {
        Some(i)
    } else if i == 0 {
        None
    } else {
        spec_last_trailer(data, i - 1)
    }
}

#[verifier::loop_isolation(false)]
fn find_last_trailer(data: &[u8]) -> (r: Option<usize>)
    ensures
        match r {
            Some(at) => spec_last_trailer(data@, data@.len() - 8) == Some(at as int) && at + 7
                <= data@.len(),
            None => spec_last_trailer(data@, data@.len() - 8) is None,
        },
{
    proof {
        lemma_structure_keywords();
    }
    let total = data.len();
    if total < 8 {
        return None;
    }
    let pattern = "trailer".as_bytes();
    let mut i: usize = total - 7;
    while i > 0
        invariant
            i <= total - 7,
            spec_last_trailer(data@, i - 1) == spec_last_trailer(data@, total - 8),
        decreases i,
    {
        i -= 1;
        if starts_with_at(data, i, pattern) {
            return Some(i);
        }
    }
    None
}

/// The trailer dictionary of a file whose objects were read up to `pos`,
/// and the table as it then is.
///
/// Where `trailer` stands at `pos`, the dictionary behind it; else the
/// dictionary behind the last `trailer` of the file. Without any `trailer`,
/// the dictionary of the cross-reference stream with the least key, after
/// the objects that the stream points to were entered into the table.
pub open spec fn spec_trailer(data: Seq<u8>, pos: int, table: Map<u64, Value>) -> Result<
    (Dict, Map<u64, Value>),
    Fault,
> {
    let keyword = "trailer".spec_bytes();
    let at: Option<int> = if occurs_at(data, pos, keyword) {
        Some(pos)
    } else {
        spec_last_trailer(data, data.len() - 8)
    };
    match at {
        Some(i) => match spec_dictionary(data, i + keyword.len()) {
            Some((d, _)) => Ok((d, table)),
            None => Err(Fault::Parse),
        },
        None => if has_xref_stream(table) {
            let stream = table[least_xref_key(table)];
            match spec_xref_stream(table, data, stream->Stream_0, stream->Stream_1) {
                Ok(t) => Ok((stream->Stream_0, t)),
                Err(f) => Err(f),
            }
        } else {
            Err(Fault::Parse)
        },
    }
}

/// The trailer dictionary and the table after the search for the trailer.
pub open spec fn trailer_result(r: Result<PdfDict, PdfError>, table: Map<u64, Value>) -> Result<
    (Dict, Map<u64, Value>),
    Fault,
> {
    match r {
        Ok(d) => Ok((d.model(), table)),
        Err(e) => Err(fault_of(e)),
    }
}

fn read_trailer_at(parser: &mut Parser, at: usize) -> (r: Result<PdfDict, PdfError>)
    requires
        old(parser).wf(),
        at + 7 <= old(parser).data@.len(),
    ensures
        final(parser).wf(),
        final(parser).data == old(parser).data,
        match spec_dictionary(old(parser).data@, at + 7) {
            Some((d, _)) => r is Ok && r->Ok_0.model() == d,
            None => r is Err && r->Err_0 is ParseError,
        },
{
    parser.pos = at + 7;
    match parser.parse_dictionary() {
        Ok(d) => Ok(d),
        Err(message) => Err(PdfError::ParseError(message)),
    }
}

fn trailer_from_xref(parser: &Parser, objects: &mut ObjectTable) -> (r: Result<PdfDict, PdfError>)
    requires
        old(objects).wf(),
    ensures
        final(objects).wf(),
        trailer_result(r, final(objects).model()) == (if has_xref_stream(old(objects).model()) {
            let stream = old(objects).model()[least_xref_key(old(objects).model())];
            match spec_xref_stream(
                old(objects).model(),
                parser.data@,
                stream->Stream_0,
                stream->Stream_1,
            ) {
                Ok(t) => Ok((stream->Stream_0, t)),
                Err(f) => Err(f),
            }
        } else {
            Err(Fault::Parse)
        }),
{
    let xref_stream = match objects.first_xref_stream() {
        Some(stream) => PdfStream {
            dict: clone_dict(&stream.dict),
            data: vstd::slice::slice_to_vec(stream.data.as_slice()),
        },
        None => {
            return Err(parse_error("No trailer or cross-reference stream found"));
        },
    };
    match parse_xref_stream(objects, parser.data, &xref_stream) {
        Ok(_) => Ok(xref_stream.dict),
        Err(e) => Err(e),
    }
}

/// Finds the trailer dictionary.
pub fn find_trailer(parser: &mut Parser, objects: &mut ObjectTable) -> (r: Result<PdfDict, PdfError>)
    requires
        old(parser).wf(),
        old(objects).wf(),
    ensures
        final(objects).wf(),
        final(parser).data == old(parser).data,
        trailer_result(r, final(objects).model()) == spec_trailer(
            old(parser).data@,
            old(parser).pos as int,
            old(objects).model(),
        ),
{
    proof {
        lemma_structure_keywords();
    }
    if parser.remaining_starts_with("trailer".as_bytes()) {
        let at = parser.pos;
        return read_trailer_at(parser, at);
    }
    match find_last_trailer(parser.data) {
        Some(at) => read_trailer_at(parser, at),
        None => trailer_from_xref(parser, objects),
    }
}

/// The pages and the object table of a file.
pub open spec fn spec_parse_pdf(data: Seq<u8>) -> Result<(Seq<Page>, Map<u64, Value>), Fault> {
    match spec_scan(data, header_end(data), Map::empty()) {
        None => Err(Fault::Parse),
        Some((scanned, pos)) => match spec_trailer(data, pos, scanned) {
            Err(f) => Err(f),
            Ok((trailer, table)) => match dict_get(trailer, "Root"@) {
                Some(Value::Reference(root)) => match spec_page_tree(table, root) {
                    Ok(pages) => Ok((pages, table)),
                    Err(f) => Err(f),
                },
                _ => Err(Fault::Parse),
            },
        },
    }
}

/// The catalog of a file: the object that its trailer names under `Root`.
pub open spec fn spec_catalog(data: Seq<u8>) -> Option<(u32, u16)> {
    match spec_scan(data, header_end(data), Map::empty()) {
        None => None,
        Some((scanned, pos)) => match spec_trailer(data, pos, scanned) {
            Err(_) => None,
            Ok((trailer, _)) => match dict_get(trailer, "Root"@) {
                Some(Value::Reference(root)) => Some(root),
                _ => None,
            },
        },
    }
}

/// The value of the outcome of reading a file.
pub open spec fn document_result(r: Result<(Vec<PageContent>, ObjectTable), PdfError>) -> Result<
    (Seq<Page>, Map<u64, Value>),
    Fault,
> {
    match r {
        Ok((pages, objects)) => Ok((page_models(pages@), objects.model())),
        Err(e) => Err(fault_of(e)),
    }
}

/// Reads a PDF file: its objects and the content of its pages.
pub fn parse_pdf(data: &[u8]) -> (r: Result<(Vec<PageContent>, ObjectTable), PdfError>)
    ensures
        document_result(r) == spec_parse_pdf(data@),
{
    let mut parser = Parser::new(data);
    let mut objects = ObjectTable::new();
    parser.pos = skip_header(data);
    match scan_objects(&mut parser, &mut objects) {
        Ok(_) => {},
        Err(e) => {
            return Err(e);
        },
    }
    let trailer_dict = match find_trailer(&mut parser, &mut objects) {
        Ok(d) => d,
        Err(e) => {
            return Err(e);
        },
    };
    let root_ref = match trailer_dict.get("Root") {
        Some(PdfObj::Reference(r)) => *r,
        _ => {
            return Err(parse_error("No Root in trailer"));
        },
    };
    match parse_page_tree(&objects, &root_ref) {
        Ok(pages) => Ok((pages, objects)),
        Err(e) => Err(e),
    }
}

} // verus!
