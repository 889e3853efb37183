//! The object parser: from the bytes of a file to its objects.
use crate::bytes::{is_digit, occurs_at, starts_with_at, str_from_utf8};
use crate::lexer::{
    hex_string_bytes, HexEnd, lemma_skip_blank, lemma_skip_whitespace, number_end, regular_end,
    scan_hex_string, scan_literal, skip_blank_from, skip_whitespace_from, spec_hex_digits,
    spec_literal, spec_number_end, spec_regular_end, spec_skip_blank, spec_skip_whitespace,
    starts_number,
};
use crate::number::{PdfNumber, spec_number};
use crate::object::{
    Dict, dict_insert, lemma_model_of_array, lemma_model_of_dictionary, obj_models, PdfDict, PdfObj,
    Value,
};
use vstd::prelude::*;
use vstd::string::StringSliceAdditionalSpecFns;
use vstd::utf8::{decode_utf8, valid_utf8};

verus! {

/// A cursor over the bytes of a file.
pub struct Parser<'a> {
    pub data: &'a [u8],
    pub pos: usize,
    pub len: usize,
}

/// The keywords of the object syntax have the lengths that they look to have.
pub proof fn lemma_keyword_lengths()
    ensures
        "null".spec_bytes().len() == 4,
        "true".spec_bytes().len() == 4,
        "false".spec_bytes().len() == 5,
        "null".spec_bytes()[0] == 0x6E,
        "true".spec_bytes()[0] == 0x74,
        "false".spec_bytes()[0] == 0x66,
{
    reveal_strlit("null");
    reveal_strlit("true");
    reveal_strlit("false");
    vstd::string::is_ascii_spec_bytes("null");
    vstd::string::is_ascii_spec_bytes("true");
    vstd::string::is_ascii_spec_bytes("false");
}

/// The name at `pos`: the characters between the `/` and the next white
/// space or delimiter, which must be UTF-8.
pub open spec fn spec_name(data: Seq<u8>, pos: int) -> Option<(Seq<char>, int)> {
    if 0 <= pos < data.len() && data[pos] == 0x2F {
        let end = spec_regular_end(data, pos + 1);
        let bytes = data.subrange(pos + 1, end);
        if valid_utf8(bytes) {
            Some((decode_utf8(bytes), end))
        } else {
            None
        }
    } else {
        None
    }
}

/// The object at `pos`, behind white space and comments, and the position
/// behind it. `None` where no object stands.
///
/// A number that is followed by a second number and `R` is a reference; a
/// number that is followed by anything else stands for itself.
pub open spec fn spec_object(data: Seq<u8>, pos: int) -> Option<(Value, int)>
    decreases data.len() - pos, 0nat,
{
    let p = spec_skip_blank(data, pos);
    if pos < 0 || p < pos || p >= data.len() {
        None
    } else if occurs_at(data, p, "null".spec_bytes()) {
        Some((Value::Null, p + "null".spec_bytes().len()))
    } else if occurs_at(data, p, "true".spec_bytes()) {
        Some((Value::Boolean(true), p + "true".spec_bytes().len()))
    } else if occurs_at(data, p, "false".spec_bytes()) {
        Some((Value::Boolean(false), p + "false".spec_bytes().len()))
    } else if data[p] == 0x2F {
        match spec_name(data, p) {
            Some((name, end)) => Some((Value::Name(name), end)),
            None => None,
        }
    } else if data[p] == 0x28 {
        match spec_literal(data, p + 1, 1, false, Seq::empty()) {
            Some((bytes, end)) => Some((Value::String(bytes), end)),
            None => None,
        }
    } else if data[p] == 0x3C {
        if p + 1 < data.len() && data[p + 1] == 0x3C {
            match spec_dict_entries(data, p + 2, Seq::empty()) {
                Some((d, end)) => Some((Value::Dictionary(d), end)),
                None => None,
            }
        } else {
            let scan = spec_hex_digits(data, p + 1, Seq::empty());
            if scan.2 == HexEnd::Closed {
                Some((Value::String(hex_string_bytes(scan.0)), scan.1))
            } else {
                None
            }
        }
    } else if data[p] == 0x5B {
        match spec_array_items(data, p + 1, Seq::empty()) {
            Some((items, end)) => Some((Value::Array(items), end)),
            None => None,
        }
    } else if starts_number(data[p]) {
        let end = spec_number_end(data, p);
        match spec_number(data.subrange(p, end)) {
            None => None,
            Some(num) => {
                let q = spec_skip_whitespace(data, end);
                if q >= data.len() {
                    Some((Value::Number(num), q))
                } else if is_digit(data[q]) && p < end <= data.len() {
                    match spec_reference(data, end, num.spec_to_u32()) {
                        Some(found) => Some(found),
                        None => Some((Value::Number(num), end)),
                    }
                } else {
                    Some((Value::Number(num), end))
                }
            },
        }
    } else {
        None
    }
}

/// The rest of a reference whose object number `num` ends at `pos`: a
/// generation number and `R`.
pub open spec fn spec_reference(data: Seq<u8>, pos: int, num: u32) -> Option<(Value, int)>
    decreases data.len() - pos, 2nat,
{
    let p = spec_skip_whitespace(data, pos);
    if pos < 0 || p < pos || p > data.len() {
        None
    } else {
        match spec_object(data, p) {
            Some((Value::Number(gen), end)) => {
                let q = spec_skip_whitespace(data, end);
                if 0 <= q < data.len() && data[q] == 0x52 {
                    Some((Value::Reference((num, gen.spec_to_u16())), q + 1))
                } else {
                    None
                }
            },
            _ => None,
        }
    }
}

/// The items of an array from `pos` on, appended to `acc`, and the position
/// behind the closing `]`.
pub open spec fn spec_array_items(data: Seq<u8>, pos: int, acc: Seq<Value>) -> Option<
    (Seq<Value>, int),
>
    decreases data.len() - pos, 1nat,
{
    let p = spec_skip_blank(data, pos);
    if pos < 0 || p < pos || p > data.len() {
        None
    } else if p < data.len() && data[p] == 0x5D {
        Some((acc, p + 1))
    } else {
        match spec_object(data, p) {
            None => None,
            Some((item, end)) => if end <= p || end > data.len() {
                None
            } else {
                spec_array_items(data, end, acc.push(item))
            },
        }
    }
}

/// The entries of a dictionary from `pos` on, entered into `acc`, and the
/// position behind the closing `>>`. Every key must be a name.
pub open spec fn spec_dict_entries(data: Seq<u8>, pos: int, acc: Dict) -> Option<(Dict, int)>
    decreases data.len() - pos, 1nat,
{
    let p = spec_skip_blank(data, pos);
    if pos < 0 || p < pos || p > data.len() {
        None
    } else if p + 1 < data.len() && data[p] == 0x3E && data[p + 1] == 0x3E {
        Some((acc, p + 2))
    } else {
        match spec_object(data, p) {
            Some((Value::Name(key), end)) => {
                let q = spec_skip_blank(data, end);
                if end <= p || q < end || q > data.len() {
                    None
                } else {
                    match spec_object(data, q) {
                        None => None,
                        Some((value, next)) => if next <= q || next > data.len() {
                            None
                        } else {
                            spec_dict_entries(data, next, dict_insert(acc, key, value))
                        },
                    }
                }
            },
            _ => None,
        }
    }
}

/// The dictionary at `pos`, behind white space and comments.
pub open spec fn spec_dictionary(data: Seq<u8>, pos: int) -> Option<(Dict, int)> {
    let p = spec_skip_blank(data, pos);
    if 0 <= pos <= p && p + 1 < data.len() && data[p] == 0x3C && data[p + 1] == 0x3C {
        spec_dict_entries(data, p + 2, Seq::empty())
    } else {
        None
    }
}

/// The value of the outcome of reading an object.
pub open spec fn parsed(r: Result<PdfObj, String>) -> Option<Value> {
    match r {
        Ok(o) => Some(o.model()),
        Err(_) => None,
    }
}

impl<'a> Parser<'a> {
    /// The cursor is inside the data or at its end.
    pub open spec fn wf(&self) -> bool {
        self.pos <= self.data@.len() && self.len == self.data@.len()
    }

    /// A cursor at the start of the data.
    pub fn new(data: &'a [u8]) -> (r: Parser<'a>)
        ensures
            r.wf(),
            r.data@ == data@,
            r.pos == 0,
    {
        let len = data.len();
        Parser { data, pos: 0, len }
    }

    /// The byte under the cursor.
    pub fn peek(&self) -> (r: Option<u8>)
        ensures
            r == if self.pos < self.data@.len() {
                Some(self.data@[self.pos as int])
            } else {
                None
            },
    {
        if self.pos < self.data.len() {
            Some(self.data[self.pos])
        } else {
            None
        }
    }

    /// Moves the cursor one byte on.
    pub fn advance(&mut self)
        requires
            old(self).pos < old(self).data@.len(),
            old(self).wf(),
        ensures
            final(self).pos == old(self).pos + 1,
            final(self).data == old(self).data,
            final(self).wf(),
    {
        self.pos += 1;
    }

    /// Whether `pattern` stands at the cursor.
    pub fn remaining_starts_with(&self, pattern: &[u8]) -> (r: bool)
        ensures
            r == occurs_at(self.data@, self.pos as int, pattern@),
    {
        starts_with_at(self.data, self.pos, pattern)
    }

    /// Whether the keyword stands at the cursor.
    pub fn check_keyword(&self, keyword: &str) -> (r: bool)
        ensures
            r == occurs_at(self.data@, self.pos as int, keyword.spec_bytes()),
    {
        starts_with_at(self.data, self.pos, keyword.as_bytes())
    }

    /// Moves the cursor over white space.
    pub fn skip_whitespace(&mut self)
        requires
            old(self).wf(),
        ensures
            final(self).wf(),
            final(self).data == old(self).data,
            final(self).pos == spec_skip_whitespace(old(self).data@, old(self).pos as int),
    {
        self.pos = skip_whitespace_from(self.data, self.pos);
    }

    /// Passes a comment, when one starts at the cursor: the rest of the line
    /// with the end of line character behind it.
    pub fn skip_comment(&mut self)
        requires
            old(self).wf(),
        ensures
            final(self).wf(),
            final(self).data == old(self).data,
            final(self).pos == if old(self).pos < old(self).data@.len() && old(self).data@[old(self).pos as int] == 0x25 {
                crate::lexer::spec_comment_end(old(self).data@, old(self).pos as int)
            } else {
                old(self).pos as int
            },
    {
        if self.pos < self.data.len() && self.data[self.pos] == 0x25 {
            self.pos = crate::lexer::comment_end(self.data, self.pos);
        }
    }

    /// Moves the cursor over white space and comments.
    pub fn skip_whitespace_and_comments(&mut self)
        requires
            old(self).wf(),
        ensures
            final(self).wf(),
            final(self).data == old(self).data,
            final(self).pos == spec_skip_blank(old(self).data@, old(self).pos as int),
    {
        self.pos = skip_blank_from(self.data, self.pos);
    }

    /// Reads the number text at the cursor. The cursor ends behind the text
    /// whether it is a number or not.
    pub fn parse_number(&mut self) -> (r: Result<PdfObj, String>)
        requires
            old(self).wf(),
        ensures
            final(self).wf(),
            final(self).data == old(self).data,
            final(self).pos == spec_number_end(old(self).data@, old(self).pos as int),
            match spec_number(
                old(self).data@.subrange(old(self).pos as int, final(self).pos as int),
            ) {
                Some(n) => r is Ok && r->Ok_0 == PdfObj::Number(n),
                None => r is Err,
            },
    {
        let start = self.pos;
        self.pos = number_end(self.data, start);
        match PdfNumber::parse(vstd::slice::slice_subrange(self.data, start, self.pos)) {
            Some(n) => Ok(PdfObj::Number(n)),
            None => Err(String::from_str("Failed to parse number")),
        }
    }

    fn parse_name(&mut self) -> (r: Result<PdfObj, String>)
        requires
            old(self).wf(),
        ensures
            final(self).wf(),
            final(self).data == old(self).data,
            match spec_name(old(self).data@, old(self).pos as int) {
                Some((name, end)) => r is Ok && r->Ok_0.model() == Value::Name(name)
                    && final(self).pos == end && old(self).pos < end,
                None => r is Err,
            },
    {
        if self.pos >= self.data.len() || self.data[self.pos] != 0x2F {
            return Err(String::from_str("Expected name to start with /"));
        }
        let start = self.pos + 1;
        let end = regular_end(self.data, start);
        match str_from_utf8(vstd::slice::slice_subrange(self.data, start, end)) {
            Some(name) => {
                self.pos = end;
                Ok(PdfObj::Name(String::from_str(name)))
            },
            None => Err(String::from_str("Invalid UTF-8 in name")),
        }
    }

    fn parse_string(&mut self) -> (r: Result<PdfObj, String>)
        requires
            old(self).wf(),
            old(self).pos < old(self).data@.len(),
            old(self).data@[old(self).pos as int] == 0x28,
        ensures
            final(self).wf(),
            final(self).data == old(self).data,
            match spec_literal(old(self).data@, old(self).pos + 1, 1, false, Seq::empty()) {
                Some((bytes, end)) => r is Ok && r->Ok_0.model() == Value::String(bytes)
                    && final(self).pos == end && old(self).pos < end,
                None => r is Err,
            },
    {
        match scan_literal(self.data, self.pos + 1) {
            Some((bytes, end)) => {
                self.pos = end;
                Ok(PdfObj::String(bytes))
            },
            None => Err(String::from_str("Unexpected end of string")),
        }
    }

    fn parse_hex_string(&mut self) -> (r: Result<PdfObj, String>)
        requires
            old(self).wf(),
            old(self).pos < old(self).data@.len(),
            old(self).data@[old(self).pos as int] == 0x3C,
        ensures
            final(self).wf(),
            final(self).data == old(self).data,
            ({
                let scan = spec_hex_digits(old(self).data@, old(self).pos + 1, Seq::empty());
                if scan.2 == HexEnd::Closed {
                    r is Ok && r->Ok_0.model() == Value::String(hex_string_bytes(scan.0))
                        && final(self).pos == scan.1 && old(self).pos < scan.1
                } else {
                    r is Err
                }
            }),
    {
        let (bytes, end, ending) = scan_hex_string(self.data, self.pos + 1);
        match ending {
            HexEnd::Closed => {
                self.pos = end;
                Ok(PdfObj::String(bytes))
            },
            HexEnd::Invalid => Err(String::from_str("Invalid character in hex string")),
            HexEnd::Unclosed => Err(String::from_str("Unexpected end of hex string")),
        }
    }

    fn parse_array(&mut self) -> (r: Result<PdfObj, String>)
        requires
            old(self).wf(),
            old(self).pos < old(self).data@.len(),
            old(self).data@[old(self).pos as int] == 0x5B,
        ensures
            final(self).wf(),
            final(self).data == old(self).data,
            match spec_array_items(old(self).data@, old(self).pos + 1, Seq::empty()) {
                Some((items, end)) => r is Ok && r->Ok_0.model() == Value::Array(items)
                    && final(self).pos == end && old(self).pos < end,
                None => r is Err,
            },
        decreases old(self).data@.len() - old(self).pos, 3nat,
    {
        self.pos += 1;
        let ghost data = self.data@;
        let ghost start = self.pos as int;
        let ghost expected = spec_array_items(data, start, Seq::empty());
        let mut array: Vec<PdfObj> = Vec::new();
        assert(obj_models(array@) =~= Seq::<Value>::empty());
        loop
            invariant
                self.wf(),
                self.data@ == data,
                self.data == old(self).data,
                start <= self.pos,
                start == old(self).pos + 1,
                expected == spec_array_items(old(self).data@, old(self).pos + 1, Seq::empty()),
                spec_array_items(data, self.pos as int, obj_models(array@)) == expected,
            decreases data.len() - self.pos,
        {
            let ghost before = self.pos as int;
            let ghost acc = obj_models(array@);
            proof {
                lemma_skip_blank(data, before);
            }
            self.skip_whitespace_and_comments();
            if self.pos < self.data.len() && self.data[self.pos] == 0x5D {
                self.pos += 1;
                proof {
                    lemma_model_of_array(array);
                }
                return Ok(PdfObj::Array(array));
            }
            let ghost p = self.pos as int;
            let item = match self.parse_object() {
                Ok(o) => o,
                Err(e) => {
                    return Err(e);
                },
            };
            array.push(item);
            assert(obj_models(array@) =~= acc.push(item.model()));
        }
    }

    /// Reads the dictionary at the cursor, behind white space and comments.
    pub fn parse_dictionary(&mut self) -> (r: Result<PdfDict, String>)
        requires
            old(self).wf(),
        ensures
            final(self).wf(),
            final(self).data == old(self).data,
            match spec_dictionary(old(self).data@, old(self).pos as int) {
                Some((d, end)) => r is Ok && r->Ok_0.model() == d && final(self).pos == end
                    && spec_skip_blank(old(self).data@, old(self).pos as int) < end,
                None => r is Err,
            },
        decreases old(self).data@.len() - old(self).pos, 4nat,
    {
        let ghost data = self.data@;
        proof {
            lemma_skip_blank(data, self.pos as int);
        }
        self.skip_whitespace_and_comments();
        if !(self.data.len() - self.pos >= 2 && self.data[self.pos] == 0x3C && self.data[self.pos
            + 1] == 0x3C) {
            return Err(String::from_str("Expected dictionary to start with <<"));
        }
        self.pos += 2;
        let ghost start = self.pos as int;
        let ghost expected = spec_dictionary(data, old(self).pos as int);
        let mut dict = PdfDict::new();
        loop
            invariant
                self.wf(),
                self.data@ == data,
                self.data == old(self).data,
                start <= self.pos,
                start == spec_skip_blank(data, old(self).pos as int) + 2,
                old(self).pos <= start,
                expected == spec_dictionary(old(self).data@, old(self).pos as int),
                spec_dict_entries(data, self.pos as int, dict.model()) == expected,
            decreases data.len() - self.pos,
        {
            let ghost before = self.pos as int;
            let ghost acc = dict.model();
            proof {
                lemma_skip_blank(data, before);
            }
            self.skip_whitespace_and_comments();
            if self.data.len() - self.pos >= 2 && self.data[self.pos] == 0x3E && self.data[self.pos
                + 1] == 0x3E {
                self.pos += 2;
                return Ok(dict);
            }
            let key = match self.parse_object() {
                Ok(PdfObj::Name(name)) => name,
                Ok(_) => {
                    return Err(String::from_str("Dictionary key must be a name"));
                },
                Err(e) => {
                    return Err(e);
                },
            };
            proof {
                lemma_skip_blank(data, self.pos as int);
            }
            self.skip_whitespace_and_comments();
            let value = match self.parse_object() {
                Ok(v) => v,
                Err(e) => {
                    return Err(e);
                },
            };
            dict.insert(key, value);
        }
    }

    fn parse_reference(&mut self, num: u32) -> (r: Result<PdfObj, String>)
        requires
            old(self).wf(),
        ensures
            final(self).wf(),
            final(self).data == old(self).data,
            match spec_reference(old(self).data@, old(self).pos as int, num) {
                Some((v, end)) => r is Ok && r->Ok_0.model() == v && final(self).pos == end
                    && old(self).pos < end,
                None => r is Err,
            },
        decreases old(self).data@.len() - old(self).pos, 6nat,
    {
        proof {
            lemma_skip_whitespace(self.data@, self.pos as int);
        }
        self.skip_whitespace();
        let gen = match self.parse_object() {
            Ok(PdfObj::Number(n)) => n.to_u16(),
            Ok(_) => {
                return Err(String::from_str("Expected generation number"));
            },
            Err(e) => {
                return Err(e);
            },
        };
        proof {
            lemma_skip_whitespace(self.data@, self.pos as int);
        }
        self.skip_whitespace();
        if self.pos < self.data.len() && self.data[self.pos] == 0x52 {
            self.pos += 1;
            Ok(PdfObj::Reference((num, gen)))
        } else {
            Err(String::from_str("Expected R after generation number"))
        }
    }

    fn parse_number_or_reference(&mut self) -> (r: Result<PdfObj, String>)
        requires
            old(self).wf(),
            old(self).pos < old(self).data@.len(),
            starts_number(old(self).data@[old(self).pos as int]),
        ensures
            final(self).wf(),
            final(self).data == old(self).data,
            ({
                let data = old(self).data@;
                let p = old(self).pos as int;
                let end = spec_number_end(data, p);
                match spec_number(data.subrange(p, end)) {
                    None => r is Err,
                    Some(num) => {
                        let q = spec_skip_whitespace(data, end);
                        let expected: (Value, int) = if q >= data.len() {
                            (Value::Number(num), q)
                        } else if is_digit(data[q]) && p < end <= data.len() {
                            match spec_reference(data, end, num.spec_to_u32()) {
                                Some(found) => found,
                                None => (Value::Number(num), end),
                            }
                        } else {
                            (Value::Number(num), end)
                        };
                        r is Ok && r->Ok_0.model() == expected.0 && final(self).pos == expected.1
                            && p < final(self).pos
                    },
                }
            }),
        decreases old(self).data@.len() - old(self).pos, 1nat,
    {
        let ghost data = self.data@;
        proof {
            crate::lexer::lemma_number_end(data, self.pos as int);
        }
        let num = match self.parse_number() {
            Ok(PdfObj::Number(n)) => n,
            Ok(_) => {
                return Err(String::from_str("Failed to parse number"));
            },
            Err(e) => {
                return Err(e);
            },
        };
        let saved_pos = self.pos;
        proof {
            lemma_skip_whitespace(data, saved_pos as int);
        }
        self.skip_whitespace();
        if self.pos >= self.data.len() {
            return Ok(PdfObj::Number(num));
        }
        if self.data[self.pos] >= 0x30 && self.data[self.pos] <= 0x39 {
            self.pos = saved_pos;
            match self.parse_reference(num.to_u32()) {
                Ok(reference) => Ok(reference),
                Err(_) => {
                    self.pos = saved_pos;
                    Ok(PdfObj::Number(num))
                },
            }
        } else {
            self.pos = saved_pos;
            Ok(PdfObj::Number(num))
        }
    }

    /// Reads the object at the cursor.
    pub fn parse_value(&mut self) -> (r: Result<PdfObj, String>)
        requires
            old(self).wf(),
        ensures
            final(self).wf(),
            final(self).data == old(self).data,
            match spec_object(old(self).data@, old(self).pos as int) {
                Some((v, end)) => r is Ok && r->Ok_0.model() == v && final(self).pos == end
                    && spec_skip_blank(old(self).data@, old(self).pos as int) < end,
                None => r is Err,
            },
    {
        self.parse_object()
    }

    /// Reads the object at the cursor, behind white space and comments.
    pub fn parse_object(&mut self) -> (r: Result<PdfObj, String>)
        requires
            old(self).wf(),
        ensures
            final(self).wf(),
            final(self).data == old(self).data,
            match spec_object(old(self).data@, old(self).pos as int) {
                Some((v, end)) => r is Ok && r->Ok_0.model() == v && final(self).pos == end
                    && spec_skip_blank(old(self).data@, old(self).pos as int) < end,
                None => r is Err,
            },
        decreases old(self).data@.len() - old(self).pos, 5nat,
    {
        let ghost data = self.data@;
        proof {
            lemma_skip_blank(data, self.pos as int);
            lemma_keyword_lengths();
        }
        self.skip_whitespace_and_comments();
        let ch = match self.peek() {
            Some(c) => c,
            None => {
                return Err(String::from_str("Unexpected end of input"));
            },
        };
        if self.check_keyword("null") {
            self.pos += 4;
            Ok(PdfObj::Null)
        } else if self.check_keyword("true") {
            self.pos += 4;
            Ok(PdfObj::Boolean(true))
        } else if self.check_keyword("false") {
            self.pos += 5;
            Ok(PdfObj::Boolean(false))
        } else if ch == 0x2F {
            self.parse_name()
        } else if ch == 0x28 {
            self.parse_string()
        } else if ch == 0x3C {
            if self.data.len() - self.pos >= 2 && self.data[self.pos + 1] == 0x3C {
                proof {
                    crate::lexer::lemma_skip_blank(data, self.pos as int);
                }
                match self.parse_dictionary() {
                    Ok(d) => {
                        proof {
                            lemma_model_of_dictionary(d);
                        }
                        Ok(PdfObj::Dictionary(d))
                    },
                    Err(e) => Err(e),
                }
            } else {
                self.parse_hex_string()
            }
        } else if ch == 0x5B {
            self.parse_array()
        } else if (ch >= 0x30 && ch <= 0x39) || ch == 0x2D || ch == 0x2B || ch == 0x2E {
            self.parse_number_or_reference()
        } else {
            Err(String::from_str("Unexpected character"))
        }
    }
}

} // verus!
