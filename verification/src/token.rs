//! The tokenizer of content streams.
use crate::bytes::str_from_utf8;
use crate::lexer::{
    hex_string_bytes, HexEnd, lemma_skip_whitespace, number_end, regular_end, scan_hex_string,
    scan_literal, skip_whitespace_from, spec_hex_digits, spec_literal, spec_number_end,
    spec_regular_end, spec_skip_whitespace, starts_number,
};
use crate::number::{PdfNumber, spec_number};
use vstd::prelude::*;
use vstd::utf8::{decode_utf8, valid_utf8};

verus! {

/// A token of a content stream.
#[derive(Debug)]
pub enum Token {
    Number(PdfNumber),
    String(Vec<u8>),
    Name(String),
    Operator(String),
    ArrayStart,
    ArrayEnd,
    DictStart,
    DictEnd,
}

/// What a token holds, as a mathematical value.
pub enum Tok {
    Number(PdfNumber),
    String(Seq<u8>),
    Name(Seq<char>),
    Operator(Seq<char>),
    ArrayStart,
    ArrayEnd,
    DictStart,
    DictEnd,
}

impl Token {
    /// The value of the token.
    pub open spec fn model(self) -> Tok {
        match self {
            Token::Number(n) => Tok::Number(n),
            Token::String(b) => Tok::String(b@),
            Token::Name(s) => Tok::Name(s@),
            Token::Operator(s) => Tok::Operator(s@),
            Token::ArrayStart => Tok::ArrayStart,
            Token::ArrayEnd => Tok::ArrayEnd,
            Token::DictStart => Tok::DictStart,
            Token::DictEnd => Tok::DictEnd,
        }
    }
}

/// The values of a run of tokens.
pub open spec fn tok_models(tokens: Seq<Token>) -> Seq<Tok> {
    Seq::new(tokens.len(), |i: int| tokens[i].model())
}

/// The value of an optional token.
pub open spec fn token_model(t: Option<Token>) -> Option<Tok> {
    match t {
        Some(t) => Some(t.model()),
        None => None,
    }
}

/// The text of a run of bytes, when it is UTF-8.
pub open spec fn text_of(bytes: Seq<u8>) -> Option<Seq<char>> {
    if valid_utf8(bytes) {
        Some(decode_utf8(bytes))
    } else {
        None
    }
}

/// The token at `pos`, which holds no white space, and the position behind
/// it. Where no token can be made of the bytes at `pos`, there is none, and
/// the position is behind what was passed over.
pub open spec fn spec_token(data: Seq<u8>, pos: int) -> (Option<Tok>, int) {
    if pos < 0 || pos >= data.len() {
        (None, pos)
    } else if data[pos] == 0x2F {
        let end = spec_regular_end(data, pos + 1);
        match text_of(data.subrange(pos + 1, end)) {
            Some(name) => (Some(Tok::Name(name)), end),
            None => (None, end),
        }
    } else if data[pos] == 0x28 {
        match spec_literal(data, pos + 1, 1, false, Seq::empty()) {
            Some((bytes, end)) => (Some(Tok::String(bytes)), end),
            None => (None, data.len() as int),
        }
    } else if data[pos] == 0x3C {
        if pos + 1 < data.len() && data[pos + 1] == 0x3C {
            (Some(Tok::DictStart), pos + 2)
        } else {
            let scan = spec_hex_digits(data, pos + 1, Seq::empty());
            if scan.2 == HexEnd::Invalid {
                (None, scan.1)
            } else {
                (Some(Tok::String(hex_string_bytes(scan.0))), scan.1)
            }
        }
    } else if data[pos] == 0x3E && pos + 1 < data.len() && data[pos + 1] == 0x3E {
        (Some(Tok::DictEnd), pos + 2)
    } else if data[pos] == 0x5B {
        (Some(Tok::ArrayStart), pos + 1)
    } else if data[pos] == 0x5D {
        (Some(Tok::ArrayEnd), pos + 1)
    } else if starts_number(data[pos]) {
        let end = spec_number_end(data, pos);
        match spec_number(data.subrange(pos, end)) {
            Some(n) => (Some(Tok::Number(n)), end),
            None => (None, end),
        }
    } else {
        let end = spec_regular_end(data, pos);
        if end > pos {
            match text_of(data.subrange(pos, end)) {
                Some(op) => (Some(Tok::Operator(op)), end),
                None => (None, end),
            }
        } else {
            (None, pos + 1)
        }
    }
}

/// The tokens of `data` from `pos` on, appended to `acc`.
pub open spec fn spec_tokens(data: Seq<u8>, pos: int, acc: Seq<Tok>) -> Seq<Tok>
    decreases data.len() - pos,
{
    let p = spec_skip_whitespace(data, pos);
    if pos < 0 || p < pos || p >= data.len() {
        acc
    } else {
        let (token, next) = spec_token(data, p);
        if next <= p || next > data.len() {
            acc
        } else {
            match token {
                Some(t) => spec_tokens(data, next, acc.push(t)),
                None => spec_tokens(data, next, acc),
            }
        }
    }
}

/// A cursor over the bytes of a content stream.
pub struct TokenParser<'a> {
    data: &'a [u8],
    pos: usize,
}

impl<'a> TokenParser<'a> {
    /// The bytes that the cursor runs over.
    pub closed spec fn data(&self) -> Seq<u8> {
        self.data@
    }

    /// The position of the cursor.
    pub closed spec fn pos(&self) -> int {
        self.pos as int
    }

    /// The cursor is inside the data or at its end.
    pub closed spec fn wf(&self) -> bool {
        self.pos <= self.data@.len() <= usize::MAX
    }

    /// A cursor at the start of the data.
    pub fn new(data: &'a [u8]) -> (r: TokenParser<'a>)
        ensures
            r.wf(),
            r.data() == data@,
            r.pos() == 0,
    {
        let _ = data.len();
        TokenParser { data, pos: 0 }
    }

    /// All tokens from the cursor to the end of the data.
    pub fn parse_all(&mut self) -> (r: Vec<Token>)
        requires
            old(self).wf(),
        ensures
            final(self).wf(),
            final(self).data() == old(self).data(),
            tok_models(r@) == spec_tokens(old(self).data(), old(self).pos(), Seq::empty()),
    {
        let ghost data = self.data@;
        let ghost expected = spec_tokens(data, self.pos as int, Seq::empty());
        let mut tokens: Vec<Token> = Vec::new();
        assert(tok_models(tokens@) =~= Seq::<Tok>::empty());
        loop
            invariant
                self.wf(),
                self.data@ == data,
                data == old(self).data@,
                expected == spec_tokens(old(self).data@, old(self).pos as int, Seq::empty()),
                spec_tokens(data, self.pos as int, tok_models(tokens@)) == expected,
            decreases data.len() - self.pos,
        {
            proof {
                lemma_skip_whitespace(data, self.pos as int);
            }
            self.skip_whitespace();
            if self.pos >= self.data.len() {
                proof {
                    lemma_skip_whitespace(data, self.pos as int);
                }
                return tokens;
            }
            let ghost acc = tok_models(tokens@);
            match self.parse_token() {
                Some(token) => {
                    tokens.push(token);
                    assert(tok_models(tokens@) =~= acc.push(token.model()));
                },
                None => {},
            }
        }
    }

    fn parse_token(&mut self) -> (r: Option<Token>)
        requires
            old(self).wf(),
            old(self).pos < old(self).data@.len(),
        ensures
            final(self).wf(),
            final(self).data@ == old(self).data@,
            token_model(r) == spec_token(old(self).data@, old(self).pos as int).0,
            final(self).pos == spec_token(old(self).data@, old(self).pos as int).1,
            old(self).pos < final(self).pos,
    {
        let ch = self.data[self.pos];
        if ch == 0x2F {
            self.parse_name()
        } else if ch == 0x28 {
            self.parse_string()
        } else if ch == 0x3C {
            if self.peek_at(1) == Some(0x3C) {
                self.pos += 2;
                Some(Token::DictStart)
            } else {
                self.parse_hex_string()
            }
        } else if ch == 0x3E && self.peek_at(1) == Some(0x3E) {
            self.pos += 2;
            Some(Token::DictEnd)
        } else if ch == 0x5B {
            self.pos += 1;
            Some(Token::ArrayStart)
        } else if ch == 0x5D {
            self.pos += 1;
            Some(Token::ArrayEnd)
        } else if ch == 0x2D || ch == 0x2B || ch == 0x2E || (0x30 <= ch && ch <= 0x39) {
            self.parse_number()
        } else {
            self.parse_operator()
        }
    }

    fn peek(&self) -> (r: Option<u8>)
        ensures
            r == if self.pos < self.data@.len() {
                Some(self.data@[self.pos as int])
            } else {
                None
            },
    {
        if self.pos < self.data.len() {
            Some(self.data[self.pos])
        } else {
            None
        }
    }

    fn peek_at(&self, offset: usize) -> (r: Option<u8>)
        ensures
            r == if self.pos + offset < self.data@.len() {
                Some(self.data@[self.pos + offset])
            } else {
                None
            },
    {
        if self.pos < self.data.len() && offset < self.data.len() - self.pos {
            Some(self.data[self.pos + offset])
        } else {
            None
        }
    }

    fn skip_whitespace(&mut self)
        requires
            old(self).wf(),
        ensures
            final(self).wf(),
            final(self).data@ == old(self).data@,
            final(self).pos == spec_skip_whitespace(old(self).data@, old(self).pos as int),
    {
        self.pos = skip_whitespace_from(self.data, self.pos);
    }

    fn parse_name(&mut self) -> (r: Option<Token>)
        requires
            old(self).wf(),
            old(self).pos < old(self).data@.len(),
            old(self).data@[old(self).pos as int] == 0x2F,
        ensures
            final(self).wf(),
            final(self).data@ == old(self).data@,
            token_model(r) == spec_token(old(self).data@, old(self).pos as int).0,
            final(self).pos == spec_token(old(self).data@, old(self).pos as int).1,
            old(self).pos < final(self).pos,
    {
        let start = self.pos + 1;
        self.pos = regular_end(self.data, start);
        match str_from_utf8(vstd::slice::slice_subrange(self.data, start, self.pos)) {
            Some(name) => Some(Token::Name(String::from_str(name))),
            None => None,
        }
    }

    fn parse_string(&mut self) -> (r: Option<Token>)
        requires
            old(self).wf(),
            old(self).pos < old(self).data@.len(),
            old(self).data@[old(self).pos as int] == 0x28,
        ensures
            final(self).wf(),
            final(self).data@ == old(self).data@,
            token_model(r) == spec_token(old(self).data@, old(self).pos as int).0,
            final(self).pos == spec_token(old(self).data@, old(self).pos as int).1,
            old(self).pos < final(self).pos,
    {
        match scan_literal(self.data, self.pos + 1) {
            Some((bytes, end)) => {
                self.pos = end;
                Some(Token::String(bytes))
            },
            None => {
                self.pos = self.data.len();
                None
            },
        }
    }

    fn parse_hex_string(&mut self) -> (r: Option<Token>)
        requires
            old(self).wf(),
            old(self).pos < old(self).data@.len(),
            old(self).data@[old(self).pos as int] == 0x3C,
            !(old(self).pos + 1 < old(self).data@.len() && old(self).data@[old(self).pos + 1]
                == 0x3C),
        ensures
            final(self).wf(),
            final(self).data@ == old(self).data@,
            token_model(r) == spec_token(old(self).data@, old(self).pos as int).0,
            final(self).pos == spec_token(old(self).data@, old(self).pos as int).1,
            old(self).pos < final(self).pos,
    {
        let (bytes, end, ending) = scan_hex_string(self.data, self.pos + 1);
        self.pos = end;
        match ending {
            HexEnd::Invalid => None,
            _ => Some(Token::String(bytes)),
        }
    }

    fn parse_number(&mut self) -> (r: Option<Token>)
        requires
            old(self).wf(),
            old(self).pos < old(self).data@.len(),
            starts_number(old(self).data@[old(self).pos as int]),
        ensures
            final(self).wf(),
            final(self).data@ == old(self).data@,
            token_model(r) == spec_token(old(self).data@, old(self).pos as int).0,
            final(self).pos == spec_token(old(self).data@, old(self).pos as int).1,
            old(self).pos < final(self).pos,
    {
        let start = self.pos;
        self.pos = number_end(self.data, start);
        match PdfNumber::parse(vstd::slice::slice_subrange(self.data, start, self.pos)) {
            Some(n) => Some(Token::Number(n)),
            None => None,
        }
    }

    fn parse_operator(&mut self) -> (r: Option<Token>)
        requires
            old(self).wf(),
            old(self).pos < old(self).data@.len(),
            ({
                let ch = old(self).data@[old(self).pos as int];
                ch != 0x2F && ch != 0x28 && ch != 0x3C && ch != 0x5B && ch != 0x5D
                    && !starts_number(ch) && !(ch == 0x3E && old(self).pos + 1 < old(
                    self,
                ).data@.len() && old(self).data@[old(self).pos + 1] == 0x3E)
            }),
        ensures
            final(self).wf(),
            final(self).data@ == old(self).data@,
            token_model(r) == spec_token(old(self).data@, old(self).pos as int).0,
            final(self).pos == spec_token(old(self).data@, old(self).pos as int).1,
            old(self).pos < final(self).pos,
    {
        let start = self.pos;
        let end = regular_end(self.data, start);
        if end > start {
            self.pos = end;
            match str_from_utf8(vstd::slice::slice_subrange(self.data, start, end)) {
                Some(op) => Some(Token::Operator(String::from_str(op))),
                None => None,
            }
        } else {
            self.pos += 1;
            None
        }
    }
}

} // verus!
