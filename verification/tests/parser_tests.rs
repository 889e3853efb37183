use pdf_verify::logger::{Logger, NullLogger};
use pdf_verify::number::PdfNumber;
use pdf_verify::object::{resolve_reference, ObjectTable, PdfDict, PdfObj};
use pdf_verify::parser::Parser;
use pdf_verify::token::{Token, TokenParser};

fn parse(text: &[u8]) -> Result<PdfObj, String> {
    Parser::new(text).parse_object()
}

fn num(negative: bool, whole: u64, frac: u32) -> PdfNumber {
    PdfNumber { negative, whole, frac }
}

#[test]
fn numbers_are_exact_decimals() {
    assert_eq!(PdfNumber::parse(b"12"), Some(num(false, 12, 0)));
    assert_eq!(PdfNumber::parse(b"-200.5"), Some(num(true, 200, 500_000_000)));
    assert_eq!(PdfNumber::parse(b"+.25"), Some(num(false, 0, 250_000_000)));
    assert_eq!(PdfNumber::parse(b"7."), Some(num(false, 7, 0)));
    assert_eq!(PdfNumber::parse(b"0.1234567891"), Some(num(false, 0, 123_456_789)));
    assert_eq!(
        PdfNumber::parse(b"99999999999999999999999"),
        Some(num(false, u64::MAX, 0))
    );
}

#[test]
fn texts_without_a_digit_are_no_numbers() {
    assert_eq!(PdfNumber::parse(b""), None);
    assert_eq!(PdfNumber::parse(b"-"), None);
    assert_eq!(PdfNumber::parse(b"."), None);
    assert_eq!(PdfNumber::parse(b"+."), None);
    assert_eq!(PdfNumber::parse(b"1a"), None);
    assert_eq!(PdfNumber::parse(b"1.2.3"), None);
}

#[test]
fn numbers_are_cut_to_whole_numbers() {
    assert_eq!(num(false, 70000, 900_000_000).to_u32(), 70000);
    assert_eq!(num(false, 70000, 0).to_u16(), u16::MAX);
    assert_eq!(num(true, 5, 0).to_u32(), 0);
    assert_eq!(num(true, 5, 0).to_i32(), -5);
    assert_eq!(num(false, u64::MAX, 0).to_i32(), i32::MAX);
    assert_eq!(num(true, u64::MAX, 0).to_i32(), i32::MIN);
    assert_eq!(num(false, 12, 0).to_usize(), 12);
}

#[test]
fn below_minus_200() {
    assert!(num(true, 201, 0).below_minus_200());
    assert!(num(true, 200, 1).below_minus_200());
    assert!(!num(true, 200, 0).below_minus_200());
    assert!(!num(false, 500, 0).below_minus_200());
}

#[test]
fn simple_objects() {
    assert!(matches!(parse(b" null"), Ok(PdfObj::Null)));
    assert!(matches!(parse(b"true"), Ok(PdfObj::Boolean(true))));
    assert!(matches!(parse(b"false "), Ok(PdfObj::Boolean(false))));
    assert!(matches!(parse(b"/Name#20x"), Ok(PdfObj::Name(n)) if n == "Name#20x"));
    assert!(matches!(parse(b"% note\n 42"), Ok(PdfObj::Number(n)) if n == num(false, 42, 0)));
    assert!(matches!(parse(b"\x00\x0c 5"), Ok(PdfObj::Number(n)) if n == num(false, 5, 0)));
}

#[test]
fn literal_strings() {
    assert!(matches!(parse(b"(Hello)"), Ok(PdfObj::String(s)) if s == b"Hello"));
    assert!(matches!(parse(b"(a(b)c)"), Ok(PdfObj::String(s)) if s == b"a(b)c"));
    assert!(matches!(parse(b"(a\\)b\\n\\\\)"), Ok(PdfObj::String(s)) if s == b"a)b\n\\"));
    assert!(matches!(parse(b"(\\101\\7x\\0534)"), Ok(PdfObj::String(s)) if s == b"A\x07x+4"));
    assert!(matches!(parse(b"(\\777)"), Ok(PdfObj::String(s)) if s == [255u8]));
    assert!(parse(b"(open").is_err());
}

#[test]
fn hex_strings() {
    assert!(matches!(parse(b"<48 65 6c>"), Ok(PdfObj::String(s)) if s == b"Hel"));
    assert!(matches!(parse(b"<>"), Ok(PdfObj::String(s)) if s.is_empty()));
    assert!(parse(b"<4g>").is_err());
    assert!(parse(b"<48").is_err());
}

#[test]
fn hex_string_of_odd_length_ends_in_a_zero_half() {
    assert!(matches!(parse(b"<414>"), Ok(PdfObj::String(s)) if s == [0x41u8, 0x40]));
    assert!(matches!(parse(b"<7>"), Ok(PdfObj::String(s)) if s == [0x70u8]));
}

#[test]
fn references_and_numbers() {
    assert!(matches!(parse(b"12 0 R"), Ok(PdfObj::Reference((12, 0)))));
    assert!(matches!(parse(b"12 0 obj"), Ok(PdfObj::Number(n)) if n == num(false, 12, 0)));
    let mut parser = Parser::new(b"1 2 3 4 R");
    assert!(matches!(parser.parse_object(), Ok(PdfObj::Number(n)) if n == num(false, 1, 0)));
    assert_eq!(parser.pos, 1);
    assert!(matches!(parser.parse_object(), Ok(PdfObj::Number(n)) if n == num(false, 2, 0)));
    assert!(matches!(parser.parse_object(), Ok(PdfObj::Reference((3, 4)))));
}

#[test]
fn arrays_and_dictionaries() {
    match parse(b"[1 (two) /Three [4] 5 0 R]").unwrap() {
        PdfObj::Array(items) => {
            assert_eq!(items.len(), 5);
            assert!(matches!(&items[3], PdfObj::Array(inner) if inner.len() == 1));
            assert!(matches!(items[4], PdfObj::Reference((5, 0))));
        }
        other => panic!("unexpected object {:?}", other),
    }
    match parse(b"<< /A 1 /B << /C (x) >> /A 2 >>").unwrap() {
        PdfObj::Dictionary(dict) => {
            assert_eq!(dict.len(), 2);
            assert!(matches!(dict.get("A"), Some(PdfObj::Number(n)) if *n == num(false, 2, 0)));
            assert!(matches!(dict.get("B"), Some(PdfObj::Dictionary(_))));
            assert!(dict.get("C").is_none());
        }
        other => panic!("unexpected object {:?}", other),
    }
    assert!(parse(b"[1 2").is_err());
    assert!(parse(b"<< /A 1").is_err());
    assert!(parse(b"<< 1 2 >>").is_err());
    assert!(parse(b"").is_err());
    assert!(parse(b"}").is_err());
}

#[test]
fn cursor_helpers() {
    let mut parser = Parser::new(b"  \t% c\n  x");
    assert!(!parser.remaining_starts_with(b"x"));
    parser.skip_whitespace();
    assert_eq!(parser.pos, 3);
    parser.skip_whitespace_and_comments();
    assert_eq!(parser.pos, 9);
    assert!(parser.remaining_starts_with(b"x"));
    assert!(parser.check_keyword("x"));
    assert_eq!(parser.peek(), Some(b'x'));
    parser.advance();
    assert_eq!(parser.peek(), None);
    assert!(!parser.remaining_starts_with(b"x"));
}

#[test]
fn dictionary_insert_replaces() {
    let mut dict = PdfDict::new();
    dict.insert("K".to_string(), PdfObj::Null);
    dict.insert("L".to_string(), PdfObj::Boolean(true));
    dict.insert("K".to_string(), PdfObj::Boolean(false));
    assert_eq!(dict.len(), 2);
    assert!(matches!(dict.get("K"), Some(PdfObj::Boolean(false))));
    assert_eq!(dict.position("L"), Some(1));
}

#[test]
fn object_table_keeps_the_last_object_of_a_reference() {
    let mut table = ObjectTable::new();
    table.insert((1, 0), PdfObj::Null);
    table.insert((1, 1), PdfObj::Boolean(true));
    table.insert((1, 0), PdfObj::Boolean(false));
    assert_eq!(table.len(), 2);
    assert!(matches!(table.get(&(1, 0)), Some(PdfObj::Boolean(false))));
    assert!(matches!(table.get(&(1, 1)), Some(PdfObj::Boolean(true))));
    assert!(table.get(&(2, 0)).is_none());
    assert!(matches!(resolve_reference(&table, &(1, 1)), Some(PdfObj::Boolean(true))));
    assert!(resolve_reference(&table, &(65536, 0)).is_none());
}

#[test]
fn content_tokens() {
    let tokens = TokenParser::new(b"BT /F1 12 Tf [(A) -250 <42>] TJ << >> ET").parse_all();
    assert_eq!(tokens.len(), 13);
    assert!(matches!(&tokens[0], Token::Operator(op) if op == "BT"));
    assert!(matches!(&tokens[1], Token::Name(n) if n == "F1"));
    assert!(matches!(&tokens[2], Token::Number(n) if *n == num(false, 12, 0)));
    assert!(matches!(&tokens[4], Token::ArrayStart));
    assert!(matches!(&tokens[5], Token::String(s) if s == b"A"));
    assert!(matches!(&tokens[6], Token::Number(n) if *n == num(true, 250, 0)));
    assert!(matches!(&tokens[7], Token::String(s) if s == b"B"));
    assert!(matches!(&tokens[8], Token::ArrayEnd));
    assert!(matches!(&tokens[10], Token::DictStart));
    assert!(matches!(&tokens[11], Token::DictEnd));
}

#[test]
fn content_tokens_pass_over_what_is_no_token() {
    let tokens = TokenParser::new(b") - (open").parse_all();
    assert!(tokens.is_empty());
    let tokens = TokenParser::new(b"<4142").parse_all();
    assert!(matches!(&tokens[..], [Token::String(s)] if s == b"AB"));
    let tokens = TokenParser::new(b"<41x> '").parse_all();
    assert_eq!(tokens.len(), 2);
    assert!(matches!(&tokens[0], Token::Operator(op) if op == "x"));
    assert!(matches!(&tokens[1], Token::Operator(op) if op == "'"));
}

#[test]
fn comment_is_passed_to_the_end_of_its_line() {
    let mut parser = Parser::new(b"% one\r% two\nx");
    parser.skip_comment();
    assert_eq!(parser.pos, 6);
    parser.skip_comment();
    assert_eq!(parser.pos, 12);
    parser.skip_comment();
    assert_eq!(parser.pos, 12);
}

#[test]
fn null_logger_takes_any_message() {
    let logger = NullLogger;
    logger.log_debug("nothing happens");
}
