use pdf_verify::error::PdfError;
use pdf_verify::number::PdfNumber;
use pdf_verify::object::{DictEntry, PdfDict, PdfObj};
use pdf_verify::stream::{
    apply_decode_parms, apply_filter, apply_png_predictor, decode_ascii85, decode_ascii_hex,
    handle_stream_filters, paeth_predictor,
};

fn entry(key: &str, value: PdfObj) -> DictEntry {
    DictEntry { key: key.to_string(), value }
}

fn name(text: &str) -> PdfObj {
    PdfObj::Name(text.to_string())
}

fn number(n: u64) -> PdfObj {
    PdfObj::Number(PdfNumber::from_u64(n))
}

fn zlib_of_hello() -> Vec<u8> {
    vec![
        0x78, 0x9c, 0xf3, 0x48, 0xcd, 0xc9, 0xc9, 0xd7, 0x51, 0x28, 0x28, 0x4a, 0x4d, 0xc9, 0x4c, 0x2e, 0xc9, 0x2f, 0x52, 0x04, 0x00, 0x37, 0x45, 0x06, 0x2e,
    ]
}

fn bytes_of(r: Result<Vec<u8>, PdfError>) -> Vec<u8> {
    match r {
        Ok(v) => v,
        Err(e) => panic!("{}", e.describe()),
    }
}

#[test]
fn ascii_hex_pairs() {
    assert_eq!(bytes_of(decode_ascii_hex(b"48 65\n6C6c 6F>")), b"Hello".to_vec());
    assert_eq!(bytes_of(decode_ascii_hex(b"")), Vec::<u8>::new());
    assert_eq!(bytes_of(decode_ascii_hex(b">4142")), Vec::<u8>::new());
}

#[test]
fn ascii_hex_odd_last_digit_is_the_high_half() {
    assert_eq!(bytes_of(decode_ascii_hex(b"414>")), vec![0x41, 0x40]);
    assert_eq!(bytes_of(decode_ascii_hex(b"7")), vec![0x70]);
}

#[test]
fn ascii_hex_rejects_other_characters() {
    assert!(matches!(decode_ascii_hex(b"4x"), Err(PdfError::DecompressionError(_))));
}

#[test]
fn ascii85_full_groups() {
    assert_eq!(bytes_of(decode_ascii85(b"87cURDZ~>")), b"Hello".to_vec());
    assert_eq!(bytes_of(decode_ascii85(b"9jqo^~>")), b"Man ".to_vec());
    assert_eq!(bytes_of(decode_ascii85(b"9j qo\n^")), b"Man ".to_vec());
}

#[test]
fn ascii85_z_is_four_zero_bytes() {
    assert_eq!(bytes_of(decode_ascii85(b"z~>")), vec![0, 0, 0, 0]);
    assert_eq!(bytes_of(decode_ascii85(b"z9jqo^z")), b"\0\0\0\0Man \0\0\0\0".to_vec());
    assert!(matches!(decode_ascii85(b"9jzqo^"), Err(PdfError::DecompressionError(_))));
}

#[test]
fn ascii85_partial_group_of_k_digits_gives_k_minus_one_bytes() {
    assert_eq!(bytes_of(decode_ascii85(b"9j~>")), b"M".to_vec());
    assert_eq!(bytes_of(decode_ascii85(b"9jq~>")), b"Ma".to_vec());
    assert_eq!(bytes_of(decode_ascii85(b"9jqo~>")), b"Man".to_vec());
    assert_eq!(bytes_of(decode_ascii85(b"9~>")), Vec::<u8>::new());
}

#[test]
fn ascii85_rejects_other_characters() {
    assert!(matches!(decode_ascii85(b"9jq{"), Err(PdfError::DecompressionError(_))));
}

#[test]
fn paeth_prefers_left_then_above() {
    assert_eq!(paeth_predictor(10, 20, 15), 15);
    assert_eq!(paeth_predictor(5, 5, 5), 5);
    assert_eq!(paeth_predictor(0, 3, 0), 3);
    assert_eq!(paeth_predictor(4, 5, 3), 5);
    assert_eq!(paeth_predictor(7, 6, 5), 7);
    assert_eq!(paeth_predictor(1, 2, 200), 1);
}

#[test]
fn png_predictor_undoes_every_row_filter() {
    let raw = [0, 1, 2, 3, 1, 1, 1, 1, 2, 1, 1, 1, 3, 2, 2, 2, 4, 1, 2, 3];
    assert_eq!(
        bytes_of(apply_png_predictor(&raw, 12, 3)),
        vec![1, 2, 3, 1, 2, 3, 2, 3, 4, 3, 5, 6, 4, 7, 10]
    );
}

#[test]
fn png_predictor_wraps_and_takes_row_kinds_from_ten() {
    assert_eq!(bytes_of(apply_png_predictor(&[1, 200, 100], 10, 2)), vec![200, 44]);
    assert_eq!(bytes_of(apply_png_predictor(&[10, 9, 11, 1, 12, 1], 10, 1)), vec![9, 1, 2]);
    assert_eq!(bytes_of(apply_png_predictor(&[], 10, 4)), Vec::<u8>::new());
}

#[test]
fn png_predictor_needs_whole_rows() {
    assert!(matches!(apply_png_predictor(&[0, 1, 2, 3, 0], 12, 3), Err(PdfError::DecompressionError(_))));
}

#[test]
fn png_predictor_rejects_unknown_row_filters() {
    assert!(matches!(apply_png_predictor(&[5, 1], 12, 1), Err(PdfError::DecompressionError(_))));
    assert!(matches!(apply_png_predictor(&[13, 1], 12, 1), Err(PdfError::DecompressionError(_))));
}

#[test]
fn flate_filter_inflates() {
    let name_of_filter = "FlateDecode".to_string();
    assert_eq!(bytes_of(apply_filter(&name_of_filter, &zlib_of_hello())), b"Hello, predictor!".to_vec());
    assert!(matches!(apply_filter(&name_of_filter, &[]), Err(PdfError::DecompressionError(_))));
    assert!(matches!(apply_filter(&name_of_filter, &[1, 2, 3]), Err(PdfError::DecompressionError(_))));
}

#[test]
fn unknown_filter_fails() {
    assert!(matches!(
        apply_filter(&"LZWDecode".to_string(), b"abc"),
        Err(PdfError::DecompressionError(_))
    ));
}

#[test]
fn decode_parms_choose_the_predictor() {
    let parms = PdfObj::Dictionary(PdfDict {
        entries: vec![entry("Predictor", number(12)), entry("Columns", number(1))],
    });
    assert_eq!(bytes_of(apply_decode_parms(&[0, 7, 2, 1], &parms)), vec![7, 8]);
    let plain = PdfObj::Dictionary(PdfDict { entries: vec![entry("Predictor", number(1))] });
    assert_eq!(bytes_of(apply_decode_parms(&[0, 7], &plain)), vec![0, 7]);
    assert_eq!(bytes_of(apply_decode_parms(&[0, 7], &PdfObj::Null)), vec![0, 7]);
    let tiff = PdfObj::Dictionary(PdfDict { entries: vec![entry("Predictor", number(2))] });
    assert!(apply_decode_parms(&[0, 7], &tiff).is_err());
    let no_columns = PdfObj::Dictionary(PdfDict { entries: vec![entry("Predictor", number(12))] });
    assert!(apply_decode_parms(&[0, 7], &no_columns).is_err());
    assert!(apply_decode_parms(&[0, 7], &name("x")).is_err());
}

#[test]
fn stream_without_filter_is_left_as_it_is() {
    let dict = PdfDict { entries: vec![entry("Length", number(3))] };
    assert_eq!(bytes_of(handle_stream_filters(&dict, b"abc")), b"abc".to_vec());
}

#[test]
fn filter_chain_runs_in_order() {
    let dict = PdfDict {
        entries: vec![entry(
            "Filter",
            PdfObj::Array(vec![name("ASCIIHexDecode"), name("ASCII85Decode")]),
        )],
    };
    assert_eq!(bytes_of(handle_stream_filters(&dict, b"39 6A 71 6F 5E>")), b"Man ".to_vec());
}

#[test]
fn predictor_on_partial_rows_is_a_decompression_error() {
    let dict = PdfDict {
        entries: vec![
            entry("Filter", name("FlateDecode")),
            entry(
                "DecodeParms",
                PdfObj::Dictionary(PdfDict {
                    entries: vec![entry("Predictor", number(12)), entry("Columns", number(4))],
                }),
            ),
        ],
    };
    assert!(matches!(
        handle_stream_filters(&dict, &zlib_of_hello()),
        Err(PdfError::DecompressionError(_))
    ));
}

#[test]
fn invalid_filter_entry_fails() {
    let dict = PdfDict { entries: vec![entry("Filter", number(3))] };
    assert!(handle_stream_filters(&dict, b"abc").is_err());
}

#[test]
fn flate_round_trip() {
    let data: Vec<u8> = (0..2000u32).map(|i| (i * 7 % 251) as u8).collect();
    let packed = miniz_oxide::deflate::compress_to_vec_zlib(&data, 6);
    let dict = PdfDict { entries: vec![entry("Filter", name("FlateDecode"))] };
    let unpacked = bytes_of(handle_stream_filters(&dict, &packed));
    assert_eq!(unpacked, data);
    let again = miniz_oxide::deflate::compress_to_vec_zlib(&unpacked, 1);
    assert_eq!(bytes_of(handle_stream_filters(&dict, &again)), data);
}

#[test]
fn flate_round_trip_after_predictor_removal() {
    let rows: Vec<u8> = vec![2, 1, 2, 3, 2, 1, 1, 1, 1, 5, 5, 5];
    let packed = miniz_oxide::deflate::compress_to_vec_zlib(&rows, 6);
    let dict = PdfDict {
        entries: vec![
            entry("Filter", name("FlateDecode")),
            entry(
                "DecodeParms",
                PdfObj::Dictionary(PdfDict {
                    entries: vec![entry("Predictor", number(15)), entry("Columns", number(3))],
                }),
            ),
        ],
    };
    let first = bytes_of(handle_stream_filters(&dict, &packed));
    assert_eq!(first, vec![1, 2, 3, 2, 3, 4, 5, 10, 15]);
    let repacked = miniz_oxide::deflate::compress_to_vec_zlib(&rows, 9);
    assert_eq!(bytes_of(handle_stream_filters(&dict, &repacked)), first);
}
