use pdf_verify::report::{
    failure_report, find_page, has_pdf_header, rolling_check, rotate, size_accepted,
    success_report, unpack_words, words_for, CODE_BAD_HEADER, CODE_EXTRACTION_FAILED,
    CODE_INVALID_SIZE, FAILURE, MAX_INPUT_SIZE,
};

#[test]
fn sizes_that_are_read() {
    assert!(!size_accepted(0));
    assert!(size_accepted(1));
    assert!(size_accepted(MAX_INPUT_SIZE));
    assert!(!size_accepted(MAX_INPUT_SIZE + 1));
}

#[test]
fn words_that_hold_a_size() {
    assert_eq!(words_for(0), 0);
    assert_eq!(words_for(1), 1);
    assert_eq!(words_for(4), 1);
    assert_eq!(words_for(5), 2);
    assert_eq!(words_for(usize::MAX), usize::MAX / 4 + 1);
}

#[test]
fn bytes_come_out_of_the_high_bits_first() {
    let words = [0x2550_4446u32, 0x2D31_2E34];
    assert_eq!(unpack_words(&words, 8), b"%PDF-1.4".to_vec());
    assert_eq!(unpack_words(&words, 5), b"%PDF-".to_vec());
    assert_eq!(unpack_words(&words, 0), Vec::<u8>::new());
    assert_eq!(unpack_words(&words, 100), b"%PDF-1.4".to_vec());
    assert_eq!(unpack_words(&[], 3), Vec::<u8>::new());
}

#[test]
fn rotation_is_modulo_the_width() {
    assert_eq!(rotate(0x8000_0001, 1), 0x0000_0003);
    assert_eq!(rotate(0x1234_5678, 0), 0x1234_5678);
    assert_eq!(rotate(0x1234_5678, 32), 0x1234_5678);
    assert_eq!(rotate(0x1234_5678, 8), 0x3456_7812);
    assert_eq!(rotate(0x1234_5678, 40), 0x1234_5678u32.rotate_left(40));
}

#[test]
fn check_value_of_a_text() {
    assert_eq!(rolling_check(b"", 32, 7), 0);
    assert_eq!(rolling_check(b"A", 32, 7), 0x41);
    assert_eq!(rolling_check(b"AB", 32, 7), (0x41 << 7) ^ 0x42);
    assert_eq!(rolling_check(b"AB", 1, 7), 0x41);
    assert_eq!(rolling_check(b"AB", 0, 7), 0);
    let mut expected = 0u32;
    for byte in b"Hello".iter() {
        expected = expected.rotate_left(7) ^ u32::from(*byte);
    }
    assert_eq!(rolling_check(b"Hello", 32, 7), expected);
    assert_eq!(rolling_check(b"Hello", 32, 7), 0x8CBB_366B);
}

#[test]
fn the_first_page_with_the_text_is_found() {
    let pages = vec!["One".to_string(), "Two pages".to_string(), "Two".to_string()];
    assert_eq!(find_page(&pages, "Two"), Some(1));
    assert_eq!(find_page(&pages, "One"), Some(0));
    assert_eq!(find_page(&pages, "pages"), Some(1));
    assert_eq!(find_page(&pages, "three"), None);
    assert_eq!(find_page(&pages, ""), Some(0));
    assert_eq!(find_page(&Vec::new(), ""), None);
}

#[test]
fn report_on_a_document() {
    let pages = vec!["Hello".to_string(), "World".to_string()];
    assert_eq!(
        success_report(true, &pages, Some("World"), 1234, 5),
        [1, 1, 1, 2, 1234, 0x8CBB_366B, 5, 0]
    );
    assert_eq!(
        success_report(false, &pages, Some("absent"), 1234, 6),
        [0, 0, 0, 2, 1234, 0x8CBB_366B, 6, 0]
    );
    assert_eq!(success_report(false, &pages, None, 9, 0), [0, 1, 0, 2, 9, 0x8CBB_366B, 0, 0]);
    assert_eq!(success_report(true, &Vec::new(), None, 9, 0), [1, 1, 0, 0, 9, 0, 0, 0]);
}

#[test]
fn report_on_a_failure() {
    assert_eq!(failure_report(CODE_INVALID_SIZE, [7, 7, 0, 0]), [FAILURE, 1, 7, 7, 0, 0, 0, 0]);
    assert_eq!(
        failure_report(CODE_BAD_HEADER, [1, 2, 3, 4]),
        [0xFFFF_FFFF, 5, 1, 2, 3, 4, 0, 0]
    );
    assert_eq!(failure_report(CODE_EXTRACTION_FAILED, [9, 8, 0, 0])[1], 2);
}

#[test]
fn header_of_a_document() {
    assert!(has_pdf_header(b"%PDF-1.7"));
    assert!(has_pdf_header(b"%PDF"));
    assert!(!has_pdf_header(b"%PD"));
    assert!(!has_pdf_header(b" %PDF-1.7"));
    assert!(!has_pdf_header(b""));
}
