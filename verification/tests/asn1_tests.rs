use pdf_verify::asn1::{ASN1Block, ASN1Class, ASN1DecodeErr, SignedBigInt, Uint256, OID};
use pdf_verify::der::{decode_base127, decode_class, decode_length, decode_tag, from_der};

fn small(n: u64) -> Uint256 {
    Uint256::from_u64(n)
}

#[test]
fn class_is_in_the_two_high_bits() {
    assert!(matches!(decode_class(0x30), Ok(ASN1Class::Universal)));
    assert!(matches!(decode_class(0x41), Ok(ASN1Class::Application)));
    assert!(matches!(decode_class(0xA0), Ok(ASN1Class::ContextSpecific)));
    assert!(matches!(decode_class(0xC1), Ok(ASN1Class::Private)));
}

#[test]
fn short_length_is_the_byte_itself() {
    let mut index = 0;
    assert!(matches!(decode_length(&[0x7f, 0x00], &mut index), Ok(127)));
    assert_eq!(index, 1);
}

#[test]
fn long_length_is_big_endian() {
    let mut index = 1;
    assert!(matches!(decode_length(&[0x30, 0x82, 0x01, 0x02, 0xff], &mut index), Ok(258)));
    assert_eq!(index, 4);
}

#[test]
fn length_errors() {
    let mut index = 0;
    assert!(matches!(decode_length(&[], &mut index), Err(ASN1DecodeErr::Incomplete)));
    let mut index = 0;
    assert!(matches!(decode_length(&[0x82, 0x01], &mut index), Err(ASN1DecodeErr::Incomplete)));
    let mut index = 0;
    assert!(matches!(
        decode_length(&[0x89, 1, 2, 3, 4, 5, 6, 7, 8, 9], &mut index),
        Err(ASN1DecodeErr::LengthTooLarge(9))
    ));
}

#[test]
fn base_128_number() {
    let mut index = 0;
    assert_eq!(decode_base127(&[0x86, 0x48], &mut index).unwrap(), small(840));
    assert_eq!(index, 2);
    let mut index = 0;
    assert_eq!(decode_base127(&[0x86, 0xf7, 0x0d], &mut index).unwrap(), small(113549));
    let mut index = 0;
    assert!(matches!(decode_base127(&[0x86], &mut index), Err(ASN1DecodeErr::Incomplete)));
}

#[test]
fn base_128_number_beyond_64_bits() {
    let mut bytes = vec![0x81u8];
    bytes.extend_from_slice(&[0x80; 9]);
    bytes.push(0x00);
    let mut index = 0;
    let value = decode_base127(&bytes, &mut index).unwrap();
    assert_eq!(value, Uint256 { w0: 0, w1: 64, w2: 0, w3: 0 });
}

#[test]
fn tag_with_low_and_high_form() {
    let mut index = 0;
    let (tag, constructed, class) = decode_tag(&[0x30], &mut index).unwrap();
    assert_eq!(tag, small(0x10));
    assert!(constructed);
    assert_eq!(class, ASN1Class::Universal);
    let mut index = 0;
    let (tag, constructed, class) = decode_tag(&[0x9f, 0x81, 0x01], &mut index).unwrap();
    assert_eq!(tag, small(129));
    assert!(!constructed);
    assert_eq!(class, ASN1Class::ContextSpecific);
    assert_eq!(index, 3);
}

#[test]
fn signed_bytes_keep_their_length() {
    let n = SignedBigInt::from_signed_bytes_be(&[0x00, 0xff]);
    assert_eq!(n.bytes, vec![0x00, 0xff]);
    assert!(!n.negative);
    let n = SignedBigInt::from_signed_bytes_be(&[]);
    assert_eq!(n.bytes, vec![0]);
    assert!(!n.negative);
}

#[test]
fn negative_signed_bytes_are_complemented() {
    let n = SignedBigInt::from_signed_bytes_be(&[0xff]);
    assert_eq!(n.bytes, vec![0x01]);
    assert!(n.negative);
    let n = SignedBigInt::from_signed_bytes_be(&[0xff, 0x00]);
    assert_eq!(n.bytes, vec![0x01, 0x00]);
    assert!(n.negative);
    let n = SignedBigInt::from_signed_bytes_be(&[0x80, 0x00, 0x00]);
    assert_eq!(n.bytes, vec![0x80, 0x00, 0x00]);
    assert!(n.negative);
    let n = SignedBigInt::from_signed_bytes_be(&[0xfe, 0xd4]);
    assert_eq!(n.bytes, vec![0x01, 0x2c]);
}

#[test]
fn object_identifier_components() {
    let blocks = from_der(&[0x06, 0x09, 0x2a, 0x86, 0x48, 0x86, 0xf7, 0x0d, 0x01, 0x07, 0x02]).unwrap();
    assert_eq!(blocks.len(), 1);
    match &blocks[0] {
        ASN1Block::ObjectIdentifier(offset, id) => {
            assert_eq!(*offset, 0);
            assert_eq!(id.as_vec(), vec![1, 2, 840, 113549, 1, 7, 2]);
            assert!(id.same_as(&OID::from_slice(&[1, 2, 840, 113549, 1, 7, 2])));
            assert!(!id.same_as(&OID::from_slice(&[1, 2, 840, 113549, 1, 7, 1])));
        }
        other => panic!("unexpected block {:?}", other),
    }
    let blocks = from_der(&[0x06, 0x03, 0x60, 0x86, 0x48]).unwrap();
    match &blocks[0] {
        ASN1Block::ObjectIdentifier(_, id) => assert_eq!(id.as_vec(), vec![2, 16, 840]),
        other => panic!("unexpected block {:?}", other),
    }
}

#[test]
fn sequence_with_offsets() {
    let der = [0x30, 0x09, 0x02, 0x01, 0x05, 0x04, 0x02, 0xaa, 0xbb, 0x05, 0x00];
    let blocks = from_der(&der).unwrap();
    assert_eq!(blocks.len(), 1);
    assert_eq!(blocks[0].offset(), 0);
    assert_eq!(blocks[0].class(), ASN1Class::Universal);
    match &blocks[0] {
        ASN1Block::Sequence(_, items) => {
            assert_eq!(items.len(), 3);
            match &items[0] {
                ASN1Block::Integer(offset, n) => {
                    assert_eq!(*offset, 2);
                    assert_eq!(n.bytes, vec![5]);
                }
                other => panic!("unexpected block {:?}", other),
            }
            match &items[1] {
                ASN1Block::OctetString(offset, data) => {
                    assert_eq!(*offset, 5);
                    assert_eq!(data, &vec![0xaa, 0xbb]);
                }
                other => panic!("unexpected block {:?}", other),
            }
            assert!(matches!(items[2], ASN1Block::Null(9)));
        }
        other => panic!("unexpected block {:?}", other),
    }
}

#[test]
fn set_and_strings() {
    let der = [
        0x31, 0x0e, 0x0c, 0x02, 0xc3, 0xa9, 0x13, 0x02, b'A', b'b', 0x16, 0x01, b'@', 0x01, 0x01,
        0xff,
    ];
    let blocks = from_der(&der).unwrap();
    match &blocks[0] {
        ASN1Block::SetOf(_, items) => {
            assert!(matches!(&items[0], ASN1Block::UTF8String(2, s) if s == "\u{e9}"));
            assert!(matches!(&items[1], ASN1Block::PrintableString(6, s) if s == "Ab"));
            assert!(matches!(&items[2], ASN1Block::IA5String(10, s) if s == "@"));
            assert!(matches!(&items[3], ASN1Block::Boolean(13, true)));
        }
        other => panic!("unexpected block {:?}", other),
    }
}

#[test]
fn bit_string_counts_its_bits() {
    let blocks = from_der(&[0x03, 0x03, 0x04, 0xff, 0xf0]).unwrap();
    match &blocks[0] {
        ASN1Block::BitString(_, bits, data) => {
            assert_eq!(*bits, 12);
            assert_eq!(data, &vec![0xff, 0xf0]);
        }
        other => panic!("unexpected block {:?}", other),
    }
}

#[test]
fn explicit_and_unknown_blocks() {
    let blocks = from_der(&[0xa0, 0x03, 0x02, 0x01, 0x02]).unwrap();
    match &blocks[0] {
        ASN1Block::Explicit(class, offset, tag, inner) => {
            assert_eq!(*class, ASN1Class::ContextSpecific);
            assert_eq!(*offset, 0);
            assert!(tag.is_zero());
            assert!(matches!(**inner, ASN1Block::Integer(2, _)));
        }
        other => panic!("unexpected block {:?}", other),
    }
    let blocks = from_der(&[0xa0, 0x06, 0x02, 0x01, 0x02, 0x02, 0x01, 0x03]).unwrap();
    match &blocks[0] {
        ASN1Block::Unknown(class, constructed, _, tag, body) => {
            assert_eq!(*class, ASN1Class::ContextSpecific);
            assert!(*constructed);
            assert!(tag.is_zero());
            assert_eq!(body, &vec![0x02, 0x01, 0x02, 0x02, 0x01, 0x03]);
        }
        other => panic!("unexpected block {:?}", other),
    }
    let blocks = from_der(&[0x81, 0x02, 0x01, 0x02]).unwrap();
    assert!(matches!(&blocks[0], ASN1Block::Unknown(ASN1Class::ContextSpecific, false, 0, _, _)));
}

#[test]
fn decoding_errors() {
    assert!(matches!(from_der(&[]), Err(ASN1DecodeErr::EmptyBuffer)));
    assert!(matches!(from_der(&[0x30, 0x00]), Err(ASN1DecodeErr::EmptyBuffer)));
    assert!(matches!(from_der(&[0x02]), Err(ASN1DecodeErr::Incomplete)));
    assert!(matches!(from_der(&[0x02, 0x05, 0x01]), Err(ASN1DecodeErr::Incomplete)));
    assert!(matches!(from_der(&[0x01, 0x02, 0x00, 0x00]), Err(ASN1DecodeErr::BadBooleanLength(2))));
    assert!(matches!(from_der(&[0x0c, 0x01, 0xff]), Err(ASN1DecodeErr::UTF8DecodeFailure)));
    assert!(matches!(
        from_der(&[0x13, 0x01, b'*']),
        Err(ASN1DecodeErr::PrintableStringDecodeFailure)
    ));
    assert!(matches!(
        from_der(&[0x03, 0x02, 0x09, 0x00]),
        Err(ASN1DecodeErr::InvalidBitStringLength(-1))
    ));
    assert!(matches!(from_der(&[0x06, 0x00]), Err(ASN1DecodeErr::Incomplete)));
}

#[test]
fn deep_copy_keeps_the_block() {
    let der = [0x30, 0x09, 0x02, 0x01, 0x05, 0x04, 0x02, 0xaa, 0xbb, 0x05, 0x00];
    let blocks = from_der(&der).unwrap();
    let copy = blocks[0].deep_clone();
    assert_eq!(format!("{:?}", copy), format!("{:?}", blocks[0]));
}

#[test]
fn blocks_are_compared_without_their_offsets() {
    let one = from_der(&[0x30, 0x03, 0x02, 0x01, 0x05]).unwrap();
    let two = from_der(&[0x04, 0x01, 0x00, 0x30, 0x03, 0x02, 0x01, 0x05]).unwrap();
    assert!(one[0].same_content(&two[1]));
    assert!(!one[0].same_content(&two[0]));
    let other = from_der(&[0x30, 0x03, 0x02, 0x01, 0x06]).unwrap();
    assert!(!one[0].same_content(&other[0]));
    let text = from_der(&[0x0c, 0x01, b'a']).unwrap();
    assert!(!text[0].same_content(&text[0]));
}
