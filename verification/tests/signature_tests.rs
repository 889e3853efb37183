use pdf_verify::pkcs7::{parse_signed_data, VerifierParams};
use pdf_verify::rsa_verify::{HashAlgorithm, PublicKey};
use pdf_verify::signature::{
    calculate_pdf_data_hash, check_alg_consistency, check_message_digest, get_hash_algorithm,
    verify_signed_data, SignatureAlgorithm,
};
use pdf_verify::signed_bytes::{
    extract_byte_range, extract_signed_data, find_byte, find_pattern, get_signature_der,
    hex_to_bytes, parse_usize, ByteRange,
};

fn sig_unhex(text: &str) -> Vec<u8> {
    hex_to_bytes(text).unwrap()
}

fn sample_params() -> VerifierParams {
    VerifierParams {
        modulus: Some(vec![1]),
        exponent: Some(vec![1]),
        signature: vec![],
        signed_attrs_message_digest: Some(vec![1, 2, 3]),
        actual_message_digest: Some(vec![1, 2, 3]),
        sig_algorithm: SignatureAlgorithm::Sha256WithRsaEncryption,
        digest_algorithm: Some(vec![2, 16, 840, 1, 101, 3, 4, 2, 1]),
        signed_attrs_der: Some(vec![0x31, 0x00]),
    }
}

#[test]
fn hex_text_decodes_to_bytes() {
    assert_eq!(hex_to_bytes("48656c6c6f"), Ok(b"Hello".to_vec()));
    assert_eq!(hex_to_bytes("DEADbeef"), Ok(vec![0xDE, 0xAD, 0xBE, 0xEF]));
    assert_eq!(hex_to_bytes(""), Ok(vec![]));
}

#[test]
fn hex_text_of_odd_length_gets_a_zero_in_front() {
    assert_eq!(hex_to_bytes("abc"), Ok(vec![0x0a, 0xbc]));
}

#[test]
fn hex_text_is_trimmed() {
    assert_eq!(hex_to_bytes("  0102\n"), Ok(vec![1, 2]));
}

#[test]
fn hex_text_with_another_character_fails() {
    assert!(hex_to_bytes("01g2").is_err());
    assert!(hex_to_bytes("01 02").is_err());
}

#[test]
fn hex_round_trip() {
    let bytes: Vec<u8> = (0..=255u8).collect();
    let text: String = bytes.iter().map(|b| format!("{:02x}", b)).collect();
    assert_eq!(hex_to_bytes(&text), Ok(bytes));
}

#[test]
fn pattern_is_found_at_its_first_place() {
    assert_eq!(find_pattern(b"abcabc", b"bc"), Some(1));
    assert_eq!(find_pattern(b"abcabc", b"abcabc"), Some(0));
    assert_eq!(find_pattern(b"abcabc", b"cb"), None);
    assert_eq!(find_pattern(b"ab", b"abc"), None);
}

#[test]
fn byte_is_found_from_a_start() {
    assert_eq!(find_byte(b"a[b[c", b'[', 0), Some(1));
    assert_eq!(find_byte(b"a[b[c", b'[', 2), Some(3));
    assert_eq!(find_byte(b"a[b[c", b'[', 4), None);
    assert_eq!(find_byte(b"a[b[c", b'[', 9), None);
}

#[test]
fn unsigned_numbers_are_read() {
    assert_eq!(parse_usize(b"0"), Ok(0));
    assert_eq!(parse_usize(b"12345"), Ok(12345));
    assert_eq!(parse_usize(b"+7"), Ok(7));
    assert!(parse_usize(b"").is_err());
    assert!(parse_usize(b"-1").is_err());
    assert!(parse_usize(b"12a").is_err());
    assert!(parse_usize(b"99999999999999999999999999").is_err());
}

#[test]
fn byte_range_is_read() {
    let pdf = b"<< /ByteRange [0 10 20 30] /Contents <00> >>";
    assert_eq!(
        extract_byte_range(pdf),
        Ok(ByteRange { offset1: 0, length1: 10, offset2: 20, length2: 30 })
    );
}

#[test]
fn byte_range_needs_four_numbers() {
    assert!(extract_byte_range(b"/ByteRange [0 10 20]").is_err());
    assert!(extract_byte_range(b"/ByteRange [0 10 20 x]").is_err());
    assert!(extract_byte_range(b"/ByteRange [0 10 20 30").is_err());
    assert!(extract_byte_range(b"no range here").is_err());
}

#[test]
fn signed_data_is_the_two_ranges() {
    let range = ByteRange { offset1: 0, length1: 3, offset2: 5, length2: 2 };
    assert_eq!(extract_signed_data(b"abcdefgh", &range), Ok(b"abcfg".to_vec()));
}

#[test]
fn signed_data_out_of_bounds_fails() {
    let range = ByteRange { offset1: 0, length1: 3, offset2: 5, length2: 9 };
    assert!(extract_signed_data(b"abcdefgh", &range).is_err());
    let range = ByteRange { offset1: usize::MAX, length1: 3, offset2: 0, length2: 0 };
    assert!(extract_signed_data(b"abcdefgh", &range).is_err());
}

#[test]
fn signature_and_signed_bytes_are_located() {
    let pdf = b"AAAA /ByteRange [0 34 40 4] /Contents <0a0b> ZZZZ";
    let (der, signed) = get_signature_der(pdf).unwrap();
    assert_eq!(der, vec![0x0a, 0x0b]);
    let mut expected = pdf[0..34].to_vec();
    expected.extend_from_slice(&pdf[40..44]);
    assert_eq!(signed, expected);
}

#[test]
fn algorithm_consistency_is_checked() {
    let mut params = sample_params();
    assert_eq!(check_alg_consistency(&params), Ok(true));
    params.sig_algorithm = SignatureAlgorithm::Sha1WithRsaEncryption;
    assert_eq!(check_alg_consistency(&params), Ok(false));
    params.digest_algorithm = Some(vec![1, 3, 14, 3, 2, 26]);
    assert_eq!(check_alg_consistency(&params), Ok(true));
    params.digest_algorithm = Some(vec![1, 2, 3]);
    assert!(check_alg_consistency(&params).is_err());
    params.digest_algorithm = None;
    assert!(check_alg_consistency(&params).is_err());
}

#[test]
fn message_digest_is_compared() {
    let mut params = sample_params();
    assert_eq!(check_message_digest(&params), Ok(true));
    params.actual_message_digest = Some(vec![1, 2, 4]);
    assert_eq!(check_message_digest(&params), Ok(false));
    params.signed_attrs_message_digest = None;
    assert!(check_message_digest(&params).is_err());
}

#[test]
fn digest_mismatch_gives_false() {
    let mut params = sample_params();
    assert_eq!(verify_signed_data(&mut params, b"abc"), Ok(false));
}

#[test]
fn hash_algorithm_goes_with_the_signature_algorithm() {
    assert_eq!(
        get_hash_algorithm(&SignatureAlgorithm::Sha1WithRsaEncryption),
        HashAlgorithm::Sha1
    );
    assert_eq!(
        get_hash_algorithm(&SignatureAlgorithm::Sha512WithRsaEncryption),
        HashAlgorithm::Sha512
    );
    assert_eq!(
        SignatureAlgorithm::Sha384WithRsaEncryption.describe(),
        "SHA384 with RSA Encryption"
    );
}

#[test]
fn digests_of_abc() {
    assert_eq!(HashAlgorithm::Sha1.hash(b"abc"), sig_unhex("a9993e364706816aba3e25717850c26c9cd0d89d"));
    assert_eq!(HashAlgorithm::Sha256.hash(b"abc"), sig_unhex("ba7816bf8f01cfea414140de5dae2223b00361a396177a9cb410ff61f20015ad"));
    assert_eq!(HashAlgorithm::Sha384.hash(b"abc"), sig_unhex("cb00753f45a35e8bb5a03d699ac65007272c32ab0eded1631a8b605a43ff5bed8086072ba1e7cc2358baeca134c825a7"));
    assert_eq!(HashAlgorithm::Sha512.hash(b"abc"), sig_unhex("ddaf35a193617abacc417349ae20413112e6fa4e89a97ea20a9eeee64b55d39a2192992a274fc1a836ba3c23a3feebbd454d4423643ce80e2a9ac94fa54ca49f"));
    assert_eq!(
        calculate_pdf_data_hash(b"abc", &SignatureAlgorithm::Sha256WithRsaEncryption),
        Ok(sig_unhex("ba7816bf8f01cfea414140de5dae2223b00361a396177a9cb410ff61f20015ad"))
    );
}

#[test]
fn rsa_signature_over_a_digest() {
    let n = sig_unhex(
        &[
        "ebc57d3c6e5fc76b9a91b82e3b6977243d2bccb80579cc443b6ca019b8b11bf2d5c710b0a89856e3ae93b6db03",
        "226641608aadfd13f9f489018ec4428964957dd67565a09ad26088f7a6442b4fd8373d25801478c412aa8955e7",
        "7a99ed8725ba81425469201a367f0da58835a63d8d521ca2fa09597cc5f74b38cdd07024d6db",
    ]
    .concat(),
    );
    let key = PublicKey::from_components(&n, &[1, 0, 1]).unwrap();
    let hash = sig_unhex("f1b4db36f908e557e2321176b6d345f5a700d4fba979381605327fdc1c8adbf7");
    let signature = sig_unhex(
        &[
        "0a0ac6a5d6ec27991bd59ad8f922c43d03fceb049bcee605fc39412c6853e9107b3aace9002472c680fc974d54",
        "5616a55a828b7925116b53b273479f91f188485a572b9002edad70b394336844c3613daaac55e05b475a28de5b",
        "34dd6e7e5955fb78162ace7d429c207b89a23f50ee35e9ac4b28335068cd9336f0a0281fa142",
    ]
    .concat(),
    );
    assert_eq!(key.verify_pkcs1v15(&hash, &signature, HashAlgorithm::Sha256), Ok(true));
    assert_eq!(key.verify_pkcs1v15(&hash, &signature, HashAlgorithm::Sha1), Ok(false));
    let mut other = hash.clone();
    other[0] ^= 1;
    assert_eq!(key.verify_pkcs1v15(&other, &signature, HashAlgorithm::Sha256), Ok(false));
    assert_eq!(
        key.verify_pkcs1v15(&hash, &signature[1..], HashAlgorithm::Sha256),
        Ok(false)
    );
}

#[test]
fn rsa_key_with_an_even_modulus_is_refused() {
    assert!(PublicKey::from_components(&[0x01, 0x00], &[3]).is_err());
}

#[test]
fn signed_data_is_read() {
    let der = sig_unhex(
        &[
        "308202f806092a864886f70d010702a08202e9308202e5020101310f300d06096086480165030402010500300b",
        "06092a864886f70d010701a08201a7308201a33082010ca003020102020401234567300d06092a864886f70d01",
        "010b05003016311430120603550403130b54657374205369676e6572301e170d3234303130313030303030305a",
        "170d3334303130313030303030305a3016311430120603550403130b54657374205369676e657230819f300d06",
        "092a864886f70d010101050003818d0030818902818100ebc57d3c6e5fc76b9a91b82e3b6977243d2bccb80579",
        "cc443b6ca019b8b11bf2d5c710b0a89856e3ae93b6db03226641608aadfd13f9f489018ec4428964957dd67565",
        "a09ad26088f7a6442b4fd8373d25801478c412aa8955e77a99ed8725ba81425469201a367f0da58835a63d8d52",
        "1ca2fa09597cc5f74b38cdd07024d6db0203010001300d06092a864886f70d01010b050003818100b5d7573a3e",
        "acad112fa491b85ee64efc5a8890486461653029ea47f1ca6e2d43c0055947a64c9712a970e7bb897a9cb36582",
        "2cde3a73043af5f2f225d4c50098ba6747812e4971418eff1ab314413eff43a92747d156b0d24a677f5a8d1d29",
        "44f40522107ff53f320d41aa90958c3a4dc22d82632ce6e07e228def43c29ba46d318201153082011102010130",
        "1e3016311430120603550403130b54657374205369676e6572020401234567300d060960864801650304020105",
        "00a04b301806092a864886f70d010903310b06092a864886f70d010701302f06092a864886f70d010904312204",
        "20ba7816bf8f01cfea414140de5dae2223b00361a396177a9cb410ff61f20015ad300d06092a864886f70d0101",
        "0b0500048180754d1163ea3890b66b4961047d0d55730a8e40c66d809a4b8856e6cc0364ec1bdbc3bec0a37783",
        "24546b0477866dab539c69ed3d744f8849497591496de49d434ea2e396b2fb51d94b03435bad9f365ea0b0c90c",
        "80c8a2d1f6bebf3ef6106083dc53dba92a014520ad12253eb42482cc8b51502f4fa63556bb355e232b7c67b5",
    ]
    .concat(),
    );
    let params = parse_signed_data(&der).unwrap();
    assert_eq!(params.modulus, Some(sig_unhex(
        &[
        "ebc57d3c6e5fc76b9a91b82e3b6977243d2bccb80579cc443b6ca019b8b11bf2d5c710b0a89856e3ae93b6db03",
        "226641608aadfd13f9f489018ec4428964957dd67565a09ad26088f7a6442b4fd8373d25801478c412aa8955e7",
        "7a99ed8725ba81425469201a367f0da58835a63d8d521ca2fa09597cc5f74b38cdd07024d6db",
    ]
    .concat(),
    )));
    assert_eq!(params.exponent, Some(vec![1, 0, 1]));
    assert_eq!(params.signature.len(), 128);
    assert_eq!(params.signed_attrs_message_digest, Some(sig_unhex("ba7816bf8f01cfea414140de5dae2223b00361a396177a9cb410ff61f20015ad")));
    assert_eq!(params.actual_message_digest, None);
    assert_eq!(params.sig_algorithm, SignatureAlgorithm::Sha256WithRsaEncryption);
    assert_eq!(params.digest_algorithm, Some(vec![2, 16, 840, 1, 101, 3, 4, 2, 1]));
    let attrs = params.signed_attrs_der.clone().unwrap();
    assert_eq!(attrs[0], 0x31);
    assert_eq!(attrs[1] as usize, attrs.len() - 2);
}

#[test]
fn signed_data_signature_holds_over_abc() {
    let der = sig_unhex(
        &[
        "308202f806092a864886f70d010702a08202e9308202e5020101310f300d06096086480165030402010500300b",
        "06092a864886f70d010701a08201a7308201a33082010ca003020102020401234567300d06092a864886f70d01",
        "010b05003016311430120603550403130b54657374205369676e6572301e170d3234303130313030303030305a",
        "170d3334303130313030303030305a3016311430120603550403130b54657374205369676e657230819f300d06",
        "092a864886f70d010101050003818d0030818902818100ebc57d3c6e5fc76b9a91b82e3b6977243d2bccb80579",
        "cc443b6ca019b8b11bf2d5c710b0a89856e3ae93b6db03226641608aadfd13f9f489018ec4428964957dd67565",
        "a09ad26088f7a6442b4fd8373d25801478c412aa8955e77a99ed8725ba81425469201a367f0da58835a63d8d52",
        "1ca2fa09597cc5f74b38cdd07024d6db0203010001300d06092a864886f70d01010b050003818100b5d7573a3e",
        "acad112fa491b85ee64efc5a8890486461653029ea47f1ca6e2d43c0055947a64c9712a970e7bb897a9cb36582",
        "2cde3a73043af5f2f225d4c50098ba6747812e4971418eff1ab314413eff43a92747d156b0d24a677f5a8d1d29",
        "44f40522107ff53f320d41aa90958c3a4dc22d82632ce6e07e228def43c29ba46d318201153082011102010130",
        "1e3016311430120603550403130b54657374205369676e6572020401234567300d060960864801650304020105",
        "00a04b301806092a864886f70d010903310b06092a864886f70d010701302f06092a864886f70d010904312204",
        "20ba7816bf8f01cfea414140de5dae2223b00361a396177a9cb410ff61f20015ad300d06092a864886f70d0101",
        "0b0500048180754d1163ea3890b66b4961047d0d55730a8e40c66d809a4b8856e6cc0364ec1bdbc3bec0a37783",
        "24546b0477866dab539c69ed3d744f8849497591496de49d434ea2e396b2fb51d94b03435bad9f365ea0b0c90c",
        "80c8a2d1f6bebf3ef6106083dc53dba92a014520ad12253eb42482cc8b51502f4fa63556bb355e232b7c67b5",
    ]
    .concat(),
    );
    let mut params = parse_signed_data(&der).unwrap();
    assert_eq!(verify_signed_data(&mut params, b"abc"), Ok(true));
    assert_eq!(params.actual_message_digest, Some(sig_unhex("ba7816bf8f01cfea414140de5dae2223b00361a396177a9cb410ff61f20015ad")));
    let mut again = parse_signed_data(&der).unwrap();
    assert_eq!(verify_signed_data(&mut again, b"abd"), Ok(false));
}

#[test]
fn signed_data_that_is_no_der_fails() {
    assert!(parse_signed_data(&[]).is_err());
    assert!(parse_signed_data(&[0x30, 0x05, 0x01]).is_err());
    assert!(parse_signed_data(&[0x02, 0x01, 0x05]).is_err());
}
