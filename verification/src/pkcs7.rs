//! Reading a CMS SignedData: the signer's key, the signed attributes and the
//! signature.
use crate::asn1::{
    ASN1Block, ASN1Class, Block, clone_blocks, lemma_model_of_sequence, models, OID, oid_low_words,
    Uint256,
};
use crate::bytes::bytes_eq;
use crate::der::{from_der, spec_from_der};
use crate::signature::SignatureAlgorithm;
use vstd::prelude::*;

verus! {

/// What a signature verification needs, as read from the SignedData.
pub struct VerifierParams {
    pub modulus: Option<Vec<u8>>,
    pub exponent: Option<Vec<u8>>,
    pub signature: Vec<u8>,
    pub signed_attrs_message_digest: Option<Vec<u8>>,
    pub actual_message_digest: Option<Vec<u8>>,
    pub sig_algorithm: SignatureAlgorithm,
    pub digest_algorithm: Option<Vec<u64>>,
    pub signed_attrs_der: Option<Vec<u8>>,
}

/// The value of a `VerifierParams`.
pub struct Params {
    pub modulus: Option<Seq<u8>>,
    pub exponent: Option<Seq<u8>>,
    pub signature: Seq<u8>,
    pub signed_attrs_message_digest: Option<Seq<u8>>,
    pub actual_message_digest: Option<Seq<u8>>,
    pub sig_algorithm: SignatureAlgorithm,
    pub digest_algorithm: Option<Seq<u64>>,
    pub signed_attrs_der: Option<Seq<u8>>,
}

/// The bytes of an optional vector.
pub open spec fn bytes_model(v: Option<Vec<u8>>) -> Option<Seq<u8>> {
    match v {
        Some(b) => Some(b@),
        None => None,
    }
}

/// The words of an optional vector.
pub open spec fn words_model(v: Option<Vec<u64>>) -> Option<Seq<u64>> {
    match v {
        Some(b) => Some(b@),
        None => None,
    }
}

impl VerifierParams {
    /// The value of the parameters.
    pub open spec fn model(self) -> Params {
        Params {
            modulus: bytes_model(self.modulus),
            exponent: bytes_model(self.exponent),
            signature: self.signature@,
            signed_attrs_message_digest: bytes_model(self.signed_attrs_message_digest),
            actual_message_digest: bytes_model(self.actual_message_digest),
            sig_algorithm: self.sig_algorithm,
            digest_algorithm: words_model(self.digest_algorithm),
            signed_attrs_der: bytes_model(self.signed_attrs_der),
        }
    }
}

/// The identifier whose components are the given numbers.
pub open spec fn oid_components(values: Seq<u64>) -> Seq<Uint256> {
    values.map_values(|v: u64| Uint256::spec_from_u64(v))
}

/// id-signedData, 1.2.840.113549.1.7.2.
pub open spec fn signed_data_oid() -> Seq<u64> {
    seq![1u64, 2, 840, 113549, 1, 7, 2]
}

/// rsaEncryption, 1.2.840.113549.1.1.1.
pub open spec fn rsa_encryption_oid() -> Seq<u64> {
    seq![1u64, 2, 840, 113549, 1, 1, 1]
}

/// id-messageDigest, 1.2.840.113549.1.9.4.
pub open spec fn message_digest_oid() -> Seq<u64> {
    seq![1u64, 2, 840, 113549, 1, 9, 4]
}

fn make_signed_data_oid() -> (r: OID)
    ensures
        r.0@ == oid_components(signed_data_oid()),
{
    let v: Vec<u64> = vec![1u64, 2, 840, 113549, 1, 7, 2];
    assert(v@ =~= signed_data_oid());
    OID::from_slice(v.as_slice())
}

fn make_rsa_encryption_oid() -> (r: OID)
    ensures
        r.0@ == oid_components(rsa_encryption_oid()),
{
    let v: Vec<u64> = vec![1u64, 2, 840, 113549, 1, 1, 1];
    assert(v@ =~= rsa_encryption_oid());
    OID::from_slice(v.as_slice())
}

fn make_message_digest_oid() -> (r: OID)
    ensures
        r.0@ == oid_components(message_digest_oid()),
{
    let v: Vec<u64> = vec![1u64, 2, 840, 113549, 1, 9, 4];
    assert(v@ =~= message_digest_oid());
    OID::from_slice(v.as_slice())
}

/// The signature algorithm that a digest identifier selects:
/// 1.3.14.3.2.26 is SHA-1, 2.16.840.1.101.3.4.2.1, .2 and .3 are SHA-256,
/// SHA-384 and SHA-512.
pub open spec fn spec_signed_algorithm(words: Seq<u64>) -> Option<SignatureAlgorithm> {
    if words == seq![2u64, 16, 840, 1, 101, 3, 4, 2, 1] {
        Some(SignatureAlgorithm::Sha256WithRsaEncryption)
    } else if words == seq![2u64, 16, 840, 1, 101, 3, 4, 2, 2] {
        Some(SignatureAlgorithm::Sha384WithRsaEncryption)
    } else if words == seq![2u64, 16, 840, 1, 101, 3, 4, 2, 3] {
        Some(SignatureAlgorithm::Sha512WithRsaEncryption)
    } else if words == seq![1u64, 3, 14, 3, 2, 26] {
        Some(SignatureAlgorithm::Sha1WithRsaEncryption)
    } else {
        None
    }
}

/// Whether `words` is `2.16.840.1.101.3.4.2.last`.
fn is_sha2_oid(words: &[u64], last: u64) -> (r: bool)
    ensures
        r == (words@ == seq![2u64, 16, 840, 1, 101, 3, 4, 2, last]),
{
    let r = words.len() == 9 && words[0] == 2 && words[1] == 16 && words[2] == 840 && words[3] == 1
        && words[4] == 101 && words[5] == 3 && words[6] == 4 && words[7] == 2 && words[8] == last;
    if r {
        assert(words@ =~= seq![2u64, 16, 840, 1, 101, 3, 4, 2, last]);
    }
    r
}

fn is_sha1_oid(words: &[u64]) -> (r: bool)
    ensures
        r == (words@ == seq![1u64, 3, 14, 3, 2, 26]),
{
    let r = words.len() == 6 && words[0] == 1 && words[1] == 3 && words[2] == 14 && words[3] == 3
        && words[4] == 2 && words[5] == 26;
    if r {
        assert(words@ =~= seq![1u64, 3, 14, 3, 2, 26]);
    }
    r
}

/// The signature algorithm that the low words of a digest identifier select.
pub fn signed_algorithm_of_words(words: &[u64]) -> (r: Option<SignatureAlgorithm>)
    ensures
        r == spec_signed_algorithm(words@),
{
    if is_sha2_oid(words, 1) {
        Some(SignatureAlgorithm::Sha256WithRsaEncryption)
    } else if is_sha2_oid(words, 2) {
        Some(SignatureAlgorithm::Sha384WithRsaEncryption)
    } else if is_sha2_oid(words, 3) {
        Some(SignatureAlgorithm::Sha512WithRsaEncryption)
    } else if is_sha1_oid(words) {
        Some(SignatureAlgorithm::Sha1WithRsaEncryption)
    } else {
        None
    }
}

/// The signature algorithm that goes with a digest identifier.
pub fn compute_signed_algorithm(digest_oid: &OID) -> (r: Result<SignatureAlgorithm, String>)
    ensures
        match spec_signed_algorithm(oid_low_words(digest_oid.0@)) {
            Some(a) => r == Ok::<SignatureAlgorithm, String>(a),
            None => r is Err,
        },
{
    let oid_vec = digest_oid.as_vec();
    match signed_algorithm_of_words(oid_vec.as_slice()) {
        Some(a) => Ok(a),
        None => Err(String::from_str("Unsupported digest OID")),
    }
}

/// The signature algorithm that an identifier of the form
/// 1.2.840.113549.1.1.n names: n = 5, 11, 12 and 13 are RSA with SHA-1,
/// SHA-256, SHA-384 and SHA-512.
pub open spec fn spec_rsa_signature_algorithm(words: Seq<u64>) -> Option<SignatureAlgorithm> {
    if words == seq![1u64, 2, 840, 113549, 1, 1, 5] {
        Some(SignatureAlgorithm::Sha1WithRsaEncryption)
    } else if words == seq![1u64, 2, 840, 113549, 1, 1, 11] {
        Some(SignatureAlgorithm::Sha256WithRsaEncryption)
    } else if words == seq![1u64, 2, 840, 113549, 1, 1, 12] {
        Some(SignatureAlgorithm::Sha384WithRsaEncryption)
    } else if words == seq![1u64, 2, 840, 113549, 1, 1, 13] {
        Some(SignatureAlgorithm::Sha512WithRsaEncryption)
    } else {
        None
    }
}

fn is_pkcs1_oid(words: &[u64], last: u64) -> (r: bool)
    ensures
        r == (words@ == seq![1u64, 2, 840, 113549, 1, 1, last]),
{
    let r = words.len() == 7 && words[0] == 1 && words[1] == 2 && words[2] == 840 && words[3]
        == 113549 && words[4] == 1 && words[5] == 1 && words[6] == last;
    if r {
        assert(words@ =~= seq![1u64, 2, 840, 113549, 1, 1, last]);
    }
    r
}

/// The signature algorithm that the low words of an RSA-with-hash identifier
/// name.
pub fn rsa_signature_algorithm_of_words(words: &[u64]) -> (r: Option<SignatureAlgorithm>)
    ensures
        r == spec_rsa_signature_algorithm(words@),
{
    if is_pkcs1_oid(words, 5) {
        Some(SignatureAlgorithm::Sha1WithRsaEncryption)
    } else if is_pkcs1_oid(words, 11) {
        Some(SignatureAlgorithm::Sha256WithRsaEncryption)
    } else if is_pkcs1_oid(words, 12) {
        Some(SignatureAlgorithm::Sha384WithRsaEncryption)
    } else if is_pkcs1_oid(words, 13) {
        Some(SignatureAlgorithm::Sha512WithRsaEncryption)
    } else {
        None
    }
}

/// The fields of the ContentInfo: the first block must be a SEQUENCE that
/// starts with the identifier of SignedData.
pub open spec fn spec_content_info(blocks: Seq<Block>) -> Option<Seq<Block>> {
    if blocks.len() > 0 && blocks[0] is Sequence && blocks[0]->Sequence_1.len() > 0
        && blocks[0]->Sequence_1[0] is ObjectIdentifier
        && blocks[0]->Sequence_1[0]->ObjectIdentifier_1 == oid_components(signed_data_oid()) {
        Some(blocks[0]->Sequence_1)
    } else {
        None
    }
}

/// The fields of the ContentInfo.
pub fn extract_content_info(blocks: &Vec<ASN1Block>) -> (r: Result<&Vec<ASN1Block>, String>)
    ensures
        match spec_content_info(models(blocks@)) {
            Some(children) => r is Ok && models(r->Ok_0@) == children,
            None => r is Err,
        },
{
    if blocks.len() == 0 {
        return Err(String::from_str("Top-level not a SEQUENCE"));
    }
    match &blocks[0] {
        ASN1Block::Sequence(o, children) => {
            proof {
                lemma_model_of_sequence(*o, *children);
            }
            if children.len() == 0 {
                return Err(String::from_str("Missing contentType OID"));
            }
            match &children[0] {
                ASN1Block::ObjectIdentifier(_, oid_val) => {
                    let expected = make_signed_data_oid();
                    if oid_val.same_as(&expected) {
                        Ok(children)
                    } else {
                        Err(String::from_str("Not a SignedData contentType"))
                    }
                },
                _ => Err(String::from_str("Missing contentType OID")),
            }
        },
        _ => Err(String::from_str("Top-level not a SEQUENCE")),
    }
}

/// The fields of the SignedData, which is the second field of the
/// ContentInfo: an explicit `[0]` around a SEQUENCE, a context-specific block
/// whose body decodes to a SEQUENCE first, or a SEQUENCE itself.
pub open spec fn spec_signed_children(children: Seq<Block>) -> Option<Seq<Block>> {
    if children.len() < 2 {
        None
    } else {
        match children[1] {
            Block::Explicit(ASN1Class::ContextSpecific, _, _, inner) => match *inner {
                Block::Sequence(_, fields) => Some(fields),
                _ => None,
            },
            Block::Unknown(ASN1Class::ContextSpecific, _, _, _, data) => match spec_from_der(data) {
                Ok(parsed) => if parsed.len() > 0 && parsed[0] is Sequence {
                    Some(parsed[0]->Sequence_1)
                } else {
                    None
                },
                Err(_) => None,
            },
            Block::Sequence(_, fields) => Some(fields),
            _ => None,
        }
    }
}

/// The fields of a block that is a SEQUENCE.
fn sequence_fields(b: &ASN1Block) -> (r: Option<&Vec<ASN1Block>>)
    ensures
        r is Some <==> b.model() is Sequence,
        r is Some ==> models(r->0@) == b.model()->Sequence_1 && b is Sequence,
{
    match b {
        ASN1Block::Sequence(o, fields) => {
            proof {
                lemma_model_of_sequence(*o, *fields);
            }
            Some(fields)
        },
        _ => None,
    }
}

/// The fields of the first of some blocks, when it is a SEQUENCE.
fn first_sequence_fields(blocks: &Vec<ASN1Block>) -> (r: Option<Vec<ASN1Block>>)
    ensures
        r is Some <==> blocks@.len() > 0 && models(blocks@)[0] is Sequence,
        r is Some ==> models(r->0@) == models(blocks@)[0]->Sequence_1,
{
    if blocks.len() == 0 {
        return None;
    }
    match sequence_fields(&blocks[0]) {
        Some(fields) => Some(clone_blocks(fields)),
        None => None,
    }
}

/// The fields of the SignedData.
pub fn extract_signed_children(children: &Vec<ASN1Block>) -> (r: Result<Vec<ASN1Block>, String>)
    ensures
        match spec_signed_children(models(children@)) {
            Some(fields) => r is Ok && models(r->Ok_0@) == fields,
            None => r is Err,
        },
{
    if children.len() < 2 {
        return Err(String::from_str("Missing SignedData content"));
    }
    let ghost second = models(children@)[1];
    assert(second == children@[1].model());
    match &children[1] {
        ASN1Block::Explicit(class, _, _, inner) => {
            if *class != ASN1Class::ContextSpecific {
                return Err(String::from_str("Unexpected SignedData format"));
            }
            match sequence_fields(inner) {
                Some(fields) => Ok(clone_blocks(fields)),
                None => Err(String::from_str("Explicit SignedData not a SEQUENCE")),
            }
        },
        ASN1Block::Unknown(class, _, _, _, data) => {
            if *class != ASN1Class::ContextSpecific {
                return Err(String::from_str("Unexpected SignedData format"));
            }
            match from_der(data.as_slice()) {
                Ok(parsed) => match first_sequence_fields(&parsed) {
                    Some(fields) => Ok(fields),
                    None => Err(String::from_str("Inner SignedData not a SEQUENCE")),
                },
                Err(_) => Err(String::from_str("Inner SignedData parse error")),
            }
        },
        ASN1Block::Sequence(o, seq_children) => {
            proof {
                lemma_model_of_sequence(*o, *seq_children);
            }
            Ok(clone_blocks(seq_children))
        },
        _ => Err(String::from_str("Unexpected SignedData format")),
    }
}

/// The fields of the first SignerInfo: the last field of the SignedData must
/// be a SET that starts with a SEQUENCE.
pub open spec fn spec_signer_info(signed: Seq<Block>) -> Option<Seq<Block>> {
    if signed.len() > 0 && signed.last() is SetOf && signed.last()->SetOf_1.len() > 0
        && signed.last()->SetOf_1[0] is Sequence {
        Some(signed.last()->SetOf_1[0]->Sequence_1)
    } else {
        None
    }
}

/// The fields of the first SignerInfo.
pub fn extract_signer_info(signed_data_seq: &Vec<ASN1Block>) -> (r: Result<
    &Vec<ASN1Block>,
    String,
>)
    ensures
        match spec_signer_info(models(signed_data_seq@)) {
            Some(fields) => r is Ok && models(r->Ok_0@) == fields,
            None => r is Err,
        },
{
    if signed_data_seq.len() == 0 {
        return Err(String::from_str("Expected SignerInfo SET in SignedData"));
    }
    match &signed_data_seq[signed_data_seq.len() - 1] {
        ASN1Block::SetOf(o, items) => {
            proof {
                lemma_model_of_sequence(*o, *items);
            }
            if items.len() == 0 {
                return Err(String::from_str("Expected SignerInfo SEQUENCE in SignerInfo SET"));
            }
            match &items[0] {
                ASN1Block::Sequence(o2, signer_info) => {
                    proof {
                        lemma_model_of_sequence(*o2, *signer_info);
                    }
                    Ok(signer_info)
                },
                _ => Err(String::from_str("Expected SignerInfo SEQUENCE in SignerInfo SET")),
            }
        },
        _ => Err(String::from_str("Expected SignerInfo SET in SignedData")),
    }
}

/// The serial number of the signer's certificate and the digest identifier:
/// the second field of the SignerInfo is a SEQUENCE of two that ends with
/// the serial number, the third a SEQUENCE that starts with the identifier.
pub open spec fn spec_issuer_and_digest(si: Seq<Block>) -> Option<(Seq<u8>, Seq<Uint256>)> {
    if si.len() >= 3 && si[1] is Sequence && si[1]->Sequence_1.len() == 2
        && si[1]->Sequence_1[1] is Integer && si[2] is Sequence && si[2]->Sequence_1.len() > 0
        && si[2]->Sequence_1[0] is ObjectIdentifier {
        Some((si[1]->Sequence_1[1]->Integer_1, si[2]->Sequence_1[0]->ObjectIdentifier_1))
    } else {
        None
    }
}

/// The serial number of the signer's certificate and the digest identifier.
pub fn extract_issuer_and_digest_algorithm(signer_info: &Vec<ASN1Block>) -> (r: Result<
    (Vec<u8>, OID),
    String,
>)
    ensures
        match spec_issuer_and_digest(models(signer_info@)) {
            Some((serial, id)) => r is Ok && r->Ok_0.0@ == serial && r->Ok_0.1.0@ == id,
            None => r is Err,
        },
{
    if signer_info.len() < 3 {
        return Err(String::from_str("Expected issuerAndSerialNumber SEQUENCE"));
    }
    let signer_serial = match &signer_info[1] {
        ASN1Block::Sequence(o, parts) => {
            proof {
                lemma_model_of_sequence(*o, *parts);
            }
            if parts.len() != 2 {
                return Err(String::from_str("Expected issuerAndSerialNumber SEQUENCE"));
            }
            match &parts[1] {
                ASN1Block::Integer(_, signed_int) => vstd::slice::slice_to_vec(
                    signed_int.bytes.as_slice(),
                ),
                _ => {
                    return Err(String::from_str("Expected serialNumber INTEGER"));
                },
            }
        },
        _ => {
            return Err(String::from_str("Expected issuerAndSerialNumber SEQUENCE"));
        },
    };
    let digest_oid = match &signer_info[2] {
        ASN1Block::Sequence(o, items) => {
            proof {
                lemma_model_of_sequence(*o, *items);
            }
            if items.len() == 0 {
                return Err(String::from_str("Invalid digestAlgorithm in SignerInfo"));
            }
            match &items[0] {
                ASN1Block::ObjectIdentifier(_, id) => id.deep_clone(),
                _ => {
                    return Err(String::from_str("Invalid digestAlgorithm in SignerInfo"));
                },
            }
        },
        _ => {
            return Err(String::from_str("Digest algorithm missing"));
        },
    };
    Ok((signer_serial, digest_oid))
}

/// The tag and length octets of a universal SET of `len` bytes: the short
/// form below 128, else the long form with one or two length bytes.
pub open spec fn set_header(len: nat) -> Seq<u8> {
    if len < 128 {
        seq![0x31u8, len as u8]
    } else if len <= 0xFF {
        seq![0x31u8, 0x81u8, len as u8]
    } else {
        seq![0x31u8, 0x82u8, ((len / 256) % 256) as u8, (len % 256) as u8]
    }
}

/// Whether a block is the signed attributes: constructed, context-specific,
/// with tag 0.
pub open spec fn is_signed_attrs(b: Block) -> bool {
    b is Unknown && b->Unknown_0 == ASN1Class::ContextSpecific && b->Unknown_1
        && b->Unknown_3.spec_is_zero()
}

/// The signed attributes as they are digested: the body of the first `[0]`
/// block from `i` on behind the header of a universal SET.
pub open spec fn spec_signed_attributes_from(si: Seq<Block>, i: int) -> Option<Seq<u8>>
    decreases si.len() - i,
{
    if i < 0 || i >= si.len() {
        None
    } else if is_signed_attrs(si[i]) {
        let content = si[i]->Unknown_4;
        Some(set_header(content.len()) + content)
    } else {
        spec_signed_attributes_from(si, i + 1)
    }
}

/// The signed attributes of a SignerInfo as they are digested.
pub open spec fn spec_signed_attributes_der(si: Seq<Block>) -> Option<Seq<u8>> {
    spec_signed_attributes_from(si, 0)
}

/// The signed attributes as they are digested: behind the header of a
/// universal SET.
#[verifier::loop_isolation(false)]
pub fn extract_signed_attributes_der(signer_info: &Vec<ASN1Block>) -> (r: Result<Vec<u8>, String>)
    ensures
        match spec_signed_attributes_der(models(signer_info@)) {
            Some(der) => r is Ok && r->Ok_0@ == der,
            None => r is Err,
        },
{
    let ghost si = models(signer_info@);
    let mut i: usize = 0;
    while i < signer_info.len()
        invariant
            i <= signer_info.len(),
            spec_signed_attributes_from(si, i as int) == spec_signed_attributes_der(si),
        decreases signer_info.len() - i,
    {
        match &signer_info[i] {
            ASN1Block::Unknown(class, constructed, _, tag_no, content) => {
                if *class == ASN1Class::ContextSpecific && *constructed && tag_no.is_zero() {
                    let len = content.len();
                    let mut out: Vec<u8> = Vec::new();
                    out.push(0x31u8);
                    if len < 128 {
                        out.push(len as u8);
                    } else if len <= 0xFF {
                        out.push(0x81u8);
                        out.push(len as u8);
                    } else {
                        out.push(0x82u8);
                        out.push(((len / 256) % 256) as u8);
                        out.push((len % 256) as u8);
                    }
                    assert(out@ =~= set_header(len as nat));
                    let mut body = vstd::slice::slice_to_vec(content.as_slice());
                    out.append(&mut body);
                    return Ok(out);
                }
            },
            _ => {},
        }
        i += 1;
    }
    Err(String::from_str("signedAttrs [0] not found"))
}

/// The signature: the first OCTET STRING at the fifth field of the SignerInfo
/// or later, with its position.
pub open spec fn spec_signature_from(si: Seq<Block>, i: int) -> Option<(int, Seq<u8>)>
    decreases si.len() - i,
{
    if i < 0 || i >= si.len() {
        None
    } else if i >= 4 && si[i] is OctetString {
        Some((i, si[i]->OctetString_1))
    } else {
        spec_signature_from(si, i + 1)
    }
}

/// The signature of a SignerInfo.
pub open spec fn spec_signature(si: Seq<Block>) -> Option<Seq<u8>> {
    match spec_signature_from(si, 0) {
        Some((_, s)) => Some(s),
        None => None,
    }
}

#[verifier::loop_isolation(false)]
fn find_signature(signer_info: &Vec<ASN1Block>) -> (r: Option<usize>)
    ensures
        match r {
            Some(at) => at < signer_info@.len() && signer_info@[at as int] is OctetString
                && spec_signature_from(models(signer_info@), 0) == Some(
                (at as int, signer_info@[at as int]->OctetString_1@),
            ),
            None => spec_signature_from(models(signer_info@), 0) is None,
        },
{
    let ghost si = models(signer_info@);
    let mut i: usize = 0;
    while i < signer_info.len()
        invariant
            i <= signer_info.len(),
            spec_signature_from(si, i as int) == spec_signature_from(si, 0),
        decreases signer_info.len() - i,
    {
        match &signer_info[i] {
            ASN1Block::OctetString(_, _) => {
                if i >= 4 {
                    return Some(i);
                }
            },
            _ => {},
        }
        i += 1;
    }
    None
}

/// The signature of a SignerInfo.
pub fn extract_signature(signer_info: &Vec<ASN1Block>) -> (r: Result<Vec<u8>, String>)
    ensures
        match spec_signature(models(signer_info@)) {
            Some(s) => r is Ok && r->Ok_0@ == s,
            None => r is Err,
        },
{
    let found = find_signature(signer_info);
    let ghost sp = spec_signature_from(models(signer_info@), 0);
    match found {
        Some(at) => {
            assert(sp is Some);
            assert((sp->Some_0).0 == at);
            assert(signer_info@[at as int] is OctetString);
            match &signer_info[at] {
                ASN1Block::OctetString(_, s) => {
                    assert(s@ == (sp->Some_0).1);
                    Ok(vstd::slice::slice_to_vec(s.as_slice()))
                },
                _ => Err(String::from_str("EncryptedDigest (signature) not found")),
            }
        },
        None => {
            assert(sp is None);
            Err(String::from_str("EncryptedDigest (signature) not found"))
        },
    }
}

/// The signature algorithm that the SignerInfo names itself: the field in
/// front of the signature, when it is a SEQUENCE that starts with one of the
/// RSA-with-hash identifiers.
pub open spec fn spec_outer_algorithm(si: Seq<Block>) -> Option<SignatureAlgorithm> {
    match spec_signature_from(si, 0) {
        Some((at, _)) => if 0 < at <= si.len() && si[at - 1] is Sequence
            && si[at - 1]->Sequence_1.len() > 0 && si[at - 1]->Sequence_1[0] is ObjectIdentifier {
            spec_rsa_signature_algorithm(
                oid_low_words(si[at - 1]->Sequence_1[0]->ObjectIdentifier_1),
            )
        } else {
            None
        },
        None => None,
    }
}

/// The signature algorithm that the SignerInfo names itself, if it names one.
pub fn extract_outer_algorithm(signer_info: &Vec<ASN1Block>) -> (r: Option<SignatureAlgorithm>)
    ensures
        r == spec_outer_algorithm(models(signer_info@)),
{
    match find_signature(signer_info) {
        Some(at) => {
            if at == 0 {
                return None;
            }
            match &signer_info[at - 1] {
                ASN1Block::Sequence(o, items) => {
                    proof {
                        lemma_model_of_sequence(*o, *items);
                    }
                    if items.len() == 0 {
                        return None;
                    }
                    match &items[0] {
                        ASN1Block::ObjectIdentifier(_, id) => {
                            let words = id.as_vec();
                            rsa_signature_algorithm_of_words(words.as_slice())
                        },
                        _ => None,
                    }
                },
                _ => None,
            }
        },
        None => None,
    }
}

/// The attributes among which the message digest is looked for: the members
/// of a lone SET, else the blocks themselves.
pub open spec fn digest_candidates(attrs: Seq<Block>) -> Seq<Block> {
    if attrs.len() == 1 && attrs[0] is SetOf {
        attrs[0]->SetOf_1
    } else {
        attrs
    }
}

/// Whether an attribute is the message digest attribute: a SEQUENCE that
/// starts with id-messageDigest.
pub open spec fn is_message_digest_attr(b: Block) -> bool {
    b is Sequence && b->Sequence_1.len() > 0 && b->Sequence_1[0] is ObjectIdentifier
        && b->Sequence_1[0]->ObjectIdentifier_1 == oid_components(message_digest_oid())
}

/// The value of a message digest attribute: its second field is a SET that
/// starts with an OCTET STRING.
pub open spec fn message_digest_value(b: Block) -> Option<Seq<u8>> {
    let items = b->Sequence_1;
    if items.len() >= 2 && items[1] is SetOf && items[1]->SetOf_1.len() > 0
        && items[1]->SetOf_1[0] is OctetString {
        Some(items[1]->SetOf_1[0]->OctetString_1)
    } else {
        None
    }
}

/// The message digest that the first message digest attribute from `i` on
/// holds.
pub open spec fn spec_message_digest_from(cands: Seq<Block>, i: int) -> Option<Seq<u8>>
    decreases cands.len() - i,
{
    if i < 0 || i >= cands.len() {
        None
    } else if is_message_digest_attr(cands[i]) {
        message_digest_value(cands[i])
    } else {
        spec_message_digest_from(cands, i + 1)
    }
}

/// The message digest that the signed attributes state.
pub open spec fn spec_message_digest(attrs: Seq<Block>) -> Option<Seq<u8>> {
    spec_message_digest_from(digest_candidates(attrs), 0)
}

#[verifier::loop_isolation(false)]
fn message_digest_among(candidates: &Vec<ASN1Block>) -> (r: Result<Vec<u8>, String>)
    ensures
        match spec_message_digest_from(models(candidates@), 0) {
            Some(d) => r is Ok && r->Ok_0@ == d,
            None => r is Err,
        },
{
    let ghost cands = models(candidates@);
    let msg_digest_oid = make_message_digest_oid();
    let mut i: usize = 0;
    while i < candidates.len()
        invariant
            i <= candidates.len(),
            spec_message_digest_from(cands, i as int) == spec_message_digest_from(cands, 0),
        decreases candidates.len() - i,
    {
        match &candidates[i] {
            ASN1Block::Sequence(o, items) => {
                proof {
                    lemma_model_of_sequence(*o, *items);
                }
                if items.len() > 0 {
                    match &items[0] {
                        ASN1Block::ObjectIdentifier(_, id) => {
                            if id.same_as(&msg_digest_oid) {
                                if items.len() < 2 {
                                    return Err(String::from_str("messageDigest missing inner Set"));
                                }
                                match &items[1] {
                                    ASN1Block::SetOf(o2, inner_vals) => {
                                        proof {
                                            lemma_model_of_sequence(*o2, *inner_vals);
                                        }
                                        if inner_vals.len() == 0 {
                                            return Err(
                                                String::from_str(
                                                    "messageDigest value not an OctetString",
                                                ),
                                            );
                                        }
                                        match &inner_vals[0] {
                                            ASN1Block::OctetString(_, data) => {
                                                return Ok(
                                                    vstd::slice::slice_to_vec(data.as_slice()),
                                                );
                                            },
                                            _ => {
                                                return Err(
                                                    String::from_str(
                                                        "messageDigest value not an OctetString",
                                                    ),
                                                );
                                            },
                                        }
                                    },
                                    _ => {
                                        return Err(
                                            String::from_str("messageDigest missing inner Set"),
                                        );
                                    },
                                }
                            }
                        },
                        _ => {},
                    }
                }
            },
            _ => {},
        }
        i += 1;
    }
    Err(String::from_str("messageDigest attribute (OID 1.2.840.113549.1.9.4) not found"))
}

/// Finds the messageDigest attribute and returns its OCTET STRING.
pub fn extract_message_digest(attrs: &Vec<ASN1Block>) -> (r: Result<Vec<u8>, String>)
    ensures
        match spec_message_digest(models(attrs@)) {
            Some(d) => r is Ok && r->Ok_0@ == d,
            None => r is Err,
        },
{
    if attrs.len() == 1 {
        match &attrs[0] {
            ASN1Block::SetOf(o, inner) => {
                proof {
                    lemma_model_of_sequence(*o, *inner);
                }
                return message_digest_among(inner);
            },
            _ => {},
        }
    }
    message_digest_among(attrs)
}

/// Whether a block may hold the certificates: context-specific with tag 0,
/// explicit or not.
pub open spec fn is_certificates_block(b: Block) -> bool {
    (b is Explicit && b->Explicit_0 == ASN1Class::ContextSpecific && b->Explicit_2.spec_is_zero())
        || (b is Unknown && b->Unknown_0 == ASN1Class::ContextSpecific
        && b->Unknown_3.spec_is_zero())
}

/// The position of the first certificates block from `i` on.
pub open spec fn spec_certificates_index(signed: Seq<Block>, i: int) -> Option<int>
    decreases signed.len() - i,
{
    if i < 0 || i >= signed.len() {
        None
    } else if is_certificates_block(signed[i]) {
        Some(i)
    } else {
        spec_certificates_index(signed, i + 1)
    }
}

/// Whether every block is a SEQUENCE.
pub open spec fn all_sequences(blocks: Seq<Block>) -> bool {
    forall|k: int| 0 <= k < blocks.len() ==> (#[trigger] blocks[k]) is Sequence
}

/// The certificates that a decoded body holds: the members of a lone SET,
/// the fields of a lone SEQUENCE, or the blocks themselves when all of them
/// are SEQUENCEs.
pub open spec fn certificates_of_parsed(parsed: Seq<Block>) -> Option<Seq<Block>> {
    if parsed.len() == 1 && parsed[0] is SetOf {
        Some(parsed[0]->SetOf_1)
    } else if parsed.len() == 1 && parsed[0] is Sequence {
        Some(parsed[0]->Sequence_1)
    } else if all_sequences(parsed) {
        Some(parsed)
    } else {
        None
    }
}

/// The certificates that a certificates block holds.
pub open spec fn certificates_in(b: Block) -> Option<Seq<Block>> {
    match b {
        Block::Unknown(_, _, _, _, data) => match spec_from_der(data) {
            Ok(parsed) => certificates_of_parsed(parsed),
            Err(_) => None,
        },
        Block::Explicit(_, _, _, inner) => match *inner {
            Block::SetOf(_, certs) => Some(certs),
            Block::Sequence(o, fields) => Some(seq![Block::Sequence(o, fields)]),
            _ => None,
        },
        _ => None,
    }
}

/// The certificates of a SignedData; none when it has no certificates block.
pub open spec fn spec_certificates(signed: Seq<Block>) -> Option<Seq<Block>> {
    match spec_certificates_index(signed, 0) {
        None => Some(Seq::empty()),
        Some(k) => certificates_in(signed[k]),
    }
}

#[verifier::loop_isolation(false)]
fn find_certificates_block(signed: &Vec<ASN1Block>) -> (r: Option<usize>)
    ensures
        match r {
            Some(k) => k < signed@.len() && spec_certificates_index(models(signed@), 0) == Some(
                k as int,
            ),
            None => spec_certificates_index(models(signed@), 0) is None,
        },
{
    let ghost blocks = models(signed@);
    let mut i: usize = 0;
    while i < signed.len()
        invariant
            i <= signed.len(),
            spec_certificates_index(blocks, i as int) == spec_certificates_index(blocks, 0),
        decreases signed.len() - i,
    {
        let hit = match &signed[i] {
            ASN1Block::Explicit(class, _, tag, _) => *class == ASN1Class::ContextSpecific
                && tag.is_zero(),
            ASN1Block::Unknown(class, _, _, tag, _) => *class == ASN1Class::ContextSpecific
                && tag.is_zero(),
            _ => false,
        };
        if hit {
            return Some(i);
        }
        i += 1;
    }
    None
}

#[verifier::loop_isolation(false)]
fn blocks_all_sequences(blocks: &Vec<ASN1Block>) -> (r: bool)
    ensures
        r == all_sequences(models(blocks@)),
{
    let mut i: usize = 0;
    while i < blocks.len()
        invariant
            i <= blocks.len(),
            forall|k: int| 0 <= k < i ==> (#[trigger] models(blocks@)[k]) is Sequence,
        decreases blocks.len() - i,
    {
        match &blocks[i] {
            ASN1Block::Sequence(_, _) => {},
            _ => {
                assert(!(models(blocks@)[i as int] is Sequence));
                return false;
            },
        }
        i += 1;
    }
    true
}

fn certificates_from_parsed(parsed: Vec<ASN1Block>) -> (r: Result<Vec<ASN1Block>, String>)
    ensures
        match certificates_of_parsed(models(parsed@)) {
            Some(certs) => r is Ok && models(r->Ok_0@) == certs,
            None => r is Err,
        },
{
    let mut parsed = parsed;
    if parsed.len() == 1 {
        let ghost all = parsed@;
        let only = parsed.pop();
        assert(only == Some(all[0]));
        match only {
            Some(ASN1Block::SetOf(o, items)) => {
                proof {
                    lemma_model_of_sequence(o, items);
                }
                Ok(items)
            },
            Some(ASN1Block::Sequence(o, items)) => {
                proof {
                    lemma_model_of_sequence(o, items);
                }
                Ok(items)
            },
            _ => {
                assert(!(models(all)[0] is Sequence));
                Err(String::from_str("Unexpected structure inside implicit certificate block"))
            },
        }
    } else if blocks_all_sequences(&parsed) {
        Ok(parsed)
    } else {
        Err(String::from_str("Unexpected structure inside implicit certificate block"))
    }
}

/// The certificates of a SignedData.
pub fn find_certificates(signed_data_seq: &Vec<ASN1Block>) -> (r: Result<Vec<ASN1Block>, String>)
    ensures
        match spec_certificates(models(signed_data_seq@)) {
            Some(certs) => r is Ok && models(r->Ok_0@) == certs,
            None => r is Err,
        },
{
    let at = match find_certificates_block(signed_data_seq) {
        Some(k) => k,
        None => {
            let none: Vec<ASN1Block> = Vec::new();
            assert(models(none@) =~= Seq::<Block>::empty());
            return Ok(none);
        },
    };
    assert(models(signed_data_seq@)[at as int] == signed_data_seq@[at as int].model());
    match &signed_data_seq[at] {
        ASN1Block::Unknown(_, _, _, _, data) => match from_der(data.as_slice()) {
            Ok(parsed) => certificates_from_parsed(parsed),
            Err(_) => Err(String::from_str("Cert wrapper parse error")),
        },
        ASN1Block::Explicit(_, _, _, inner) => match &**inner {
            ASN1Block::SetOf(o, certs) => {
                proof {
                    lemma_model_of_sequence(*o, *certs);
                }
                Ok(clone_blocks(certs))
            },
            ASN1Block::Sequence(o, fields) => {
                proof {
                    lemma_model_of_sequence(*o, *fields);
                }
                let mut one: Vec<ASN1Block> = Vec::new();
                one.push(inner.deep_clone());
                assert(models(one@) =~= seq![inner.model()]);
                Ok(one)
            },
            _ => Err(String::from_str("Expected SET or SEQUENCE inside Explicit certificate block")),
        },
        _ => Err(String::from_str("Unexpected certificates block type")),
    }
}

/// Whether a block is an explicit context-specific block.
pub open spec fn is_context_explicit(b: Block) -> bool {
    b is Explicit && b->Explicit_0 == ASN1Class::ContextSpecific
}

/// The fields of the TBSCertificate of a certificate: the first field of the
/// certificate when that is a SEQUENCE, the certificate's own fields when it
/// starts with an explicit context-specific block.
pub open spec fn tbs_fields_of(cert: Block) -> Option<Seq<Block>> {
    if cert is Sequence && cert->Sequence_1.len() > 0 {
        let fields = cert->Sequence_1;
        if is_context_explicit(fields[0]) {
            Some(fields)
        } else if fields[0] is Sequence {
            Some(fields[0]->Sequence_1)
        } else {
            None
        }
    } else {
        None
    }
}

/// The serial number of a TBSCertificate: its first field, or its second
/// when the first is the explicit `[0]` version.
pub open spec fn serial_of(tbs: Seq<Block>) -> Option<Seq<u8>> {
    if tbs.len() == 0 {
        None
    } else {
        let at: int = if is_context_explicit(tbs[0]) && tbs[0]->Explicit_2.spec_is_zero() {
            1
        } else {
            0
        };
        if at < tbs.len() && tbs[at] is Integer {
            Some(tbs[at]->Integer_1)
        } else {
            None
        }
    }
}

/// The TBSCertificate fields of the first certificate from `i` on whose
/// serial number is `serial`. A certificate that cannot be read ends the
/// search.
pub open spec fn spec_correct_tbs(certs: Seq<Block>, serial: Seq<u8>, i: int) -> Option<Seq<Block>>
    decreases certs.len() - i,
{
    if i < 0 || i >= certs.len() {
        None
    } else {
        match tbs_fields_of(certs[i]) {
            None => None,
            Some(tbs) => match serial_of(tbs) {
                None => None,
                Some(found) => if found == serial {
                    Some(tbs)
                } else {
                    spec_correct_tbs(certs, serial, i + 1)
                },
            },
        }
    }
}

fn block_is_context_explicit(b: &ASN1Block) -> (r: bool)
    ensures
        r == is_context_explicit(b.model()),
{
    match b {
        ASN1Block::Explicit(class, _, _, _) => *class == ASN1Class::ContextSpecific,
        _ => false,
    }
}

fn certificate_tbs(cert: &ASN1Block) -> (r: Option<&Vec<ASN1Block>>)
    ensures
        match tbs_fields_of(cert.model()) {
            Some(tbs) => r is Some && models(r->0@) == tbs,
            None => r is None,
        },
{
    let fields = match sequence_fields(cert) {
        Some(f) => f,
        None => {
            return None;
        },
    };
    if fields.len() == 0 {
        return None;
    }
    if block_is_context_explicit(&fields[0]) {
        Some(fields)
    } else {
        sequence_fields(&fields[0])
    }
}

fn tbs_serial(tbs: &Vec<ASN1Block>) -> (r: Option<&Vec<u8>>)
    ensures
        match serial_of(models(tbs@)) {
            Some(serial) => r is Some && r->0@ == serial,
            None => r is None,
        },
{
    if tbs.len() == 0 {
        return None;
    }
    let at: usize = match &tbs[0] {
        ASN1Block::Explicit(class, _, tag, _) => if *class == ASN1Class::ContextSpecific
            && tag.is_zero() {
            1
        } else {
            0
        },
        _ => 0,
    };
    if at >= tbs.len() {
        return None;
    }
    match &tbs[at] {
        ASN1Block::Integer(_, signed_int) => Some(&signed_int.bytes),
        _ => None,
    }
}

/// The TBSCertificate fields of the certificate with the given serial number.
#[verifier::loop_isolation(false)]
pub fn get_correct_tbs(certificates: &Vec<ASN1Block>, signed_serial_number: &[u8]) -> (r: Result<
    Vec<ASN1Block>,
    String,
>)
    ensures
        match spec_correct_tbs(models(certificates@), signed_serial_number@, 0) {
            Some(tbs) => r is Ok && models(r->Ok_0@) == tbs,
            None => r is Err,
        },
{
    let ghost certs = models(certificates@);
    let mut i: usize = 0;
    while i < certificates.len()
        invariant
            i <= certificates.len(),
            spec_correct_tbs(certs, signed_serial_number@, i as int) == spec_correct_tbs(
                certs,
                signed_serial_number@,
                0,
            ),
        decreases certificates.len() - i,
    {
        let tbs_fields = match certificate_tbs(&certificates[i]) {
            Some(t) => t,
            None => {
                return Err(String::from_str("tbsCertificate not found"));
            },
        };
        let serial_number = match tbs_serial(tbs_fields) {
            Some(n) => n,
            None => {
                return Err(String::from_str("Serial number not found"));
            },
        };
        if bytes_eq(serial_number.as_slice(), signed_serial_number) {
            return Ok(clone_blocks(tbs_fields));
        }
        i += 1;
    }
    Err(String::from_str("No matching certificate found"))
}

/// Whether a block is a SubjectPublicKeyInfo for RSA: a SEQUENCE that starts
/// with a SEQUENCE that starts with the identifier rsaEncryption.
pub open spec fn is_rsa_spki(b: Block) -> bool {
    b is Sequence && b->Sequence_1.len() > 0 && b->Sequence_1[0] is Sequence
        && b->Sequence_1[0]->Sequence_1.len() > 0 && b->Sequence_1[0]->Sequence_1[0]
        is ObjectIdentifier && b->Sequence_1[0]->Sequence_1[0]->ObjectIdentifier_1
        == oid_components(rsa_encryption_oid())
}

/// The fields of the first SubjectPublicKeyInfo for RSA from `i` on.
pub open spec fn spec_spki_from(tbs: Seq<Block>, i: int) -> Option<Seq<Block>>
    decreases tbs.len() - i,
{
    if i < 0 || i >= tbs.len() {
        None
    } else if is_rsa_spki(tbs[i]) {
        Some(tbs[i]->Sequence_1)
    } else {
        spec_spki_from(tbs, i + 1)
    }
}

fn rsa_spki_fields(b: &ASN1Block) -> (r: Option<&Vec<ASN1Block>>)
    ensures
        r is Some <==> is_rsa_spki(b.model()),
        r is Some ==> models(r->0@) == b.model()->Sequence_1,
{
    let sf = match sequence_fields(b) {
        Some(f) => f,
        None => {
            return None;
        },
    };
    if sf.len() == 0 {
        return None;
    }
    let alg = match sequence_fields(&sf[0]) {
        Some(a) => a,
        None => {
            return None;
        },
    };
    if alg.len() == 0 {
        return None;
    }
    match &alg[0] {
        ASN1Block::ObjectIdentifier(_, o) => {
            let rsa_oid = make_rsa_encryption_oid();
            if o.same_as(&rsa_oid) {
                Some(sf)
            } else {
                None
            }
        },
        _ => None,
    }
}

/// The fields of the SubjectPublicKeyInfo for RSA of a TBSCertificate.
#[verifier::loop_isolation(false)]
pub fn find_subject_public_key_info(tbs_fields: &Vec<ASN1Block>) -> (r: Result<
    &Vec<ASN1Block>,
    String,
>)
    ensures
        match spec_spki_from(models(tbs_fields@), 0) {
            Some(spki) => r is Ok && models(r->Ok_0@) == spki,
            None => r is Err,
        },
{
    let ghost tbs = models(tbs_fields@);
    let mut i: usize = 0;
    while i < tbs_fields.len()
        invariant
            i <= tbs_fields.len(),
            spec_spki_from(tbs, i as int) == spec_spki_from(tbs, 0),
        decreases tbs_fields.len() - i,
    {
        match rsa_spki_fields(&tbs_fields[i]) {
            Some(sf) => {
                return Ok(sf);
            },
            None => {},
        }
        i += 1;
    }
    Err(String::from_str("subjectPublicKeyInfo not found"))
}

/// The bits of the public key: the second field of the SubjectPublicKeyInfo.
pub open spec fn spec_public_key_bits(spki: Seq<Block>) -> Option<Seq<u8>> {
    if spki.len() >= 2 && spki[1] is BitString {
        Some(spki[1]->BitString_2)
    } else {
        None
    }
}

/// The bits of the public key of a SubjectPublicKeyInfo.
pub fn extract_public_key_bitstring(spki_fields: &Vec<ASN1Block>) -> (r: Result<Vec<u8>, String>)
    ensures
        match spec_public_key_bits(models(spki_fields@)) {
            Some(bits) => r is Ok && r->Ok_0@ == bits,
            None => r is Err,
        },
{
    if spki_fields.len() < 2 {
        return Err(String::from_str("Expected BIT STRING for public key"));
    }
    match &spki_fields[1] {
        ASN1Block::BitString(_, _, d) => Ok(vstd::slice::slice_to_vec(d.as_slice())),
        _ => Err(String::from_str("Expected BIT STRING for public key")),
    }
}

/// The fields of the RSAPublicKey that the key bits encode.
pub open spec fn spec_rsa_public_key(bits: Seq<u8>) -> Option<Seq<Block>> {
    match spec_from_der(bits) {
        Ok(blocks) => if blocks.len() > 0 && blocks[0] is Sequence {
            Some(blocks[0]->Sequence_1)
        } else {
            None
        },
        Err(_) => None,
    }
}

/// The fields of the RSAPublicKey that the key bits encode.
pub fn parse_rsa_public_key(bitstring: &[u8]) -> (r: Result<Vec<ASN1Block>, String>)
    ensures
        match spec_rsa_public_key(bitstring@) {
            Some(fields) => r is Ok && models(r->Ok_0@) == fields,
            None => r is Err,
        },
{
    match from_der(bitstring) {
        Ok(blocks) => match first_sequence_fields(&blocks) {
            Some(items) => Ok(items),
            None => Err(String::from_str("RSAPublicKey not a SEQUENCE")),
        },
        Err(_) => Err(String::from_str("RSAPublicKey parse error")),
    }
}

/// The modulus: the first field of the RSAPublicKey, without one leading
/// zero byte.
pub open spec fn spec_modulus(rsa: Seq<Block>) -> Option<Seq<u8>> {
    if rsa.len() >= 1 && rsa[0] is Integer {
        let bytes = rsa[0]->Integer_1;
        if bytes.len() > 1 && bytes[0] == 0 {
            Some(bytes.subrange(1, bytes.len() as int))
        } else {
            Some(bytes)
        }
    } else {
        None
    }
}

/// The modulus of an RSAPublicKey, without one leading zero byte.
pub fn extract_modulus(rsa_sequence: &Vec<ASN1Block>) -> (r: Result<Vec<u8>, String>)
    ensures
        match spec_modulus(models(rsa_sequence@)) {
            Some(n) => r is Ok && r->Ok_0@ == n,
            None => r is Err,
        },
{
    if rsa_sequence.len() < 1 {
        return Err(String::from_str("Modulus not found"));
    }
    match &rsa_sequence[0] {
        ASN1Block::Integer(_, signed_int) => {
            let bytes = &signed_int.bytes;
            if bytes.len() > 1 && bytes[0] == 0 {
                Ok(crate::bytes::copy_range(bytes.as_slice(), 1, bytes.len()))
            } else {
                Ok(vstd::slice::slice_to_vec(bytes.as_slice()))
            }
        },
        _ => Err(String::from_str("Modulus not found")),
    }
}

/// The public exponent: the second field of the RSAPublicKey.
pub open spec fn spec_exponent(rsa: Seq<Block>) -> Option<Seq<u8>> {
    if rsa.len() >= 2 && rsa[1] is Integer {
        Some(rsa[1]->Integer_1)
    } else {
        None
    }
}

/// The public exponent of an RSAPublicKey.
pub fn extract_exponent(rsa_sequence: &Vec<ASN1Block>) -> (r: Result<Vec<u8>, String>)
    ensures
        match spec_exponent(models(rsa_sequence@)) {
            Some(e) => r is Ok && r->Ok_0@ == e,
            None => r is Err,
        },
{
    if rsa_sequence.len() < 2 {
        return Err(String::from_str("Exponent not found"));
    }
    match &rsa_sequence[1] {
        ASN1Block::Integer(_, signed_int) => Ok(
            vstd::slice::slice_to_vec(signed_int.bytes.as_slice()),
        ),
        _ => Err(String::from_str("Exponent not found")),
    }
}

/// Modulus and exponent of the certificate whose serial number is `serial`.
pub open spec fn spec_pubkey_components(signed: Seq<Block>, serial: Seq<u8>) -> Option<
    (Seq<u8>, Seq<u8>),
> {
    match spec_certificates(signed) {
        None => None,
        Some(certs) => match spec_correct_tbs(certs, serial, 0) {
            None => None,
            Some(tbs) => match spec_spki_from(tbs, 0) {
                None => None,
                Some(spki) => match spec_public_key_bits(spki) {
                    None => None,
                    Some(bits) => match spec_rsa_public_key(bits) {
                        None => None,
                        Some(rsa) => match (spec_modulus(rsa), spec_exponent(rsa)) {
                            (Some(n), Some(e)) => Some((n, e)),
                            _ => None,
                        },
                    },
                },
            },
        },
    }
}

/// Modulus and exponent of the signer's certificate.
pub fn extract_pubkey_components(
    signed_data_seq: &Vec<ASN1Block>,
    signed_serial_number: &[u8],
) -> (r: Result<(Vec<u8>, Vec<u8>), String>)
    ensures
        match spec_pubkey_components(models(signed_data_seq@), signed_serial_number@) {
            Some((n, e)) => r is Ok && r->Ok_0.0@ == n && r->Ok_0.1@ == e,
            None => r is Err,
        },
{
    let certificates = match find_certificates(signed_data_seq) {
        Ok(c) => c,
        Err(e) => {
            return Err(e);
        },
    };
    let tbs_fields = match get_correct_tbs(&certificates, signed_serial_number) {
        Ok(t) => t,
        Err(e) => {
            return Err(e);
        },
    };
    let spki_fields = match find_subject_public_key_info(&tbs_fields) {
        Ok(s) => s,
        Err(e) => {
            return Err(e);
        },
    };
    let public_key_bitstring = match extract_public_key_bitstring(spki_fields) {
        Ok(b) => b,
        Err(e) => {
            return Err(e);
        },
    };
    let rsa_sequence = match parse_rsa_public_key(public_key_bitstring.as_slice()) {
        Ok(r) => r,
        Err(e) => {
            return Err(e);
        },
    };
    let modulus = match extract_modulus(&rsa_sequence) {
        Ok(n) => n,
        Err(e) => {
            return Err(e);
        },
    };
    let exponent = match extract_exponent(&rsa_sequence) {
        Ok(x) => x,
        Err(e) => {
            return Err(e);
        },
    };
    Ok((modulus, exponent))
}

/// What the first SignerInfo says.
pub struct SignatureData {
    pub signature: Vec<u8>,
    pub signer_serial: Vec<u8>,
    pub signed_attrs_der: Vec<u8>,
    pub signed_algo: SignatureAlgorithm,
    pub expected_message_digest: Vec<u8>,
    pub digest_oid_vec: Option<Vec<u64>>,
}

/// The value of a `SignatureData`.
pub struct SignerFacts {
    pub signature: Seq<u8>,
    pub signer_serial: Seq<u8>,
    pub signed_attrs_der: Seq<u8>,
    pub signed_algo: SignatureAlgorithm,
    pub expected_message_digest: Seq<u8>,
    pub digest_oid_vec: Option<Seq<u64>>,
}

impl SignatureData {
    /// What the SignerInfo says, as a value.
    pub open spec fn model(self) -> SignerFacts {
        SignerFacts {
            signature: self.signature@,
            signer_serial: self.signer_serial@,
            signed_attrs_der: self.signed_attrs_der@,
            signed_algo: self.signed_algo,
            expected_message_digest: self.expected_message_digest@,
            digest_oid_vec: words_model(self.digest_oid_vec),
        }
    }
}

/// What the first SignerInfo of a SignedData says. The signature algorithm is
/// the one that the SignerInfo names itself, and where it names none, the
/// one that goes with its digest identifier.
pub open spec fn spec_signature_data(signed: Seq<Block>) -> Option<SignerFacts> {
    match spec_signer_info(signed) {
        None => None,
        Some(si) => match spec_issuer_and_digest(si) {
            None => None,
            Some((serial, digest_id)) => match spec_signed_attributes_der(si) {
                None => None,
                Some(attrs_der) => match spec_signed_algorithm(oid_low_words(digest_id)) {
                    None => None,
                    Some(by_digest) => match spec_from_der(attrs_der) {
                        Err(_) => None,
                        Ok(attrs) => match spec_message_digest(attrs) {
                            None => None,
                            Some(digest) => match spec_signature(si) {
                                None => None,
                                Some(signature) => Some(
                                    SignerFacts {
                                        signature,
                                        signer_serial: serial,
                                        signed_attrs_der: attrs_der,
                                        signed_algo: match spec_outer_algorithm(si) {
                                            Some(outer) => outer,
                                            None => by_digest,
                                        },
                                        expected_message_digest: digest,
                                        digest_oid_vec: Some(oid_low_words(digest_id)),
                                    },
                                ),
                            },
                        },
                    },
                },
            },
        },
    }
}

/// Reads the first SignerInfo of a SignedData.
pub fn get_signature_data(signed_data_seq: &Vec<ASN1Block>) -> (r: Result<SignatureData, String>)
    ensures
        match spec_signature_data(models(signed_data_seq@)) {
            Some(facts) => r is Ok && r->Ok_0.model() == facts,
            None => r is Err,
        },
{
    let signer_info_items = match extract_signer_info(signed_data_seq) {
        Ok(s) => s,
        Err(e) => {
            return Err(e);
        },
    };
    let (signer_serial, digest_oid) = match extract_issuer_and_digest_algorithm(signer_info_items) {
        Ok(p) => p,
        Err(e) => {
            return Err(e);
        },
    };
    let signed_attrs_der = match extract_signed_attributes_der(signer_info_items) {
        Ok(d) => d,
        Err(e) => {
            return Err(e);
        },
    };
    let by_digest = match compute_signed_algorithm(&digest_oid) {
        Ok(a) => a,
        Err(e) => {
            return Err(e);
        },
    };
    let signed_attrs = match from_der(signed_attrs_der.as_slice()) {
        Ok(a) => a,
        Err(_) => {
            return Err(String::from_str("signedAttrs parse error"));
        },
    };
    let expected_message_digest = match extract_message_digest(&signed_attrs) {
        Ok(d) => d,
        Err(e) => {
            return Err(e);
        },
    };
    let signature = match extract_signature(signer_info_items) {
        Ok(s) => s,
        Err(e) => {
            return Err(e);
        },
    };
    let signed_algo = match extract_outer_algorithm(signer_info_items) {
        Some(outer) => outer,
        None => by_digest,
    };
    Ok(
        SignatureData {
            signature,
            signer_serial,
            signed_attrs_der,
            signed_algo,
            expected_message_digest,
            digest_oid_vec: Some(digest_oid.as_vec()),
        },
    )
}

/// What a DER-encoded ContentInfo with a SignedData gives to the verifier.
pub open spec fn spec_parse_signed_data(der: Seq<u8>) -> Option<Params> {
    match spec_from_der(der) {
        Err(_) => None,
        Ok(blocks) => match spec_content_info(blocks) {
            None => None,
            Some(content) => match spec_signed_children(content) {
                None => None,
                Some(signed) => match spec_signature_data(signed) {
                    None => None,
                    Some(facts) => match spec_pubkey_components(signed, facts.signer_serial) {
                        None => None,
                        Some((n, e)) => Some(
                            Params {
                                modulus: Some(n),
                                exponent: Some(e),
                                signature: facts.signature,
                                signed_attrs_message_digest: Some(facts.expected_message_digest),
                                actual_message_digest: None,
                                sig_algorithm: facts.signed_algo,
                                digest_algorithm: facts.digest_oid_vec,
                                signed_attrs_der: Some(facts.signed_attrs_der),
                            },
                        ),
                    },
                },
            },
        },
    }
}

/// Reads the DER of a PKCS#7 signature.
pub fn parse_signed_data(der_bytes: &[u8]) -> (r: Result<VerifierParams, String>)
    ensures
        match spec_parse_signed_data(der_bytes@) {
            Some(p) => r is Ok && r->Ok_0.model() == p,
            None => r is Err,
        },
{
    let blocks = match from_der(der_bytes) {
        Ok(b) => b,
        Err(_) => {
            return Err(String::from_str("DER parse error"));
        },
    };
    let content_info = match extract_content_info(&blocks) {
        Ok(c) => c,
        Err(e) => {
            return Err(e);
        },
    };
    let signed_children = match extract_signed_children(content_info) {
        Ok(s) => s,
        Err(e) => {
            return Err(e);
        },
    };
    let signature_data = match get_signature_data(&signed_children) {
        Ok(d) => d,
        Err(e) => {
            return Err(e);
        },
    };
    let (modulus_bytes, exponent_bytes) = match extract_pubkey_components(
        &signed_children,
        signature_data.signer_serial.as_slice(),
    ) {
        Ok(p) => p,
        Err(e) => {
            return Err(e);
        },
    };
    Ok(
        VerifierParams {
            modulus: Some(modulus_bytes),
            exponent: Some(exponent_bytes),
            signature: signature_data.signature,
            signed_attrs_message_digest: Some(signature_data.expected_message_digest),
            actual_message_digest: None,
            sig_algorithm: signature_data.signed_algo,
            digest_algorithm: signature_data.digest_oid_vec,
            signed_attrs_der: Some(signature_data.signed_attrs_der),
        },
    )
}

} // verus!
