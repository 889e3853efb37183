//! Verification of the signature of a signed PDF.
//!
//! A signature is valid when three things hold: the digest of the signed
//! bytes is the one that the signed attributes state, the signature algorithm
//! goes with the digest identifier, and the RSA signature opens to the digest
//! of the signed attributes.
use crate::bytes::bytes_eq;
use crate::pkcs7::{
    Params, parse_signed_data, signed_algorithm_of_words, spec_parse_signed_data,
    spec_signed_algorithm, VerifierParams,
};
use crate::rsa_verify::{
    digest_info, HashAlgorithm, PublicKey, rsa_key_accepted, rsa_pkcs1v15_accepts, spec_hash,
};
use crate::signed_bytes::{get_signature_der, spec_signature_der};
use vstd::prelude::*;

verus! {

/// RSA PKCS#1 v1.5 with one of four hash functions.
#[derive(Debug, Clone, Copy, PartialEq, Eq, Structural)]
pub enum SignatureAlgorithm {
    Sha1WithRsaEncryption,
    Sha256WithRsaEncryption,
    Sha384WithRsaEncryption,
    Sha512WithRsaEncryption,
}

impl SignatureAlgorithm {
    /// The name of the algorithm in words.
    pub fn describe(&self) -> (r: String)
        ensures
            r@ == match *self {
                SignatureAlgorithm::Sha1WithRsaEncryption => "SHA1 with RSA Encryption"@,
                SignatureAlgorithm::Sha256WithRsaEncryption => "SHA256 with RSA Encryption"@,
                SignatureAlgorithm::Sha384WithRsaEncryption => "SHA384 with RSA Encryption"@,
                SignatureAlgorithm::Sha512WithRsaEncryption => "SHA512 with RSA Encryption"@,
            },
    {
        match self {
            SignatureAlgorithm::Sha1WithRsaEncryption => String::from_str(
                "SHA1 with RSA Encryption",
            ),
            SignatureAlgorithm::Sha256WithRsaEncryption => String::from_str(
                "SHA256 with RSA Encryption",
            ),
            SignatureAlgorithm::Sha384WithRsaEncryption => String::from_str(
                "SHA384 with RSA Encryption",
            ),
            SignatureAlgorithm::Sha512WithRsaEncryption => String::from_str(
                "SHA512 with RSA Encryption",
            ),
        }
    }
}

/// The hash function of a signature algorithm.
pub open spec fn hash_of(algorithm: SignatureAlgorithm) -> HashAlgorithm {
    match algorithm {
        SignatureAlgorithm::Sha1WithRsaEncryption => HashAlgorithm::Sha1,
        SignatureAlgorithm::Sha256WithRsaEncryption => HashAlgorithm::Sha256,
        SignatureAlgorithm::Sha384WithRsaEncryption => HashAlgorithm::Sha384,
        SignatureAlgorithm::Sha512WithRsaEncryption => HashAlgorithm::Sha512,
    }
}

/// The hash function of a signature algorithm.
pub fn get_hash_algorithm(algorithm: &SignatureAlgorithm) -> (r: HashAlgorithm)
    ensures
        r == hash_of(*algorithm),
{
    match algorithm {
        SignatureAlgorithm::Sha1WithRsaEncryption => HashAlgorithm::Sha1,
        SignatureAlgorithm::Sha256WithRsaEncryption => HashAlgorithm::Sha256,
        SignatureAlgorithm::Sha384WithRsaEncryption => HashAlgorithm::Sha384,
        SignatureAlgorithm::Sha512WithRsaEncryption => HashAlgorithm::Sha512,
    }
}

/// The signature algorithm that goes with the digest identifier of the
/// parameters. `None` when the identifier is missing or names no supported
/// digest.
pub open spec fn expected_algorithm(p: Params) -> Option<SignatureAlgorithm> {
    match p.digest_algorithm {
        Some(words) => spec_signed_algorithm(words),
        None => None,
    }
}

/// Whether the signature algorithm goes with the digest identifier.
pub open spec fn spec_alg_consistency(p: Params) -> Option<bool> {
    match expected_algorithm(p) {
        Some(expected) => Some(p.sig_algorithm == expected),
        None => None,
    }
}

fn expected_algorithm_of(params: &VerifierParams) -> (r: Result<SignatureAlgorithm, String>)
    ensures
        match expected_algorithm(params.model()) {
            Some(a) => r == Ok::<SignatureAlgorithm, String>(a),
            None => r is Err,
        },
{
    let digest_alg = match &params.digest_algorithm {
        Some(d) => d,
        None => {
            return Err(String::from_str("Digest algorithm not found"));
        },
    };
    match signed_algorithm_of_words(digest_alg.as_slice()) {
        Some(a) => Ok(a),
        None => Err(String::from_str("Unknown digest algorithm")),
    }
}

fn check_alg_consistency_internal(params: &VerifierParams) -> (r: Result<bool, String>)
    ensures
        match spec_alg_consistency(params.model()) {
            Some(b) => r == Ok::<bool, String>(b),
            None => r is Err,
        },
{
    match expected_algorithm_of(params) {
        Ok(expected) => Ok(params.sig_algorithm == expected),
        Err(e) => Err(e),
    }
}

/// Whether the signature algorithm of the parameters is the one that goes
/// with their digest identifier. Fails when the identifier is missing or
/// unknown.
pub fn check_alg_consistency(params: &VerifierParams) -> (r: Result<bool, String>)
    ensures
        match spec_alg_consistency(params.model()) {
            Some(b) => r == Ok::<bool, String>(b),
            None => r is Err,
        },
{
    check_alg_consistency_internal(params)
}

/// Whether the digest that was computed of the signed bytes is the one that
/// the signed attributes state. `None` when either is missing.
pub open spec fn spec_message_digest_matches(p: Params) -> Option<bool> {
    match (p.signed_attrs_message_digest, p.actual_message_digest) {
        (Some(stored), Some(actual)) => Some(stored == actual),
        _ => None,
    }
}

/// Compares the digest of the signed bytes with the digest that the signed
/// attributes state.
pub fn check_message_digest(params: &VerifierParams) -> (r: Result<bool, String>)
    ensures
        match spec_message_digest_matches(params.model()) {
            Some(b) => r == Ok::<bool, String>(b),
            None => r is Err,
        },
{
    let stored = match &params.signed_attrs_message_digest {
        Some(d) => d,
        None => {
            return Err(String::from_str("No message digest found in signedAttrs"));
        },
    };
    let actual = match &params.actual_message_digest {
        Some(d) => d,
        None => {
            return Err(String::from_str("No message digest was computed"));
        },
    };
    Ok(bytes_eq(stored.as_slice(), actual.as_slice()))
}

/// The digest of the signed bytes under the hash function of the algorithm.
pub fn calculate_pdf_data_hash(signed_data: &[u8], algorithm: &SignatureAlgorithm) -> (r: Result<
    Vec<u8>,
    String,
>)
    ensures
        r is Ok,
        r->Ok_0@ == spec_hash(hash_of(*algorithm), signed_data@),
{
    Ok(get_hash_algorithm(algorithm).hash(signed_data))
}

/// The digest of the signed attributes under the hash function of the
/// signature algorithm.
pub fn calculate_signed_attrs_hash(params: &VerifierParams) -> (r: Result<Vec<u8>, String>)
    ensures
        match params.model().signed_attrs_der {
            Some(der) => r is Ok && r->Ok_0@ == spec_hash(hash_of(params.sig_algorithm), der),
            None => r is Err,
        },
{
    match &params.signed_attrs_der {
        Some(der) => Ok(get_hash_algorithm(&params.sig_algorithm).hash(der.as_slice())),
        None => Err(String::from_str("Signed attributes DER not found")),
    }
}

/// The public key that the parameters state.
pub fn create_rsa_public_key(params: &VerifierParams) -> (r: Result<PublicKey, String>)
    ensures
        match (params.model().modulus, params.model().exponent) {
            (Some(n), Some(e)) => (r is Ok <==> rsa_key_accepted(n, e)) && (r is Ok
                ==> r->Ok_0.modulus() == n && r->Ok_0.exponent() == e),
            _ => r is Err,
        },
{
    let modulus = match &params.modulus {
        Some(n) => n,
        None => {
            return Err(String::from_str("Modulus not found"));
        },
    };
    let exponent = match &params.exponent {
        Some(e) => e,
        None => {
            return Err(String::from_str("Exponent not found"));
        },
    };
    PublicKey::from_components(modulus.as_slice(), exponent.as_slice())
}

/// Verifies an RSA PKCS#1 v1.5 signature over a digest.
pub fn verify_rsa_signature(
    public_key: &PublicKey,
    message: &[u8],
    signature: &[u8],
    hash_alg: HashAlgorithm,
) -> (r: Result<bool, String>)
    ensures
        r == Ok::<bool, String>(
            rsa_pkcs1v15_accepts(
                public_key.modulus(),
                public_key.exponent(),
                digest_info(hash_alg, message@),
                signature@,
            ),
        ),
{
    public_key.verify_pkcs1v15(message, signature, hash_alg)
}

/// The verdict on a signature over `signed`: `None` for a signature that
/// cannot be judged, `Some(false)` for one that is well formed and wrong.
///
/// The hash function is the one of the digest identifier. The digest of the
/// signed bytes must be the stated one, the signature algorithm must go with
/// the digest identifier, and the RSA signature must open to the DigestInfo
/// of the digest of the signed attributes.
pub open spec fn spec_verify_params(p: Params, signed: Seq<u8>) -> Option<bool> {
    match expected_algorithm(p) {
        None => None,
        Some(expected) => match p.signed_attrs_message_digest {
            None => None,
            Some(stored) => if stored != spec_hash(hash_of(expected), signed) {
                Some(false)
            } else if p.sig_algorithm != expected {
                Some(false)
            } else {
                match (p.signed_attrs_der, p.modulus, p.exponent) {
                    (Some(attrs), Some(n), Some(e)) => if rsa_key_accepted(n, e) {
                        Some(
                            rsa_pkcs1v15_accepts(
                                n,
                                e,
                                digest_info(hash_of(expected), spec_hash(hash_of(expected), attrs)),
                                p.signature,
                            ),
                        )
                    } else {
                        None
                    },
                    _ => None,
                }
            },
        },
    }
}

/// The verdict on the signature of a PDF.
pub open spec fn spec_verify_pdf_signature(pdf: Seq<u8>) -> Option<bool> {
    match spec_signature_der(pdf) {
        None => None,
        Some((der, signed)) => match spec_parse_signed_data(der) {
            None => None,
            Some(p) => spec_verify_params(p, signed),
        },
    }
}

/// The verdict that an outcome stands for: an error is no verdict.
pub open spec fn verdict_of(r: Result<bool, String>) -> Option<bool> {
    match r {
        Ok(b) => Some(b),
        Err(_) => None,
    }
}

/// Judges a signature over `signed_data` by the parameters read from it.
/// The digest that was computed of the signed bytes is recorded in the
/// parameters.
pub fn verify_signed_data(params: &mut VerifierParams, signed_data: &[u8]) -> (r: Result<
    bool,
    String,
>)
    ensures
        verdict_of(r) == spec_verify_params(old(params).model(), signed_data@),
        r is Ok ==> final(params).model() == (Params {
            actual_message_digest: Some(
                content_digest(old(params).model(), signed_data@),
            ),
            ..old(params).model()
        }),
{
    let expected = match expected_algorithm_of(params) {
        Ok(a) => a,
        Err(e) => {
            return Err(e);
        },
    };
    let calculated = match calculate_pdf_data_hash(signed_data, &expected) {
        Ok(h) => h,
        Err(e) => {
            return Err(e);
        },
    };
    params.actual_message_digest = Some(calculated);
    match check_message_digest(params) {
        Ok(true) => {},
        Ok(false) => {
            return Ok(false);
        },
        Err(e) => {
            return Err(e);
        },
    }
    match check_alg_consistency_internal(params) {
        Ok(true) => {},
        Ok(false) => {
            return Ok(false);
        },
        Err(e) => {
            return Err(e);
        },
    }
    let calculated_digest = match calculate_signed_attrs_hash(params) {
        Ok(h) => h,
        Err(e) => {
            return Err(e);
        },
    };
    let rsa_public_key = match create_rsa_public_key(params) {
        Ok(k) => k,
        Err(e) => {
            return Err(e);
        },
    };
    let hash_alg = get_hash_algorithm(&params.sig_algorithm);
    verify_rsa_signature(
        &rsa_public_key,
        calculated_digest.as_slice(),
        params.signature.as_slice(),
        hash_alg,
    )
}

/// Verifies the signature of a PDF. An error says that the signature could
/// not be found or read; `Ok(false)` that it is present and does not hold.
pub fn verify_pdf_signature(pdf_bytes: &[u8]) -> (r: Result<bool, String>)
    ensures
        verdict_of(r) == spec_verify_pdf_signature(pdf_bytes@),
{
    let (signature_der, signed_data) = match get_signature_der(pdf_bytes) {
        Ok(p) => p,
        Err(e) => {
            return Err(e);
        },
    };
    let mut verifier_params = match parse_signed_data(signature_der.as_slice()) {
        Ok(p) => p,
        Err(e) => {
            return Err(e);
        },
    };
    verify_signed_data(&mut verifier_params, signed_data.as_slice())
}

/// The DER of the signature that a PDF declares.
pub open spec fn signature_of(pdf: Seq<u8>) -> Seq<u8>
    recommends
        spec_signature_der(pdf) is Some,
{
    (spec_signature_der(pdf)->Some_0).0
}

/// The bytes that the signature of a PDF signs.
pub open spec fn signed_bytes_of(pdf: Seq<u8>) -> Seq<u8>
    recommends
        spec_signature_der(pdf) is Some,
{
    (spec_signature_der(pdf)->Some_0).1
}

/// The parameters that the signature of a PDF gives.
pub open spec fn params_of(pdf: Seq<u8>) -> Params
    recommends
        spec_signature_der(pdf) is Some,
        spec_parse_signed_data(signature_of(pdf)) is Some,
{
    spec_parse_signed_data(signature_of(pdf))->Some_0
}

/// The digest of `signed` under the hash function of the digest identifier
/// of `p`.
pub open spec fn content_digest(p: Params, signed: Seq<u8>) -> Seq<u8>
    recommends
        expected_algorithm(p) is Some,
{
    spec_hash(hash_of(expected_algorithm(p)->Some_0), signed)
}

/// Parameters that were read from a SignedData state a message digest, a
/// supported digest identifier, the signed attributes and a key.
pub proof fn lemma_parsed_params_complete(der: Seq<u8>)
    requires
        spec_parse_signed_data(der) is Some,
    ensures
        spec_parse_signed_data(der)->Some_0.signed_attrs_message_digest is Some,
        expected_algorithm(spec_parse_signed_data(der)->Some_0) is Some,
        spec_parse_signed_data(der)->Some_0.signed_attrs_der is Some,
        spec_parse_signed_data(der)->Some_0.modulus is Some,
        spec_parse_signed_data(der)->Some_0.exponent is Some,
{
}

/// A signature is accepted only when all three checks hold: the digest of
/// the signed bytes is the stated one, the signature algorithm goes with the
/// digest identifier, and the RSA signature opens to the DigestInfo of the
/// digest of the signed attributes.
pub proof fn lemma_accepted_signature_passes_every_check(pdf: Seq<u8>)
    requires
        spec_verify_pdf_signature(pdf) == Some(true),
    ensures
        spec_signature_der(pdf) is Some,
        spec_parse_signed_data(signature_of(pdf)) is Some,
        params_of(pdf).signed_attrs_message_digest == Some(
            content_digest(params_of(pdf), signed_bytes_of(pdf)),
        ),
        spec_alg_consistency(params_of(pdf)) == Some(true),
        ({
            let p = params_of(pdf);
            let h = hash_of(p.sig_algorithm);
            rsa_pkcs1v15_accepts(
                p.modulus->Some_0,
                p.exponent->Some_0,
                digest_info(h, spec_hash(h, p.signed_attrs_der->Some_0)),
                p.signature,
            )
        }),
{
    lemma_parsed_params_complete(signature_of(pdf));
}

/// A signature is never accepted when the digest of the signed bytes is not
/// the digest that its signed attributes state: the verdict is `false`.
pub proof fn lemma_digest_mismatch_rejected(pdf: Seq<u8>)
    requires
        spec_signature_der(pdf) is Some,
        spec_parse_signed_data(signature_of(pdf)) is Some,
        params_of(pdf).signed_attrs_message_digest != Some(
            content_digest(params_of(pdf), signed_bytes_of(pdf)),
        ),
    ensures
        spec_verify_pdf_signature(pdf) == Some(false),
{
    lemma_parsed_params_complete(signature_of(pdf));
}

/// A signature is never accepted when its signature algorithm does not go
/// with its digest identifier: the verdict on such parameters is `false`
/// whenever they state a message digest.
pub proof fn lemma_algorithm_mismatch_rejected(p: Params, signed: Seq<u8>)
    requires
        spec_alg_consistency(p) == Some(false),
        p.signed_attrs_message_digest is Some,
    ensures
        spec_verify_params(p, signed) == Some(false),
{
}

/// The same for a whole PDF: where the signature algorithm that the signer
/// names does not go with the digest identifier, the verdict is `false`.
pub proof fn lemma_pdf_algorithm_mismatch_rejected(pdf: Seq<u8>)
    requires
        spec_signature_der(pdf) is Some,
        spec_parse_signed_data(signature_of(pdf)) is Some,
        spec_alg_consistency(params_of(pdf)) == Some(false),
    ensures
        spec_verify_pdf_signature(pdf) == Some(false),
{
    lemma_parsed_params_complete(signature_of(pdf));
}

/// Tampering: take a PDF whose signature is accepted, and a second one that
/// declares the same signature over other bytes. Unless the two runs of
/// signed bytes have the same digest, the verdict on the second is `false`.
pub proof fn lemma_tampering_rejected(pdf: Seq<u8>, tampered: Seq<u8>)
    requires
        spec_verify_pdf_signature(pdf) == Some(true),
        spec_signature_der(tampered) is Some,
        signature_of(tampered) == signature_of(pdf),
        content_digest(params_of(pdf), signed_bytes_of(tampered)) != content_digest(
            params_of(pdf),
            signed_bytes_of(pdf),
        ),
    ensures
        spec_verify_pdf_signature(tampered) == Some(false),
{
}

} // verus!
