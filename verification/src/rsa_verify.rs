//! Digests and RSA PKCS#1 v1.5 signature verification.
use rsa::traits::SignatureScheme;
use sha2::Digest;
use vstd::prelude::*;

verus! {

/// The hash functions that a signature may name.
#[derive(Debug, Clone, Copy, PartialEq, Eq, Structural)]
pub enum HashAlgorithm {
    Sha1,
    Sha256,
    Sha384,
    Sha512,
}

/// The SHA-1 digest of a message.
pub uninterp spec fn sha1_digest(data: Seq<u8>) -> Seq<u8>;

/// The SHA-256 digest of a message.
pub uninterp spec fn sha256_digest(data: Seq<u8>) -> Seq<u8>;

/// The SHA-384 digest of a message.
pub uninterp spec fn sha384_digest(data: Seq<u8>) -> Seq<u8>;

/// The SHA-512 digest of a message.
pub uninterp spec fn sha512_digest(data: Seq<u8>) -> Seq<u8>;

/// `sha1::Sha1`: the digest of the whole of `data`, hashed in one update.
#[verifier::external_body]
fn sha1_of(data: &[u8]) -> (r: Vec<u8>)
    ensures
        r@ == sha1_digest(data@),
{
    let mut hasher = sha1::Sha1::new();
    hasher.update(data);
    hasher.finalize().to_vec()
}

/// `sha2::Sha256`: the digest of the whole of `data`, hashed in one update.
#[verifier::external_body]
fn sha256_of(data: &[u8]) -> (r: Vec<u8>)
    ensures
        r@ == sha256_digest(data@),
{
    let mut hasher = sha2::Sha256::new();
    hasher.update(data);
    hasher.finalize().to_vec()
}

/// `sha2::Sha384`: the digest of the whole of `data`, hashed in one update.
#[verifier::external_body]
fn sha384_of(data: &[u8]) -> (r: Vec<u8>)
    ensures
        r@ == sha384_digest(data@),
{
    let mut hasher = sha2::Sha384::new();
    hasher.update(data);
    hasher.finalize().to_vec()
}

/// `sha2::Sha512`: the digest of the whole of `data`, hashed in one update.
#[verifier::external_body]
fn sha512_of(data: &[u8]) -> (r: Vec<u8>)
    ensures
        r@ == sha512_digest(data@),
{
    let mut hasher = sha2::Sha512::new();
    hasher.update(data);
    hasher.finalize().to_vec()
}

/// The digest of a message under the given hash function.
pub open spec fn spec_hash(alg: HashAlgorithm, data: Seq<u8>) -> Seq<u8> {
    match alg {
        HashAlgorithm::Sha1 => sha1_digest(data),
        HashAlgorithm::Sha256 => sha256_digest(data),
        HashAlgorithm::Sha384 => sha384_digest(data),
        HashAlgorithm::Sha512 => sha512_digest(data),
    }
}

impl HashAlgorithm {
    /// The digest of `data` under this hash function.
    pub fn hash(&self, data: &[u8]) -> (r: Vec<u8>)
        ensures
            r@ == spec_hash(*self, data@),
    {
        match self {
            HashAlgorithm::Sha1 => sha1_of(data),
            HashAlgorithm::Sha256 => sha256_of(data),
            HashAlgorithm::Sha384 => sha384_of(data),
            HashAlgorithm::Sha512 => sha512_of(data),
        }
    }
}

/// The DER of a DigestInfo up to the digest itself, for each hash function.
pub open spec fn digest_info_prefix(alg: HashAlgorithm) -> Seq<u8> {
    match alg {
        HashAlgorithm::Sha1 => seq![
            0x30u8, 0x21, 0x30, 0x09, 0x06, 0x05, 0x2b, 0x0e, 0x03, 0x02, 0x1a, 0x05, 0x00, 0x04, 0x14,
        ],
        HashAlgorithm::Sha256 => seq![
            0x30u8, 0x31, 0x30, 0x0d, 0x06, 0x09, 0x60, 0x86, 0x48, 0x01, 0x65, 0x03, 0x04, 0x02, 0x01,
            0x05, 0x00, 0x04, 0x20,
        ],
        HashAlgorithm::Sha384 => seq![
            0x30u8, 0x41, 0x30, 0x0d, 0x06, 0x09, 0x60, 0x86, 0x48, 0x01, 0x65, 0x03, 0x04, 0x02, 0x02,
            0x05, 0x00, 0x04, 0x30,
        ],
        HashAlgorithm::Sha512 => seq![
            0x30u8, 0x51, 0x30, 0x0d, 0x06, 0x09, 0x60, 0x86, 0x48, 0x01, 0x65, 0x03, 0x04, 0x02, 0x03,
            0x05, 0x00, 0x04, 0x40,
        ],
    }
}

fn prefix_bytes(alg: HashAlgorithm) -> (r: Vec<u8>)
    ensures
        r@ == digest_info_prefix(alg),
{
    let r = match alg {
        HashAlgorithm::Sha1 => vec![
            0x30u8, 0x21, 0x30, 0x09, 0x06, 0x05, 0x2b, 0x0e, 0x03, 0x02, 0x1a, 0x05, 0x00, 0x04, 0x14,
        ],
        HashAlgorithm::Sha256 => vec![
            0x30u8, 0x31, 0x30, 0x0d, 0x06, 0x09, 0x60, 0x86, 0x48, 0x01, 0x65, 0x03, 0x04, 0x02, 0x01,
            0x05, 0x00, 0x04, 0x20,
        ],
        HashAlgorithm::Sha384 => vec![
            0x30u8, 0x41, 0x30, 0x0d, 0x06, 0x09, 0x60, 0x86, 0x48, 0x01, 0x65, 0x03, 0x04, 0x02, 0x02,
            0x05, 0x00, 0x04, 0x30,
        ],
        HashAlgorithm::Sha512 => vec![
            0x30u8, 0x51, 0x30, 0x0d, 0x06, 0x09, 0x60, 0x86, 0x48, 0x01, 0x65, 0x03, 0x04, 0x02, 0x03,
            0x05, 0x00, 0x04, 0x40,
        ],
    };
    assert(r@ =~= digest_info_prefix(alg));
    r
}

/// The DigestInfo of a digest: the prefix of the hash function, then the
/// digest.
pub open spec fn digest_info(alg: HashAlgorithm, hashed: Seq<u8>) -> Seq<u8> {
    digest_info_prefix(alg) + hashed
}

/// Whether `RsaPublicKey::new` accepts the big-endian modulus `n` and
/// exponent `e` as a public key.
pub uninterp spec fn rsa_key_accepted(n: Seq<u8>, e: Seq<u8>) -> bool;

/// Whether the key of modulus `n` and exponent `e` is accepted and the
/// unprefixed PKCS#1 v1.5 scheme verifies `signature` over `encoded`.
pub uninterp spec fn rsa_pkcs1v15_accepts(
    n: Seq<u8>,
    e: Seq<u8>,
    encoded: Seq<u8>,
    signature: Seq<u8>,
) -> bool;

/// `rsa::RsaPublicKey::new` on the numbers that `n` and `e` hold, most
/// significant byte first: whether it returns a key.
#[verifier::external_body]
fn rsa_key_check(n: &[u8], e: &[u8]) -> (r: bool)
    ensures
        r == rsa_key_accepted(n@, e@),
{
    rsa::RsaPublicKey::new(rsa::BigUint::from_bytes_be(n), rsa::BigUint::from_bytes_be(e)).is_ok()
}

/// `rsa::Pkcs1v15Sign::new_unprefixed().verify` with the key that
/// `rsa::RsaPublicKey::new` makes of `n` and `e`: whether the key is accepted
/// and the verification returns `Ok`.
#[verifier::external_body]
fn rsa_verify_unprefixed(n: &[u8], e: &[u8], encoded: &[u8], signature: &[u8]) -> (r: bool)
    ensures
        r == rsa_pkcs1v15_accepts(n@, e@, encoded@, signature@),
{
    let n = rsa::BigUint::from_bytes_be(n);
    let e = rsa::BigUint::from_bytes_be(e);
    match rsa::RsaPublicKey::new(n, e) {
        Ok(key) => rsa::Pkcs1v15Sign::new_unprefixed().verify(&key, encoded, signature).is_ok(),
        Err(_) => false,
    }
}

/// An RSA public key: modulus and exponent, most significant byte first.
pub struct PublicKey {
    modulus: Vec<u8>,
    exponent: Vec<u8>,
}

impl PublicKey {
    /// The modulus, most significant byte first.
    pub closed spec fn modulus(&self) -> Seq<u8> {
        self.modulus@
    }

    /// The public exponent, most significant byte first.
    pub closed spec fn exponent(&self) -> Seq<u8> {
        self.exponent@
    }

    /// A key of the given modulus and exponent. Fails when the two are no
    /// acceptable public key.
    pub fn from_components(n: &[u8], e: &[u8]) -> (r: Result<PublicKey, String>)
        ensures
            r is Ok <==> rsa_key_accepted(n@, e@),
            r is Ok ==> r->Ok_0.modulus() == n@ && r->Ok_0.exponent() == e@,
    {
        if !rsa_key_check(n, e) {
            return Err(String::from_str("Failed to create RSA public key"));
        }
        Ok(
            PublicKey {
                modulus: vstd::slice::slice_to_vec(n),
                exponent: vstd::slice::slice_to_vec(e),
            },
        )
    }

    /// Verifies `sig` over a digest: the signature must open to the
    /// DigestInfo of `hashed` under `hash_alg`.
    pub fn verify_pkcs1v15(&self, hashed: &[u8], sig: &[u8], hash_alg: HashAlgorithm) -> (r: Result<
        bool,
        String,
    >)
        ensures
            r == Ok::<bool, String>(
                rsa_pkcs1v15_accepts(
                    self.modulus(),
                    self.exponent(),
                    digest_info(hash_alg, hashed@),
                    sig@,
                ),
            ),
    {
        let mut encoded = prefix_bytes(hash_alg);
        let mut digest = vstd::slice::slice_to_vec(hashed);
        encoded.append(&mut digest);
        Ok(
            rsa_verify_unprefixed(
                self.modulus.as_slice(),
                self.exponent.as_slice(),
                encoded.as_slice(),
                sig,
            ),
        )
    }
}

} // verus!
