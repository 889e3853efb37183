//! A decoder for the BER/DER blocks that CMS and X.509 are made of.
//!
//! Every block keeps the offset at which it started in the decoded buffer.
use crate::bytes::copy_range;
use vstd::arithmetic::power2::pow2;
use vstd::prelude::*;

verus! {

/// An unsigned 256-bit number, held as four 64-bit limbs, least significant
/// first. Tags and the components of object identifiers are of this type.
#[derive(Clone, Copy, Debug, PartialEq, Eq, Structural)]
pub struct Uint256 {
    pub w0: u64,
    pub w1: u64,
    pub w2: u64,
    pub w3: u64,
}

/// The base of the limbs, 2^64.
pub open spec fn limb_base() -> nat {
    0x1_0000_0000_0000_0000
}

impl Uint256 {
    /// The number that the limbs denote.
    pub open spec fn value(self) -> nat {
        self.w0 as nat + limb_base() * (self.w1 as nat + limb_base() * (self.w2 as nat
            + limb_base() * (self.w3 as nat)))
    }

    /// The limbs of `v` modulo 2^256.
    pub open spec fn from_nat(v: nat) -> Uint256 {
        Uint256 {
            w0: (v % limb_base()) as u64,
            w1: ((v / limb_base()) % limb_base()) as u64,
            w2: ((v / limb_base() / limb_base()) % limb_base()) as u64,
            w3: ((v / limb_base() / limb_base() / limb_base()) % limb_base()) as u64,
        }
    }

    /// The number `n`.
    pub open spec fn spec_from_u64(n: u64) -> Uint256 {
        Uint256 { w0: n, w1: 0, w2: 0, w3: 0 }
    }

    /// `self << shift`, the bits beyond the 256th dropped.
    pub open spec fn spec_shl(self, shift: nat) -> Uint256 {
        Uint256::from_nat((self.value() * pow2(shift)) % pow2(256))
    }

    /// `self + rhs` modulo 2^256.
    pub open spec fn spec_wrapping_add(self, rhs: Uint256) -> Uint256 {
        Uint256::from_nat((self.value() + rhs.value()) % pow2(256))
    }

    /// Whether the number is 0.
    pub open spec fn spec_is_zero(self) -> bool {
        self.w0 == 0 && self.w1 == 0 && self.w2 == 0 && self.w3 == 0
    }

    /// Whether the number is below 256.
    pub open spec fn fits_u8(self) -> bool {
        self.w0 < 256 && self.w1 == 0 && self.w2 == 0 && self.w3 == 0
    }

    /// The number `n`.
    pub fn from_u8(n: u8) -> (r: Uint256)
        ensures
            r == Uint256::spec_from_u64(n as u64),
    {
        Uint256 { w0: n as u64, w1: 0, w2: 0, w3: 0 }
    }

    /// The number `n`.
    pub fn from_u64(n: u64) -> (r: Uint256)
        ensures
            r == Uint256::spec_from_u64(n),
    {
        Uint256 { w0: n, w1: 0, w2: 0, w3: 0 }
    }

    /// Whether the number is 0.
    pub fn is_zero(&self) -> (r: bool)
        ensures
            r == self.spec_is_zero(),
    {
        self.w0 == 0 && self.w1 == 0 && self.w2 == 0 && self.w3 == 0
    }

    /// The number as a byte, when it is below 256.
    pub fn to_u8(&self) -> (r: Option<u8>)
        ensures
            r is Some <==> self.fits_u8(),
            r is Some ==> r->0 as u64 == self.w0,
    {
        if self.w0 < 256 && self.w1 == 0 && self.w2 == 0 && self.w3 == 0 {
            Some(self.w0 as u8)
        } else {
            None
        }
    }
}

/// `crypto_bigint::U256::shl_vartime`: the number shifted left by `shift`
/// bits, keeping the low 256 bits. The outside function panics for a shift of
/// 256 or more, which the precondition leaves out.
#[verifier::external_body]
pub(crate) fn u256_shl(x: Uint256, shift: u32) -> (r: Uint256)
    requires
        shift < 256,
    ensures
        r == x.spec_shl(shift as nat),
{
    let w = crypto_bigint::U256::from_words([x.w0, x.w1, x.w2, x.w3]).shl_vartime(shift).to_words();
    Uint256 { w0: w[0], w1: w[1], w2: w[2], w3: w[3] }
}

/// `crypto_bigint::U256::wrapping_add`: the sum of the two numbers, the carry
/// out of the 256th bit discarded.
#[verifier::external_body]
pub(crate) fn u256_wrapping_add(x: Uint256, y: Uint256) -> (r: Uint256)
    ensures
        r == x.spec_wrapping_add(y),
{
    let a = crypto_bigint::U256::from_words([x.w0, x.w1, x.w2, x.w3]);
    let b = crypto_bigint::U256::from_words([y.w0, y.w1, y.w2, y.w3]);
    let w = a.wrapping_add(&b).to_words();
    Uint256 { w0: w[0], w1: w[1], w2: w[2], w3: w[3] }
}

/// An object identifier: its components from left to right.
#[derive(Clone, Debug)]
pub struct OID(pub Vec<Uint256>);

impl OID {
    /// The identifier with the given components.
    pub fn new(x: Vec<Uint256>) -> (r: OID)
        ensures
            r.0@ == x@,
    {
        OID(x)
    }

    /// The identifier whose components are `values`.
    pub fn from_slice(values: &[u64]) -> (r: OID)
        ensures
            r.0@ == values@.map_values(|v: u64| Uint256::spec_from_u64(v)),
    {
        let mut components: Vec<Uint256> = Vec::new();
        let mut i: usize = 0;
        while i < values.len()
            invariant
                i <= values.len(),
                components@ == values@.take(i as int).map_values(|v: u64| Uint256::spec_from_u64(v)),
            decreases values.len() - i,
        {
            components.push(Uint256::from_u64(values[i]));
            proof {
                assert(values@.take(i + 1) == values@.take(i as int).push(values@[i as int]));
            }
            i += 1;
        }
        proof {
            assert(values@.take(values.len() as int) == values@);
        }
        OID(components)
    }

    /// The low 64 bits of each component.
    pub fn as_vec(&self) -> (r: Vec<u64>)
        ensures
            r@ == oid_low_words(self.0@),
    {
        let mut out: Vec<u64> = Vec::new();
        let mut i: usize = 0;
        while i < self.0.len()
            invariant
                i <= self.0.len(),
                out@ == oid_low_words(self.0@.take(i as int)),
            decreases self.0.len() - i,
        {
            out.push(self.0[i].w0);
            proof {
                assert(self.0@.take(i + 1) == self.0@.take(i as int).push(self.0@[i as int]));
            }
            i += 1;
        }
        proof {
            assert(self.0@.take(self.0.len() as int) == self.0@);
        }
        out
    }

    /// Whether two identifiers have the same components.
    pub fn same_as(&self, other: &OID) -> (r: bool)
        ensures
            r == (self.0@ == other.0@),
    {
        if self.0.len() != other.0.len() {
            return false;
        }
        let mut i: usize = 0;
        while i < self.0.len()
            invariant
                i <= self.0.len(),
                self.0.len() == other.0.len(),
                forall|j: int| 0 <= j < i ==> self.0@[j] == other.0@[j],
            decreases self.0.len() - i,
        {
            if self.0[i] != other.0[i] {
                return false;
            }
            i += 1;
        }
        proof {
            assert(self.0@ =~= other.0@);
        }
        true
    }
}

/// The low 64 bits of each component of an identifier.
pub open spec fn oid_low_words(components: Seq<Uint256>) -> Seq<u64> {
    components.map_values(|c: Uint256| c.w0)
}

/// The class of a block, from the two high bits of its first byte.
#[derive(Clone, Copy, Debug, PartialEq, Eq, Structural)]
pub enum ASN1Class {
    Universal,
    Application,
    ContextSpecific,
    Private,
}

/// A signed integer as magnitude bytes, most significant first, and a sign.
#[derive(Clone, Debug)]
pub struct SignedBigInt {
    pub bytes: Vec<u8>,
    pub negative: bool,
}

/// Whether every byte of `bytes` after position `k` is zero.
pub open spec fn zero_after(bytes: Seq<u8>, k: int) -> bool {
    forall|j: int| k < j < bytes.len() ==> bytes[j] == 0
}

/// The two's complement of `bytes` read as one big-endian number of that many
/// bytes: every byte inverted, and one added at the low end.
pub open spec fn twos_complement(bytes: Seq<u8>) -> Seq<u8> {
    Seq::new(
        bytes.len(),
        |k: int|
            if zero_after(bytes, k) {
                ((256 - bytes[k]) % 256) as u8
            } else {
                (255 - bytes[k]) as u8
            },
    )
}

/// The magnitude bytes that `from_signed_bytes_be` gives for `bytes`.
pub open spec fn signed_magnitude(bytes: Seq<u8>) -> Seq<u8> {
    if bytes.len() == 0 {
        seq![0u8]
    } else if bytes[0] >= 0x80 {
        twos_complement(bytes)
    } else {
        bytes
    }
}

/// Whether `from_signed_bytes_be` reads `bytes` as a negative number.
pub open spec fn signed_is_negative(bytes: Seq<u8>) -> bool {
    bytes.len() > 0 && bytes[0] >= 0x80
}

impl SignedBigInt {
    /// Reads a big-endian two's complement number. An empty input is zero.
    pub fn from_signed_bytes_be(bytes: &[u8]) -> (r: SignedBigInt)
        ensures
            r.bytes@ == signed_magnitude(bytes@),
            r.negative == signed_is_negative(bytes@),
    {
        if bytes.len() == 0 {
            let mut zero: Vec<u8> = Vec::new();
            zero.push(0u8);
            assert(zero@ =~= seq![0u8]);
            return SignedBigInt { bytes: zero, negative: false };
        }
        if bytes[0] >= 0x80 {
            let mut out: Vec<u8> = copy_range(bytes, 0, bytes.len());
            let mut k: usize = bytes.len();
            let mut carry: bool = true;
            while k > 0
                invariant
                    k <= bytes.len(),
                    out.len() == bytes.len(),
                    carry == zero_after(bytes@, k as int - 1),
                    forall|j: int| k <= j < bytes.len() ==> out@[j] == twos_complement(bytes@)[j],
                decreases k,
            {
                k -= 1;
                let b = bytes[k];
                let v: u8 = if carry {
                    if b == 0 {
                        0
                    } else {
                        (255 - b) + 1
                    }
                } else {
                    255 - b
                };
                out.set(k, v);
                carry = carry && b == 0;
            }
            assert(out@ =~= twos_complement(bytes@));
            SignedBigInt { bytes: out, negative: true }
        } else {
            SignedBigInt { bytes: copy_range(bytes, 0, bytes.len()), negative: false }
        }
    }
}

/// A decoded block. Every variant starts with the offset of the block, but
/// `Explicit` and `Unknown`, which start with the class.
#[derive(Debug)]
pub enum ASN1Block {
    Boolean(usize, bool),
    Integer(usize, SignedBigInt),
    BitString(usize, usize, Vec<u8>),
    OctetString(usize, Vec<u8>),
    Null(usize),
    ObjectIdentifier(usize, OID),
    UTF8String(usize, String),
    PrintableString(usize, String),
    TeletexString(usize, String),
    IA5String(usize, String),
    UTCTime(usize, Vec<u8>),
    GeneralizedTime(usize, Vec<u8>),
    UniversalString(usize, String),
    BMPString(usize, String),
    Sequence(usize, Vec<ASN1Block>),
    SetOf(usize, Vec<ASN1Block>),
    /// A constructed block outside the universal class that holds one block.
    Explicit(ASN1Class, usize, Uint256, Box<ASN1Block>),
    /// Any other block: class, constructed flag, offset, tag and raw body.
    Unknown(ASN1Class, bool, usize, Uint256, Vec<u8>),
}

/// What a block holds, as a mathematical value.
pub enum Block {
    Boolean(usize, bool),
    Integer(usize, Seq<u8>, bool),
    BitString(usize, usize, Seq<u8>),
    OctetString(usize, Seq<u8>),
    Null(usize),
    ObjectIdentifier(usize, Seq<Uint256>),
    UTF8String(usize, Seq<char>),
    PrintableString(usize, Seq<char>),
    TeletexString(usize, Seq<char>),
    IA5String(usize, Seq<char>),
    UTCTime(usize, Seq<u8>),
    GeneralizedTime(usize, Seq<u8>),
    UniversalString(usize, Seq<char>),
    BMPString(usize, Seq<char>),
    Sequence(usize, Seq<Block>),
    SetOf(usize, Seq<Block>),
    Explicit(ASN1Class, usize, Uint256, Box<Block>),
    Unknown(ASN1Class, bool, usize, Uint256, Seq<u8>),
}

impl ASN1Block {
    /// The value of the block.
    pub open spec fn model(self) -> Block
        decreases self,
    {
        match self {
            ASN1Block::Boolean(o, b) => Block::Boolean(o, b),
            ASN1Block::Integer(o, n) => Block::Integer(o, n.bytes@, n.negative),
            ASN1Block::BitString(o, n, d) => Block::BitString(o, n, d@),
            ASN1Block::OctetString(o, d) => Block::OctetString(o, d@),
            ASN1Block::Null(o) => Block::Null(o),
            ASN1Block::ObjectIdentifier(o, id) => Block::ObjectIdentifier(o, id.0@),
            ASN1Block::UTF8String(o, s) => Block::UTF8String(o, s@),
            ASN1Block::PrintableString(o, s) => Block::PrintableString(o, s@),
            ASN1Block::TeletexString(o, s) => Block::TeletexString(o, s@),
            ASN1Block::IA5String(o, s) => Block::IA5String(o, s@),
            ASN1Block::UTCTime(o, d) => Block::UTCTime(o, d@),
            ASN1Block::GeneralizedTime(o, d) => Block::GeneralizedTime(o, d@),
            ASN1Block::UniversalString(o, s) => Block::UniversalString(o, s@),
            ASN1Block::BMPString(o, s) => Block::BMPString(o, s@),
            ASN1Block::Sequence(o, items) => Block::Sequence(
                o,
                Seq::new(
                    items@.len(),
                    |i: int|
                        if 0 <= i < items@.len() {
                            items@[i].model()
                        } else {
                            Block::Null(0)
                        },
                ),
            ),
            ASN1Block::SetOf(o, items) => Block::SetOf(
                o,
                Seq::new(
                    items@.len(),
                    |i: int|
                        if 0 <= i < items@.len() {
                            items@[i].model()
                        } else {
                            Block::Null(0)
                        },
                ),
            ),
            ASN1Block::Explicit(c, o, t, inner) => Block::Explicit(c, o, t, Box::new(inner.model())),
            ASN1Block::Unknown(c, k, o, t, d) => Block::Unknown(c, k, o, t, d@),
        }
    }

    /// The class of the block.
    pub fn class(&self) -> (r: ASN1Class)
        ensures
            r == self.model().class(),
    {
        match self {
            ASN1Block::Explicit(c, _, _, _) => *c,
            ASN1Block::Unknown(c, _, _, _, _) => *c,
            _ => ASN1Class::Universal,
        }
    }

    /// The offset at which the block started.
    pub fn offset(&self) -> (r: usize)
        ensures
            r == self.model().offset(),
    {
        match self {
            ASN1Block::Boolean(o, _) => *o,
            ASN1Block::Integer(o, _) => *o,
            ASN1Block::BitString(o, _, _) => *o,
            ASN1Block::OctetString(o, _) => *o,
            ASN1Block::Null(o) => *o,
            ASN1Block::ObjectIdentifier(o, _) => *o,
            ASN1Block::UTF8String(o, _) => *o,
            ASN1Block::PrintableString(o, _) => *o,
            ASN1Block::TeletexString(o, _) => *o,
            ASN1Block::IA5String(o, _) => *o,
            ASN1Block::UTCTime(o, _) => *o,
            ASN1Block::GeneralizedTime(o, _) => *o,
            ASN1Block::UniversalString(o, _) => *o,
            ASN1Block::BMPString(o, _) => *o,
            ASN1Block::Sequence(o, _) => *o,
            ASN1Block::SetOf(o, _) => *o,
            ASN1Block::Explicit(_, o, _, _) => *o,
            ASN1Block::Unknown(_, _, o, _, _) => *o,
        }
    }
}

impl Block {
    /// The class of the block.
    pub open spec fn class(self) -> ASN1Class {
        match self {
            Block::Explicit(c, _, _, _) => c,
            Block::Unknown(c, _, _, _, _) => c,
            _ => ASN1Class::Universal,
        }
    }

    /// The offset at which the block started.
    pub open spec fn offset(self) -> usize {
        match self {
            Block::Boolean(o, _) => o,
            Block::Integer(o, _, _) => o,
            Block::BitString(o, _, _) => o,
            Block::OctetString(o, _) => o,
            Block::Null(o) => o,
            Block::ObjectIdentifier(o, _) => o,
            Block::UTF8String(o, _) => o,
            Block::PrintableString(o, _) => o,
            Block::TeletexString(o, _) => o,
            Block::IA5String(o, _) => o,
            Block::UTCTime(o, _) => o,
            Block::GeneralizedTime(o, _) => o,
            Block::UniversalString(o, _) => o,
            Block::BMPString(o, _) => o,
            Block::Sequence(o, _) => o,
            Block::SetOf(o, _) => o,
            Block::Explicit(_, o, _, _) => o,
            Block::Unknown(_, _, o, _, _) => o,
        }
    }
}

/// The values of a run of blocks.
pub open spec fn models(blocks: Seq<ASN1Block>) -> Seq<Block> {
    Seq::new(blocks.len(), |i: int| blocks[i].model())
}

/// The value of a sequence or a set is made of the values of its items.
pub proof fn lemma_model_of_sequence(o: usize, items: Vec<ASN1Block>)
    ensures
        ASN1Block::Sequence(o, items).model() == Block::Sequence(o, models(items@)),
        ASN1Block::SetOf(o, items).model() == Block::SetOf(o, models(items@)),
{
    let a = ASN1Block::Sequence(o, items).model();
    let b = ASN1Block::SetOf(o, items).model();
    assert(a->Sequence_1 =~= models(items@));
    assert(b->SetOf_1 =~= models(items@));
}

/// Why a buffer could not be decoded.
#[derive(Clone, Debug)]
pub enum ASN1DecodeErr {
    EmptyBuffer,
    BadBooleanLength(usize),
    LengthTooLarge(usize),
    UTF8DecodeFailure,
    PrintableStringDecodeFailure,
    InvalidDateValue(String),
    InvalidBitStringLength(isize),
    InvalidClass(u8),
    Incomplete,
    Overflow,
}

impl SignedBigInt {
    /// A copy with the same value.
    pub fn deep_clone(&self) -> (r: SignedBigInt)
        ensures
            r.bytes@ == self.bytes@,
            r.negative == self.negative,
    {
        SignedBigInt {
            bytes: vstd::slice::slice_to_vec(self.bytes.as_slice()),
            negative: self.negative,
        }
    }
}

impl OID {
    /// A copy with the same value.
    pub fn deep_clone(&self) -> (r: OID)
        ensures
            r.0@ == self.0@,
    {
        OID(vstd::slice::slice_to_vec(self.0.as_slice()))
    }
}

impl ASN1Block {
    /// A copy of the block with the same value.
    pub fn deep_clone(&self) -> (r: ASN1Block)
        ensures
            r.model() == self.model(),
        decreases self,
    {
        match self {
            ASN1Block::Boolean(o, b) => ASN1Block::Boolean(*o, *b),
            ASN1Block::Integer(o, n) => ASN1Block::Integer(*o, n.deep_clone()),
            ASN1Block::BitString(o, n, d) => ASN1Block::BitString(
                *o,
                *n,
                vstd::slice::slice_to_vec(d.as_slice()),
            ),
            ASN1Block::OctetString(o, d) => ASN1Block::OctetString(
                *o,
                vstd::slice::slice_to_vec(d.as_slice()),
            ),
            ASN1Block::Null(o) => ASN1Block::Null(*o),
            ASN1Block::ObjectIdentifier(o, id) => ASN1Block::ObjectIdentifier(*o, id.deep_clone()),
            ASN1Block::UTF8String(o, s) => ASN1Block::UTF8String(*o, s.clone()),
            ASN1Block::PrintableString(o, s) => ASN1Block::PrintableString(*o, s.clone()),
            ASN1Block::TeletexString(o, s) => ASN1Block::TeletexString(*o, s.clone()),
            ASN1Block::IA5String(o, s) => ASN1Block::IA5String(*o, s.clone()),
            ASN1Block::UTCTime(o, d) => ASN1Block::UTCTime(
                *o,
                vstd::slice::slice_to_vec(d.as_slice()),
            ),
            ASN1Block::GeneralizedTime(o, d) => ASN1Block::GeneralizedTime(
                *o,
                vstd::slice::slice_to_vec(d.as_slice()),
            ),
            ASN1Block::UniversalString(o, s) => ASN1Block::UniversalString(*o, s.clone()),
            ASN1Block::BMPString(o, s) => ASN1Block::BMPString(*o, s.clone()),
            ASN1Block::Sequence(o, items) => {
                let copy = clone_blocks(items);
                proof {
                    lemma_model_of_sequence(*o, *items);
                    lemma_model_of_sequence(*o, copy);
                }
                ASN1Block::Sequence(*o, copy)
            },
            ASN1Block::SetOf(o, items) => {
                let copy = clone_blocks(items);
                proof {
                    lemma_model_of_sequence(*o, *items);
                    lemma_model_of_sequence(*o, copy);
                }
                ASN1Block::SetOf(*o, copy)
            },
            ASN1Block::Explicit(c, o, t, inner) => ASN1Block::Explicit(
                *c,
                *o,
                *t,
                Box::new(inner.deep_clone()),
            ),
            ASN1Block::Unknown(c, k, o, t, d) => ASN1Block::Unknown(
                *c,
                *k,
                *o,
                *t,
                vstd::slice::slice_to_vec(d.as_slice()),
            ),
        }
    }
}

/// A copy of a run of blocks with the same values.
pub fn clone_blocks(blocks: &Vec<ASN1Block>) -> (r: Vec<ASN1Block>)
    ensures
        models(r@) == models(blocks@),
    decreases blocks,
{
    let mut out: Vec<ASN1Block> = Vec::new();
    let mut i: usize = 0;
    while i < blocks.len()
        invariant
            i <= blocks.len(),
            out@.len() == i,
            forall|j: int| 0 <= j < i ==> out@[j].model() == blocks@[j].model(),
        decreases blocks.len() - i,
    {
        proof {
            vstd::std_specs::vec::axiom_vec_index_decreases(*blocks, i as int);
        }
        out.push(blocks[i].deep_clone());
        i += 1;
    }
    assert(models(out@) =~= models(blocks@));
    out
}

/// Whether two blocks hold the same, whatever their offsets. Only booleans,
/// integers, bit strings, octet strings, nulls, object identifiers,
/// sequences and sets are compared; a block of another kind equals none.
pub open spec fn content_eq(a: Block, b: Block) -> bool
    decreases a,
{
    match (a, b) {
        (Block::Boolean(_, x), Block::Boolean(_, y)) => x == y,
        (Block::Integer(_, xb, xn), Block::Integer(_, yb, yn)) => xb == yb && xn == yn,
        (Block::BitString(_, xn, xd), Block::BitString(_, yn, yd)) => xn == yn && xd == yd,
        (Block::OctetString(_, x), Block::OctetString(_, y)) => x == y,
        (Block::Null(_), Block::Null(_)) => true,
        (Block::ObjectIdentifier(_, x), Block::ObjectIdentifier(_, y)) => x == y,
        (Block::Sequence(_, xs), Block::Sequence(_, ys)) => xs.len() == ys.len() && forall|i: int|
            0 <= i < xs.len() ==> content_eq(#[trigger] xs[i], ys[i]),
        (Block::SetOf(_, xs), Block::SetOf(_, ys)) => xs.len() == ys.len() && forall|i: int|
            0 <= i < xs.len() ==> content_eq(#[trigger] xs[i], ys[i]),
        _ => false,
    }
}

/// Whether two runs of blocks hold the same, block by block.
pub open spec fn contents_eq(xs: Seq<Block>, ys: Seq<Block>) -> bool {
    xs.len() == ys.len() && forall|i: int| 0 <= i < xs.len() ==> content_eq(#[trigger] xs[i], ys[i])
}

impl ASN1Block {
    /// Whether the two blocks hold the same, whatever their offsets.
    pub fn same_content(&self, other: &ASN1Block) -> (r: bool)
        ensures
            r == content_eq(self.model(), other.model()),
        decreases self,
    {
        match (self, other) {
            (ASN1Block::Boolean(_, x), ASN1Block::Boolean(_, y)) => *x == *y,
            (ASN1Block::Integer(_, x), ASN1Block::Integer(_, y)) => crate::bytes::bytes_eq(
                x.bytes.as_slice(),
                y.bytes.as_slice(),
            ) && x.negative == y.negative,
            (ASN1Block::BitString(_, xn, xd), ASN1Block::BitString(_, yn, yd)) => *xn == *yn
                && crate::bytes::bytes_eq(xd.as_slice(), yd.as_slice()),
            (ASN1Block::OctetString(_, x), ASN1Block::OctetString(_, y)) => crate::bytes::bytes_eq(
                x.as_slice(),
                y.as_slice(),
            ),
            (ASN1Block::Null(_), ASN1Block::Null(_)) => true,
            (ASN1Block::ObjectIdentifier(_, x), ASN1Block::ObjectIdentifier(_, y)) => x.same_as(y),
            (ASN1Block::Sequence(xo, xs), ASN1Block::Sequence(yo, ys)) => {
                proof {
                    lemma_model_of_sequence(*xo, *xs);
                    lemma_model_of_sequence(*yo, *ys);
                }
                same_contents(xs, ys)
            },
            (ASN1Block::SetOf(xo, xs), ASN1Block::SetOf(yo, ys)) => {
                proof {
                    lemma_model_of_sequence(*xo, *xs);
                    lemma_model_of_sequence(*yo, *ys);
                }
                same_contents(xs, ys)
            },
            _ => false,
        }
    }
}

/// Whether two runs of blocks hold the same, block by block.
pub fn same_contents(xs: &Vec<ASN1Block>, ys: &Vec<ASN1Block>) -> (r: bool)
    ensures
        r == contents_eq(models(xs@), models(ys@)),
    decreases xs,
{
    if xs.len() != ys.len() {
        return false;
    }
    let mut i: usize = 0;
    while i < xs.len()
        invariant
            i <= xs.len(),
            xs.len() == ys.len(),
            forall|j: int| 0 <= j < i ==> content_eq(#[trigger] models(xs@)[j], models(ys@)[j]),
        decreases xs.len() - i,
    {
        proof {
            vstd::std_specs::vec::axiom_vec_index_decreases(*xs, i as int);
        }
        if !xs[i].same_content(&ys[i]) {
            assert(!content_eq(models(xs@)[i as int], models(ys@)[i as int]));
            return false;
        }
        i += 1;
    }
    true
}

} // verus!
