//! Decoding a buffer of BER/DER into blocks.
use crate::asn1::{
    ASN1Block, ASN1Class, ASN1DecodeErr, Block, lemma_model_of_sequence, models, OID,
    signed_is_negative, signed_magnitude, SignedBigInt, u256_shl, u256_wrapping_add, Uint256,
};
use crate::bytes::{copy_range, str_from_utf8, string_push};
use vstd::prelude::*;
use vstd::utf8::{decode_utf8, valid_utf8};

verus! {

/// The class that the two high bits of a block's first byte select.
pub open spec fn class_of(b: u8) -> ASN1Class {
    if b < 64 {
        ASN1Class::Universal
    } else if b < 128 {
        ASN1Class::Application
    } else if b < 192 {
        ASN1Class::ContextSpecific
    } else {
        ASN1Class::Private
    }
}

/// The class of a block from its first byte.
pub fn decode_class(i: u8) -> (r: Result<ASN1Class, ASN1DecodeErr>)
    ensures
        r == Ok::<ASN1Class, ASN1DecodeErr>(class_of(i)),
{
    let top = i >> 6;
    assert(top == i / 64) by (bit_vector)
        requires
            top == i >> 6,
    ;
    if top == 0 {
        Ok(ASN1Class::Universal)
    } else if top == 1 {
        Ok(ASN1Class::Application)
    } else if top == 2 {
        Ok(ASN1Class::ContextSpecific)
    } else {
        Ok(ASN1Class::Private)
    }
}

/// The number that `bytes` denote, most significant byte first.
pub open spec fn be_value(bytes: Seq<u8>) -> nat
    decreases bytes.len(),
{
    if bytes.len() == 0 {
        0
    } else {
        be_value(bytes.drop_last()) * 256 + bytes.last() as nat
    }
}

/// 256 to the power of `k`.
pub open spec fn pow256(k: nat) -> nat
    decreases k,
{
    if k == 0 {
        1
    } else {
        256 * pow256((k - 1) as nat)
    }
}

/// A big-endian number of `k` bytes is below 256 to the power of `k`.
pub proof fn lemma_be_value_bound(bytes: Seq<u8>)
    ensures
        be_value(bytes) < pow256(bytes.len()),
    decreases bytes.len(),
{
    if bytes.len() > 0 {
        lemma_be_value_bound(bytes.drop_last());
    }
}

/// The number of bytes of a `usize`.
pub open spec fn usize_bytes() -> int {
    usize::BITS as int / 8
}

/// The length field at `index`: the length and the index behind the field.
/// A first byte below 0x80 is the length; otherwise its low seven bits say
/// how many bytes of big-endian length follow.
pub open spec fn spec_decode_length(i: Seq<u8>, index: int) -> Result<(usize, int), ASN1DecodeErr> {
    if index < 0 || index >= i.len() {
        Err(ASN1DecodeErr::Incomplete)
    } else if i[index] < 0x80 {
        Ok((i[index] as usize, index + 1))
    } else {
        let lenlen = i[index] - 0x80;
        if lenlen > usize_bytes() {
            Err(ASN1DecodeErr::LengthTooLarge(lenlen as usize))
        } else if index + 1 + lenlen > i.len() {
            Err(ASN1DecodeErr::Incomplete)
        } else {
            Ok((be_value(i.subrange(index + 1, index + 1 + lenlen)) as usize, index + 1 + lenlen))
        }
    }
}

/// Reads the length field at `index` and moves `index` behind it.
#[verifier::loop_isolation(false)]
pub fn decode_length(i: &[u8], index: &mut usize) -> (r: Result<usize, ASN1DecodeErr>)
    ensures
        match spec_decode_length(i@, *old(index) as int) {
            Ok((len, next)) => r == Ok::<usize, ASN1DecodeErr>(len) && *final(index) == next
                && *old(index) < *final(index) <= i@.len(),
            Err(e) => r == Err::<usize, ASN1DecodeErr>(e),
        },
{
    if *index >= i.len() {
        return Err(ASN1DecodeErr::Incomplete);
    }
    let ghost start = *index as int;
    let startbyte = i[*index];
    *index += 1;
    if startbyte >= 0x80 {
        let lenlen: usize = (startbyte & 0x7f) as usize;
        assert(startbyte & 0x7f == startbyte - 0x80) by (bit_vector)
            requires
                startbyte >= 0x80,
        ;
        let width: usize = (usize::BITS / 8) as usize;
        if lenlen > width {
            return Err(ASN1DecodeErr::LengthTooLarge(lenlen));
        }
        let mut res: u64 = 0;
        let mut k: usize = 0;
        while k < lenlen
            invariant
                k <= lenlen <= 8,
                *index == start + 1 + k,
                *index <= i@.len(),
                res == be_value(i@.subrange(start + 1, start + 1 + k)),
            decreases lenlen - k,
        {
            if *index >= i.len() {
                return Err(ASN1DecodeErr::Incomplete);
            }
            proof {
                let prev = i@.subrange(start + 1, start + 1 + k);
                let next = i@.subrange(start + 1, start + 2 + k);
                assert(next.drop_last() =~= prev);
                lemma_be_value_bound(prev);
                lemma_be_value_bound(next);
                lemma_pow256_small();
                lemma_pow256_monotonic(k as nat, 7);
                lemma_pow256_monotonic((k + 1) as nat, 8);
            }
            res = res * 256 + i[*index] as u64;
            *index += 1;
            k += 1;
        }
        proof {
            lemma_be_value_bound(i@.subrange(start + 1, start + 1 + lenlen));
            lemma_pow256_small();
            lemma_pow256_monotonic(lenlen as nat, usize_bytes() as nat);
        }
        Ok(res as usize)
    } else {
        Ok(startbyte as usize)
    }
}

/// The powers of 256 that bound a length of four, seven and eight bytes.
pub proof fn lemma_pow256_small()
    ensures
        pow256(4) == 0x1_0000_0000,
        pow256(7) == 0x100_0000_0000_0000,
        pow256(8) == 0x1_0000_0000_0000_0000,
{
    reveal_with_fuel(pow256, 9);
}

/// The powers of 256 grow with the exponent.
pub proof fn lemma_pow256_monotonic(a: nat, b: nat)
    requires
        a <= b,
    ensures
        pow256(a) <= pow256(b),
    decreases b,
{
    if a < b {
        lemma_pow256_monotonic(a, (b - 1) as nat);
    }
}

/// One step of reading a number in base 128: the number so far shifted left
/// by seven bits, plus the low seven bits of the next byte.
pub open spec fn base128_step(acc: Uint256, b: u8) -> Uint256 {
    acc.spec_shl(7).spec_wrapping_add(Uint256::spec_from_u64((b % 128) as u64))
}

/// A number in base 128 from `index` on, continued while the high bit of a
/// byte is set: the number and the index behind its last byte.
pub open spec fn spec_decode_base127(i: Seq<u8>, index: int, acc: Uint256) -> Result<
    (Uint256, int),
    ASN1DecodeErr,
>
    decreases i.len() - index,
{
    if index < 0 || index >= i.len() {
        Err(ASN1DecodeErr::Incomplete)
    } else {
        let next = base128_step(acc, i[index]);
        if i[index] < 0x80 {
            Ok((next, index + 1))
        } else {
            spec_decode_base127(i, index + 1, next)
        }
    }
}

/// A number in base 128 ends behind where it starts, and inside the data.
pub proof fn lemma_base127_advances(i: Seq<u8>, index: int, acc: Uint256)
    ensures
        spec_decode_base127(i, index, acc) matches Ok((_, next)) ==> index < next <= i.len(),
    decreases i.len() - index,
{
    if 0 <= index < i.len() && i[index] >= 0x80 {
        lemma_base127_advances(i, index + 1, base128_step(acc, i[index]));
    }
}

/// The number 0.
pub open spec fn zero256() -> Uint256 {
    Uint256::spec_from_u64(0)
}

/// Reads a number in base 128 at `index` and moves `index` behind it.
#[verifier::loop_isolation(false)]
pub fn decode_base127(i: &[u8], index: &mut usize) -> (r: Result<Uint256, ASN1DecodeErr>)
    ensures
        match spec_decode_base127(i@, *old(index) as int, zero256()) {
            Ok((v, next)) => r == Ok::<Uint256, ASN1DecodeErr>(v) && *final(index) == next
                && *old(index) < *final(index) <= i@.len(),
            Err(e) => r == Err::<Uint256, ASN1DecodeErr>(e),
        },
{
    let mut res = Uint256::from_u64(0);
    let ghost start = *index as int;
    proof {
        lemma_base127_advances(i@, start, zero256());
    }
    loop
        invariant
            start <= *index,
            spec_decode_base127(i@, *index as int, res) == spec_decode_base127(
                i@,
                start,
                zero256(),
            ),
            spec_decode_base127(i@, start, zero256()) matches Ok((_, next)) ==> start < next
                <= i@.len(),
        decreases i@.len() - *index,
    {
        if *index >= i.len() {
            return Err(ASN1DecodeErr::Incomplete);
        }
        let nextbyte = i[*index];
        *index += 1;
        assert(nextbyte & 0x7f == nextbyte % 128) by (bit_vector);
        assert(((nextbyte & 0x80) == 0) == (nextbyte < 0x80)) by (bit_vector);
        res = u256_shl(res, 7);
        res = u256_wrapping_add(res, Uint256::from_u8(nextbyte & 0x7f));
        if (nextbyte & 0x80) == 0 {
            return Ok(res);
        }
    }
}

/// The identifier octets at `index`: tag, constructed flag, class and the
/// index behind them. A low tag of 31 announces a tag in base 128.
pub open spec fn spec_decode_tag(i: Seq<u8>, index: int) -> Result<
    (Uint256, bool, ASN1Class, int),
    ASN1DecodeErr,
> {
    if index < 0 || index >= i.len() {
        Err(ASN1DecodeErr::Incomplete)
    } else {
        let tagbyte = i[index];
        let constructed = (tagbyte / 32) % 2 == 1;
        if tagbyte % 32 == 31 {
            match spec_decode_base127(i, index + 1, zero256()) {
                Ok((tag, next)) => Ok((tag, constructed, class_of(tagbyte), next)),
                Err(e) => Err(e),
            }
        } else {
            Ok(
                (
                    Uint256::spec_from_u64((tagbyte % 32) as u64),
                    constructed,
                    class_of(tagbyte),
                    index + 1,
                ),
            )
        }
    }
}

/// Reads the identifier octets at `index` and moves `index` behind them.
pub fn decode_tag(i: &[u8], index: &mut usize) -> (r: Result<
    (Uint256, bool, ASN1Class),
    ASN1DecodeErr,
>)
    ensures
        match spec_decode_tag(i@, *old(index) as int) {
            Ok((tag, constructed, class, next)) => r == Ok::<
                (Uint256, bool, ASN1Class),
                ASN1DecodeErr,
            >((tag, constructed, class)) && *final(index) == next && *old(index) < *final(index)
                <= i@.len(),
            Err(e) => r == Err::<(Uint256, bool, ASN1Class), ASN1DecodeErr>(e),
        },
{
    if *index >= i.len() {
        return Err(ASN1DecodeErr::Incomplete);
    }
    let tagbyte = i[*index];
    let constructed = (tagbyte & 0x20) != 0;
    assert(((tagbyte & 0x20) != 0) == ((tagbyte / 32) % 2 == 1)) by (bit_vector);
    let class = match decode_class(tagbyte) {
        Ok(c) => c,
        Err(e) => {
            return Err(e);
        },
    };
    let basetag = tagbyte & 0x1f;
    assert(tagbyte & 0x1f == tagbyte % 32) by (bit_vector);
    *index += 1;
    if basetag == 0x1f {
        match decode_base127(i, index) {
            Ok(res) => Ok((res, constructed, class)),
            Err(e) => Err(e),
        }
    } else {
        Ok((Uint256::from_u8(basetag), constructed, class))
    }
}

/// Each byte as the character of the same number.
pub open spec fn latin1(bytes: Seq<u8>) -> Seq<char> {
    Seq::new(bytes.len(), |k: int| bytes[k] as char)
}

/// The string whose characters have the numbers of the bytes.
pub fn latin1_string(bytes: &[u8]) -> (r: String)
    ensures
        r@ == latin1(bytes@),
{
    let mut out = String::new();
    let mut k: usize = 0;
    while k < bytes.len()
        invariant
            k <= bytes.len(),
            out@.len() == k,
            forall|j: int| 0 <= j < k ==> out@[j] == bytes@[j] as char,
        decreases bytes.len() - k,
    {
        string_push(&mut out, bytes[k] as char);
        k += 1;
    }
    assert(out@ =~= latin1(bytes@));
    out
}

/// The characters of a PrintableString: letters, digits, space and
/// `' ( ) + , - . / : = ?`.
pub open spec fn is_printable(b: u8) -> bool {
    (0x41 <= b <= 0x5A) || (0x61 <= b <= 0x7A) || (0x30 <= b <= 0x39) || b == 0x27 || b == 0x28
        || b == 0x29 || b == 0x2B || b == 0x2C || b == 0x2D || b == 0x2E || b == 0x2F || b == 0x3A
        || b == 0x3D || b == 0x3F || b == 0x20
}

/// Whether every byte is a character of a PrintableString.
pub open spec fn all_printable(bytes: Seq<u8>) -> bool {
    forall|k: int| 0 <= k < bytes.len() ==> is_printable(#[trigger] bytes[k])
}

fn byte_is_printable(b: u8) -> (r: bool)
    ensures
        r == is_printable(b),
{
    (0x41 <= b && b <= 0x5A) || (0x61 <= b && b <= 0x7A) || (0x30 <= b && b <= 0x39) || b == 0x27
        || b == 0x28 || b == 0x29 || b == 0x2B || b == 0x2C || b == 0x2D || b == 0x2E || b == 0x2F
        || b == 0x3A || b == 0x3D || b == 0x3F || b == 0x20
}

fn bytes_all_printable(bytes: &[u8]) -> (r: bool)
    ensures
        r == all_printable(bytes@),
{
    let mut k: usize = 0;
    while k < bytes.len()
        invariant
            k <= bytes.len(),
            forall|j: int| 0 <= j < k ==> is_printable(#[trigger] bytes@[j]),
        decreases bytes.len() - k,
    {
        if !byte_is_printable(bytes[k]) {
            return false;
        }
        k += 1;
    }
    true
}

/// The first two components of an object identifier, folded into its first
/// byte as `40 * first + second`.
pub open spec fn oid_head(first: u8) -> Seq<Uint256> {
    if first < 40 {
        seq![Uint256::spec_from_u64(0), Uint256::spec_from_u64(first as u64)]
    } else if first < 80 {
        seq![Uint256::spec_from_u64(1), Uint256::spec_from_u64((first - 40) as u64)]
    } else {
        seq![Uint256::spec_from_u64(2), Uint256::spec_from_u64((first - 80) as u64)]
    }
}

/// The components of an object identifier from `index` on, each in base 128,
/// appended to `acc`.
pub open spec fn spec_oid_tail(body: Seq<u8>, index: int, acc: Seq<Uint256>) -> Result<
    Seq<Uint256>,
    ASN1DecodeErr,
>
    decreases body.len() - index,
{
    if index < 0 || index >= body.len() {
        Ok(acc)
    } else {
        match spec_decode_base127(body, index, zero256()) {
            Err(e) => Err(e),
            Ok((v, next)) => if next <= index || next > body.len() {
                Err(ASN1DecodeErr::Incomplete)
            } else {
                spec_oid_tail(body, next, acc.push(v))
            },
        }
    }
}

/// The components of the object identifier that `body` encodes.
pub open spec fn spec_oid(body: Seq<u8>) -> Result<Seq<Uint256>, ASN1DecodeErr> {
    if body.len() == 0 {
        Err(ASN1DecodeErr::Incomplete)
    } else {
        spec_oid_tail(body, 1, oid_head(body[0]))
    }
}

#[verifier::loop_isolation(false)]
fn decode_oid(body: &[u8]) -> (r: Result<OID, ASN1DecodeErr>)
    ensures
        match spec_oid(body@) {
            Ok(c) => r is Ok && r->Ok_0.0@ == c,
            Err(e) => r matches Err(e2) && e2 == e,
        },
{
    if body.len() == 0 {
        return Err(ASN1DecodeErr::Incomplete);
    }
    let first = body[0];
    let mut oidres: Vec<Uint256> = Vec::new();
    if first < 40 {
        oidres.push(Uint256::from_u64(0));
        oidres.push(Uint256::from_u8(first));
    } else if first < 80 {
        oidres.push(Uint256::from_u64(1));
        oidres.push(Uint256::from_u8(first - 40));
    } else {
        oidres.push(Uint256::from_u64(2));
        oidres.push(Uint256::from_u8(first - 80));
    }
    assert(oidres@ =~= oid_head(first));
    let mut bindex: usize = 1;
    while bindex < body.len()
        invariant
            1 <= bindex <= body.len(),
            spec_oid_tail(body@, bindex as int, oidres@) == spec_oid(body@),
        decreases body.len() - bindex,
    {
        match decode_base127(body, &mut bindex) {
            Ok(v) => {
                oidres.push(v);
            },
            Err(e) => {
                return Err(e);
            },
        }
    }
    Ok(OID(oidres))
}

/// The block of the universal class with the given tag and body, for every
/// tag but those of SEQUENCE and SET.
pub open spec fn spec_universal(tag: Uint256, constructed: bool, soff: usize, body: Seq<u8>) -> Result<
    Block,
    ASN1DecodeErr,
> {
    if !tag.fits_u8() {
        Ok(Block::Unknown(ASN1Class::Universal, constructed, soff, tag, body))
    } else if tag.w0 == 0x01 {
        if body.len() != 1 {
            Err(ASN1DecodeErr::BadBooleanLength(body.len() as usize))
        } else {
            Ok(Block::Boolean(soff, body[0] != 0))
        }
    } else if tag.w0 == 0x02 {
        Ok(Block::Integer(soff, signed_magnitude(body), signed_is_negative(body)))
    } else if tag.w0 == 0x03 {
        if body.len() == 0 {
            Ok(Block::BitString(soff, 0, Seq::empty()))
        } else if (body.len() - 1) * 8 > usize::MAX {
            Err(ASN1DecodeErr::Overflow)
        } else if (body.len() - 1) * 8 < body[0] {
            Err(ASN1DecodeErr::InvalidBitStringLength(((body.len() - 1) * 8 - body[0]) as isize))
        } else {
            Ok(
                Block::BitString(
                    soff,
                    ((body.len() - 1) * 8 - body[0]) as usize,
                    body.subrange(1, body.len() as int),
                ),
            )
        }
    } else if tag.w0 == 0x04 {
        Ok(Block::OctetString(soff, body))
    } else if tag.w0 == 0x05 {
        Ok(Block::Null(soff))
    } else if tag.w0 == 0x06 {
        match spec_oid(body) {
            Ok(c) => Ok(Block::ObjectIdentifier(soff, c)),
            Err(e) => Err(e),
        }
    } else if tag.w0 == 0x0C {
        if valid_utf8(body) {
            Ok(Block::UTF8String(soff, decode_utf8(body)))
        } else {
            Err(ASN1DecodeErr::UTF8DecodeFailure)
        }
    } else if tag.w0 == 0x13 {
        if all_printable(body) {
            Ok(Block::PrintableString(soff, latin1(body)))
        } else {
            Err(ASN1DecodeErr::PrintableStringDecodeFailure)
        }
    } else if tag.w0 == 0x14 {
        if valid_utf8(body) {
            Ok(Block::TeletexString(soff, decode_utf8(body)))
        } else {
            Err(ASN1DecodeErr::UTF8DecodeFailure)
        }
    } else if tag.w0 == 0x16 {
        Ok(Block::IA5String(soff, latin1(body)))
    } else if tag.w0 == 0x17 {
        Ok(Block::UTCTime(soff, body))
    } else if tag.w0 == 0x18 {
        Ok(Block::GeneralizedTime(soff, body))
    } else if tag.w0 == 0x1C {
        if valid_utf8(body) {
            Ok(Block::UniversalString(soff, decode_utf8(body)))
        } else {
            Err(ASN1DecodeErr::UTF8DecodeFailure)
        }
    } else if tag.w0 == 0x1E {
        if valid_utf8(body) {
            Ok(Block::BMPString(soff, decode_utf8(body)))
        } else {
            Err(ASN1DecodeErr::UTF8DecodeFailure)
        }
    } else {
        Ok(Block::Unknown(ASN1Class::Universal, constructed, soff, tag, body))
    }
}

/// The value of the outcome of decoding one block.
pub open spec fn block_result_model(r: Result<ASN1Block, ASN1DecodeErr>) -> Result<
    Block,
    ASN1DecodeErr,
> {
    match r {
        Ok(b) => Ok(b.model()),
        Err(e) => Err(e),
    }
}

/// The value of the outcome of decoding a run of blocks.
pub open spec fn blocks_result_model(r: Result<Vec<ASN1Block>, ASN1DecodeErr>) -> Result<
    Seq<Block>,
    ASN1DecodeErr,
> {
    match r {
        Ok(v) => Ok(models(v@)),
        Err(e) => Err(e),
    }
}

fn decode_universal(tag: Uint256, constructed: bool, soff: usize, body: &[u8]) -> (r: Result<
    ASN1Block,
    ASN1DecodeErr,
>)
    ensures
        block_result_model(r) == spec_universal(tag, constructed, soff, body@),
{
    assert(body@.subrange(0, body@.len() as int) =~= body@);
    let tag_u8 = match tag.to_u8() {
        Some(t) => t,
        None => {
            return Ok(
                ASN1Block::Unknown(
                    ASN1Class::Universal,
                    constructed,
                    soff,
                    tag,
                    copy_range(body, 0, body.len()),
                ),
            );
        },
    };
    assert(body@.subrange(0, body@.len() as int) =~= body@);
    if tag_u8 == 0x01 {
        if body.len() != 1 {
            return Err(ASN1DecodeErr::BadBooleanLength(body.len()));
        }
        Ok(ASN1Block::Boolean(soff, body[0] != 0))
    } else if tag_u8 == 0x02 {
        Ok(ASN1Block::Integer(soff, SignedBigInt::from_signed_bytes_be(body)))
    } else if tag_u8 == 0x03 {
        if body.len() == 0 {
            return Ok(ASN1Block::BitString(soff, 0, Vec::new()));
        }
        let bits = copy_range(body, 1, body.len());
        let bitcount = match bits.len().checked_mul(8) {
            Some(n) => n,
            None => {
                return Err(ASN1DecodeErr::Overflow);
            },
        };
        let rest = body[0] as usize;
        if bitcount < rest {
            return Err(ASN1DecodeErr::InvalidBitStringLength(bitcount as isize - rest as isize));
        }
        Ok(ASN1Block::BitString(soff, bitcount - rest, bits))
    } else if tag_u8 == 0x04 {
        Ok(ASN1Block::OctetString(soff, copy_range(body, 0, body.len())))
    } else if tag_u8 == 0x05 {
        Ok(ASN1Block::Null(soff))
    } else if tag_u8 == 0x06 {
        match decode_oid(body) {
            Ok(id) => Ok(ASN1Block::ObjectIdentifier(soff, id)),
            Err(e) => Err(e),
        }
    } else if tag_u8 == 0x0C {
        match str_from_utf8(body) {
            Some(v) => Ok(ASN1Block::UTF8String(soff, String::from_str(v))),
            None => Err(ASN1DecodeErr::UTF8DecodeFailure),
        }
    } else if tag_u8 == 0x13 {
        if bytes_all_printable(body) {
            Ok(ASN1Block::PrintableString(soff, latin1_string(body)))
        } else {
            Err(ASN1DecodeErr::PrintableStringDecodeFailure)
        }
    } else if tag_u8 == 0x14 {
        match str_from_utf8(body) {
            Some(v) => Ok(ASN1Block::TeletexString(soff, String::from_str(v))),
            None => Err(ASN1DecodeErr::UTF8DecodeFailure),
        }
    } else if tag_u8 == 0x16 {
        Ok(ASN1Block::IA5String(soff, latin1_string(body)))
    } else if tag_u8 == 0x17 {
        Ok(ASN1Block::UTCTime(soff, copy_range(body, 0, body.len())))
    } else if tag_u8 == 0x18 {
        Ok(ASN1Block::GeneralizedTime(soff, copy_range(body, 0, body.len())))
    } else if tag_u8 == 0x1C {
        match str_from_utf8(body) {
            Some(v) => Ok(ASN1Block::UniversalString(soff, String::from_str(v))),
            None => Err(ASN1DecodeErr::UTF8DecodeFailure),
        }
    } else if tag_u8 == 0x1E {
        match str_from_utf8(body) {
            Some(v) => Ok(ASN1Block::BMPString(soff, String::from_str(v))),
            None => Err(ASN1DecodeErr::UTF8DecodeFailure),
        }
    } else {
        Ok(
            ASN1Block::Unknown(
                ASN1Class::Universal,
                constructed,
                soff,
                tag,
                copy_range(body, 0, body.len()),
            ),
        )
    }
}

/// The blocks of `i` from `index` on, appended to `acc`. `start` is the
/// offset of `i` in the outermost buffer. A buffer without any block is an
/// error.
///
/// A constructed block outside the universal class becomes `Explicit` when
/// its body decodes to exactly one block, and `Unknown` otherwise.
pub open spec fn spec_items(i: Seq<u8>, start: int, index: int, acc: Seq<Block>) -> Result<
    Seq<Block>,
    ASN1DecodeErr,
>
    decreases i.len(), i.len() - index,
{
    if index < 0 || index >= i.len() {
        if acc.len() == 0 {
            Err(ASN1DecodeErr::EmptyBuffer)
        } else {
            Ok(acc)
        }
    } else {
        match spec_decode_tag(i, index) {
            Err(e) => Err(e),
            Ok((tag, constructed, class, after_tag)) => match spec_decode_length(i, after_tag) {
                Err(e) => Err(e),
                Ok((len, body_start)) => {
                    if body_start + len > usize::MAX {
                        Err(ASN1DecodeErr::LengthTooLarge(len))
                    } else if body_start + len > i.len() {
                        Err(ASN1DecodeErr::Incomplete)
                    } else if body_start <= index {
                        Err(ASN1DecodeErr::Incomplete)
                    } else {
                        let soff = (start + index) as usize;
                        let body = i.subrange(body_start, body_start + len);
                        let inner = start + body_start;
                        let block = if class != ASN1Class::Universal {
                            let nested = spec_items(body, inner, 0, Seq::empty());
                            if constructed && nested is Ok && nested->Ok_0.len() == 1 {
                                Ok(Block::Explicit(class, soff, tag, Box::new(nested->Ok_0[0])))
                            } else {
                                Ok(Block::Unknown(class, constructed, soff, tag, body))
                            }
                        } else if tag == Uint256::spec_from_u64(0x10) {
                            match spec_items(body, inner, 0, Seq::empty()) {
                                Ok(items) => Ok(Block::Sequence(soff, items)),
                                Err(e) => Err(e),
                            }
                        } else if tag == Uint256::spec_from_u64(0x11) {
                            match spec_items(body, inner, 0, Seq::empty()) {
                                Ok(items) => Ok(Block::SetOf(soff, items)),
                                Err(e) => Err(e),
                            }
                        } else {
                            spec_universal(tag, constructed, soff, body)
                        };
                        match block {
                            Err(e) => Err(e),
                            Ok(b) => spec_items(i, start, body_start + len, acc.push(b)),
                        }
                    }
                },
            },
        }
    }
}

/// The blocks that a whole buffer decodes to.
pub open spec fn spec_from_der(i: Seq<u8>) -> Result<Seq<Block>, ASN1DecodeErr> {
    spec_items(i, 0, 0, Seq::empty())
}

/// Decodes a whole buffer into its blocks.
pub fn from_der(i: &[u8]) -> (r: Result<Vec<ASN1Block>, ASN1DecodeErr>)
    ensures
        blocks_result_model(r) == spec_from_der(i@),
{
    let _ = i.len();
    from_der_(i, 0)
}

#[verifier::loop_isolation(false)]
fn from_der_(i: &[u8], start_offset: usize) -> (r: Result<Vec<ASN1Block>, ASN1DecodeErr>)
    requires
        start_offset + i@.len() <= usize::MAX,
    ensures
        blocks_result_model(r) == spec_items(i@, start_offset as int, 0, Seq::empty()),
    decreases i@.len(),
{
    let mut result: Vec<ASN1Block> = Vec::new();
    let mut index: usize = 0;
    let ghost start = start_offset as int;
    let ghost whole = spec_items(i@, start, 0, Seq::empty());
    assert(models(result@) =~= Seq::<Block>::empty());
    while index < i.len()
        invariant
            index <= i@.len(),
            spec_items(i@, start, index as int, models(result@)) == whole,
        decreases i@.len() - index,
    {
        let soff = start_offset + index;
        let ghost at = index as int;
        let ghost acc = models(result@);
        let (tag, constructed, class) = match decode_tag(i, &mut index) {
            Ok(t) => t,
            Err(e) => {
                return Err(e);
            },
        };
        let len = match decode_length(i, &mut index) {
            Ok(n) => n,
            Err(e) => {
                return Err(e);
            },
        };
        let checklen = match index.checked_add(len) {
            Some(c) => c,
            None => {
                return Err(ASN1DecodeErr::LengthTooLarge(len));
            },
        };
        if checklen > i.len() {
            return Err(ASN1DecodeErr::Incomplete);
        }
        let body = vstd::slice::slice_subrange(i, index, checklen);
        let block = if class != ASN1Class::Universal {
            let mut explicit: Option<ASN1Block> = None;
            if constructed {
                match from_der_(body, start_offset + index) {
                    Ok(mut items) => {
                        if items.len() == 1 {
                            let ghost before = items@;
                            let inner = items.remove(0);
                            assert(inner == before[0]);
                            assert(models(before)[0] == inner.model());
                            explicit = Some(ASN1Block::Explicit(class, soff, tag, Box::new(inner)));
                        }
                    },
                    Err(_) => {},
                }
            }
            match explicit {
                Some(b) => b,
                None => ASN1Block::Unknown(
                    class,
                    constructed,
                    soff,
                    tag,
                    copy_range(body, 0, body.len()),
                ),
            }
        } else if tag == Uint256::from_u64(0x10) {
            match from_der_(body, start_offset + index) {
                Ok(items) => {
                    proof {
                        lemma_model_of_sequence(soff, items);
                    }
                    ASN1Block::Sequence(soff, items)
                },
                Err(e) => {
                    return Err(e);
                },
            }
        } else if tag == Uint256::from_u64(0x11) {
            match from_der_(body, start_offset + index) {
                Ok(items) => {
                    proof {
                        lemma_model_of_sequence(soff, items);
                    }
                    ASN1Block::SetOf(soff, items)
                },
                Err(e) => {
                    return Err(e);
                },
            }
        } else {
            match decode_universal(tag, constructed, soff, body) {
                Ok(b) => b,
                Err(e) => {
                    return Err(e);
                },
            }
        };
        assert(body@.subrange(0, body@.len() as int) =~= body@);
        assert(spec_items(i@, start, at, acc) == spec_items(
            i@,
            start,
            checklen as int,
            acc.push(block.model()),
        ));
        result.push(block);
        assert(models(result@) =~= acc.push(block.model()));
        index = checklen;
    }
    if result.len() == 0 {
        Err(ASN1DecodeErr::EmptyBuffer)
    } else {
        Ok(result)
    }
}

} // verus!
