//! The numbers of the PDF syntax, as exact decimals.
use crate::bytes::{all_digits, digits_value};
use vstd::prelude::*;

verus! {

/// A decimal number: a sign, the whole part, and the first nine digits of the
/// fraction as a count of billionths. A whole part beyond the range of `u64`
/// is held as `u64::MAX`.
#[derive(Clone, Copy, Debug, PartialEq, Eq, Structural)]
pub struct PdfNumber {
    pub negative: bool,
    pub whole: u64,
    pub frac: u32,
}

/// The digits of a number text behind its sign.
pub open spec fn unsigned_part(text: Seq<u8>) -> Seq<u8> {
    if text.len() > 0 && (text[0] == 0x2B || text[0] == 0x2D) {
        text.subrange(1, text.len() as int)
    } else {
        text
    }
}

/// The position of the first `.` at or after `i`, or the length of the text.
pub open spec fn dot_position(body: Seq<u8>, i: int) -> int
    decreases body.len() - i,
{
    if i < 0 || i >= body.len() {
        body.len() as int
    } else if body[i] == 0x2E {
        i
    } else {
        dot_position(body, i + 1)
    }
}

/// The decimal point lies where `dot_position` says, and nowhere before.
pub proof fn lemma_dot_position(body: Seq<u8>, i: int)
    requires
        0 <= i <= body.len(),
    ensures
        i <= dot_position(body, i) <= body.len(),
        dot_position(body, i) < body.len() ==> body[dot_position(body, i)] == 0x2E,
        forall|j: int| i <= j < dot_position(body, i) ==> body[j] != 0x2E,
    decreases body.len() - i,
{
    if i < body.len() && body[i] != 0x2E {
        lemma_dot_position(body, i + 1);
    }
}

/// The digits in front of the decimal point.
pub open spec fn whole_digits(text: Seq<u8>) -> Seq<u8> {
    let body = unsigned_part(text);
    body.subrange(0, dot_position(body, 0))
}

/// The digits behind the decimal point.
pub open spec fn fraction_digits(text: Seq<u8>) -> Seq<u8> {
    let body = unsigned_part(text);
    let dot = dot_position(body, 0);
    if dot < body.len() {
        body.subrange(dot + 1, body.len() as int)
    } else {
        Seq::empty()
    }
}

/// The first `k` digits of a fraction as a number of `k` digits; a fraction
/// with fewer digits is continued with zeros.
pub open spec fn fraction_value(digits: Seq<u8>, k: nat) -> nat
    decreases k,
{
    if k == 0 {
        0
    } else {
        fraction_value(digits, (k - 1) as nat) * 10 + if k - 1 < digits.len() {
            (digits[k - 1] - 0x30) as nat
        } else {
            0
        }
    }
}

/// 10 to the power of `k`.
pub open spec fn pow10(k: nat) -> nat
    decreases k,
{
    if k == 0 {
        1
    } else {
        10 * pow10((k - 1) as nat)
    }
}

/// The first `k` digits of a fraction are a number below 10 to the power of
/// `k`.
pub proof fn lemma_fraction_value_bound(digits: Seq<u8>, k: nat)
    requires
        all_digits(digits),
    ensures
        fraction_value(digits, k) < pow10(k),
    decreases k,
{
    if k > 0 {
        lemma_fraction_value_bound(digits, (k - 1) as nat);
    }
}

/// Whether a text is a number: an optional sign, digits with at most one
/// decimal point among them, and at least one digit.
pub open spec fn is_number_text(text: Seq<u8>) -> bool {
    all_digits(whole_digits(text)) && all_digits(fraction_digits(text)) && whole_digits(
        text,
    ).len() + fraction_digits(text).len() > 0
}

/// The number that a text denotes.
pub open spec fn spec_number(text: Seq<u8>) -> Option<PdfNumber> {
    if is_number_text(text) {
        let whole = digits_value(whole_digits(text));
        Some(
            PdfNumber {
                negative: text[0] == 0x2D,
                whole: if whole > u64::MAX {
                    u64::MAX
                } else {
                    whole as u64
                },
                frac: fraction_value(fraction_digits(text), 9) as u32,
            },
        )
    } else {
        None
    }
}

impl PdfNumber {
    /// The whole number `n`.
    pub fn from_u64(n: u64) -> (r: PdfNumber)
        ensures
            r == (PdfNumber { negative: false, whole: n, frac: 0 }),
    {
        PdfNumber { negative: false, whole: n, frac: 0 }
    }

    /// The number cut to a whole number and kept within `u64`: 0 for a
    /// negative number.
    pub open spec fn spec_to_u64(self) -> u64 {
        if self.negative {
            0
        } else {
            self.whole
        }
    }

    /// The number cut to a whole number and kept within `u32`.
    pub open spec fn spec_to_u32(self) -> u32 {
        if self.spec_to_u64() > u32::MAX {
            u32::MAX
        } else {
            self.spec_to_u64() as u32
        }
    }

    /// The number cut to a whole number and kept within `u16`.
    pub open spec fn spec_to_u16(self) -> u16 {
        if self.spec_to_u64() > u16::MAX {
            u16::MAX
        } else {
            self.spec_to_u64() as u16
        }
    }

    /// The number cut to a whole number and kept within `usize`.
    pub open spec fn spec_to_usize(self) -> usize {
        if self.spec_to_u64() > usize::MAX {
            usize::MAX
        } else {
            self.spec_to_u64() as usize
        }
    }

    /// The number cut to a whole number and kept within `i32`.
    pub open spec fn spec_to_i32(self) -> i32 {
        if self.negative {
            if self.whole >= 0x8000_0000 {
                i32::MIN
            } else {
                (-(self.whole as int)) as i32
            }
        } else if self.whole > i32::MAX {
            i32::MAX
        } else {
            self.whole as i32
        }
    }

    /// Whether the number is below -200.
    pub open spec fn spec_below_minus_200(self) -> bool {
        self.negative && (self.whole > 200 || (self.whole == 200 && self.frac > 0))
    }

    /// The number cut to a whole number and kept within `u64`.
    pub fn to_u64(&self) -> (r: u64)
        ensures
            r == self.spec_to_u64(),
    {
        if self.negative {
            0
        } else {
            self.whole
        }
    }

    /// The number cut to a whole number and kept within `u32`.
    pub fn to_u32(&self) -> (r: u32)
        ensures
            r == self.spec_to_u32(),
    {
        let v = self.to_u64();
        if v > u32::MAX as u64 {
            u32::MAX
        } else {
            v as u32
        }
    }

    /// The number cut to a whole number and kept within `u16`.
    pub fn to_u16(&self) -> (r: u16)
        ensures
            r == self.spec_to_u16(),
    {
        let v = self.to_u64();
        if v > u16::MAX as u64 {
            u16::MAX
        } else {
            v as u16
        }
    }

    /// The number cut to a whole number and kept within `usize`.
    pub fn to_usize(&self) -> (r: usize)
        ensures
            r == self.spec_to_usize(),
    {
        let v = self.to_u64();
        if v > usize::MAX as u64 {
            usize::MAX
        } else {
            v as usize
        }
    }

    /// The number cut to a whole number and kept within `i32`.
    pub fn to_i32(&self) -> (r: i32)
        ensures
            r == self.spec_to_i32(),
    {
        if self.negative {
            if self.whole >= 0x8000_0000 {
                i32::MIN
            } else {
                -(self.whole as i32)
            }
        } else if self.whole > i32::MAX as u64 {
            i32::MAX
        } else {
            self.whole as i32
        }
    }

    /// Whether the number is below -200.
    pub fn below_minus_200(&self) -> (r: bool)
        ensures
            r == self.spec_below_minus_200(),
    {
        self.negative && (self.whole > 200 || (self.whole == 200 && self.frac > 0))
    }

    /// Reads a number text. `None` for a text that is no number.
    pub fn parse(text: &[u8]) -> (r: Option<PdfNumber>)
        ensures
            r == spec_number(text@),
    {
        let negative = text.len() > 0 && text[0] == 0x2D;
        let from: usize = if text.len() > 0 && (text[0] == 0x2B || text[0] == 0x2D) {
            1
        } else {
            0
        };
        let body = vstd::slice::slice_subrange(text, from, text.len());
        assert(body@ == unsigned_part(text@)) by {
            assert(text@.subrange(0, text@.len() as int) =~= text@);
        }
        let dot = find_dot(body);
        let whole_text = vstd::slice::slice_subrange(body, 0, dot);
        let whole = match saturating_digits(whole_text) {
            Some(w) => w,
            None => {
                return None;
            },
        };
        let (frac, frac_len) = if dot < body.len() {
            let frac_text = vstd::slice::slice_subrange(body, dot + 1, body.len());
            match billionths(frac_text) {
                Some(f) => (f, frac_text.len()),
                None => {
                    return None;
                },
            }
        } else {
            assert(fraction_value(Seq::<u8>::empty(), 9) == 0) by {
                reveal_with_fuel(fraction_value, 10);
            }
            (0u32, 0usize)
        };
        if dot == 0 && frac_len == 0 {
            return None;
        }
        Some(PdfNumber { negative, whole, frac })
    }
}

/// The position of the first `.` of a text, or its length.
#[verifier::loop_isolation(false)]
fn find_dot(body: &[u8]) -> (r: usize)
    ensures
        r == dot_position(body@, 0),
        r <= body@.len(),
{
    proof {
        lemma_dot_position(body@, 0);
    }
    let mut k: usize = 0;
    while k < body.len() && body[k] != 0x2E
        invariant
            k <= body.len(),
            dot_position(body@, k as int) == dot_position(body@, 0),
        decreases body.len() - k,
    {
        k += 1;
    }
    k
}

/// The value of a run of digits, kept within `u64`; `None` when a byte is no
/// digit.
#[verifier::loop_isolation(false)]
fn saturating_digits(digits: &[u8]) -> (r: Option<u64>)
    ensures
        r is Some <==> all_digits(digits@),
        r is Some ==> r->0 == if digits_value(digits@) > u64::MAX {
            u64::MAX
        } else {
            digits_value(digits@) as u64
        },
{
    let ghost d = digits@;
    let mut whole: u64 = 0;
    let mut saturated = false;
    let mut k: usize = 0;
    while k < digits.len()
        invariant
            k <= digits.len(),
            all_digits(d.take(k as int)),
            !saturated ==> whole == digits_value(d.take(k as int)),
            saturated ==> whole == u64::MAX && digits_value(d.take(k as int)) > u64::MAX,
        decreases digits.len() - k,
    {
        let b = digits[k];
        proof {
            assert(d.take(k + 1).drop_last() =~= d.take(k as int));
        }
        if b < 0x30 || b > 0x39 {
            return None;
        }
        assert(all_digits(d.take(k + 1))) by {
            assert forall|j: int| 0 <= j < k + 1 implies 0x30 <= #[trigger] d.take(k + 1)[j]
                <= 0x39 by {
                if j < k {
                    assert(d.take(k as int)[j] == d[j]);
                }
            }
        }
        if !saturated {
            let next = match whole.checked_mul(10) {
                Some(m) => m.checked_add((b - 0x30) as u64),
                None => None,
            };
            match next {
                Some(n) => {
                    whole = n;
                },
                None => {
                    whole = u64::MAX;
                    saturated = true;
                },
            }
        }
        k += 1;
    }
    proof {
        assert(d.take(k as int) =~= d);
    }
    Some(whole)
}

/// The first nine digits of a fraction as billionths; `None` when a byte is
/// no digit.
#[verifier::loop_isolation(false)]
fn billionths(digits: &[u8]) -> (r: Option<u32>)
    ensures
        r is Some <==> all_digits(digits@),
        r is Some ==> r->0 == fraction_value(digits@, 9),
{
    let ghost d = digits@;
    let mut j: usize = 0;
    while j < digits.len()
        invariant
            j <= digits.len(),
            forall|i: int| 0 <= i < j ==> 0x30 <= #[trigger] d[i] <= 0x39,
        decreases digits.len() - j,
    {
        let b = digits[j];
        if b < 0x30 || b > 0x39 {
            return None;
        }
        j += 1;
    }
    let mut frac: u32 = 0;
    let mut n: usize = 0;
    while n < 9
        invariant
            n <= 9,
            frac == fraction_value(d, n as nat),
        decreases 9 - n,
    {
        proof {
            lemma_fraction_value_bound(d, n as nat);
            lemma_fraction_value_bound(d, (n + 1) as nat);
            lemma_pow10_nine();
            lemma_pow10_monotonic((n + 1) as nat, 9);
            lemma_pow10_monotonic(n as nat, 8);
        }
        let digit: u32 = if n < digits.len() {
            (digits[n] - 0x30) as u32
        } else {
            0
        };
        frac = frac * 10 + digit;
        n += 1;
    }
    Some(frac)
}

/// The eighth and the ninth power of 10.
pub proof fn lemma_pow10_nine()
    ensures
        pow10(8) == 100_000_000,
        pow10(9) == 1_000_000_000,
{
    reveal_with_fuel(pow10, 10);
}

/// The powers of 10 grow with the exponent.
pub proof fn lemma_pow10_monotonic(a: nat, b: nat)
    requires
        a <= b,
    ensures
        pow10(a) <= pow10(b),
    decreases b,
{
    if a < b {
        lemma_pow10_monotonic(a, (b - 1) as nat);
    }
}

/// An empty text is no number.
pub proof fn lemma_number_text_not_empty(text: Seq<u8>)
    ensures
        text.len() == 0 ==> spec_number(text) is None,
{
    if text.len() == 0 {
        lemma_dot_position(unsigned_part(text), 0);
        assert(whole_digits(text).len() == 0);
        assert(fraction_digits(text).len() == 0);
    }
}

} // verus!
