//! A plain decimal number: a sign, an integer mantissa and a decimal scale.
//!
//! A `Decimal` stands for the value `mantissa / 10^scale`, negated when `neg`
//! is set. Prices arrive from the feed as decimal text; they are held in this
//! form so that scaling and rounding can be stated and proved exactly.

use vstd::prelude::*;

verus! {

/// Greatest number of significant digits (integer and fractional together)
/// that a `Decimal` may carry. Bounding the mantissa by `10^MAX_DIGITS` and
/// the scale by `MAX_DIGITS` keeps every intermediate product of the
/// conversion inside `u128`.
pub const MAX_DIGITS: u32 = 30;

/// `10^e`, as a mathematical integer.
pub open spec fn pow10(e: nat) -> nat
    decreases e,
{
    if e == 0 {
        1
    } else {
        10 * pow10((e - 1) as nat)
    }
}

/// The mathematical content of a `Decimal`: the value `mantissa / 10^scale`,
/// negated when `neg` holds.
pub struct NumModel {
    pub neg: bool,
    pub mantissa: nat,
    pub scale: nat,
}

/// One price value: `mantissa / 10^scale`, negative when `neg` holds and the
/// mantissa is non-zero.
#[derive(Clone, Copy, Debug, PartialEq, Eq, Structural)]
pub struct Decimal {
    pub neg: bool,
    pub mantissa: u128,
    pub scale: u32,
}

impl View for Decimal {
    type V = NumModel;

    open spec fn view(&self) -> NumModel {
        NumModel { neg: self.neg, mantissa: self.mantissa as nat, scale: self.scale as nat }
    }
}

impl Decimal {
    /// The representation bounds every decimal must satisfy.
    pub open spec fn wf(self) -> bool {
        self.mantissa < pow10(MAX_DIGITS as nat) && self.scale <= MAX_DIGITS
    }
}

pub proof fn lemma_pow10_positive(e: nat)
    ensures
        pow10(e) >= 1,
    decreases e,
{
    if e > 0 {
        lemma_pow10_positive((e - 1) as nat);
    }
}

pub proof fn lemma_pow10_monotone(a: nat, b: nat)
    requires
        a <= b,
    ensures
        pow10(a) <= pow10(b),
    decreases b,
{
    if a < b {
        lemma_pow10_monotone(a, (b - 1) as nat);
        lemma_pow10_positive((b - 1) as nat);
    }
}

pub proof fn lemma_pow10_adds(a: nat, b: nat)
    ensures
        pow10(a + b) == pow10(a) * pow10(b),
    decreases a,
{
    if a == 0 {
        assert(pow10(b) == 1 * pow10(b));
    } else {
        lemma_pow10_adds((a - 1) as nat, b);
        assert(10 * (pow10((a - 1) as nat) * pow10(b)) == (10 * pow10((a - 1) as nat)) * pow10(
            b,
        )) by (nonlinear_arith);
        assert(a + b >= 1);
        assert(pow10(a + b) == 10 * pow10((a + b - 1) as nat));
    }
}

/// `10^30` written out, so that executable code can test against the bound.
pub proof fn lemma_pow10_30()
    ensures
        pow10(30) == 1_000_000_000_000_000_000_000_000_000_000,
{
    reveal_with_fuel(pow10, 31);
}

pub proof fn lemma_pow10_32()
    ensures
        pow10(32) == 100_000_000_000_000_000_000_000_000_000_000,
{
    reveal_with_fuel(pow10, 33);
}

/// `10^e` as a machine integer, for exponents small enough to fit `u128`.
pub fn pow10_u128(e: u32) -> (r: u128)
    requires
        e <= 32,
    ensures
        r == pow10(e as nat),
{
    let mut r: u128 = 1;
    let mut k: u32 = 0;
    while k < e
        invariant
            k <= e,
            e <= 32,
            r == pow10(k as nat),
        decreases e - k,
    {
        proof {
            lemma_pow10_monotone((k + 1) as nat, 32);
            lemma_pow10_32();
            assert(pow10((k + 1) as nat) == 10 * pow10(k as nat));
        }
        r = r * 10;
        k = k + 1;
    }
    r
}

} // verus!
