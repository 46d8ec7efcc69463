//! Conversion of decimal prices into the fixed-point integers the destination
//! ledger stores.
//!
//! The ledger keeps each price as an unsigned integer scaled by `10^2` (two
//! decimal places). A price `mantissa / 10^scale` becomes
//! `round(mantissa * 100 / 10^scale)`, rounding halves away from zero; the
//! price is rejected when it is negative or when the scaled integer exceeds
//! the representable bound.
//!
//! That bound is fixed here at `u64::MAX`. The destination's entry point
//! takes 256-bit words, so this is the system's own ceiling, chosen so that
//! a scaled price is a plain machine integer end to end; any real price lies
//! many orders of magnitude below it, and one beyond it is refused as
//! `Overflow` rather than submitted.

use vstd::prelude::*;

use crate::decimal::{
    lemma_pow10_30, lemma_pow10_adds, lemma_pow10_monotone, lemma_pow10_positive, pow10,
    pow10_u128, Decimal,
};
use crate::quote::Quote;
use vstd::arithmetic::div_mod::{
    lemma_div_multiples_vanish_quotient, lemma_div_nonincreasing, lemma_fundamental_div_mod,
    lemma_fundamental_div_mod_converse, lemma_mod_division_less_than_divisor,
};
use vstd::arithmetic::mul::lemma_mul_upper_bound;

verus! {

/// Why a quote could not be converted.
#[derive(Clone, Copy, Debug, PartialEq, Eq, Structural)]
pub enum ConversionError {
    /// The price is negative: the ledger stores unsigned values only.
    Negative,
    /// The scaled price exceeds the greatest value the ledger can store.
    Overflow,
}

/// The three prices of one quote, each as a fixed-point integer scaled by
/// `10^2`, in the order the destination interface expects them.
#[derive(Clone, Copy, Debug, PartialEq, Eq, Structural)]
pub struct ScaledPriceSet {
    pub usd: u64,
    pub eur: u64,
    pub btc: u64,
}

/// The fixed-point integer for the price `m / 10^s`: the value `m * 100 / 10^s`
/// with halves rounded away from zero, written as one floor division.
pub open spec fn scaled(m: nat, s: nat) -> int {
    (200 * m + pow10(s)) as int / (2 * pow10(s)) as int
}

/// How one price fares under conversion: `None` when it converts, otherwise
/// the error it raises.
pub open spec fn price_err(d: Decimal) -> Option<ConversionError> {
    if d.neg && d.mantissa > 0 {
        Some(ConversionError::Negative)
    } else if scaled(d.mantissa as nat, d.scale as nat) > u64::MAX {
        Some(ConversionError::Overflow)
    } else {
        None
    }
}

/// For scales at most two, scaling is exact: the fixed-point integer is the
/// mantissa times the missing power of ten.
proof fn lemma_scaled_low(m: nat, s: nat)
    requires
        s <= 2,
    ensures
        scaled(m, s) == m * pow10((2 - s) as nat),
{
    let p = pow10((2 - s) as nat);
    let d = pow10(s);
    let k = m * p;
    lemma_pow10_positive(s);
    lemma_pow10_adds((2 - s) as nat, s);
    assert(pow10(2) == 100) by {
        reveal_with_fuel(pow10, 3);
    }
    assert(p * d == 100);
    assert(200 * m + d == (k as int) * (2 * d) + d) by (nonlinear_arith)
        requires
            k == m * p,
            p * d == 100,
    ;
    lemma_fundamental_div_mod_converse(
        (200 * m + d) as int,
        (2 * d) as int,
        k as int,
        d as int,
    );
}

/// For scales above two, scaling divides the mantissa by the excess power of
/// ten and rounds the remainder: up when twice the remainder reaches the
/// divisor, down otherwise.
proof fn lemma_scaled_high(m: nat, s: nat)
    requires
        2 < s,
    ensures
        ({
            let dd = pow10((s - 2) as nat) as int;
            let q = m as int / dd;
            let rr = m as int % dd;
            scaled(m, s) == q + if 2 * rr >= dd {
                1int
            } else {
                0int
            }
        }),
{
    let dd = pow10((s - 2) as nat) as int;
    let q = m as int / dd;
    let rr = m as int % dd;
    lemma_pow10_positive((s - 2) as nat);
    lemma_pow10_adds(2, (s - 2) as nat);
    assert(pow10(2) == 100) by {
        reveal_with_fuel(pow10, 3);
    }
    assert(pow10(s) == 100 * dd);
    lemma_div_multiples_vanish_quotient(100, 2 * m + dd, 2 * dd);
    assert(100 * (2 * m + dd) == 200 * m + pow10(s));
    assert(100 * (2 * dd) == 2 * pow10(s));
    assert(scaled(m, s) == (2 * m + dd) / (2 * dd));
    lemma_fundamental_div_mod(m as int, dd);
    lemma_mod_division_less_than_divisor(m as int, dd);
    if 2 * rr >= dd {
        assert(2 * m + dd == (q + 1) * (2 * dd) + (2 * rr - dd)) by (nonlinear_arith)
            requires
                m as int == dd * q + rr,
        ;
        lemma_fundamental_div_mod_converse(2 * m + dd, 2 * dd, q + 1, 2 * rr - dd);
    } else {
        assert(2 * m + dd == q * (2 * dd) + (2 * rr + dd)) by (nonlinear_arith)
            requires
                m as int == dd * q + rr,
        ;
        lemma_fundamental_div_mod_converse(2 * m + dd, 2 * dd, q, 2 * rr + dd);
    }
}

/// Law: converting and then reading the integer back at two decimal places
/// reproduces the original price within half of one cent. For the price
/// `m / 10^s` and its fixed-point integer `c = scaled(m, s)`, the difference
/// `c / 100 - m / 10^s` lies between `-1/200` and `1/200`; the inequality is
/// stated here with both sides multiplied by `200 * 10^s`.
pub proof fn lemma_round_trip_within_cent(m: nat, s: nat)
    ensures
        2 * (100 * m) - pow10(s) <= 2 * scaled(m, s) * pow10(s) <= 2 * (100 * m) + pow10(s),
{
    let d = pow10(s) as int;
    lemma_pow10_positive(s);
    let x = 200 * (m as int) + d;
    let sc = scaled(m, s);
    lemma_fundamental_div_mod(x, 2 * d);
    lemma_mod_division_less_than_divisor(x, 2 * d);
    assert(2 * sc * d == (2 * d) * (x / (2 * d))) by (nonlinear_arith)
        requires
            sc == x / (2 * d),
    ;
}

/// Converts one price. Returns its fixed-point integer, or the error the
/// price raises: `Negative` for a negative price, `Overflow` when the scaled
/// integer exceeds `u64::MAX`.
pub fn scale_price(d: &Decimal) -> (r: Result<u64, ConversionError>)
    requires
        d.wf(),
    ensures
        (r matches Ok(v)) <==> price_err(*d) is None,
        r matches Ok(v) ==> v as int == scaled(d.mantissa as nat, d.scale as nat),
        r matches Err(e) ==> price_err(*d) == Some(e),
{
    if d.neg && d.mantissa > 0 {
        return Err(ConversionError::Negative);
    }
    let m = d.mantissa;
    proof {
        lemma_pow10_30();
    }
    let v: u128 = if d.scale <= 2 {
        let f = pow10_u128(2 - d.scale);
        proof {
            lemma_scaled_low(m as nat, d.scale as nat);
            lemma_pow10_monotone((2 - d.scale) as nat, 2);
            assert(pow10(2) == 100) by {
                reveal_with_fuel(pow10, 3);
            }
            lemma_mul_upper_bound(
                m as int,
                pow10(30) as int,
                f as int,
                100,
            );
        }
        m * f
    } else {
        let dd = pow10_u128(d.scale - 2);
        proof {
            lemma_pow10_positive((d.scale - 2) as nat);
            lemma_scaled_high(m as nat, d.scale as nat);
            lemma_mod_division_less_than_divisor(m as int, dd as int);
            lemma_div_nonincreasing(m as int, dd as int);
            lemma_pow10_monotone((d.scale - 2) as nat, 30);
        }
        let q = m / dd;
        let rr = m % dd;
        if 2 * rr >= dd {
            q + 1
        } else {
            q
        }
    };
    if v > (u64::MAX as u128) {
        Err(ConversionError::Overflow)
    } else {
        Ok(v as u64)
    }
}

/// Converts a whole quote into the three fixed-point integers the ledger
/// stores. Succeeds exactly when every price converts; otherwise returns the
/// error of the first failing price, examined in the order USD, EUR, BTC.
pub fn convert(q: &Quote) -> (r: Result<ScaledPriceSet, ConversionError>)
    requires
        q.wf(),
    ensures
        (r matches Ok(p)) <==> (price_err(q.usd) is None && price_err(q.eur) is None
            && price_err(q.btc) is None),
        r matches Ok(p) ==> p.usd as int == scaled(q.usd.mantissa as nat, q.usd.scale as nat)
            && p.eur as int == scaled(q.eur.mantissa as nat, q.eur.scale as nat)
            && p.btc as int == scaled(q.btc.mantissa as nat, q.btc.scale as nat),
        price_err(q.usd) matches Some(e) ==> r == Err::<ScaledPriceSet, ConversionError>(e),
        price_err(q.usd) is None ==> (price_err(q.eur) matches Some(e) ==> r == Err::<
            ScaledPriceSet,
            ConversionError,
        >(e)),
        price_err(q.usd) is None && price_err(q.eur) is None ==> (price_err(q.btc) matches Some(e)
            ==> r == Err::<ScaledPriceSet, ConversionError>(e)),
{
    let usd = match scale_price(&q.usd) {
        Ok(v) => v,
        Err(e) => {
            return Err(e);
        },
    };
    let eur = match scale_price(&q.eur) {
        Ok(v) => v,
        Err(e) => {
            return Err(e);
        },
    };
    let btc = match scale_price(&q.btc) {
        Ok(v) => v,
        Err(e) => {
            return Err(e);
        },
    };
    Ok(ScaledPriceSet { usd, eur, btc })
}

} // verus!
