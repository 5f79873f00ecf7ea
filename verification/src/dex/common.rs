//! Exchange rates from reserves.

use crate::base::error::{
    e_invalid, e_overflow, invalid, math_view, overflow1, MathErr, MathError,
};
use crate::dex::curve::math::{lemma_largest_power_of_ten, pow10_u256};
use crate::u256::{fits, U256};
use vstd::arithmetic::power::{lemma_pow_increases, lemma_pow_positive, pow};
use vstd::prelude::*;

verus! {

/// The largest number of decimals whose power of ten is a 128-bit number.
pub const MAX_RATE_DECIMALS: u8 = 38;

/// The exchange rate `reserve_b * 10^decimals_a * 10000 / (reserve_a * 10^decimals_b)`, or the
/// error.
pub open spec fn exact_rate_spec(
    reserve_a: nat,
    reserve_b: nat,
    decimals_a: u8,
    decimals_b: u8,
) -> Result<nat, MathErr> {
    let scale_a = pow(10, decimals_a as nat) as nat;
    let scale_b = pow(10, decimals_b as nat) as nat;
    if reserve_a == 0 {
        Err(
            e_invalid(
                "calculate_exact_rate"@,
                "Reserve A cannot be zero"@,
                "Rate calculation"@,
            ),
        )
    } else if decimals_a > MAX_RATE_DECIMALS || !fits(reserve_b * scale_a * 10000) {
        Err(e_overflow("calculate_exact_rate"@, seq![reserve_b], "Numerator calculation"@))
    } else if decimals_b > MAX_RATE_DECIMALS || !fits(reserve_a * scale_b) {
        Err(e_overflow("calculate_exact_rate"@, seq![reserve_a], "Denominator calculation"@))
    } else {
        Ok(reserve_b * scale_a * 10000 / (reserve_a * scale_b))
    }
}

/// Ten to the power of a number of decimals.
fn scale_of(decimals: u8) -> (r: Option<U256>)
    ensures
        match r {
            Some(v) => decimals <= MAX_RATE_DECIMALS && v@ == pow(10, decimals as nat) && v@ > 0,
            None => decimals > MAX_RATE_DECIMALS,
        },
{
    if decimals > MAX_RATE_DECIMALS {
        return None;
    }
    proof {
        lemma_largest_power_of_ten();
        lemma_pow_positive(10, 77);
        lemma_pow_positive(10, decimals as nat);
        lemma_pow_increases(10, decimals as nat, 77);
    }
    match pow10_u256(decimals as u32) {
        Ok(v) => Some(v),
        Err(_) => None,
    }
}

/// Calculates the exchange rate of two reserves in basis points: token B per token A, times
/// 10000.
pub fn calculate_exact_rate(
    reserve_a: U256,
    reserve_b: U256,
    decimals_a: u8,
    decimals_b: u8,
) -> (r: Result<U256, MathError>)
    ensures
        math_view(r) == exact_rate_spec(reserve_a@, reserve_b@, decimals_a, decimals_b),
{
    if reserve_a.is_zero() {
        return Err(
            invalid("calculate_exact_rate", "Reserve A cannot be zero", "Rate calculation"),
        );
    }
    let scaled = match scale_of(decimals_a) {
        Some(scale) => reserve_b.primitive_checked_mul(scale),
        None => None,
    };
    let numerator = match scaled {
        Some(v) => v.primitive_checked_mul(U256::from_u64(10000)),
        None => None,
    };
    let numerator = match numerator {
        Some(v) => v,
        None => return Err(
            overflow1("calculate_exact_rate", reserve_b, "Numerator calculation"),
        ),
    };
    let denominator = match scale_of(decimals_b) {
        Some(scale) => reserve_a.primitive_checked_mul(scale),
        None => None,
    };
    let denominator = match denominator {
        Some(v) => v,
        None => return Err(
            overflow1("calculate_exact_rate", reserve_a, "Denominator calculation"),
        ),
    };
    proof {
        let scale_b = pow(10, decimals_b as nat) as nat;
        assert(reserve_a@ * scale_b > 0) by (nonlinear_arith)
            requires
                reserve_a@ > 0,
                scale_b > 0,
        ;
    }
    Ok(numerator.div(denominator))
}

/// An exchange rate is the worth of one whole token A in whole tokens B, times 10000 and rounded
/// down.
pub proof fn law_rate_compares_whole_tokens(
    reserve_a: nat,
    reserve_b: nat,
    decimals_a: u8,
    decimals_b: u8,
)
    ensures
        exact_rate_spec(reserve_a, reserve_b, decimals_a, decimals_b) matches Ok(rate) ==> rate * (
        reserve_a * pow(10, decimals_b as nat)) <= reserve_b * pow(10, decimals_a as nat) * 10_000
            < (rate + 1) * (reserve_a * pow(10, decimals_b as nat)),
{
    let (a, b) = (pow(10, decimals_a as nat) as nat, pow(10, decimals_b as nat) as nat);
    lemma_pow_positive(10, decimals_a as nat);
    lemma_pow_positive(10, decimals_b as nat);
    if reserve_a > 0 {
        let d = reserve_a * b;
        let n = reserve_b * a * 10000;
        assert(d > 0) by (nonlinear_arith)
            requires
                d == reserve_a * b,
                reserve_a > 0,
                b > 0,
        ;
        vstd::arithmetic::div_mod::lemma_fundamental_div_mod(n as int, d as int);
        let q = n / d;
        assert(q * d == d * q && (q + 1) * d == d * q + d) by (nonlinear_arith);
    }
}

} // verus!
