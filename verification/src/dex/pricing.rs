//! Execution price and price impact, as the quoting modules report them.

use crate::base::error::{
    e_overflow, e_zero_division, math_view, overflow0, zero_division, MathErr, MathError,
};
use crate::dex::adapter::{execution_price_of, wad, wad_value, SwapDirection};
use crate::dex::clmm::{full_mul_div, mul_div_spec};
use crate::u256::{distance, u256_limit, U256};
use vstd::prelude::*;
use vstd::string::StringExecFns;

verus! {

/// The price of a swap in token 1 per token 0, scaled by ten to the power 18. The operation and
/// the two contexts name the quoting module in errors.
pub open spec fn execution_price_spec(
    operation: Seq<char>,
    context0: Seq<char>,
    context1: Seq<char>,
    amount_in: nat,
    amount_out: nat,
    direction: SwapDirection,
) -> Result<nat, MathErr> {
    if amount_in == 0 {
        Err(e_zero_division(operation, "amount_in"@))
    } else {
        match direction {
            SwapDirection::Token0ToToken1 => scaled_ratio_spec(
                operation,
                context0,
                amount_out,
                amount_in,
            ),
            SwapDirection::Token1ToToken0 => if amount_out == 0 {
                Err(e_zero_division(operation, "amount_out"@))
            } else {
                scaled_ratio_spec(operation, context1, amount_in, amount_out)
            },
        }
    }
}

/// `a / b` scaled by ten to the power 18 and rounded down.
pub open spec fn scaled_ratio_spec(
    operation: Seq<char>,
    context: Seq<char>,
    a: nat,
    b: nat,
) -> Result<nat, MathErr> {
    match mul_div_spec(a, wad(), b) {
        Ok(p) => Ok(p),
        Err(e) => Err(e_overflow(operation, seq![], context + e)),
    }
}

/// The relative change of a price in basis points, at most 10000; zero where there was no price.
pub open spec fn price_impact_spec(operation: Seq<char>, before: nat, after: nat) -> Result<
    nat,
    MathErr,
> {
    if before == 0 {
        Ok(0)
    } else {
        match mul_div_spec(distance(before, after), 10000, before) {
            Ok(i) => Ok(capped_bps(i)),
            Err(e) => Err(e_overflow(operation, seq![], "mul_div failed: "@ + e)),
        }
    }
}

/// A number of basis points, capped at 10000.
pub open spec fn capped_bps(impact: nat) -> nat {
    if impact > 10000 {
        10000
    } else {
        impact
    }
}

/// Caps a number of basis points at 10000.
pub fn cap_bps(impact: U256) -> (r: u32)
    ensures
        r == capped_bps(impact@),
{
    let limit = U256::from_u64(10000);
    if limit.less(&impact) {
        10000
    } else {
        let low: u128 = impact.low_u128();
        proof {
            assert(impact@ <= 10000);
            assert(low == impact@);
        }
        low as u32
    }
}

/// Divides with scale.
pub fn scaled_ratio(operation: &str, context: &str, a: U256, b: U256) -> (r: Result<
    U256,
    MathError,
>)
    ensures
        math_view(r) == scaled_ratio_spec(operation@, context@, a@, b@),
{
    match full_mul_div(a, wad_value(), b) {
        Ok(p) => Ok(p),
        Err(e) => {
            let text = context.to_owned().concat(e.as_str());
            Err(overflow0(operation, text.as_str()))
        },
    }
}

/// Computes the execution price.
pub fn execution_price(
    operation: &str,
    context0: &str,
    context1: &str,
    amount_in: U256,
    amount_out: U256,
    direction: SwapDirection,
) -> (r: Result<U256, MathError>)
    ensures
        math_view(r) == execution_price_spec(
            operation@,
            context0@,
            context1@,
            amount_in@,
            amount_out@,
            direction,
        ),
{
    if amount_in.is_zero() {
        return Err(zero_division(operation, "amount_in"));
    }
    match direction {
        SwapDirection::Token0ToToken1 => scaled_ratio(operation, context0, amount_out, amount_in),
        SwapDirection::Token1ToToken0 => {
            if amount_out.is_zero() {
                return Err(zero_division(operation, "amount_out"));
            }
            scaled_ratio(operation, context1, amount_in, amount_out)
        },
    }
}

/// Computes the price impact.
pub fn price_impact(operation: &str, before: U256, after: U256) -> (r: Result<u32, MathError>)
    ensures
        match r {
            Ok(v) => price_impact_spec(operation@, before@, after@) == Ok::<nat, MathErr>(
                v as nat,
            ),
            Err(e) => price_impact_spec(operation@, before@, after@) == Err::<nat, MathErr>(e@),
        },
{
    if before.is_zero() {
        return Ok(0);
    }
    let diff = before.distance(after);
    match full_mul_div(diff, U256::from_u64(10000), before) {
        Ok(i) => Ok(cap_bps(i)),
        Err(e) => {
            let text = "mul_div failed: ".to_owned().concat(e.as_str());
            Err(overflow0(operation, text.as_str()))
        },
    }
}

/// A price impact is at most 100%.
pub proof fn law_price_impact_is_bounded(operation: Seq<char>, before: nat, after: nat)
    ensures
        price_impact_spec(operation, before, after) matches Ok(bps) ==> bps <= 10000,
{
}

/// A price that stays the same has no impact.
pub proof fn law_unchanged_price_has_no_impact(operation: Seq<char>, price: nat)
    ensures
        price_impact_spec(operation, price, price) == Ok::<nat, MathErr>(0),
{
    if price != 0 {
        assert(0nat * 10000 == 0);
        assert(0 < price * crate::u256::u256_limit()) by (nonlinear_arith)
            requires
                price > 0,
                crate::u256::u256_limit() > 0,
        ;
        assert(0nat / price == 0) by {
            vstd::arithmetic::div_mod::lemma_div_basics(price as int);
        }
    }
}

/// Whether a number is `a / b`, scaled by ten to the power 18 and rounded down.
pub open spec fn is_scaled_quotient(price: nat, a: nat, b: nat) -> bool {
    price * b <= a * 1_000_000_000_000_000_000 < (price + 1) * b
}

/// Whether a price is that of a swap, in token 1 per token 0.
pub open spec fn is_price_of(
    price: nat,
    amount_in: nat,
    amount_out: nat,
    direction: SwapDirection,
) -> bool {
    match direction {
        SwapDirection::Token0ToToken1 => is_scaled_quotient(price, amount_out, amount_in),
        SwapDirection::Token1ToToken0 => is_scaled_quotient(price, amount_in, amount_out),
    }
}

/// Whether a number of basis points is the change from one price to another, relative to the first
/// one, rounded down and at most 10000.
pub open spec fn is_impact_of(bps: nat, before: nat, after: nat) -> bool {
    let change = if before <= after {
        after - before
    } else {
        before - after
    };
    &&& before == 0 ==> bps == 0
    &&& before > 0 ==> bps * before <= change * 10000
    &&& before > 0 && bps < 10000 ==> change * 10000 < (bps + 1) * before
    &&& bps <= 10000
}

/// A scaled ratio is the quotient of its two numbers.
pub proof fn law_scaled_ratio_is_the_quotient(
    operation: Seq<char>,
    context: Seq<char>,
    a: nat,
    b: nat,
)
    ensures
        scaled_ratio_spec(operation, context, a, b) matches Ok(price) ==> b > 0
            && is_scaled_quotient(price, a, b),
{
    let n = a * wad();
    if b > 0 {
        vstd::arithmetic::div_mod::lemma_fundamental_div_mod(n as int, b as int);
        let q = n / b;
        assert(q * b == b * q && (q + 1) * b == b * q + b) by (nonlinear_arith);
    }
}

/// An execution price is what of token 1 is traded for one of token 0, whichever of them goes in.
pub proof fn law_execution_price_is_token1_per_token0(
    operation: Seq<char>,
    context0: Seq<char>,
    context1: Seq<char>,
    amount_in: nat,
    amount_out: nat,
    direction: SwapDirection,
)
    ensures
        execution_price_spec(operation, context0, context1, amount_in, amount_out, direction)
            matches Ok(price) ==> is_price_of(price, amount_in, amount_out, direction),
{
    law_scaled_ratio_is_the_quotient(operation, context0, amount_out, amount_in);
    law_scaled_ratio_is_the_quotient(operation, context1, amount_in, amount_out);
}

/// A price impact is the change of the price relative to the price before.
pub proof fn law_price_impact_is_the_change(operation: Seq<char>, before: nat, after: nat)
    ensures
        price_impact_spec(operation, before, after) matches Ok(bps) ==> is_impact_of(
            bps,
            before,
            after,
        ),
{
    if before > 0 {
        let n = distance(before, after) * 10000;
        vstd::arithmetic::div_mod::lemma_fundamental_div_mod(n as int, before as int);
        let q = n / before;
        assert(q * before == before * q && (q + 1) * before == before * q + before)
            by (nonlinear_arith);
        if q > 10000 {
            assert(10000 * before <= q * before) by (nonlinear_arith)
                requires
                    q > 10000,
            ;
        }
    }
}

/// A price is owed wherever there are amounts to divide and the quotient fits into 256 bits, and an
/// impact wherever the quotient of the change fits.
pub proof fn law_prices_are_owed(
    operation: Seq<char>,
    context0: Seq<char>,
    context1: Seq<char>,
    amount_in: nat,
    amount_out: nat,
    direction: SwapDirection,
    before: nat,
    after: nat,
)
    ensures
        execution_price_spec(operation, context0, context1, amount_in, amount_out, direction) is Ok
            <==> match direction {
            SwapDirection::Token0ToToken1 => amount_in > 0 && amount_out
                * 1_000_000_000_000_000_000 < amount_in * u256_limit(),
            SwapDirection::Token1ToToken0 => amount_in > 0 && amount_out > 0 && amount_in
                * 1_000_000_000_000_000_000 < amount_out * u256_limit(),
        },
        price_impact_spec(operation, before, after) is Ok <==> before == 0 || distance(before, after)
            * 10_000 < before * u256_limit(),
{
    if direction is Token0ToToken1 && amount_in > 0 && amount_out == 0 {
        assert(0 * wad() == 0);
        assert(0 < amount_in * u256_limit()) by (nonlinear_arith)
            requires
                amount_in > 0,
                u256_limit() > 0,
        ;
    }
}

/// The execution price of the adapters is what of token 1 is traded for one of token 0, and is owed
/// wherever there are amounts to divide and the quotient fits into 256 bits.
pub proof fn law_adapter_price_is_token1_per_token0(
    amount_in: nat,
    amount_out: nat,
    direction: SwapDirection,
)
    ensures
        execution_price_of(amount_in, amount_out, direction) matches Ok(price) ==> is_price_of(
            price,
            amount_in,
            amount_out,
            direction,
        ),
        execution_price_of(amount_in, amount_out, direction) is Ok <==> match direction {
            SwapDirection::Token0ToToken1 => amount_in > 0 && amount_out
                * 1_000_000_000_000_000_000 < amount_in * u256_limit(),
            SwapDirection::Token1ToToken0 => amount_in > 0 && amount_out > 0 && amount_in
                * 1_000_000_000_000_000_000 < amount_out * u256_limit(),
        },
{
    let none: Seq<char> = seq![];
    law_execution_price_is_token1_per_token0(
        none,
        none,
        none,
        amount_in,
        amount_out,
        direction,
    );
    law_prices_are_owed(none, none, none, amount_in, amount_out, direction, 0, 0);
}

} // verus!
