//! Swaps and prices of weighted pools. Weights, fees and prices are scaled by ten to the power 18.

use crate::base::error::{
    e_invalid, e_overflow, invalid, math_view, overflow0, unexplained, MathErr, MathError,
};
use crate::dex::adapter::{wad, wad_value};
use crate::dex::balancer::conversions::{
    compute_weighted_out, even_domain, even_out, input_too_large, largest_input,
    map_pool_error_to_math_error, mapped_fault, weighted_out, weighted_view, WeightedFault,
};
use crate::dex::clmm::div_up;
use crate::dex::pricing::is_scaled_quotient;
use crate::text::{dec, text_u256};
use crate::u256::{fits, U256};
use vstd::prelude::*;
use vstd::string::StringExecFns;

verus! {

/// An input after its fee, rounded down.
pub open spec fn balancer_net_input(amount_in: nat, swap_fee: nat) -> nat {
    amount_in * ((wad() - swap_fee) as nat) / wad()
}

/// The first parameter that rules out a swap of a non-zero amount.
pub open spec fn swap_error(
    amount_in: nat,
    balance_in: nat,
    balance_out: nat,
    weight_in: nat,
    weight_out: nat,
    swap_fee: nat,
) -> Option<MathErr> {
    if balance_in == 0 || balance_out == 0 {
        Some(e_invalid("calculate_swap_output"@, "Pool balances cannot be zero"@, seq![]))
    } else if weight_in == 0 || weight_out == 0 {
        Some(e_invalid("calculate_swap_output"@, "Token weights cannot be zero"@, seq![]))
    } else if swap_fee >= wad() {
        Some(
            e_invalid(
                "calculate_swap_output"@,
                "swap_fee must be < 1e18"@,
                "swap_fee="@ + dec(swap_fee),
            ),
        )
    } else if !fits(amount_in * ((wad() - swap_fee) as nat)) {
        Some(e_overflow("calculate_swap_output"@, seq![], "amount_in * fee_complement"@))
    } else {
        None
    }
}

/// A result of the formula as the result of a swap.
pub open spec fn formula_result(r: Result<nat, (bool, Seq<char>)>) -> Result<nat, MathErr> {
    match r {
        Ok(v) => Ok(v),
        Err(fault) => Err(mapped_fault(fault, "calculate_swap_output"@)),
    }
}

/// The output of a swap, or the error.
pub open spec fn balancer_output_spec(
    amount_in: nat,
    balance_in: nat,
    balance_out: nat,
    weight_in: nat,
    weight_out: nat,
    swap_fee: nat,
) -> Result<nat, MathErr> {
    if amount_in == 0 {
        Ok(0)
    } else {
        match swap_error(amount_in, balance_in, balance_out, weight_in, weight_out, swap_fee) {
            Some(e) => Err(e),
            None => formula_result(
                weighted_out(
                    balance_in,
                    weight_in,
                    balance_out,
                    weight_out,
                    balancer_net_input(amount_in, swap_fee),
                ),
            ),
        }
    }
}

/// Reports a result of the formula as the result of a swap.
pub fn swap_result_of(r: Result<U256, WeightedFault>) -> (out: Result<U256, MathError>)
    ensures
        math_view(out) == formula_result(weighted_view(r)),
{
    match r {
        Ok(v) => Ok(v),
        Err(e) => Err(map_pool_error_to_math_error(e, "calculate_swap_output")),
    }
}

/// Checks the parameters of a swap and takes the fee from its input.
pub fn input_after_fee(
    amount_in: U256,
    balance_in: U256,
    balance_out: U256,
    weight_in: U256,
    weight_out: U256,
    swap_fee: U256,
) -> (r: Result<U256, MathError>)
    ensures
        math_view(r) == match swap_error(
            amount_in@,
            balance_in@,
            balance_out@,
            weight_in@,
            weight_out@,
            swap_fee@,
        ) {
            Some(e) => Err::<nat, MathErr>(e),
            None => Ok(balancer_net_input(amount_in@, swap_fee@)),
        },
{
    if balance_in.is_zero() || balance_out.is_zero() {
        return Err(unexplained("calculate_swap_output", "Pool balances cannot be zero"));
    }
    if weight_in.is_zero() || weight_out.is_zero() {
        return Err(unexplained("calculate_swap_output", "Token weights cannot be zero"));
    }
    let scale = wad_value();
    let complement = match scale.primitive_checked_sub(swap_fee) {
        Some(v) => v,
        None => U256::zero(),
    };
    if complement.is_zero() {
        let context = "swap_fee=".to_owned().concat(text_u256(swap_fee).as_str());
        return Err(
            invalid("calculate_swap_output", "swap_fee must be < 1e18", context.as_str()),
        );
    }
    match amount_in.primitive_checked_mul(complement) {
        Some(v) => Ok(v.div(scale)),
        None => Err(overflow0("calculate_swap_output", "amount_in * fee_complement")),
    }
}

/// Calculates the output of a swap, after the fee.
pub fn calculate_swap_output(
    amount_in: U256,
    balance_in: U256,
    balance_out: U256,
    weight_in: U256,
    weight_out: U256,
    swap_fee: U256,
) -> (r: Result<U256, MathError>)
    ensures
        math_view(r) == balancer_output_spec(
            amount_in@,
            balance_in@,
            balance_out@,
            weight_in@,
            weight_out@,
            swap_fee@,
        ),
        r matches Ok(out) ==> out@ <= balance_out@,
        amount_in@ != 0 && swap_error(
            amount_in@,
            balance_in@,
            balance_out@,
            weight_in@,
            weight_out@,
            swap_fee@,
        ) is None ==> {
            let net = balancer_net_input(amount_in@, swap_fee@);
            &&& even_domain(balance_in@, weight_in@, balance_out@, weight_out@, net)
                ==> math_view(r) == Ok::<nat, MathErr>(even_out(balance_in@, balance_out@, net))
            &&& fits(balance_in@ * 300_000_000_000_000_000) && net > largest_input(balance_in@)
                ==> math_view(r) == formula_result(input_too_large())
        },
{
    if amount_in.is_zero() {
        return Ok(U256::zero());
    }
    match input_after_fee(amount_in, balance_in, balance_out, weight_in, weight_out, swap_fee) {
        Err(e) => Err(e),
        Ok(net) => swap_result_of(
            compute_weighted_out(balance_in, weight_in, balance_out, weight_out, net),
        ),
    }
}

/// The spot price `balance_in * weight_out / (balance_out * weight_in)`, or the error.
pub open spec fn balancer_price_spec(
    balance_in: nat,
    balance_out: nat,
    weight_in: nat,
    weight_out: nat,
) -> Result<nat, MathErr> {
    if balance_in == 0 || balance_out == 0 {
        Err(
            e_invalid(
                "calculate_balancer_price"@,
                "Pool balances cannot be zero"@,
                "balance_in="@ + dec(balance_in) + ", balance_out="@ + dec(balance_out),
            ),
        )
    } else if weight_in == 0 || weight_out == 0 {
        Err(
            e_invalid(
                "calculate_balancer_price"@,
                "Token weights cannot be zero"@,
                "weight_in="@ + dec(weight_in) + ", weight_out="@ + dec(weight_out),
            ),
        )
    } else if !fits(balance_in * weight_out) {
        Err(e_overflow("calculate_balancer_price"@, seq![], "balance_in * weight_out"@))
    } else if !fits(balance_out * weight_in) {
        Err(e_overflow("calculate_balancer_price"@, seq![], "balance_out * weight_in"@))
    } else if !fits(balance_in * weight_out * wad()) {
        Err(e_overflow("calculate_balancer_price"@, seq![], "numerator * 1e18"@))
    } else {
        Ok(balance_in * weight_out * wad() / (balance_out * weight_in))
    }
}

/// Calculates the spot price, scaled by ten to the power 18.
pub fn calculate_balancer_price(
    balance_in: U256,
    balance_out: U256,
    weight_in: U256,
    weight_out: U256,
) -> (r: Result<U256, MathError>)
    ensures
        math_view(r) == balancer_price_spec(balance_in@, balance_out@, weight_in@, weight_out@),
{
    if balance_in.is_zero() || balance_out.is_zero() {
        let context = "balance_in=".to_owned().concat(text_u256(balance_in).as_str()).concat(
            ", balance_out=",
        ).concat(text_u256(balance_out).as_str());
        return Err(
            invalid("calculate_balancer_price", "Pool balances cannot be zero", context.as_str()),
        );
    }
    if weight_in.is_zero() || weight_out.is_zero() {
        let context = "weight_in=".to_owned().concat(text_u256(weight_in).as_str()).concat(
            ", weight_out=",
        ).concat(text_u256(weight_out).as_str());
        return Err(
            invalid("calculate_balancer_price", "Token weights cannot be zero", context.as_str()),
        );
    }
    let numerator = match balance_in.primitive_checked_mul(weight_out) {
        Some(v) => v,
        None => return Err(overflow0("calculate_balancer_price", "balance_in * weight_out")),
    };
    let denominator = match balance_out.primitive_checked_mul(weight_in) {
        Some(v) => v,
        None => return Err(overflow0("calculate_balancer_price", "balance_out * weight_in")),
    };
    proof {
        assert(denominator@ > 0) by (nonlinear_arith)
            requires
                denominator@ == balance_out@ * weight_in@,
                balance_out@ > 0,
                weight_in@ > 0,
        ;
    }
    match numerator.primitive_checked_mul(wad_value()) {
        Some(v) => Ok(v.div(denominator)),
        None => Err(overflow0("calculate_balancer_price", "numerator * 1e18")),
    }
}

/// A swap between tokens of equal weight never lowers the product of the balances.
pub proof fn law_even_swap_keeps_the_product(balance_in: nat, balance_out: nat, net: nat)
    requires
        balance_in > 0,
    ensures
        even_out(balance_in, balance_out, net) <= balance_out,
        (balance_in + net) * (balance_out - even_out(balance_in, balance_out, net)) >= balance_in
            * balance_out,
{
    let w = wad();
    let total = balance_in + net;
    let scaled = balance_in * w;
    let base = div_up(scaled, total);
    let out = even_out(balance_in, balance_out, net);
    lemma_rounded_up(scaled, total);
    assert(base <= w) by (nonlinear_arith)
        requires
            base * total < scaled + total,
            scaled == balance_in * w,
            total == balance_in + net,
            total > 0,
    ;
    let share = (w - base) as nat;
    assert(out * w <= balance_out * share) by (nonlinear_arith)
        requires
            out == balance_out * share / w,
            w == 1_000_000_000_000_000_000nat,
    ;
    assert(out <= balance_out) by (nonlinear_arith)
        requires
            out * w <= balance_out * share,
            share <= w,
            w > 0,
    ;
    assert(share * total <= net * w) by (nonlinear_arith)
        requires
            share == w - base,
            base * total >= scaled,
            scaled == balance_in * w,
            total == balance_in + net,
    ;
    assert(out * total * w <= balance_out * net * w) by (nonlinear_arith)
        requires
            out * w <= balance_out * share,
            share * total <= net * w,
    ;
    assert(out * total <= balance_out * net) by (nonlinear_arith)
        requires
            out * total * w <= balance_out * net * w,
            w > 0,
    ;
    assert(total * (balance_out - out) == balance_in * balance_out + balance_out * net - out
        * total) by (nonlinear_arith)
        requires
            total == balance_in + net,
    ;
}

/// A quotient that is rounded up is at least the exact one, and less than one above it.
proof fn lemma_rounded_up(n: nat, d: nat)
    requires
        d > 0,
    ensures
        n <= div_up(n, d) * d < n + d,
{
    vstd::arithmetic::div_mod::lemma_fundamental_div_mod(n as int, d as int);
    let q = n / d;
    assert(d * q == q * d && (q + 1) * d == q * d + d) by (nonlinear_arith);
}

/// The spot price is `balance_in / weight_in` for `balance_out / weight_out`, rounded down.
pub proof fn law_weighted_price_is_the_quotient(
    balance_in: nat,
    balance_out: nat,
    weight_in: nat,
    weight_out: nat,
)
    ensures
        balancer_price_spec(balance_in, balance_out, weight_in, weight_out) matches Ok(price)
            ==> is_scaled_quotient(price, balance_in * weight_out, balance_out * weight_in),
{
    let n = balance_in * weight_out * wad();
    let d = balance_out * weight_in;
    if balance_out > 0 && weight_in > 0 {
        assert(d > 0) by (nonlinear_arith)
            requires
                d == balance_out * weight_in,
                balance_out > 0,
                weight_in > 0,
        ;
        vstd::arithmetic::div_mod::lemma_fundamental_div_mod(n as int, d as int);
        let q = n / d;
        assert(q * d == d * q && (q + 1) * d == d * q + d) by (nonlinear_arith);
    }
}

/// An output is owed where the balances and the weights are not empty, the fee is below 100%, the
/// input fits with its fee, and the formula has a result; that is the result. Nothing pays nothing.
pub proof fn law_output_is_owed(
    amount_in: nat,
    balance_in: nat,
    balance_out: nat,
    weight_in: nat,
    weight_out: nat,
    swap_fee: nat,
    net: nat,
)
    requires
        swap_fee < 1_000_000_000_000_000_000,
        net * 1_000_000_000_000_000_000 <= amount_in * (1_000_000_000_000_000_000 - swap_fee) < (net
            + 1) * 1_000_000_000_000_000_000,
    ensures
        amount_in == 0 ==> balancer_output_spec(
            amount_in,
            balance_in,
            balance_out,
            weight_in,
            weight_out,
            swap_fee,
        ) == Ok::<nat, MathErr>(0),
        amount_in > 0 && balance_in > 0 && balance_out > 0 && weight_in > 0 && weight_out > 0
            && amount_in * (1_000_000_000_000_000_000 - swap_fee)
            < crate::u256::u256_limit() ==> (weighted_out(
            balance_in,
            weight_in,
            balance_out,
            weight_out,
            net,
        ) matches Ok(out) ==> balancer_output_spec(
            amount_in,
            balance_in,
            balance_out,
            weight_in,
            weight_out,
            swap_fee,
        ) == Ok::<nat, MathErr>(out)),
{
    let keep = (wad() - swap_fee) as nat;
    assert(amount_in * keep == amount_in * (1_000_000_000_000_000_000 - swap_fee));
    assert(balancer_net_input(amount_in, swap_fee) == net);
}

} // verus!
