//! Uniswap V3 and Kyber Elastic tick math.
//!
//! V3 concentrates liquidity between ticks, where tick `t` stands for the price `1.0001^t`.
//! Prices are square roots in Q64.96 fixed point.

use crate::base::error::{
    e_invalid, e_overflow, e_underflow, e_zero_division, invalid, math_view, overflow1, overflow2,
    underflow2, zero_division, MathErr, MathError,
};
use crate::base::precision::BasisPoints;
use crate::dex::adapter::{wad, wad_value, SwapDirection};
use crate::dex::clmm::{
    amount0_delta, amount0_spec, amount1_delta, amount1_spec, checked_ratio_at_tick, fixed_ratios,
    full_mul_div, full_mul_div_up, given_between, is_floor_tick, lemma_input0_lowers, lower,
    max_sqrt_ratio, min_sqrt_ratio, min_sqrt_ratio_value, mul_div_spec, mul_div_up_spec,
    next_price1_quotient, next_price_from_amount0, next_price_from_amount1, next_price_spec,
    orders_ticks, product_fits, q96, ratio_spec, sqrt_ratio_at, tick_at_price, tick_at_ratio,
    taken_between, tick_in_range, upper, MAX_TICK, MIN_TICK,
};
use crate::dex::curve::math::{isqrt, law_square_root_exists, sqrt_u256};
use crate::dex::pricing::{cap_bps, capped_bps, is_impact_of};
use crate::dex::ranges::{is_next, lemma_given_is_paid, pays};
use crate::dex::ticks::{
    ascending, find_first_above, find_last_below, first_above, floor_div, last_below,
    law_first_above_is_smallest, law_last_below_is_largest, spacing_step,
};
use crate::text::{dec, dec_int, text_i128, text_u128, text_u256};
use crate::u256::{distance, fits, u256_in_range, u256_limit, U256};
use std::collections::HashMap;
use vstd::arithmetic::div_mod::lemma_div_is_ordered;
use vstd::prelude::*;
use vstd::string::StringExecFns;

verus! {

/// Rounding direction of an amount.
///
/// Amounts that a trader pays round up, amounts that the pool pays round down: both favour the
/// pool.
#[derive(Clone, Copy, Debug, PartialEq, Eq, Structural)]
pub enum Rounding {
    Up,
    Down,
}

/// Two to the power 192, one in the square of Q64.96.
pub open spec fn q192() -> nat {
    0x1_0000_0000_0000_0000_0000_0000_0000_0000_0000_0000_0000_0000nat
}

fn q192_value() -> (r: U256)
    ensures
        r@ == q192(),
{
    proof {
        reveal(crate::u256::limbs_value);
    }
    U256::from_limbs(0, 0, 0, 1)
}

/// An error of the kernel as an error of this module.
pub open spec fn e_v3(text: Seq<char>) -> MathErr {
    e_invalid("uniswap_v3_math"@, text, "V3 crate error"@)
}

/// A result of the kernel as a result of this module.
pub open spec fn v3<T>(r: Result<T, Seq<char>>) -> Result<T, MathErr> {
    match r {
        Ok(v) => Ok(v),
        Err(t) => Err(e_v3(t)),
    }
}

fn map_v3_error(text: String) -> (e: MathError)
    ensures
        e@ == e_v3(text@),
{
    invalid("uniswap_v3_math", text.as_str(), "V3 crate error")
}

/// The view of a tick result.
pub open spec fn tick_view(r: Result<i32, MathError>) -> Result<int, MathErr> {
    match r {
        Ok(t) => Ok(t as int),
        Err(e) => Err(e@),
    }
}

/// The square-root price at a tick, or the range error.
pub fn get_sqrt_ratio_at_tick(tick: i32) -> (r: Result<U256, MathError>)
    ensures
        math_view(r) == v3(ratio_spec(tick as int)),
        r matches Ok(v) ==> min_sqrt_ratio() <= v@ <= max_sqrt_ratio() && fixed_ratios(
            tick as int,
            v@,
        ) && orders_ticks(tick as int, v@),
{
    match checked_ratio_at_tick(tick) {
        Ok(p) => Ok(p),
        Err(e) => Err(map_v3_error(e)),
    }
}

/// The tick of a square-root price: the lowest tick below the range of prices, the highest one
/// from the top of the range on, and the kernel's tick in between.
pub open spec fn tick_of_price(price: nat) -> Result<int, MathErr> {
    if price < min_sqrt_ratio() {
        Ok(MIN_TICK as int)
    } else if price >= max_sqrt_ratio() {
        Ok(MAX_TICK as int)
    } else {
        v3(tick_at_ratio(price))
    }
}

/// The tick of a square-root price: the last tick whose price is not above it, and the lowest tick
/// below all prices. So the tick of the price of a tick is that tick, for every tick in range.
pub fn sqrt_price_to_tick(sqrt_price_x96: U256) -> (r: Result<i32, MathError>)
    ensures
        tick_view(r) == tick_of_price(sqrt_price_x96@),
        r is Ok,
        is_floor_tick(r->Ok_0 as int, sqrt_price_x96@),
        forall|t: int|
            tick_in_range(t) && #[trigger] sqrt_ratio_at(t) == sqrt_price_x96@ ==> r->Ok_0 == t,
{
    match tick_at_price(sqrt_price_x96) {
        Ok(t) => Ok(t),
        Err(_) => {
            let end: i32 = if sqrt_price_x96.less(&min_sqrt_ratio_value()) {
                MIN_TICK
            } else {
                MAX_TICK
            };
            // The price of the end settles that no other tick is meant.
            match checked_ratio_at_tick(end) {
                Ok(_) => Ok(end),
                Err(e) => Err(map_v3_error(e)),
            }
        },
    }
}

/// `a * b / d` rounded down, with the product taken in full.
pub fn mul_div(a: U256, b: U256, d: U256) -> (r: Result<U256, MathError>)
    ensures
        math_view(r) == v3(mul_div_spec(a@, b@, d@)),
{
    match full_mul_div(a, b, d) {
        Ok(v) => Ok(v),
        Err(e) => Err(map_v3_error(e)),
    }
}

/// `a * b / d` rounded up over the full product.
pub fn mul_div_rounding_up(a: U256, b: U256, d: U256) -> (r: Result<U256, MathError>)
    ensures
        math_view(r) == v3(mul_div_up_spec(a@, b@, d@)),
{
    match full_mul_div_up(a, b, d) {
        Ok(v) => Ok(v),
        Err(e) => Err(map_v3_error(e)),
    }
}

/// The amount of token 0 between two prices.
pub fn get_amount0_delta(
    sqrt_ratio_a: U256,
    sqrt_ratio_b: U256,
    liquidity: u128,
    round_up: bool,
) -> (r: Result<U256, MathError>)
    ensures
        math_view(r) == v3(
            amount0_spec(sqrt_ratio_a@, sqrt_ratio_b@, liquidity as nat, round_up),
        ),
{
    match amount0_delta(sqrt_ratio_a, sqrt_ratio_b, liquidity, round_up) {
        Ok(v) => Ok(v),
        Err(e) => Err(map_v3_error(e)),
    }
}

/// The amount of token 1 between two prices.
pub fn get_amount1_delta(
    sqrt_ratio_a: U256,
    sqrt_ratio_b: U256,
    liquidity: u128,
    round_up: bool,
) -> (r: Result<U256, MathError>)
    ensures
        math_view(r) == v3(
            amount1_spec(sqrt_ratio_a@, sqrt_ratio_b@, liquidity as nat, round_up),
        ),
{
    match amount1_delta(sqrt_ratio_a, sqrt_ratio_b, liquidity, round_up) {
        Ok(v) => Ok(v),
        Err(e) => Err(map_v3_error(e)),
    }
}

/// The price of a square-root price: `price^2 / 2^192` rounded down.
pub open spec fn price_of(sqrt_price: nat) -> Result<nat, MathErr> {
    v3(mul_div_spec(sqrt_price, sqrt_price, q192()))
}

/// Converts a square-root price to a price.
pub fn sqrt_price_to_price(sqrt_price_x96: U256) -> (r: Result<U256, MathError>)
    ensures
        math_view(r) == price_of(sqrt_price_x96@),
{
    mul_div(sqrt_price_x96, sqrt_price_x96, q192_value())
}

/// The square-root price of two reserves: the root of `reserve_out * 2^192 / reserve_in`, each
/// step rounded down.
pub open spec fn sqrt_price_of_reserves(reserve_in: nat, reserve_out: nat) -> Result<
    nat,
    MathErr,
> {
    if reserve_in == 0 {
        Err(e_zero_division("reserves_to_sqrt_price_x96"@, "Reserve in cannot be zero"@))
    } else {
        match v3(mul_div_spec(reserve_out, q192(), reserve_in)) {
            Err(e) => Err(e),
            Ok(ratio) => Ok(isqrt(ratio)),
        }
    }
}

/// Calculates the square-root price from reserves.
pub fn reserves_to_sqrt_price_x96(reserve_in: U256, reserve_out: U256) -> (r: Result<
    U256,
    MathError,
>)
    ensures
        math_view(r) == sqrt_price_of_reserves(reserve_in@, reserve_out@),
{
    if reserve_in.is_zero() {
        return Err(
            zero_division("reserves_to_sqrt_price_x96", "Reserve in cannot be zero"),
        );
    }
    match mul_div(reserve_out, q192_value(), reserve_in) {
        Err(e) => Err(e),
        Ok(ratio) => sqrt_u256(ratio),
    }
}

/// The price of a square-root price, scaled by ten to the power 18 before rounding down:
/// `price^2 * 10^18 / 2^192`.
pub open spec fn price_wad_of(sqrt_price: nat) -> Result<nat, MathErr> {
    match price_of(sqrt_price) {
        Err(e) => Err(e),
        Ok(price) => if fits(sqrt_price * sqrt_price * wad() / q192()) {
            Ok(sqrt_price * sqrt_price * wad() / q192())
        } else {
            Err(e_overflow("sqrt_price_to_price_wad"@, seq![price, wad()], "price * WAD"@))
        },
    }
}

/// The scaled square over `2^192` as a single full-width division.
proof fn lemma_price_wad(s: nat)
    ensures
        fits(s * wad()) ==> mul_div_spec(s, s * wad(), q192()) == if fits(
            s * s * wad() / q192(),
        ) {
            Ok::<nat, Seq<char>>(s * s * wad() / q192())
        } else {
            Err("Denominator is less than or equal to prod_1"@)
        },
        !fits(s * wad()) ==> !fits(s * s * wad() / q192()),
{
    let p = s * (s * wad());
    assert(p == s * s * wad()) by (nonlinear_arith)
        requires
            p == s * (s * wad()),
    ;
    vstd::arithmetic::div_mod::lemma_fundamental_div_mod(p as int, q192() as int);
    assert(q192() * u256_limit() <= p <==> u256_limit() <= p / q192());
    if !fits(s * wad()) {
        assert(s >= q192()) by (nonlinear_arith)
            requires
                s * wad() >= u256_limit(),
        {
            if s < q192() {
                assert(s * wad() <= q192() * wad());
                assert(q192() * wad() < u256_limit());
            }
        }
        assert(p >= q192() * u256_limit()) by (nonlinear_arith)
            requires
                p == s * (s * wad()),
                s >= q192(),
                s * wad() >= u256_limit(),
        ;
    }
}

/// Converts a square-root price to a price scaled by ten to the power 18.
pub fn sqrt_price_to_price_wad(sqrt_price_x96: U256) -> (r: Result<U256, MathError>)
    ensures
        math_view(r) == price_wad_of(sqrt_price_x96@),
{
    let price = match sqrt_price_to_price(sqrt_price_x96) {
        Ok(p) => p,
        Err(e) => return Err(e),
    };
    proof {
        lemma_price_wad(sqrt_price_x96@);
    }
    let scale = wad_value();
    match sqrt_price_x96.checked_mul(scale) {
        None => Err(overflow2("sqrt_price_to_price_wad", price, scale, "price * WAD")),
        Some(scaled) => match full_mul_div(sqrt_price_x96, scaled, q192_value()) {
            Ok(v) => Ok(v),
            Err(_) => Err(overflow2("sqrt_price_to_price_wad", price, scale, "price * WAD")),
        },
    }
}

/// The relative change between two square-root prices in basis points, at most 10000; zero where
/// one of the prices is zero.
pub open spec fn v3_impact_spec(before: nat, after: nat) -> Result<nat, MathErr> {
    if before == 0 || after == 0 {
        Ok(0)
    } else {
        match price_wad_of(before) {
            Err(e) => Err(e),
            Ok(b) => match price_wad_of(after) {
                Err(e) => Err(e),
                Ok(a) => if b == 0 {
                    Ok(0)
                } else if !fits(distance(b, a) * 10000) {
                    Err(
                        e_overflow(
                            "calculate_v3_price_impact"@,
                            seq![distance(b, a), 10000nat],
                            "price_diff * 10_000"@,
                        ),
                    )
                } else {
                    Ok(capped_bps(distance(b, a) * 10000 / b))
                },
            },
        }
    }
}

/// The view of a result that is a small number.
pub open spec fn small_view(r: Result<u32, MathError>) -> Result<nat, MathErr> {
    match r {
        Ok(v) => Ok(v as nat),
        Err(e) => Err(e@),
    }
}

/// Calculates the price impact in basis points from the prices before and after a swap.
pub fn calculate_v3_price_impact(
    sqrt_price_before_x96: U256,
    sqrt_price_after_x96: U256,
) -> (r: Result<u32, MathError>)
    ensures
        small_view(r) == v3_impact_spec(sqrt_price_before_x96@, sqrt_price_after_x96@),
{
    if sqrt_price_before_x96.is_zero() || sqrt_price_after_x96.is_zero() {
        return Ok(0);
    }
    let before = match sqrt_price_to_price_wad(sqrt_price_before_x96) {
        Ok(p) => p,
        Err(e) => return Err(e),
    };
    let after = match sqrt_price_to_price_wad(sqrt_price_after_x96) {
        Ok(p) => p,
        Err(e) => return Err(e),
    };
    if before.is_zero() {
        return Ok(0);
    }
    let diff = before.distance(after);
    let denominator = U256::from_u64(10000);
    match diff.checked_mul(denominator) {
        None => Err(
            overflow2("calculate_v3_price_impact", diff, denominator, "price_diff * 10_000"),
        ),
        Some(impact) => Ok(cap_bps(impact.div(before))),
    }
}

/// The part of the input that is left after the fee: `amount * (10000 - fee) / 10000` rounded
/// down, or nothing where the product does not fit.
pub open spec fn after_fee(amount: nat, fee_bps: nat) -> Option<nat> {
    let p = amount * ((10000 - fee_bps) as nat);
    if fits(p) {
        Some(p / 10000)
    } else {
        None
    }
}

/// Takes the fee from an input amount.
pub fn amount_after_fee(amount: U256, fee_bps: BasisPoints) -> (r: Option<U256>)
    requires
        fee_bps.wf(),
    ensures
        crate::u256::opt_value(r) == after_fee(amount@, fee_bps@),
        r matches Some(v) ==> v@ <= u256_limit() / 10000,
{
    broadcast use u256_in_range;

    let multiplier = U256::from_u64((10000 - fee_bps.as_u32()) as u64);
    match amount.checked_mul(multiplier) {
        None => None,
        Some(p) => Some(p.div(U256::from_u64(10000))),
    }
}

/// Where liquidity is below two to the power 128 and the amount is not close to the limit, the
/// kernel's divisor does not wrap.
pub proof fn lemma_next_price_divisor(price: nat, liquidity: u128, amount: nat)
    requires
        amount + 0x1_0000_0000_0000_0000_0000_0000_0000_0000_0000_0000_0000_0000_0000_0000nat
            <= u256_limit(),
    ensures
        product_fits(price, liquidity as nat, amount) || fits(
            (liquidity as nat) * q96() / price + amount,
        ),
{
    let n = (liquidity as nat) * q96();
    assert(n < 0x1_0000_0000_0000_0000_0000_0000_0000_0000_0000_0000_0000_0000_0000_0000nat);
    if price == 0 {
        assert(amount * price == 0) by (nonlinear_arith)
            requires
                price == 0,
        ;
    } else {
        assert(n / price <= n) by {
            vstd::arithmetic::div_mod::lemma_div_is_ordered_by_denominator(
                n as int,
                1,
                price as int,
            );
        }
    }
}

/// Moves the price by an input amount without fee.
pub fn next_price(price: U256, liquidity: u128, amount: U256, down: bool) -> (r: Result<
    U256,
    String,
>)
    requires
        liquidity > 0,
        amount@ + 0x1_0000_0000_0000_0000_0000_0000_0000_0000_0000_0000_0000_0000_0000_0000nat
            <= u256_limit(),
    ensures
        crate::dex::clmm::text_view(r) == next_price_spec(
            price@,
            liquidity as nat,
            amount@,
            down,
        ),
{
    if down {
        proof {
            lemma_next_price_divisor(price@, liquidity, amount@);
        }
        next_price_from_amount0(price, liquidity, amount)
    } else {
        next_price_from_amount1(price, liquidity, amount)
    }
}

/// `direction=..., ` and two named numbers.
pub open spec fn context3(
    direction: SwapDirection,
    label_a: Seq<char>,
    a: nat,
    label_b: Seq<char>,
    b: nat,
) -> Seq<char> {
    "direction="@ + direction.name() + label_a + dec(a) + label_b + dec(b)
}

fn text_context3(direction: SwapDirection, label_a: &str, a: U256, label_b: &str, b: U256) -> (r:
    String)
    ensures
        r@ == context3(direction, label_a@, a@, label_b@, b@),
{
    "direction=".to_owned().concat(direction.to_name()).concat(label_a).concat(
        text_u256(a).as_str(),
    ).concat(label_b).concat(text_u256(b).as_str())
}

/// The checks that open both swap functions of this module: amount, price range, liquidity.
pub open spec fn swap_input_error(
    operation: Seq<char>,
    amount_name: Seq<char>,
    amount: nat,
    price: nat,
    liquidity: nat,
    direction: SwapDirection,
) -> Option<MathErr> {
    if amount == 0 {
        Some(
            e_invalid(
                operation,
                amount_name + " cannot be zero"@,
                context3(direction, ", sqrt_price="@, price, ", liquidity="@, liquidity),
            ),
        )
    } else if price < min_sqrt_ratio() {
        Some(
            e_invalid(
                operation,
                "sqrt_price_x96 out of valid range: "@ + dec(price),
                context3(
                    direction,
                    ", "@ + amount_name + "="@,
                    amount,
                    ", liquidity="@,
                    liquidity,
                ),
            ),
        )
    } else if liquidity == 0 {
        Some(
            e_invalid(
                operation,
                "Liquidity cannot be zero"@,
                context3(
                    direction,
                    ", "@ + amount_name + "="@,
                    amount,
                    ", sqrt_price="@,
                    price,
                ),
            ),
        )
    } else {
        None
    }
}

fn check_swap_input(
    operation: &str,
    amount_name: &str,
    amount: U256,
    price: U256,
    liquidity: u128,
    direction: SwapDirection,
) -> (r: Option<MathError>)
    ensures
        match r {
            Some(e) => swap_input_error(
                operation@,
                amount_name@,
                amount@,
                price@,
                liquidity as nat,
                direction,
            ) == Some(e@),
            None => swap_input_error(
                operation@,
                amount_name@,
                amount@,
                price@,
                liquidity as nat,
                direction,
            ) is None,
        },
{
    let depth = U256::from_u128(liquidity);
    if amount.is_zero() {
        let reason = amount_name.to_owned().concat(" cannot be zero");
        let context = text_context3(direction, ", sqrt_price=", price, ", liquidity=", depth);
        return Some(invalid(operation, reason.as_str(), context.as_str()));
    }
    let label = ", ".to_owned().concat(amount_name).concat("=");
    if price.less(&min_sqrt_ratio_value()) {
        let reason = "sqrt_price_x96 out of valid range: ".to_owned().concat(
            text_u256(price).as_str(),
        );
        let context = text_context3(direction, label.as_str(), amount, ", liquidity=", depth);
        return Some(invalid(operation, reason.as_str(), context.as_str()));
    }
    if liquidity == 0 {
        let context = text_context3(direction, label.as_str(), amount, ", sqrt_price=", price);
        return Some(invalid(operation, "Liquidity cannot be zero", context.as_str()));
    }
    None
}

/// The error of an input whose product with the fee multiplier does not fit.
pub open spec fn fee_error(
    operation: Seq<char>,
    amount_name: Seq<char>,
    amount: nat,
    fee_bps: nat,
    direction: SwapDirection,
) -> MathErr {
    e_overflow(
        operation,
        seq![amount, fee_bps],
        "Fee calculation failed (direction="@ + direction.name() + ", "@ + amount_name + "="@
            + dec(amount) + ")"@,
    )
}

fn fee_failure(
    operation: &str,
    amount_name: &str,
    amount: U256,
    fee_bps: BasisPoints,
    direction: SwapDirection,
) -> (e: MathError)
    ensures
        e@ == fee_error(operation@, amount_name@, amount@, fee_bps@, direction),
{
    let context = "Fee calculation failed (direction=".to_owned().concat(
        direction.to_name(),
    ).concat(", ").concat(amount_name).concat("=").concat(text_u256(amount).as_str()).concat(")");
    overflow2(operation, amount, U256::from_u64(fee_bps.as_u32() as u64), context.as_str())
}

/// The output of a swap within one liquidity range.
pub open spec fn v3_amount_out_spec(
    amount_in: nat,
    price: nat,
    liquidity: nat,
    fee_bps: nat,
    direction: SwapDirection,
) -> Result<nat, MathErr> {
    match swap_input_error(
        "calculate_v3_amount_out"@,
        "amount_in"@,
        amount_in,
        price,
        liquidity,
        direction,
    ) {
        Some(e) => Err(e),
        None => match after_fee(amount_in, fee_bps) {
            None => Err(
                fee_error(
                    "calculate_v3_amount_out"@,
                    "amount_in"@,
                    amount_in,
                    fee_bps,
                    direction,
                ),
            ),
            Some(net) => if net == 0 {
                Ok(0)
            } else {
                match v3(next_price_spec(price, liquidity, net, direction.is_down())) {
                    Err(e) => Err(e),
                    Ok(next) => match direction {
                        SwapDirection::Token0ToToken1 => if next >= price {
                            Err(
                                stuck_price_error(
                                    amount_in,
                                    price,
                                    next,
                                    liquidity,
                                    direction,
                                ),
                            )
                        } else {
                            v3(amount1_spec(next, price, liquidity, false))
                        },
                        SwapDirection::Token1ToToken0 => v3(
                            amount0_spec(price, next, liquidity, false),
                        ),
                    },
                }
            },
        },
    }
}

/// The error of a swap of token 0 that does not lower the price.
pub open spec fn stuck_price_error(
    amount_in: nat,
    price: nat,
    next: nat,
    liquidity: nat,
    direction: SwapDirection,
) -> MathErr {
    e_invalid(
        "calculate_v3_amount_out"@,
        "New sqrt price must be less than current for zeroForOne swap"@,
        "direction="@ + direction.name() + ", sqrt_price="@ + dec(price) + ", new_sqrt_price="@
            + dec(next) + ", amount_in="@ + dec(amount_in) + ", liquidity="@ + dec(liquidity),
    )
}

/// Calculates the output of a swap that stays within the current liquidity range.
///
/// The input pays the fee first; what is left moves the price, and the output is the amount of
/// the other token between the two prices, rounded down.
pub fn calculate_v3_amount_out(
    amount_in: U256,
    sqrt_price_x96: U256,
    liquidity: u128,
    fee_bps: BasisPoints,
    direction: SwapDirection,
) -> (r: Result<U256, MathError>)
    requires
        fee_bps.wf(),
    ensures
        math_view(r) == v3_amount_out_spec(
            amount_in@,
            sqrt_price_x96@,
            liquidity as nat,
            fee_bps@,
            direction,
        ),
{
    match check_swap_input(
        "calculate_v3_amount_out",
        "amount_in",
        amount_in,
        sqrt_price_x96,
        liquidity,
        direction,
    ) {
        Some(e) => return Err(e),
        None => {},
    }
    let net = match amount_after_fee(amount_in, fee_bps) {
        None => return Err(
            fee_failure("calculate_v3_amount_out", "amount_in", amount_in, fee_bps, direction),
        ),
        Some(v) => v,
    };
    if net.is_zero() {
        return Ok(U256::zero());
    }
    let down: bool = direction.zero_for_one();
    let next = match next_price(sqrt_price_x96, liquidity, net, down) {
        Ok(p) => p,
        Err(e) => return Err(map_v3_error(e)),
    };
    match direction {
        SwapDirection::Token0ToToken1 => {
            if !next.less(&sqrt_price_x96) {
                let context = "direction=".to_owned().concat(direction.to_name()).concat(
                    ", sqrt_price=",
                ).concat(text_u256(sqrt_price_x96).as_str()).concat(", new_sqrt_price=").concat(
                    text_u256(next).as_str(),
                ).concat(", amount_in=").concat(text_u256(amount_in).as_str()).concat(
                    ", liquidity=",
                ).concat(text_u128(liquidity).as_str());
                return Err(
                    invalid(
                        "calculate_v3_amount_out",
                        "New sqrt price must be less than current for zeroForOne swap",
                        context.as_str(),
                    ),
                );
            }
            get_amount1_delta(next, sqrt_price_x96, liquidity, false)
        },
        SwapDirection::Token1ToToken0 => get_amount0_delta(
            sqrt_price_x96,
            next,
            liquidity,
            false,
        ),
    }
}

/// The price and tick after a swap within one liquidity range.
pub open spec fn v3_post_swap_spec(
    amount: nat,
    price: nat,
    liquidity: nat,
    fee_bps: nat,
    direction: SwapDirection,
) -> Result<(nat, int), MathErr> {
    match swap_input_error(
        "calculate_v3_post_swap_state"@,
        "frontrun_amount"@,
        amount,
        price,
        liquidity,
        direction,
    ) {
        Some(e) => Err(e),
        None => match after_fee(amount, fee_bps) {
            None => Err(
                fee_error(
                    "calculate_v3_post_swap_state"@,
                    "frontrun_amount"@,
                    amount,
                    fee_bps,
                    direction,
                ),
            ),
            Some(net) => if net == 0 {
                priced_at_tick(price)
            } else {
                match v3(next_price_spec(price, liquidity, net, direction.is_down())) {
                    Err(e) => Err(e),
                    Ok(next) => priced_at_tick(next),
                }
            },
        },
    }
}

/// A price with its tick.
pub open spec fn priced_at_tick(price: nat) -> Result<(nat, int), MathErr> {
    match tick_of_price(price) {
        Ok(t) => Ok((price, t)),
        Err(e) => Err(e),
    }
}

/// The view of a result that is a price and a tick.
pub open spec fn post_swap_view(r: Result<(U256, i32), MathError>) -> Result<
    (nat, int),
    MathErr,
> {
    match r {
        Ok(v) => Ok((v.0@, v.1 as int)),
        Err(e) => Err(e@),
    }
}

/// Calculates the price and tick after a swap that stays within the current liquidity range.
pub fn calculate_v3_post_swap_state(
    frontrun_amount: U256,
    sqrt_price_x96: U256,
    liquidity: u128,
    fee_bps: BasisPoints,
    direction: SwapDirection,
) -> (r: Result<(U256, i32), MathError>)
    requires
        fee_bps.wf(),
    ensures
        post_swap_view(r) == v3_post_swap_spec(
            frontrun_amount@,
            sqrt_price_x96@,
            liquidity as nat,
            fee_bps@,
            direction,
        ),
        r is Ok ==> is_floor_tick(r->Ok_0.1 as int, r->Ok_0.0@),
{
    match check_swap_input(
        "calculate_v3_post_swap_state",
        "frontrun_amount",
        frontrun_amount,
        sqrt_price_x96,
        liquidity,
        direction,
    ) {
        Some(e) => return Err(e),
        None => {},
    }
    let net = match amount_after_fee(frontrun_amount, fee_bps) {
        None => return Err(
            fee_failure(
                "calculate_v3_post_swap_state",
                "frontrun_amount",
                frontrun_amount,
                fee_bps,
                direction,
            ),
        ),
        Some(v) => v,
    };
    let next = if net.is_zero() {
        sqrt_price_x96
    } else {
        let down: bool = direction.zero_for_one();
        match next_price(sqrt_price_x96, liquidity, net, down) {
            Ok(p) => p,
            Err(e) => return Err(map_v3_error(e)),
        }
    };
    match sqrt_price_to_tick(next) {
        Ok(t) => Ok((next, t)),
        Err(e) => Err(e),
    }
}

/// The next tick in a direction: the nearest initialized one, else the next multiple of the
/// spacing. The operation names the calling module in errors.
pub open spec fn next_tick_spec(
    operation: Seq<char>,
    current: int,
    ticks: Seq<i32>,
    spacing: int,
    down: bool,
) -> Result<int, MathErr> {
    if spacing <= 0 {
        Err(
            e_invalid(
                operation,
                "tick_spacing must be > 0"@,
                "tick_spacing="@ + dec_int(spacing),
            ),
        )
    } else {
        let found = if down {
            last_below(ticks, current)
        } else {
            first_above(ticks, current)
        };
        match found {
            Some(t) => Ok(t as int),
            None => {
                let t = spacing_step(current, spacing, down);
                if i32::MIN <= t <= i32::MAX {
                    Ok(t)
                } else {
                    Err(
                        e_invalid(
                            operation,
                            "next tick out of range"@,
                            "current_tick="@ + dec_int(current) + ", tick_spacing="@ + dec_int(
                                spacing,
                            ),
                        ),
                    )
                }
            },
        }
    }
}

/// Finds the next tick in a direction for a named operation.
pub fn next_tick_for(
    operation: &str,
    current_tick: i32,
    initialized_ticks: &[i32],
    tick_spacing: i32,
    zero_for_one: bool,
) -> (r: Result<i32, MathError>)
    requires
        ascending(initialized_ticks@),
    ensures
        tick_view(r) == next_tick_spec(
            operation@,
            current_tick as int,
            initialized_ticks@,
            tick_spacing as int,
            zero_for_one,
        ),
{
    if tick_spacing <= 0 {
        let context = "tick_spacing=".to_owned().concat(text_i128(tick_spacing as i128).as_str());
        return Err(invalid(operation, "tick_spacing must be > 0", context.as_str()));
    }
    let found = if zero_for_one {
        find_last_below(initialized_ticks, current_tick)
    } else {
        find_first_above(initialized_ticks, current_tick)
    };
    match found {
        Some(t) => Ok(t),
        None => {
            let base: i64 = floor_div(current_tick, tick_spacing);
            proof {
                let c = current_tick as int;
                let s = tick_spacing as int;
                assert(-0x8000_0000 <= c / s <= 0x8000_0000) by (nonlinear_arith)
                    requires
                        s >= 1,
                        -0x8000_0000 <= c <= 0x7fff_ffff,
                ;
                assert(-0x1_0000_0000_0000_0000 < (c / s - 1) * s < 0x4000_0000_0000_0000)
                    by (nonlinear_arith)
                    requires
                        1 <= s <= 0x7fff_ffff,
                        -0x8000_0000 <= c / s <= 0x8000_0000,
                ;
                assert(-0x4000_0000_0000_0000 < (c / s - 1) * s) by (nonlinear_arith)
                    requires
                        1 <= s <= 0x7fff_ffff,
                        -0x8000_0000 <= c / s <= 0x8000_0000,
                ;
                assert(-0x4000_0000_0000_0000 < (c / s + 1) * s < 0x4000_0000_0000_0000)
                    by (nonlinear_arith)
                    requires
                        1 <= s <= 0x7fff_ffff,
                        -0x8000_0000 <= c / s <= 0x8000_0000,
                ;
            }
            let wide: i64 = if zero_for_one {
                (base - 1) * (tick_spacing as i64)
            } else {
                (base + 1) * (tick_spacing as i64)
            };
            if wide < i32::MIN as i64 || wide > i32::MAX as i64 {
                let context = "current_tick=".to_owned().concat(
                    text_i128(current_tick as i128).as_str(),
                ).concat(", tick_spacing=").concat(text_i128(tick_spacing as i128).as_str());
                return Err(invalid(operation, "next tick out of range", context.as_str()));
            }
            Ok(wide as i32)
        },
    }
}

/// Finds the next initialized tick in a direction: downwards the largest one below the current
/// tick, upwards the smallest one above it, and without one the next multiple of the spacing.
pub fn find_next_initialized_tick(
    current_tick: i32,
    initialized_ticks: &[i32],
    tick_spacing: i32,
    zero_for_one: bool,
) -> (r: Result<i32, MathError>)
    requires
        ascending(initialized_ticks@),
    ensures
        tick_view(r) == next_tick_spec(
            "find_next_initialized_tick"@,
            current_tick as int,
            initialized_ticks@,
            tick_spacing as int,
            zero_for_one,
        ),
{
    next_tick_for(
        "find_next_initialized_tick",
        current_tick,
        initialized_ticks,
        tick_spacing,
        zero_for_one,
    )
}

/// Swap execution segment within one tick range.
#[derive(Clone, Copy, Debug, PartialEq, Eq, Structural)]
pub struct SwapSegment {
    /// Square-root price at the start of the segment.
    pub sqrt_price_start: U256,
    /// Square-root price at the end of the segment.
    pub sqrt_price_end: U256,
    /// Tick at the start of the segment.
    pub tick_start: i32,
    /// Tick at the end of the segment.
    pub tick_end: i32,
    /// Liquidity that is active in the segment.
    pub liquidity: u128,
    /// Amount swapped in the segment.
    pub amount_in: U256,
    /// Fee generated in the segment.
    pub fee_amount: U256,
}

/// What a [`SwapSegment`] says.
pub struct SegmentView {
    pub sqrt_price_start: nat,
    pub sqrt_price_end: nat,
    pub tick_start: int,
    pub tick_end: int,
    pub liquidity: nat,
    pub amount_in: nat,
    pub fee_amount: nat,
}

impl View for SwapSegment {
    type V = SegmentView;

    open spec fn view(&self) -> SegmentView {
        SegmentView {
            sqrt_price_start: self.sqrt_price_start@,
            sqrt_price_end: self.sqrt_price_end@,
            tick_start: self.tick_start as int,
            tick_end: self.tick_end as int,
            liquidity: self.liquidity as nat,
            amount_in: self.amount_in@,
            fee_amount: self.fee_amount@,
        }
    }
}

/// The views of a list of segments.
pub open spec fn segment_views(s: Seq<SwapSegment>) -> Seq<SegmentView> {
    Seq::new(s.len(), |i: int| s[i]@)
}

/// The view of a result that is a list of segments.
pub open spec fn segments_view(r: Result<Vec<SwapSegment>, MathError>) -> Result<
    Seq<SegmentView>,
    MathErr,
> {
    match r {
        Ok(v) => Ok(segment_views(v@)),
        Err(e) => Err(e@),
    }
}

/// The input that takes the price to the boundary, rounded up.
pub open spec fn input_to_boundary(
    price: nat,
    boundary: nat,
    liquidity: nat,
    down: bool,
) -> Result<nat, MathErr> {
    if down {
        v3(amount0_spec(boundary, price, liquidity, true))
    } else {
        v3(amount1_spec(price, boundary, liquidity, true))
    }
}

/// Calculates the input that takes the price to the boundary.
pub fn calculate_input_to_boundary(price: U256, boundary: U256, liquidity: u128, down: bool) -> (r:
    Result<U256, MathError>)
    ensures
        math_view(r) == input_to_boundary(price@, boundary@, liquidity as nat, down),
        down && r is Ok ==> r->Ok_0@
            <= 0x1_0000_0000_0000_0000_0000_0000_0000_0000_0000_0000_0000_0000_0000_0000nat,
{
    if down {
        proof {
            lemma_amount0_bound(boundary@, price@, liquidity);
        }
        get_amount0_delta(boundary, price, liquidity, true)
    } else {
        get_amount1_delta(price, boundary, liquidity, true)
    }
}

/// An amount of token 0 between two prices is at most the liquidity in Q64.96.
pub proof fn lemma_amount0_bound(a: nat, b: nat, liquidity: u128)
    ensures
        amount0_spec(a, b, liquidity as nat, true) matches Ok(v) ==> v
            <= 0x1_0000_0000_0000_0000_0000_0000_0000_0000_0000_0000_0000_0000_0000_0000nat,
{
    let lo = lower(a, b);
    let hi = crate::dex::clmm::upper(a, b);
    let l = (liquidity as nat) * q96();
    let gap = (hi - lo) as nat;
    let n = l * gap;
    if lo > 0 {
        assert(n / hi <= l) by (nonlinear_arith)
            requires
                n == l * gap,
                gap <= hi,
                hi > 0,
        {
            assert(l * gap <= l * hi);
            vstd::arithmetic::div_mod::lemma_div_is_ordered((l * gap) as int, (l * hi) as int, hi as int);
            vstd::arithmetic::div_mod::lemma_div_multiples_vanish(l as int, hi as int);
            assert(l * hi == hi * l);
        }
        assert(n / hi < l || n % hi == 0) by {
            if n / hi == l {
                vstd::arithmetic::div_mod::lemma_fundamental_div_mod(n as int, hi as int);
                assert(n <= l * hi) by (nonlinear_arith)
                    requires
                        n == l * gap,
                        gap <= hi,
                ;
                assert(hi * l == l * hi) by (nonlinear_arith);
            }
        }
        let first = crate::dex::clmm::div_up(n, hi);
        assert(first <= l);
        assert(first / lo <= first) by {
            vstd::arithmetic::div_mod::lemma_div_is_ordered_by_denominator(
                first as int,
                1,
                lo as int,
            );
        }
        assert(first / lo < first || first % lo == 0) by {
            if first / lo == first {
                vstd::arithmetic::div_mod::lemma_fundamental_div_mod(first as int, lo as int);
                assert(lo * first >= first) by (nonlinear_arith)
                    requires
                        lo >= 1,
                ;
            }
        }
    }
}

/// The active liquidity on the other side of a tick, kept within the range of a `u128`. A tick
/// without an entry does not change it.
pub open spec fn crossed_liquidity(
    liquidity: nat,
    net: Map<i32, i128>,
    tick: i32,
    down: bool,
) -> nat {
    if net.dom().contains(tick) {
        let l = if down {
            liquidity - net[tick]
        } else {
            liquidity + net[tick]
        };
        if l < 0 {
            0
        } else if l > u128::MAX {
            u128::MAX as nat
        } else {
            l as nat
        }
    } else {
        liquidity
    }
}

/// Adds a signed change to a liquidity, kept within the range of a `u128`.
fn clamped_liquidity(liquidity: u128, change: i128, negate: bool) -> (r: u128)
    ensures
        ({
            let l = if negate {
                liquidity - change
            } else {
                liquidity + change
            };
            r as int == if l < 0 {
                0
            } else if l > u128::MAX {
                u128::MAX as int
            } else {
                l
            }
        }),
{
    let magnitude: u128 = if change >= 0 {
        change as u128
    } else {
        (-(change + 1)) as u128 + 1
    };
    if (change >= 0) == negate {
        if magnitude > liquidity {
            0
        } else {
            liquidity - magnitude
        }
    } else {
        if magnitude > u128::MAX - liquidity {
            u128::MAX
        } else {
            liquidity + magnitude
        }
    }
}

/// The path of a swap from a state on, with the segments so far and the number of segments that
/// may still follow.
pub open spec fn swap_path(
    remaining: nat,
    price: nat,
    tick: int,
    liquidity: nat,
    fee_bps: nat,
    spacing: int,
    ticks: Seq<i32>,
    down: bool,
    net: Map<i32, i128>,
    done: Seq<SegmentView>,
    left: nat,
) -> Result<Seq<SegmentView>, MathErr>
    decreases left,
{
    if remaining == 0 || left == 0 {
        Ok(done)
    } else {
        match next_tick_spec("find_next_initialized_tick"@, tick, ticks, spacing, down) {
            Err(e) => Err(e),
            Ok(next_tick) => match segment_spec(
                remaining,
                price,
                tick,
                liquidity,
                fee_bps,
                next_tick,
                down,
            ) {
                Err(e) => Err(e),
                Ok((segment, full)) => {
                    let after = done.push(segment);
                    if !full {
                        Ok(after)
                    } else {
                        let l = crossed_liquidity(liquidity, net, next_tick as i32, down);
                        if l == 0 {
                            Ok(after)
                        } else {
                            swap_path(
                                (remaining - segment.amount_in) as nat,
                                segment.sqrt_price_end,
                                segment.tick_end,
                                l,
                                fee_bps,
                                spacing,
                                ticks,
                                down,
                                net,
                                after,
                                (left - 1) as nat,
                            )
                        }
                    }
                },
            },
        }
    }
}

/// The next segment of a swap, and whether it reaches the next tick.
pub open spec fn segment_spec(
    remaining: nat,
    price: nat,
    tick: int,
    liquidity: nat,
    fee_bps: nat,
    next_tick: int,
    down: bool,
) -> Result<(SegmentView, bool), MathErr> {
    match v3(ratio_spec(next_tick)) {
        Err(e) => Err(e),
        Ok(boundary) => match input_to_boundary(price, boundary, liquidity, down) {
            Err(e) => Err(e),
            Ok(limit) => {
                let amount = lower(remaining, limit);
                let fee = amount * fee_bps / 10000;
                if !fits(amount * fee_bps) {
                    Err(e_overflow("simulate_swap_with_ticks"@, seq![amount], "fee calculation"@))
                } else if fee > amount {
                    Err(
                        e_underflow(
                            "simulate_swap_with_ticks"@,
                            seq![amount, fee],
                            "amount after fee"@,
                        ),
                    )
                } else {
                    match moved_price(price, liquidity, (amount - fee) as nat, down) {
                        Err(e) => Err(e),
                        Ok(next) => match tick_of_price(next) {
                            Err(e) => Err(e),
                            Ok(next_price_tick) => Ok(
                                (
                                    SegmentView {
                                        sqrt_price_start: price,
                                        sqrt_price_end: next,
                                        tick_start: tick,
                                        tick_end: next_price_tick,
                                        liquidity,
                                        amount_in: amount,
                                        fee_amount: fee,
                                    },
                                    amount >= limit,
                                ),
                            ),
                        },
                    }
                }
            },
        },
    }
}

/// The price that an input moves to. A rising price needs liquidity.
pub open spec fn moved_price(price: nat, liquidity: nat, amount: nat, down: bool) -> Result<
    nat,
    MathErr,
> {
    if !down && liquidity == 0 {
        Err(e_v3("Liquidity is 0"@))
    } else {
        v3(next_price_spec(price, liquidity, amount, down))
    }
}

/// Computes the next segment.
fn compute_segment(
    remaining: U256,
    price: U256,
    tick: i32,
    liquidity: u128,
    fee_bps: BasisPoints,
    next_tick: i32,
    down: bool,
) -> (r: Result<(SwapSegment, bool), MathError>)
    ensures
        match r {
            Ok(v) => segment_spec(
                remaining@,
                price@,
                tick as int,
                liquidity as nat,
                fee_bps@,
                next_tick as int,
                down,
            ) == Ok::<(SegmentView, bool), MathErr>((v.0@, v.1)),
            Err(e) => segment_spec(
                remaining@,
                price@,
                tick as int,
                liquidity as nat,
                fee_bps@,
                next_tick as int,
                down,
            ) == Err::<(SegmentView, bool), MathErr>(e@),
        },
        r matches Ok(v) ==> v.0.amount_in@ <= remaining@,
{
    let boundary = match get_sqrt_ratio_at_tick(next_tick) {
        Ok(p) => p,
        Err(e) => return Err(e),
    };
    let limit = match calculate_input_to_boundary(price, boundary, liquidity, down) {
        Ok(a) => a,
        Err(e) => return Err(e),
    };
    let amount = remaining.minimum(limit);
    let product = match amount.checked_mul(U256::from_u64(fee_bps.as_u32() as u64)) {
        None => return Err(overflow1("simulate_swap_with_ticks", amount, "fee calculation")),
        Some(p) => p,
    };
    let fee = product.div(U256::from_u64(10000));
    let net = match amount.checked_sub(fee) {
        None => return Err(
            underflow2("simulate_swap_with_ticks", amount, fee, "amount after fee"),
        ),
        Some(v) => v,
    };
    if !down && liquidity == 0 {
        return Err(map_v3_error("Liquidity is 0".to_owned()));
    }
    let moved = if down {
        proof {
            lemma_next_price_divisor(price@, liquidity, net@);
        }
        next_price_from_amount0(price, liquidity, net)
    } else {
        next_price_from_amount1(price, liquidity, net)
    };
    let next = match moved {
        Ok(p) => p,
        Err(e) => return Err(map_v3_error(e)),
    };
    let next_price_tick: i32 = match sqrt_price_to_tick(next) {
        Ok(t) => t,
        Err(e) => return Err(e),
    };
    let segment = SwapSegment {
        sqrt_price_start: price,
        sqrt_price_end: next,
        tick_start: tick,
        tick_end: next_price_tick,
        liquidity,
        amount_in: amount,
        fee_amount: fee,
    };
    Ok((segment, !amount.less(&limit)))
}

/// The path of a swap: its segments from the starting price on.
pub open spec fn simulate_spec(
    amount_in: nat,
    price: nat,
    liquidity: nat,
    fee_bps: nat,
    spacing: int,
    ticks: Seq<i32>,
    down: bool,
    net: Map<i32, i128>,
) -> Result<Seq<SegmentView>, MathErr> {
    match tick_of_price(price) {
        Err(e) => Err(e),
        Ok(tick) => swap_path(
            amount_in,
            price,
            tick,
            liquidity,
            fee_bps,
            spacing,
            ticks,
            down,
            net,
            seq![],
            1000,
        ),
    }
}

/// Simulates a V3 swap tick by tick and returns its execution path, at most 1000 segments.
///
/// Each segment takes what is left of the input, or as much as moves the price to the next
/// tick; there the liquidity changes by the tick's entry in `tick_liquidity_net`. The path ends
/// where the input is used up or no liquidity is left.
pub fn simulate_swap_with_ticks(
    amount_in: U256,
    sqrt_price_start: U256,
    current_liquidity: u128,
    fee_bps: BasisPoints,
    tick_spacing: i32,
    initialized_ticks: &[i32],
    zero_for_one: bool,
    tick_liquidity_net: &HashMap<i32, i128>,
) -> (r: Result<Vec<SwapSegment>, MathError>)
    requires
        ascending(initialized_ticks@),
    ensures
        segments_view(r) == simulate_spec(
            amount_in@,
            sqrt_price_start@,
            current_liquidity as nat,
            fee_bps@,
            tick_spacing as int,
            initialized_ticks@,
            zero_for_one,
            tick_liquidity_net@,
        ),
{
    let mut segments: Vec<SwapSegment> = Vec::new();
    let mut remaining = amount_in;
    let mut price = sqrt_price_start;
    let mut tick: i32 = match sqrt_price_to_tick(price) {
        Ok(t) => t,
        Err(e) => return Err(e),
    };
    let mut liquidity: u128 = current_liquidity;
    let ghost whole = simulate_spec(
        amount_in@,
        sqrt_price_start@,
        current_liquidity as nat,
        fee_bps@,
        tick_spacing as int,
        initialized_ticks@,
        zero_for_one,
        tick_liquidity_net@,
    );
    proof {
        assert(segment_views(segments@) =~= seq![]);
    }
    while !remaining.is_zero() && segments.len() < 1000
        invariant_except_break
            ascending(initialized_ticks@),
            segments@.len() <= 1000,
            whole == swap_path(
                remaining@,
                price@,
                tick as int,
                liquidity as nat,
                fee_bps@,
                tick_spacing as int,
                initialized_ticks@,
                zero_for_one,
                tick_liquidity_net@,
                segment_views(segments@),
                (1000 - segments@.len()) as nat,
            ),
            whole == simulate_spec(
                amount_in@,
                sqrt_price_start@,
                current_liquidity as nat,
                fee_bps@,
                tick_spacing as int,
                initialized_ticks@,
                zero_for_one,
                tick_liquidity_net@,
            ),
        ensures
            whole == Ok::<Seq<SegmentView>, MathErr>(segment_views(segments@)),
        decreases 1000 - segments@.len(),
    {
        let next_tick: i32 = match find_next_initialized_tick(
            tick,
            initialized_ticks,
            tick_spacing,
            zero_for_one,
        ) {
            Ok(t) => t,
            Err(e) => return Err(e),
        };
        let step = match compute_segment(
            remaining,
            price,
            tick,
            liquidity,
            fee_bps,
            next_tick,
            zero_for_one,
        ) {
            Ok(s) => s,
            Err(e) => return Err(e),
        };
        let segment = step.0;
        let ghost before = segment_views(segments@);
        segments.push(segment);
        proof {
            assert(segment_views(segments@) =~= before.push(segment@));
        }
        remaining = remaining.minus(segment.amount_in);
        price = segment.sqrt_price_end;
        tick = segment.tick_end;
        if !step.1 {
            break;
        }
        match tick_liquidity_net.get(&next_tick) {
            Some(change) => {
                liquidity = clamped_liquidity(liquidity, *change, zero_for_one);
            },
            None => {},
        }
        if liquidity == 0 {
            break;
        }
    }
    Ok(segments)
}

/// Whether segments follow one another: each starts at the price and the tick where the one
/// before it ended.
pub open spec fn is_chain(path: Seq<SegmentView>) -> bool {
    forall|k: int|
        0 < k < path.len() ==> (#[trigger] path[k]).sqrt_price_start == path[k - 1].sqrt_price_end
            && path[k].tick_start == path[k - 1].tick_end
}

/// The input that the segments of a path take.
pub open spec fn path_input(path: Seq<SegmentView>) -> nat
    decreases path.len(),
{
    if path.len() == 0 {
        0
    } else {
        path_input(path.drop_last()) + path.last().amount_in
    }
}

/// The induction behind [`law_path_is_a_chain_within_its_input`].
proof fn lemma_path(
    remaining: nat,
    price: nat,
    tick: int,
    liquidity: nat,
    fee_bps: nat,
    spacing: int,
    ticks: Seq<i32>,
    down: bool,
    net: Map<i32, i128>,
    done: Seq<SegmentView>,
    left: nat,
)
    requires
        is_chain(done),
        done.len() > 0 ==> done.last().sqrt_price_end == price && done.last().tick_end == tick,
    ensures
        swap_path(
            remaining,
            price,
            tick,
            liquidity,
            fee_bps,
            spacing,
            ticks,
            down,
            net,
            done,
            left,
        ) matches Ok(path) ==> {
            &&& is_chain(path)
            &&& done.len() <= path.len() <= done.len() + left
            &&& path_input(path) <= path_input(done) + remaining
            &&& done.len() > 0 ==> path[0] == done[0]
            &&& done.len() == 0 && path.len() > 0 ==> path[0].sqrt_price_start == price
                && path[0].tick_start == tick
        },
    decreases left,
{
    if remaining != 0 && left > 0 {
        match next_tick_spec("find_next_initialized_tick"@, tick, ticks, spacing, down) {
            Err(_) => {},
            Ok(next_tick) => match segment_spec(
                remaining,
                price,
                tick,
                liquidity,
                fee_bps,
                next_tick,
                down,
            ) {
                Err(_) => {},
                Ok((segment, full)) => {
                    let after = done.push(segment);
                    assert(after.drop_last() =~= done);
                    assert(after.last() == segment);
                    assert(path_input(after) == path_input(done) + segment.amount_in);
                    assert forall|k: int| 0 < k < after.len() implies (#[trigger] after[k])
                        .sqrt_price_start == after[k - 1].sqrt_price_end && after[k].tick_start
                        == after[k - 1].tick_end by {
                        if k < done.len() {
                            assert(after[k] == done[k]);
                            assert(after[k - 1] == done[k - 1]);
                        }
                    }
                    lemma_path(
                        (remaining - segment.amount_in) as nat,
                        segment.sqrt_price_end,
                        segment.tick_end,
                        crossed_liquidity(liquidity, net, next_tick as i32, down),
                        fee_bps,
                        spacing,
                        ticks,
                        down,
                        net,
                        after,
                        (left - 1) as nat,
                    );
                },
            },
        }
    }
}

/// The path of a swap starts at the starting price, each segment starts where the one before it
/// ended, and together they take no more than the input. There are at most 1000 of them.
pub proof fn law_path_is_a_chain_within_its_input(
    amount_in: nat,
    price: nat,
    liquidity: nat,
    fee_bps: nat,
    spacing: int,
    ticks: Seq<i32>,
    down: bool,
    net: Map<i32, i128>,
)
    ensures
        simulate_spec(amount_in, price, liquidity, fee_bps, spacing, ticks, down, net) matches Ok(
            path,
        ) ==> {
            &&& is_chain(path)
            &&& path.len() <= 1000
            &&& path_input(path) <= amount_in
            &&& path.len() > 0 ==> path[0].sqrt_price_start == price && tick_of_price(price)
                == Ok::<int, MathErr>(path[0].tick_start)
        },
{
    match tick_of_price(price) {
        Err(_) => {},
        Ok(tick) => {
            lemma_path(
                amount_in,
                price,
                tick,
                liquidity,
                fee_bps,
                spacing,
                ticks,
                down,
                net,
                seq![],
                1000,
            );
        },
    }
}

/// An amount between two prices that is rounded up is never less than the one rounded down, for
/// either token.
pub proof fn law_rounding_up_is_never_less(a: nat, b: nat, liquidity: nat)
    ensures
        amount0_spec(a, b, liquidity, true) matches Ok(up) ==> (amount0_spec(
            a,
            b,
            liquidity,
            false,
        ) matches Ok(down) && down <= up),
        amount1_spec(a, b, liquidity, true) matches Ok(up) ==> (amount1_spec(
            a,
            b,
            liquidity,
            false,
        ) matches Ok(down) && down <= up),
{
    let lo = lower(a, b);
    let hi = upper(a, b);
    if lo > 0 {
        let n = liquidity * q96() * ((hi - lo) as nat);
        let first = crate::dex::clmm::div_up(n, hi);
        assert(n / hi <= first);
        lemma_div_is_ordered((n / hi) as int, first as int, lo as int);
        assert(first / lo <= crate::dex::clmm::div_up(first, lo));
    }
}

/// The output of a swap within one range is what lies between the prices before and after it,
/// rounded down.
pub proof fn law_output_lies_between_the_prices(
    amount: nat,
    price: nat,
    liquidity: nat,
    fee_bps: nat,
    direction: SwapDirection,
)
    ensures
        v3_post_swap_spec(amount, price, liquidity, fee_bps, direction) matches Ok(after) ==> (
        v3_amount_out_spec(amount, price, liquidity, fee_bps, direction) matches Ok(out)
            ==> given_between(price, after.0, liquidity, direction.is_down()) == Ok::<
            nat,
            Seq<char>,
        >(out)),
{
    let n = liquidity * q96();
    assert(liquidity * 0 == 0 && n * 0 == 0) by (nonlinear_arith);
    if price > 0 {
        assert(0nat / price == 0) by (nonlinear_arith)
            requires
                price > 0,
        ;
    }
}

/// A swap within one range moves the price with its direction: token 0 does not raise it, and
/// token 1 does not lower it where the sum of price and step stays within 256 bits.
pub proof fn law_price_moves_with_the_direction(
    amount: nat,
    price: nat,
    liquidity: nat,
    fee_bps: nat,
    direction: SwapDirection,
)
    requires
        direction is Token1ToToken0 ==> (after_fee(amount, fee_bps) matches Some(net) ==> (
        next_price1_quotient(liquidity, net) matches Ok(q) ==> fits(price + q))),
    ensures
        v3_post_swap_spec(amount, price, liquidity, fee_bps, direction) matches Ok(after) ==> if direction.is_down() {
            after.0 <= price
        } else {
            after.0 >= price
        },
{
    if v3_post_swap_spec(amount, price, liquidity, fee_bps, direction) is Ok {
        let net = after_fee(amount, fee_bps)->Some_0;
        let after = v3_post_swap_spec(amount, price, liquidity, fee_bps, direction)->Ok_0;
        if net > 0 {
            if direction.is_down() {
                lemma_input0_lowers(price, liquidity, net, after.0);
            } else {
                let q = next_price1_quotient(liquidity, net)->Ok_0;
                vstd::arithmetic::div_mod::lemma_small_mod(price + q, u256_limit());
            }
        }
    }
}

/// The next tick lies beyond the current one, with no initialized tick between them. It is an
/// initialized tick itself, or else, where none lies beyond, the multiple of the spacing next to
/// the one at or below the current tick.
pub proof fn law_next_tick_is_the_nearest(
    operation: Seq<char>,
    current: int,
    ticks: Seq<i32>,
    spacing: int,
    down: bool,
)
    requires
        ascending(ticks),
    ensures
        next_tick_spec(operation, current, ticks, spacing, down) matches Ok(next) ==> {
            &&& is_next(ticks, current, next, down)
            &&& i32::MIN <= next <= i32::MAX
            &&& ticks.contains(next as i32) || {
                &&& forall|k: int|
                    0 <= k < ticks.len() ==> if down {
                        #[trigger] ticks[k] >= current
                    } else {
                        ticks[k] <= current
                    }
                &&& next % spacing == 0
                &&& if down {
                    current - 2 * spacing < next <= current - spacing
                } else {
                    current < next <= current + spacing
                }
            }
        },
{
    if spacing > 0 {
        law_last_below_is_largest(ticks, current);
        law_first_above_is_smallest(ticks, current);
        let q = current / spacing;
        vstd::arithmetic::div_mod::lemma_fundamental_div_mod(current, spacing);
        assert((q - 1) * spacing == spacing * q - spacing && (q + 1) * spacing == spacing * q
            + spacing) by (nonlinear_arith);
        vstd::arithmetic::div_mod::lemma_mod_multiples_basic(q - 1, spacing);
        vstd::arithmetic::div_mod::lemma_mod_multiples_basic(q + 1, spacing);
    }
}

/// The price of a square-root price is its square by `2^192`, rounded down, and in the scaled form
/// ten to the power 18 times that before rounding.
pub proof fn law_price_is_the_square(sqrt_price: nat)
    ensures
        price_of(sqrt_price) matches Ok(price) ==> price
            * 0x1_0000_0000_0000_0000_0000_0000_0000_0000_0000_0000_0000_0000nat <= sqrt_price
            * sqrt_price < (price + 1)
            * 0x1_0000_0000_0000_0000_0000_0000_0000_0000_0000_0000_0000_0000nat,
        price_wad_of(sqrt_price) matches Ok(price) ==> is_square_price(price, sqrt_price),
{
    let q = 0x1_0000_0000_0000_0000_0000_0000_0000_0000_0000_0000_0000_0000nat;
    let n = sqrt_price * sqrt_price;
    vstd::arithmetic::div_mod::lemma_fundamental_div_mod(n as int, q as int);
    vstd::arithmetic::div_mod::lemma_fundamental_div_mod((n * wad()) as int, q as int);
}

/// Whether a price, scaled by ten to the power 18, is the square of a square-root price.
pub open spec fn is_square_price(price: nat, sqrt_price: nat) -> bool {
    price * 0x1_0000_0000_0000_0000_0000_0000_0000_0000_0000_0000_0000_0000nat <= sqrt_price
        * sqrt_price * 1_000_000_000_000_000_000 < (price + 1)
        * 0x1_0000_0000_0000_0000_0000_0000_0000_0000_0000_0000_0000_0000nat
}

/// Whether a price impact is the relative change of the price from one square-root price to
/// another; none where one of them is zero.
pub open spec fn is_impact_between(bps: nat, before: nat, after: nat) -> bool {
    if before == 0 || after == 0 {
        bps == 0
    } else {
        exists|b: nat, a: nat|
            #[trigger] is_impact_of(bps, b, a) && is_square_price(b, before) && is_square_price(
                a,
                after,
            )
    }
}

/// A price impact is the change of the price relative to the price before.
pub proof fn law_impact_is_the_change_of_the_price(before: nat, after: nat)
    ensures
        v3_impact_spec(before, after) matches Ok(bps) ==> is_impact_between(bps, before, after),
{
    law_price_is_the_square(before);
    law_price_is_the_square(after);
    if v3_impact_spec(before, after) is Ok && before > 0 && after > 0 {
        let (b, a) = (price_wad_of(before)->Ok_0, price_wad_of(after)->Ok_0);
        let bps = v3_impact_spec(before, after)->Ok_0;
        let n = distance(b, a) * 10000;
        if b > 0 {
            vstd::arithmetic::div_mod::lemma_fundamental_div_mod(n as int, b as int);
            let q = n / b;
            assert(q * b == b * q && (q + 1) * b == b * q + b) by (nonlinear_arith);
            if q > 10000 {
                assert(10000 * b <= q * b) by (nonlinear_arith)
                    requires
                        q > 10000,
                ;
            }
        }
        assert(is_impact_of(bps, b, a));
    }
}

/// The square-root price of reserves is the largest number whose square is at most
/// `reserve_out * 2^192 / reserve_in`.
pub proof fn law_square_root_price_of_reserves(reserve_in: nat, reserve_out: nat)
    ensures
        sqrt_price_of_reserves(reserve_in, reserve_out) matches Ok(root) ==> {
            &&& reserve_in > 0
            &&& root * root * reserve_in <= reserve_out
                * 0x1_0000_0000_0000_0000_0000_0000_0000_0000_0000_0000_0000_0000nat
            &&& reserve_out
                * 0x1_0000_0000_0000_0000_0000_0000_0000_0000_0000_0000_0000_0000nat < (root + 1)
                * (root + 1) * reserve_in
        },
{
    if sqrt_price_of_reserves(reserve_in, reserve_out) is Ok {
        let n = reserve_out * q192();
        let ratio = n / reserve_in;
        let root = isqrt(ratio);
        vstd::arithmetic::div_mod::lemma_fundamental_div_mod(n as int, reserve_in as int);
        law_square_root_exists(ratio);
        assert(root * root * reserve_in <= n) by (nonlinear_arith)
            requires
                root * root <= ratio,
                reserve_in * ratio <= n,
        ;
        assert(n < (root + 1) * (root + 1) * reserve_in) by (nonlinear_arith)
            requires
                ratio + 1 <= (root + 1) * (root + 1),
                n < reserve_in * ratio + reserve_in,
        ;
    }
}

/// What is left after a fee is the input times the rest of 10000 by 10000, rounded down.
pub proof fn law_fee_is_taken_from_the_input(amount: nat, fee_bps: nat)
    requires
        fee_bps <= 10_000,
    ensures
        after_fee(amount, fee_bps) matches Some(net) ==> is_after_fee(net, amount, fee_bps),
{
    assert(amount * ((10_000 - fee_bps) as nat) == amount * (10_000 - fee_bps));
}

/// Whether a net amount is an amount less a fee in basis points, rounded down.
pub open spec fn is_after_fee(net: nat, amount: nat, fee_bps: nat) -> bool {
    net * 10_000 <= amount * (10_000 - fee_bps) < (net + 1) * 10_000
}

/// A swap within one range moves the price by the input less its fee, and pays what lies between
/// the two prices: token 1 while the price falls, token 0 while it rises. A price that wraps
/// around is left out.
pub proof fn law_single_range_pays_between_its_prices(
    amount: nat,
    price: nat,
    liquidity: nat,
    fee_bps: nat,
    direction: SwapDirection,
    out: nat,
    after: nat,
    tick: int,
)
    requires
        fee_bps <= 10_000,
        v3_amount_out_spec(amount, price, liquidity, fee_bps, direction) == Ok::<nat, MathErr>(
            out,
        ),
        v3_post_swap_spec(amount, price, liquidity, fee_bps, direction) == Ok::<
            (nat, int),
            MathErr,
        >((after, tick)),
        direction is Token1ToToken0 ==> price <= after,
    ensures
        pays(price, after, liquidity, direction.is_down(), out),
        exists|net: nat|
            #[trigger] is_after_fee(net, amount, fee_bps) && if net == 0 {
                after == price
            } else {
                next_price_spec(price, liquidity, net, direction.is_down()) == Ok::<
                    nat,
                    Seq<char>,
                >(after)
            },
{
    let net = after_fee(amount, fee_bps)->Some_0;
    let down = direction.is_down();
    law_fee_is_taken_from_the_input(amount, fee_bps);
    law_output_lies_between_the_prices(amount, price, liquidity, fee_bps, direction);
    if down && net > 0 {
        lemma_input0_lowers(price, liquidity, net, after);
    }
    lemma_given_is_paid(price, after, liquidity, down, out);
    assert(is_after_fee(net, amount, fee_bps));
}

/// Prices that stay the same have no impact.
pub proof fn lemma_no_impact(price: nat)
    ensures
        is_impact_between(0, price, price),
{
    let q = 0x1_0000_0000_0000_0000_0000_0000_0000_0000_0000_0000_0000_0000nat;
    let n = price * price * 1_000_000_000_000_000_000;
    vstd::arithmetic::div_mod::lemma_fundamental_div_mod(n as int, q as int);
    let p = n / q;
    assert(is_square_price(p, price));
    assert(0 * p == 0 && (0 + 1) * p == p) by (nonlinear_arith);
    assert(is_impact_of(0, p, p));
}

/// Whether a segment takes what it should of an input: the whole of it, or what the way to the next
/// tick costs where that is less; the fee is a share of that, rounded down, and the rest moves the
/// price.
pub open spec fn is_segment(
    segment: SegmentView,
    remaining: nat,
    goal: int,
    ticks: Seq<i32>,
    fee_bps: nat,
    down: bool,
) -> bool {
    &&& is_next(ticks, segment.tick_start, goal, down)
    &&& taken_between(
        segment.sqrt_price_start,
        sqrt_ratio_at(goal),
        segment.liquidity,
        down,
    ) matches Ok(limit) && segment.amount_in == if remaining < limit {
        remaining
    } else {
        limit
    }
    &&& segment.fee_amount <= segment.amount_in
    &&& segment.fee_amount * 10_000 <= segment.amount_in * fee_bps < (segment.fee_amount + 1)
        * 10_000
    &&& next_price_spec(
        segment.sqrt_price_start,
        segment.liquidity,
        (segment.amount_in - segment.fee_amount) as nat,
        down,
    ) == Ok::<nat, Seq<char>>(segment.sqrt_price_end)
    &&& tick_of_price(segment.sqrt_price_end) == Ok::<int, MathErr>(segment.tick_end)
}

/// Whether a liquidity is what crossing a tick leaves of another one, kept within the range of a
/// `u128`.
pub open spec fn is_liquidity_behind(
    before: nat,
    after: nat,
    net: Map<i32, i128>,
    tick: i32,
    down: bool,
) -> bool {
    if net.dom().contains(tick) {
        let l = if down {
            before - net[tick]
        } else {
            before + net[tick]
        };
        &&& 0 <= l <= u128::MAX ==> after == l
        &&& l < 0 ==> after == 0
        &&& l > u128::MAX ==> after == u128::MAX
    } else {
        after == before
    }
}

/// Whether segments make the path of a swap towards the ticks `goals`: each takes what it should of
/// what the ones before it left, and the liquidity changes at each tick by its entry.
#[verifier::opaque]
pub open spec fn is_path(
    path: Seq<SegmentView>,
    goals: Seq<int>,
    amount_in: nat,
    liquidity: nat,
    fee_bps: nat,
    ticks: Seq<i32>,
    down: bool,
    net: Map<i32, i128>,
) -> bool {
    &&& goals.len() == path.len()
    &&& path.len() > 0 ==> path[0].liquidity == liquidity
    &&& path_input(path) <= amount_in
    &&& forall|k: int|
        0 <= k < path.len() ==> is_segment(
            #[trigger] path[k],
            (amount_in - path_input(path.take(k))) as nat,
            goals[k],
            ticks,
            fee_bps,
            down,
        )
    &&& forall|k: int|
        0 < k < path.len() ==> is_liquidity_behind(
            path[k - 1].liquidity,
            (#[trigger] path[k]).liquidity,
            net,
            goals[k - 1] as i32,
            down,
        )
}

/// Whether a path ends where it may: with its input used up, with as many segments as there may be,
/// or at a tick behind which no liquidity lies.
pub open spec fn is_finished(
    path: Seq<SegmentView>,
    goals: Seq<int>,
    amount_in: nat,
    most: nat,
    down: bool,
    net: Map<i32, i128>,
) -> bool {
    ||| path_input(path) == amount_in
    ||| path.len() == most
    ||| path.len() > 0 && is_liquidity_behind(
        path.last().liquidity,
        0,
        net,
        goals.last() as i32,
        down,
    )
}

/// Whether segments are a path that ends where it may.
pub open spec fn is_finished_path(
    path: Seq<SegmentView>,
    amount_in: nat,
    liquidity: nat,
    fee_bps: nat,
    ticks: Seq<i32>,
    down: bool,
    net: Map<i32, i128>,
    most: nat,
) -> bool {
    exists|towards: Seq<int>|
        #[trigger] is_path(path, towards, amount_in, liquidity, fee_bps, ticks, down, net)
            && is_finished(path, towards, amount_in, most, down, net)
}

/// One more segment of a path.
proof fn lemma_longer_path(
    path: Seq<SegmentView>,
    goals: Seq<int>,
    segment: SegmentView,
    goal: int,
    amount_in: nat,
    liquidity: nat,
    fee_bps: nat,
    ticks: Seq<i32>,
    down: bool,
    net: Map<i32, i128>,
)
    requires
        is_path(path, goals, amount_in, liquidity, fee_bps, ticks, down, net),
        is_segment(
            segment,
            (amount_in - path_input(path)) as nat,
            goal,
            ticks,
            fee_bps,
            down,
        ),
        segment.amount_in <= amount_in - path_input(path),
        path.len() == 0 ==> segment.liquidity == liquidity,
        path.len() > 0 ==> is_liquidity_behind(
            path.last().liquidity,
            segment.liquidity,
            net,
            goals.last() as i32,
            down,
        ),
    ensures
        is_path(
            path.push(segment),
            goals.push(goal),
            amount_in,
            liquidity,
            fee_bps,
            ticks,
            down,
            net,
        ),
        path_input(path.push(segment)) == path_input(path) + segment.amount_in,
{
    reveal(is_path);
    let more = path.push(segment);
    let towards = goals.push(goal);
    assert(more.drop_last() =~= path);
    assert forall|k: int| 0 <= k < more.len() implies is_segment(
        #[trigger] more[k],
        (amount_in - path_input(more.take(k))) as nat,
        towards[k],
        ticks,
        fee_bps,
        down,
    ) by {
        assert(more.take(k) =~= path.take(k));
        if k < path.len() {
            assert(more[k] == path[k]);
        } else {
            assert(path.take(k) =~= path);
        }
    }
    assert forall|k: int| 0 < k < more.len() implies is_liquidity_behind(
        more[k - 1].liquidity,
        (#[trigger] more[k]).liquidity,
        net,
        towards[k - 1] as i32,
        down,
    ) by {
        assert(more[k - 1] == path[k - 1] && towards[k - 1] == goals[k - 1]);
        if k < path.len() {
            assert(more[k] == path[k]);
        }
    }
}

/// The induction behind [`law_path_takes_its_input_segment_by_segment`].
proof fn lemma_path_segments(
    remaining: nat,
    price: nat,
    tick: int,
    here: nat,
    fee_bps: nat,
    spacing: int,
    ticks: Seq<i32>,
    down: bool,
    net: Map<i32, i128>,
    done: Seq<SegmentView>,
    left: nat,
    goals: Seq<int>,
    amount_in: nat,
    liquidity: nat,
)
    requires
        ascending(ticks),
        is_path(done, goals, amount_in, liquidity, fee_bps, ticks, down, net),
        remaining == amount_in - path_input(done),
        goals.len() == done.len(),
        done.len() == 0 ==> here == liquidity,
        done.len() > 0 ==> is_liquidity_behind(
            done.last().liquidity,
            here,
            net,
            goals.last() as i32,
            down,
        ),
        done.len() > 0 ==> here > 0,
    ensures
        swap_path(
            remaining,
            price,
            tick,
            here,
            fee_bps,
            spacing,
            ticks,
            down,
            net,
            done,
            left,
        ) matches Ok(path) ==> is_finished_path(
            path,
            amount_in,
            liquidity,
            fee_bps,
            ticks,
            down,
            net,
            (done.len() + left) as nat,
        ),
    decreases left,
{
    let whole = swap_path(
        remaining,
        price,
        tick,
        here,
        fee_bps,
        spacing,
        ticks,
        down,
        net,
        done,
        left,
    );
    let most = (done.len() + left) as nat;
    if remaining == 0 || left == 0 {
        assert(is_path(done, goals, amount_in, liquidity, fee_bps, ticks, down, net));
        assert(whole == Ok::<Seq<SegmentView>, MathErr>(done));
        assert(is_finished(done, goals, amount_in, most, down, net));
    } else {
        match next_tick_spec("find_next_initialized_tick"@, tick, ticks, spacing, down) {
            Err(_) => {},
            Ok(next_tick) => match segment_spec(
                remaining,
                price,
                tick,
                here,
                fee_bps,
                next_tick,
                down,
            ) {
                Err(_) => {},
                Ok((segment, full)) => {
                    law_next_tick_is_the_nearest(
                        "find_next_initialized_tick"@,
                        tick,
                        ticks,
                        spacing,
                        down,
                    );
                    let n = segment.amount_in * fee_bps;
                    vstd::arithmetic::div_mod::lemma_fundamental_div_mod(n as int, 10_000);
                    lemma_longer_path(
                        done,
                        goals,
                        segment,
                        next_tick,
                        amount_in,
                        liquidity,
                        fee_bps,
                        ticks,
                        down,
                        net,
                    );
                    let after = done.push(segment);
                    let towards = goals.push(next_tick);
                    assert(is_path(
                        after,
                        towards,
                        amount_in,
                        liquidity,
                        fee_bps,
                        ticks,
                        down,
                        net,
                    ));
                    let l = crossed_liquidity(here, net, next_tick as i32, down);
                    assert(after.last() == segment && towards.last() == next_tick);
                    if !full || l == 0 {
                        assert(whole == Ok::<Seq<SegmentView>, MathErr>(after));
                        assert(is_finished(after, towards, amount_in, most, down, net));
                    } else {
                        lemma_path_segments(
                            (remaining - segment.amount_in) as nat,
                            segment.sqrt_price_end,
                            segment.tick_end,
                            l,
                            fee_bps,
                            spacing,
                            ticks,
                            down,
                            net,
                            after,
                            (left - 1) as nat,
                            towards,
                            amount_in,
                            liquidity,
                        );
                        assert((after.len() + (left - 1)) as nat == most);
                    }
                },
            },
        }
    }
}

/// A simulated swap takes its input segment by segment: each segment what it should of what is left,
/// at the liquidity that the entries of the ticks leave. It ends where the input is used up, where
/// no liquidity lies behind a tick, or after 1000 segments.
pub proof fn law_path_takes_its_input_segment_by_segment(
    amount_in: nat,
    price: nat,
    liquidity: nat,
    fee_bps: nat,
    spacing: int,
    ticks: Seq<i32>,
    down: bool,
    net: Map<i32, i128>,
)
    requires
        ascending(ticks),
    ensures
        simulate_spec(amount_in, price, liquidity, fee_bps, spacing, ticks, down, net) matches Ok(
            path,
        ) ==> is_finished_path(path, amount_in, liquidity, fee_bps, ticks, down, net, 1000),
{
    assert(is_path(seq![], seq![], amount_in, liquidity, fee_bps, ticks, down, net)) by {
        reveal(is_path);
    }
    match tick_of_price(price) {
        Err(_) => {},
        Ok(tick) => {
            lemma_path_segments(
                amount_in,
                price,
                tick,
                liquidity,
                fee_bps,
                spacing,
                ticks,
                down,
                net,
                seq![],
                1000,
                seq![],
                amount_in,
                liquidity,
            );
        },
    }
}

} // verus!
