//! Conversions between ticks and square-root prices, with the range checks of Kyber Elastic.

use crate::base::error::{e_invalid, invalid, math_view, MathErr, MathError};
use crate::dex::clmm::{
    fixed_ratios, is_floor_tick, is_tick_of, max_sqrt_ratio, max_sqrt_ratio_value, min_sqrt_ratio,
    min_sqrt_ratio_value, orders_ticks, ratio_at_tick, sqrt_ratio_at, tick_at_price, tick_at_ratio, tick_in_range,
};
use crate::dex::uniswap_v3::math::tick_view;
use crate::text::{dec, dec_int, text_i128, text_u256};
use crate::u256::U256;
use vstd::prelude::*;
use vstd::string::StringExecFns;

verus! {

/// The lowest tick, the same as in Uniswap V3.
pub const MIN_TICK: i32 = -887272;

/// The highest tick, the same as in Uniswap V3.
pub const MAX_TICK: i32 = 887272;

/// The largest square-root price.
pub fn get_max_sqrt_ratio() -> (r: U256)
    ensures
        r@ == max_sqrt_ratio(),
{
    max_sqrt_ratio_value()
}

/// The square-root price at a tick, or the range error of this module.
pub open spec fn kyber_ratio_spec(tick: int) -> Result<nat, MathErr> {
    if tick_in_range(tick) {
        Ok(sqrt_ratio_at(tick))
    } else {
        Err(
            e_invalid(
                "get_sqrt_ratio_at_tick"@,
                "Tick "@ + dec_int(tick) + " out of bounds [-887272, 887272]"@,
                "Kyber TickMath"@,
            ),
        )
    }
}

/// The tick of a square-root price, or the range error of this module.
pub open spec fn kyber_tick_spec(price: nat) -> Result<int, MathErr> {
    if min_sqrt_ratio() <= price < max_sqrt_ratio() {
        match tick_at_ratio(price) {
            Ok(t) => Ok(t),
            Err(e) => Err(e_invalid("get_tick_at_sqrt_ratio"@, e, "uniswap_v3_math crate"@)),
        }
    } else {
        Err(
            e_invalid(
                "get_tick_at_sqrt_ratio"@,
                "sqrt_ratio "@ + dec(price) + " out of range"@,
                "Kyber tick math"@,
            ),
        )
    }
}

/// Converts a tick to a square-root price.
pub fn get_sqrt_ratio_at_tick(tick: i32) -> (r: Result<U256, MathError>)
    ensures
        math_view(r) == kyber_ratio_spec(tick as int),
        r matches Ok(v) ==> min_sqrt_ratio() <= v@ <= max_sqrt_ratio() && fixed_ratios(
            tick as int,
            v@,
        ) && orders_ticks(tick as int, v@),
{
    if tick < MIN_TICK || tick > MAX_TICK {
        let reason = "Tick ".to_owned().concat(text_i128(tick as i128).as_str()).concat(
            " out of bounds [-887272, 887272]",
        );
        return Err(invalid("get_sqrt_ratio_at_tick", reason.as_str(), "Kyber TickMath"));
    }
    match ratio_at_tick(tick) {
        Ok(p) => Ok(p),
        Err(e) => Err(invalid("get_sqrt_ratio_at_tick", e.as_str(), "uniswap_v3_math crate")),
    }
}

/// Converts a square-root price to a tick, the last one whose price is not above it.
pub fn get_tick_at_sqrt_ratio(sqrt_price_x96: U256) -> (r: Result<i32, MathError>)
    ensures
        tick_view(r) == kyber_tick_spec(sqrt_price_x96@),
        r is Ok <==> min_sqrt_ratio() <= sqrt_price_x96@ < max_sqrt_ratio(),
        r is Ok ==> is_tick_of(r->Ok_0 as int, sqrt_price_x96@) && is_floor_tick(
            r->Ok_0 as int,
            sqrt_price_x96@,
        ),
{
    if sqrt_price_x96.less(&min_sqrt_ratio_value()) || !sqrt_price_x96.less(
        &max_sqrt_ratio_value(),
    ) {
        let reason = "sqrt_ratio ".to_owned().concat(text_u256(sqrt_price_x96).as_str()).concat(
            " out of range",
        );
        return Err(invalid("get_tick_at_sqrt_ratio", reason.as_str(), "Kyber tick math"));
    }
    match tick_at_price(sqrt_price_x96) {
        Ok(t) => Ok(t),
        Err(e) => Err(invalid("get_tick_at_sqrt_ratio", e.as_str(), "uniswap_v3_math crate")),
    }
}

} // verus!
