//! Ticks, prices and amounts of concentrated liquidity.

use alloy_primitives::U256;
use dex_math_core::base::error::MathError;
use dex_math_core::base::precision::BasisPoints;
use dex_math_core::dex::adapter::SwapDirection;
use dex_math_core::dex::clmm::{MAX_TICK, MIN_TICK};
use dex_math_core::dex::uniswap_v3::math;
use dex_math_core::u256::U256 as Wide;

const U256_ZERO: U256 = U256::ZERO;
const BPS_DENOM: U256 = U256::from_limbs([10_000, 0, 0, 0]);
const Q96: U256 = U256::from_limbs([0, 4_294_967_296, 0, 0]);
const MIN_SQRT_RATIO: u64 = 4_295_128_739;

/// The library's number for one of `alloy_primitives`.
fn wide(v: U256) -> Wide {
    let w = v.into_limbs();
    Wide::from_limbs(w[0], w[1], w[2], w[3])
}

/// The number of `alloy_primitives` for one of the library.
fn plain(v: Wide) -> U256 {
    U256::from_limbs([v.l0, v.l1, v.l2, v.l3])
}

fn get_sqrt_ratio_at_tick(tick: i32) -> Result<U256, MathError> {
    math::get_sqrt_ratio_at_tick(tick).map(plain)
}

fn sqrt_price_to_tick(price: U256) -> Result<i32, MathError> {
    math::sqrt_price_to_tick(wide(price))
}

fn mul_div(a: U256, b: U256, d: U256) -> Result<U256, MathError> {
    math::mul_div(wide(a), wide(b), wide(d)).map(plain)
}

fn mul_div_rounding_up(a: U256, b: U256, d: U256) -> Result<U256, MathError> {
    math::mul_div_rounding_up(wide(a), wide(b), wide(d)).map(plain)
}

fn get_amount0_delta(a: U256, b: U256, liquidity: u128, up: bool) -> Result<U256, MathError> {
    math::get_amount0_delta(wide(a), wide(b), liquidity, up).map(plain)
}

fn get_amount1_delta(a: U256, b: U256, liquidity: u128, up: bool) -> Result<U256, MathError> {
    math::get_amount1_delta(wide(a), wide(b), liquidity, up).map(plain)
}

fn calculate_v3_amount_out(
    amount_in: U256,
    price: U256,
    liquidity: u128,
    fee_bps: BasisPoints,
    direction: SwapDirection,
) -> Result<U256, MathError> {
    math::calculate_v3_amount_out(wide(amount_in), wide(price), liquidity, fee_bps, direction)
        .map(plain)
}

fn calculate_v3_post_swap_state(
    amount: U256,
    price: U256,
    liquidity: u128,
    fee_bps: BasisPoints,
    direction: SwapDirection,
) -> Result<(U256, i32), MathError> {
    math::calculate_v3_post_swap_state(wide(amount), wide(price), liquidity, fee_bps, direction)
        .map(|(p, t)| (plain(p), t))
}

fn calculate_v3_price_impact(before: U256, after: U256) -> Result<u32, MathError> {
    math::calculate_v3_price_impact(wide(before), wide(after))
}

fn reserves_to_sqrt_price_x96(reserve_in: U256, reserve_out: U256) -> Result<U256, MathError> {
    math::reserves_to_sqrt_price_x96(wide(reserve_in), wide(reserve_out)).map(plain)
}

#[test]
fn test_tick_at_zero() {
    let sqrt_ratio = get_sqrt_ratio_at_tick(0).unwrap();
    assert_eq!(sqrt_ratio, U256::from(79228162514264337593543950336u128));
}

#[test]
fn test_tick_bounds() {
    let min = get_sqrt_ratio_at_tick(MIN_TICK).unwrap();
    let max = get_sqrt_ratio_at_tick(MAX_TICK).unwrap();

    assert_eq!(min, U256::from(MIN_SQRT_RATIO));
    assert_eq!(max, uniswap_v3_math::tick_math::MAX_SQRT_RATIO);
    assert!(max > U256_ZERO);
}

#[test]
fn test_tick_out_of_bounds() {
    let result = get_sqrt_ratio_at_tick(MIN_TICK - 1);
    assert!(result.is_err());

    let result = get_sqrt_ratio_at_tick(MAX_TICK + 1);
    assert!(result.is_err());
}

#[test]
fn test_mul_div_rounding_up_exact_division() {
    let result =
        mul_div_rounding_up(U256::from(100u64), U256::from(200u64), U256::from(100u64)).unwrap();
    assert_eq!(result, U256::from(200u64));

    let result = mul_div_rounding_up(U256::from(50u64), U256::from(60u64), U256::from(10u64)).unwrap();
    assert_eq!(result, U256::from(300u64));
}

#[test]
fn test_mul_div_rounding_up_requires_rounding() {
    let result =
        mul_div_rounding_up(U256::from(100u64), U256::from(201u64), U256::from(200u64)).unwrap();
    assert_eq!(result, U256::from(101u64));

    let result = mul_div_rounding_up(U256::from(7u64), U256::from(3u64), U256::from(2u64)).unwrap();
    assert_eq!(result, U256::from(11u64));

    let result = mul_div_rounding_up(U256::from(1u64), U256::from(1u64), U256::from(3u64)).unwrap();
    assert_eq!(result, U256::from(1u64));
}

#[test]
fn test_mul_div_rounding_up_edge_cases() {
    let result = mul_div_rounding_up(U256_ZERO, U256::from(100u64), U256::from(10u64)).unwrap();
    assert_eq!(result, U256_ZERO);

    let result = mul_div_rounding_up(U256::from(100u64), U256_ZERO, U256::from(10u64)).unwrap();
    assert_eq!(result, U256_ZERO);

    let result = mul_div_rounding_up(U256::from(100u64), U256::from(200u64), U256_ZERO);
    assert!(result.is_err());
}

#[test]
fn test_mul_div_rounding_up_large_values() {
    let large_a = "1000000000000000000000000".parse::<U256>().unwrap();
    let large_b = "2000000000000000000000000".parse::<U256>().unwrap();
    let denom = "1000000000000000000000".parse::<U256>().unwrap();

    let result = mul_div_rounding_up(large_a, large_b, denom).unwrap();
    let expected = "2000000000000000000000000000".parse::<U256>().unwrap();
    assert_eq!(result, expected);
}

#[test]
fn test_mul_div_rounding_up_vs_mul_div() {
    let a = U256::from(100u64);
    let b = U256::from(200u64);
    let denom = U256::from(100u64);

    let regular = mul_div(a, b, denom).unwrap();
    let rounded = mul_div_rounding_up(a, b, denom).unwrap();
    assert_eq!(regular, rounded);

    let a = U256::from(100u64);
    let b = U256::from(201u64);
    let denom = U256::from(200u64);

    let regular = mul_div(a, b, denom).unwrap();
    let rounded = mul_div_rounding_up(a, b, denom).unwrap();
    assert!(rounded >= regular);
    assert_eq!(regular, U256::from(100u64));
    assert_eq!(rounded, U256::from(101u64));
}

#[test]
fn test_calculate_v3_amount_out_token0_to_token1_small() {
    let amount_in = U256::from(1000_000_000_000_000_000u128);
    let sqrt_price_x96 = U256::from(79228162514264337593543950336u128);
    let liquidity = 1_000_000_000_000_000_000_000u128;
    let fee_bps = BasisPoints::new_const(300);

    let result = calculate_v3_amount_out(
        amount_in,
        sqrt_price_x96,
        liquidity,
        fee_bps,
        SwapDirection::Token0ToToken1,
    )
    .unwrap();

    assert!(result > U256_ZERO);
    assert!(result < amount_in);
}

#[test]
fn test_calculate_v3_amount_out_token1_to_token0_small() {
    let amount_in = U256::from(1000_000_000_000_000_000u128);
    let sqrt_price_x96 = U256::from(79228162514264337593543950336u128);
    let liquidity = 1_000_000_000_000_000_000_000u128;
    let fee_bps = BasisPoints::new_const(300);

    let result = calculate_v3_amount_out(
        amount_in,
        sqrt_price_x96,
        liquidity,
        fee_bps,
        SwapDirection::Token1ToToken0,
    )
    .unwrap();

    assert!(result > U256_ZERO);
    assert!(result < amount_in);
}

#[test]
fn test_calculate_v3_amount_out_token0_to_token1_large() {
    let amount_in = U256::from(100_000_000_000_000_000_000u128);
    let sqrt_price_x96 = U256::from(79228162514264337593543950336u128);
    let liquidity = 10_000_000_000_000_000_000_000u128;
    let fee_bps = BasisPoints::new_const(300);

    let result = calculate_v3_amount_out(
        amount_in,
        sqrt_price_x96,
        liquidity,
        fee_bps,
        SwapDirection::Token0ToToken1,
    )
    .unwrap();

    assert!(result > U256_ZERO);
    let amount_after_fee = amount_in * U256::from(9970u64) / BPS_DENOM;
    let af_u128 = amount_after_fee.as_limbs()[0] as u128 | ((amount_after_fee.as_limbs()[1] as u128) << 64);
    assert!(result <= amount_after_fee + U256::from(af_u128 / 100));
}

#[test]
fn test_calculate_v3_amount_out_zero_input() {
    let sqrt_price_x96 = U256::from(79228162514264337593543950336u128);
    let liquidity = 1_000_000_000_000_000_000_000u128;
    let fee_bps = BasisPoints::new_const(300);

    let result = calculate_v3_amount_out(
        U256_ZERO,
        sqrt_price_x96,
        liquidity,
        fee_bps,
        SwapDirection::Token0ToToken1,
    );

    assert!(result.is_err());
    match result.unwrap_err() {
        MathError::InvalidInput { .. } => {}
        _ => panic!("Expected InvalidInput error"),
    }
}

#[test]
fn test_calculate_v3_amount_out_zero_liquidity() {
    let amount_in = U256::from(1000_000_000_000_000_000u128);
    let sqrt_price_x96 = U256::from(79228162514264337593543950336u128);
    let fee_bps = BasisPoints::new_const(300);

    let result = calculate_v3_amount_out(
        amount_in,
        sqrt_price_x96,
        0,
        fee_bps,
        SwapDirection::Token0ToToken1,
    );

    assert!(result.is_err());
    match result.unwrap_err() {
        MathError::InvalidInput { .. } => {}
        _ => panic!("Expected InvalidInput error"),
    }
}

#[test]
fn test_calculate_v3_amount_out_direction_consistency() {
    let original_amount = U256::from(1000_000_000_000_000_000u128);
    let sqrt_price_x96 = U256::from(79228162514264337593543950336u128);
    let liquidity = 10_000_000_000_000_000_000_000u128;
    let fee_bps = BasisPoints::new_const(300);

    let token1_received = calculate_v3_amount_out(
        original_amount,
        sqrt_price_x96,
        liquidity,
        fee_bps,
        SwapDirection::Token0ToToken1,
    )
    .unwrap();

    assert!(token1_received > U256_ZERO);

    let token0_received = calculate_v3_amount_out(
        token1_received,
        sqrt_price_x96,
        liquidity,
        fee_bps,
        SwapDirection::Token1ToToken0,
    )
    .unwrap();

    let _min_expected = original_amount * U256::from(9900u64) / BPS_DENOM;
    assert!(token0_received < original_amount);
}

#[test]
fn test_calculate_v3_post_swap_state_token0_to_token1() {
    let frontrun_amount = U256::from(1000_000_000_000_000_000u128);
    let sqrt_price_x96 = U256::from(79228162514264337593543950336u128);
    let liquidity = 1_000_000_000_000_000_000_000u128;
    let tick = 0;
    let fee_bps = BasisPoints::new_const(300);

    let (new_sqrt_price, new_tick) = calculate_v3_post_swap_state(
        frontrun_amount,
        sqrt_price_x96,
        liquidity,
        fee_bps,
        SwapDirection::Token0ToToken1,
    )
    .unwrap();

    assert!(new_sqrt_price < sqrt_price_x96);
    assert!(new_sqrt_price > U256_ZERO);
    assert!(new_tick <= tick);
}

#[test]
fn test_calculate_v3_post_swap_state_token1_to_token0() {
    let frontrun_amount = U256::from(1000_000_000_000_000_000u128);
    let sqrt_price_x96 = U256::from(79228162514264337593543950336u128);
    let liquidity = 1_000_000_000_000_000_000_000u128;
    let tick = 0;
    let fee_bps = BasisPoints::new_const(300);

    let (new_sqrt_price, new_tick) = calculate_v3_post_swap_state(
        frontrun_amount,
        sqrt_price_x96,
        liquidity,
        fee_bps,
        SwapDirection::Token1ToToken0,
    )
    .unwrap();

    assert!(new_sqrt_price > sqrt_price_x96);
    assert!(new_tick >= tick);
}

#[test]
fn test_calculate_v3_post_swap_state_consistency_with_amount_out() {
    let frontrun_amount = U256::from(1000_000_000_000_000_000u128);
    let sqrt_price_x96 = U256::from(79228162514264337593543950336u128);
    let liquidity = 1_000_000_000_000_000_000_000u128;
    let fee_bps = BasisPoints::new_const(300);

    let (new_sqrt_price_from_state, _) = calculate_v3_post_swap_state(
        frontrun_amount,
        sqrt_price_x96,
        liquidity,
        fee_bps,
        SwapDirection::Token0ToToken1,
    )
    .unwrap();

    let amount_out = calculate_v3_amount_out(
        frontrun_amount,
        sqrt_price_x96,
        liquidity,
        fee_bps,
        SwapDirection::Token0ToToken1,
    )
    .unwrap();

    assert!(amount_out > U256_ZERO);

    assert!(new_sqrt_price_from_state > U256_ZERO);
    assert!(new_sqrt_price_from_state < sqrt_price_x96);
}

#[test]
fn test_calculate_v3_post_swap_state_zero_input() {
    let sqrt_price_x96 = U256::from(79228162514264337593543950336u128);
    let liquidity = 1_000_000_000_000_000_000_000u128;
    let fee_bps = BasisPoints::new_const(300);

    let result = calculate_v3_post_swap_state(
        U256_ZERO,
        sqrt_price_x96,
        liquidity,
        fee_bps,
        SwapDirection::Token0ToToken1,
    );

    assert!(result.is_err());
    match result.unwrap_err() {
        MathError::InvalidInput { .. } => {}
        _ => panic!("Expected InvalidInput error"),
    }
}

#[test]
fn test_calculate_v3_post_swap_state_zero_liquidity() {
    let frontrun_amount = U256::from(1000_000_000_000_000_000u128);
    let sqrt_price_x96 = U256::from(79228162514264337593543950336u128);
    let fee_bps = BasisPoints::new_const(300);

    let result = calculate_v3_post_swap_state(
        frontrun_amount,
        sqrt_price_x96,
        0,
        fee_bps,
        SwapDirection::Token0ToToken1,
    );

    assert!(result.is_err());
    match result.unwrap_err() {
        MathError::InvalidInput { .. } => {}
        _ => panic!("Expected InvalidInput error"),
    }
}

#[test]
fn test_calculate_v3_post_swap_state_tick_calculation() {
    let frontrun_amount = U256::from(1000_000_000_000_000_000u128);
    let sqrt_price_x96 = U256::from(79228162514264337593543950336u128);
    let liquidity = 1_000_000_000_000_000_000_000u128;
    let fee_bps = BasisPoints::new_const(300);

    let (new_sqrt_price, new_tick) = calculate_v3_post_swap_state(
        frontrun_amount,
        sqrt_price_x96,
        liquidity,
        fee_bps,
        SwapDirection::Token0ToToken1,
    )
    .unwrap();

    let expected_tick = sqrt_price_to_tick(new_sqrt_price).unwrap();
    assert_eq!(
        new_tick, expected_tick,
        "new_tick {} should exactly match sqrt_price_to_tick result {}",
        new_tick, expected_tick
    );
}

#[test]
fn test_sqrt_price_to_tick_newton_method_correctness() {

    let sqrt_price_0 = U256::from(79228162514264337593543950336u128);
    let tick_0 = sqrt_price_to_tick(sqrt_price_0).unwrap();
    assert_eq!(tick_0, 0);
    let calculated_sqrt_0 = get_sqrt_ratio_at_tick(tick_0).unwrap();
    assert_eq!(calculated_sqrt_0, sqrt_price_0);

    let sqrt_price_min = U256::from(MIN_SQRT_RATIO);
    let tick_min = sqrt_price_to_tick(sqrt_price_min).unwrap();
    assert_eq!(tick_min, MIN_TICK);
    let calculated_sqrt_min = get_sqrt_ratio_at_tick(tick_min).unwrap();
    assert_eq!(calculated_sqrt_min, sqrt_price_min);

    let sqrt_price_max = uniswap_v3_math::tick_math::MAX_SQRT_RATIO;
    let tick_max = sqrt_price_to_tick(sqrt_price_max).unwrap();
    assert_eq!(tick_max, MAX_TICK);

    for test_tick in [1, 10, 100, 1000, 10000, 100000] {
        let sqrt_price = get_sqrt_ratio_at_tick(test_tick).unwrap();
        let calculated_tick = sqrt_price_to_tick(sqrt_price).unwrap();
        assert_eq!(
            calculated_tick, test_tick,
            "Tick mismatch: expected {}, got {} for sqrt_price={}",
            test_tick, calculated_tick, sqrt_price
        );
        let calculated_sqrt = get_sqrt_ratio_at_tick(calculated_tick).unwrap();
        let diff = if calculated_sqrt >= sqrt_price {
            calculated_sqrt - sqrt_price
        } else {
            sqrt_price - calculated_sqrt
        };
        assert!(
            diff < sqrt_price / U256::from(1_000_000u64),
            "Sqrt price mismatch: expected {}, got {} (diff={})",
            sqrt_price,
            calculated_sqrt,
            diff
        );
    }

    for test_tick in [-1, -10, -100, -1000, -10000, -100000] {
        let sqrt_price = get_sqrt_ratio_at_tick(test_tick).unwrap();
        let calculated_tick = sqrt_price_to_tick(sqrt_price).unwrap();
        assert_eq!(
            calculated_tick, test_tick,
            "Tick mismatch: expected {}, got {} for sqrt_price={}",
            test_tick, calculated_tick, sqrt_price
        );
    }
}

#[test]
fn test_sqrt_price_to_tick_newton_method_convergence() {
    let sqrt_price = U256::from(79228162514264337593543950336u128);
    let result = sqrt_price_to_tick(sqrt_price);
    assert!(result.is_ok());
    assert_eq!(result.unwrap(), 0);

    let test_cases = vec![
        (U256::from(79228162514264337593543950336u128), 0),
        (U256::from(MIN_SQRT_RATIO), MIN_TICK),
        (uniswap_v3_math::tick_math::MAX_SQRT_RATIO, MAX_TICK),
    ];

    for (sqrt_price, expected_tick) in test_cases {
        let result = sqrt_price_to_tick(sqrt_price);
        assert!(
            result.is_ok(),
            "sqrt_price_to_tick failed for sqrt_price={}",
            sqrt_price
        );
        let tick = result.unwrap();
        assert_eq!(
            tick, expected_tick,
            "Tick mismatch for sqrt_price={}",
            sqrt_price
        );
    }
}

#[test]
fn test_sqrt_price_to_tick_newton_method_edge_cases() {
    let sqrt_price_0 = U256::from(79228162514264337593543950336u128);
    let tick_0 = sqrt_price_to_tick(sqrt_price_0).unwrap();
    assert_eq!(tick_0, 0);

    let sqrt_price_min_plus = U256::from(MIN_SQRT_RATIO)
        .checked_add(U256::from(1u64))
        .unwrap();
    let tick_min_plus = sqrt_price_to_tick(sqrt_price_min_plus).unwrap();
    assert!(tick_min_plus >= MIN_TICK);
    assert!(tick_min_plus <= MIN_TICK + 10);

    let sqrt_price_max_minus = uniswap_v3_math::tick_math::MAX_SQRT_RATIO.checked_sub(U256::from(1u64)).unwrap();
    let tick_max_minus = sqrt_price_to_tick(sqrt_price_max_minus).unwrap();
    assert!(tick_max_minus >= MAX_TICK - 10);
    assert!(tick_max_minus <= MAX_TICK);
}

#[test]
fn test_sqrt_price_to_tick_newton_method_roundtrip() {
    let test_ticks = vec![
        0, MIN_TICK, MAX_TICK, 1, -1, 100, -100, 1000, -1000, 10000, -10000,
    ];

    for original_tick in test_ticks {
        let sqrt_price = get_sqrt_ratio_at_tick(original_tick).unwrap();
        let calculated_tick = sqrt_price_to_tick(sqrt_price).unwrap();

        assert_eq!(
            calculated_tick, original_tick,
            "Roundtrip failed: original_tick={}, calculated_tick={}, sqrt_price={}",
            original_tick, calculated_tick, sqrt_price
        );

        let calculated_sqrt = get_sqrt_ratio_at_tick(calculated_tick).unwrap();
        let diff = if calculated_sqrt >= sqrt_price {
            calculated_sqrt - sqrt_price
        } else {
            sqrt_price - calculated_sqrt
        };
        assert!(
            diff < sqrt_price / U256::from(1_000_000u64),
            "Sqrt price mismatch in roundtrip: original_tick={}, calculated_tick={}, original_sqrt={}, calculated_sqrt={}, diff={}",
            original_tick, calculated_tick, sqrt_price, calculated_sqrt, diff
        );
    }
}

#[test]
fn test_sqrt_price_to_tick_newton_method_fallback() {
    let sqrt_price = U256::from(79228162514264337593543950336u128);
    let result = sqrt_price_to_tick(sqrt_price);
    assert!(result.is_ok());
    let tick = result.unwrap();
    assert!(tick >= MIN_TICK);
    assert!(tick <= MAX_TICK);

    let calculated_sqrt = get_sqrt_ratio_at_tick(tick).unwrap();
    let diff = if calculated_sqrt >= sqrt_price {
        calculated_sqrt - sqrt_price
    } else {
        sqrt_price - calculated_sqrt
    };
    assert!(diff < sqrt_price / U256::from(1_000_000u64));
}

#[test]
fn test_get_amount0_delta_rounding() {
    let sqrt_a = U256::from(79228162514264337593543950336u128);
    let sqrt_b = U256::from(79236108205323166380068368726u128);
    let liquidity = 1000000u128;

    let round_down = get_amount0_delta(sqrt_a, sqrt_b, liquidity, false).unwrap();
    let round_up = get_amount0_delta(sqrt_a, sqrt_b, liquidity, true).unwrap();

    assert!(round_up >= round_down, "round_up ({}) should be >= round_down ({})", round_up, round_down);
    
    if round_up != round_down {
        let diff = round_up - round_down;
        assert!(diff <= U256::from(2u64), "round_up ({}) should be at most 2 more than round_down ({})", round_up, round_down);
        assert!(diff >= U256::from(1u64), "round_up ({}) should be at least 1 more than round_down ({})", round_up, round_down);
    }
}

#[test]
fn test_get_amount1_delta_rounding() {
    let sqrt_a = U256::from(79228162514264337593543950336u128);
    let sqrt_b = U256::from(79236108205323166380068368726u128);
    let liquidity = 1000000u128;

    let round_down = get_amount1_delta(sqrt_a, sqrt_b, liquidity, false).unwrap();
    let round_up = get_amount1_delta(sqrt_a, sqrt_b, liquidity, true).unwrap();

    assert!(round_up >= round_down, "round_up ({}) should be >= round_down ({})", round_up, round_down);
    
    if round_up != round_down {
        assert_eq!(round_up, round_down + U256::from(1u64), "round_up should be exactly 1 more than round_down");
    }
}

#[test]
fn test_sqrt_price_to_tick_strict_flooring() {
    let tick_0_sqrt = U256::from(79228162514264337593543950336u128);
    let tick_1_sqrt = get_sqrt_ratio_at_tick(1).unwrap();
    
    let tick = sqrt_price_to_tick(tick_0_sqrt).unwrap();
    assert_eq!(tick, 0, "Price at tick 0 should return tick 0");
    
    let just_below_tick_1 = tick_1_sqrt - U256::from(1u64);
    let tick = sqrt_price_to_tick(just_below_tick_1).unwrap();
    assert_eq!(tick, 0, "Price just below tick 1 should return tick 0 (flooring)");
    
    let tick = sqrt_price_to_tick(tick_1_sqrt).unwrap();
    assert_eq!(tick, 1, "Price at tick 1 should return tick 1");
}

#[test]
fn test_calculate_v3_amount_out_different_prices() {
    let amount_in = U256::from(1000_000_000_000_000_000u128);
    let liquidity = 1_000_000_000_000_000_000_000u128;
    let fee_bps = BasisPoints::new_const(300);

    let prices = vec![
        get_sqrt_ratio_at_tick(-50000).unwrap(),
        U256::from(79228162514264337593543950336u128),
        get_sqrt_ratio_at_tick(50000).unwrap(),
    ];

    for sqrt_price in prices {
        let result0to1 = calculate_v3_amount_out(
            amount_in,
            sqrt_price,
            liquidity,
            fee_bps,
            SwapDirection::Token0ToToken1,
        );
        assert!(
            result0to1.is_ok(),
            "Token0ToToken1 failed at sqrt_price={}: {:?}",
            sqrt_price,
            result0to1
        );
        assert!(
            result0to1.unwrap() > U256_ZERO,
            "Token0ToToken1 returned zero at sqrt_price={}",
            sqrt_price
        );

        let result1to0 = calculate_v3_amount_out(
            amount_in,
            sqrt_price,
            liquidity,
            fee_bps,
            SwapDirection::Token1ToToken0,
        );
        assert!(
            result1to0.is_ok(),
            "Token1ToToken0 failed at sqrt_price={}: {:?}",
            sqrt_price,
            result1to0
        );
        assert!(
            result1to0.unwrap() > U256_ZERO,
            "Token1ToToken0 returned zero at sqrt_price={}",
            sqrt_price
        );
    }
}

#[test]
fn test_calculate_v3_post_swap_state_tick_delta() {
    let frontrun_amount = U256::from(1000_000_000_000_000_000u128);
    let sqrt_price_x96 = U256::from(79228162514264337593543950336u128);
    let liquidity = 1_000_000_000_000_000_000_000u128;
    let tick = 0;
    let fee_bps = BasisPoints::new_const(300);

    let (new_sqrt_price, new_tick) = calculate_v3_post_swap_state(
        frontrun_amount,
        sqrt_price_x96,
        liquidity,
        fee_bps,
        SwapDirection::Token0ToToken1,
    )
    .unwrap();

    assert!(
        new_tick <= tick,
        "Token0ToToken1: new_tick {} should be <= tick {}",
        new_tick,
        tick
    );
    assert!(
        new_tick >= tick - 100,
        "new_tick {} too far from tick {}",
        new_tick,
        tick
    );

    assert!(
        new_sqrt_price < sqrt_price_x96,
        "Token0ToToken1: sqrt_price should decrease"
    );

    let (new_sqrt_price2, new_tick2) = calculate_v3_post_swap_state(
        frontrun_amount,
        sqrt_price_x96,
        liquidity,
        fee_bps,
        SwapDirection::Token1ToToken0,
    )
    .unwrap();

    assert!(
        new_tick2 >= tick,
        "Token1ToToken0: new_tick {} should be >= tick {}",
        new_tick2,
        tick
    );
    assert!(
        new_tick2 <= tick + 100,
        "new_tick {} too far from tick {}",
        new_tick2,
        tick
    );

    assert!(
        new_sqrt_price2 > sqrt_price_x96,
        "Token1ToToken0: sqrt_price should increase"
    );
}

#[test]
fn test_calculate_v3_post_swap_state_stays_on_tick_until_boundary() {
    let sqrt_price_x96 = U256::from(79228162514264337593543950336u128);
    let liquidity = 1_000_000_000_000_000_000_000_000u128;
    let tick = 0;
    let fee_bps = BasisPoints::new_const(300);

    let very_small_amount = U256::from(1_000_000_000u128);
    let (new_sqrt_price, new_tick) = calculate_v3_post_swap_state(
        very_small_amount,
        sqrt_price_x96,
        liquidity,
        fee_bps,
        SwapDirection::Token0ToToken1,
    )
    .unwrap();

    assert!(
        new_tick <= tick,
        "Token0ToToken1: tick should decrease or stay same"
    );
    assert!(
        new_tick >= tick - 1,
        "tick should not move more than 1 for tiny swap"
    );

    assert!(
        new_sqrt_price < sqrt_price_x96,
        "Token0ToToken1: sqrt_price should decrease"
    );
}

#[test]
fn test_reserves_to_sqrt_price_x96_identity_ratio() {
    let reserve_in = U256::from(1_000_000_000_000_000_000u128);
    let reserve_out = U256::from(1_000_000_000_000_000_000u128);
    let sqrt = reserves_to_sqrt_price_x96(reserve_in, reserve_out).unwrap();
    assert_eq!(sqrt, Q96);
}

#[test]
fn test_v3_price_impact_from_sqrt_prices() {
    let before = U256::from(79228162514264337593543950336u128);
    let after = U256::from(79623317895830914510639640423u128);
    let impact = calculate_v3_price_impact(before, after).unwrap();
    assert!(impact > 0);
    assert!(impact <= 10_000);
}
