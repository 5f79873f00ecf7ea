//! Swap steps, ticks and quotes of Kyber Elastic.

use dex_math_core::base::error::DexError;
use dex_math_core::base::precision::BasisPoints;
use dex_math_core::dex::adapter::SwapDirection;
use dex_math_core::dex::kyber::adapter_math::{quote_exact_input, KyberPoolSnapshot};
use dex_math_core::dex::kyber::math::swap_math::compute_swap_step;
use dex_math_core::dex::kyber::math::tick_math;
use dex_math_core::dex::uniswap_v3::math::get_amount1_delta;
use dex_math_core::u256::U256;
use std::collections::HashMap;

fn base_snapshot() -> KyberPoolSnapshot {
    KyberPoolSnapshot {
        sqrt_price_x96: U256::from_u128(79228162514264337593543950336),
        tick: 0,
        liquidity: 1_000_000_000u128,
        fee_bps: BasisPoints::new_const(25),
        tick_spacing: 60,
        initialized_ticks: vec![-60, 0, 60, 120],
        tick_liquidity_net: HashMap::new(),
    }
}

#[test]
fn rejects_missing_initialized_ticks() {
    let mut s = base_snapshot();
    s.initialized_ticks.clear();
    let err = quote_exact_input(&s, U256::from_u64(1000), SwapDirection::Token0ToToken1).unwrap_err();
    match err {
        DexError::InvalidPool { reason } => assert!(reason.contains("initialized_ticks")),
        _ => panic!("expected InvalidPool"),
    }
}

#[test]
fn allows_fallback_when_no_crossing_proven() {
    let s = base_snapshot();
    let q = quote_exact_input(&s, U256::from_u64(1_000), SwapDirection::Token0ToToken1).unwrap();
    assert!(q.used_single_range_fallback);
    assert!(q.amount_out > U256::zero());
}

#[test]
fn rejects_fallback_when_crossing_possible() {
    let s = base_snapshot();
    let err = quote_exact_input(&s, U256::from_u128(100_000_000_000_000_000), SwapDirection::Token0ToToken1)
        .unwrap_err();
    match err {
        DexError::InvalidPool { reason } => assert!(reason.contains("fallback rejected")),
        _ => panic!("expected InvalidPool"),
    }
}

#[test]
fn crosses_ticks_when_liquidity_map_available() {
    let mut s = base_snapshot();
    s.tick_liquidity_net.insert(60, 100_000_000);
    s.tick_liquidity_net.insert(120, 0);
    s.tick_liquidity_net.insert(180, 0);
    s.tick = 59;
    s.sqrt_price_x96 = tick_math::get_sqrt_ratio_at_tick(59).unwrap();
    let sqrt_60 = tick_math::get_sqrt_ratio_at_tick(60).unwrap();
    let max_to_60 =
        get_amount1_delta(s.sqrt_price_x96, sqrt_60, s.liquidity, true).unwrap();
    let q = quote_exact_input(&s, max_to_60.plus(max_to_60), SwapDirection::Token1ToToken0).unwrap();
    assert!(!q.used_single_range_fallback);
    assert!(!q.crossed_ticks.is_empty());
    assert!(q.amount_out > U256::zero());
}

#[test]
fn exact_output_is_capped_to_requested_amount() {
    let sqrt_p = U256::from_u128(79228162514264337593543950336);
    let target = U256::from_u128(79623317895830914510639640423);
    let liquidity = 2_000_000_000_000_000_000u128;
    let fee_bps = 6;
    let requested_out = 1_000_000_000_000_000u128;

    let step = compute_swap_step(
        liquidity,
        sqrt_p,
        target,
        fee_bps,
        requested_out as i128,
        false,
        false,
    )
    .unwrap();

    let out = step.returned_amount.unsigned_abs();
    assert!(out <= requested_out);
    assert!(step.used_amount >= 0);
}

#[test]
fn exact_input_consumes_no_more_than_specified() {
    let sqrt_p = U256::from_u128(79228162514264337593543950336);
    let target = U256::from_u128(79623317895830914510639640423);
    let liquidity = 2_000_000_000_000_000_000u128;
    let fee_bps = 6;
    let specified_in = 1_000_000_000_000_000u128;

    let step = compute_swap_step(
        liquidity,
        sqrt_p,
        target,
        fee_bps,
        specified_in as i128,
        true,
        false,
    )
    .unwrap();

    assert!(step.used_amount >= 0);
    assert!((step.used_amount as u128) <= specified_in);
    assert!(step.returned_amount <= 0);
}
