//! Exact-input quotes of Uniswap V3 pools.

use dex_math_core::base::error::DexError;
use dex_math_core::base::precision::BasisPoints;
use dex_math_core::dex::adapter::SwapDirection;
use dex_math_core::dex::uniswap_v3::adapter_math::{quote_exact_input, V3PoolSnapshot};
use dex_math_core::dex::uniswap_v3::math;
use dex_math_core::u256::U256;
use std::collections::HashMap;

#[test]
fn rejects_when_initialized_ticks_missing() {
    let pool = V3PoolSnapshot {
        sqrt_price_x96: U256::from_u128(79228162514264337593543950336),
        tick: 0,
        liquidity: 1_000_000_000_000_000_000_000u128,
        fee_bps: BasisPoints::new_const(300),
        tick_spacing: 60,
        initialized_ticks: vec![],
        tick_liquidity_net: HashMap::new(),
    };
    let err = quote_exact_input(&pool, U256::from_u128(1_000_000_000_000_000_000), SwapDirection::Token0ToToken1)
        .unwrap_err();
    match err {
        DexError::InvalidPool { reason } => {
            assert!(reason.contains("initialized_ticks"));
        }
        _ => panic!("expected InvalidPool"),
    }
}

#[test]
fn allows_single_range_fallback_when_proven_no_crossing() {
    let pool = V3PoolSnapshot {
        sqrt_price_x96: U256::from_u128(79228162514264337593543950336),
        tick: 0,
        liquidity: 1_000_000_000_000_000_000_000u128,
        fee_bps: BasisPoints::new_const(300),
        tick_spacing: 60,
        initialized_ticks: vec![-60, 0, 60],
        tick_liquidity_net: HashMap::new(),
    };
    let q = quote_exact_input(&pool, U256::from_u128(1_000_000_000), SwapDirection::Token0ToToken1).unwrap();
    assert!(q.used_single_range_fallback);
    assert!(q.amount_out > U256::zero());
    assert!(q.crossed_ticks.is_empty());
}

#[test]
fn rejects_single_range_fallback_when_crossing_possible() {
    let pool = V3PoolSnapshot {
        sqrt_price_x96: U256::from_u128(79228162514264337593543950336),
        tick: 0,
        liquidity: 1_000_000_000u128,
        fee_bps: BasisPoints::new_const(300),
        tick_spacing: 60,
        initialized_ticks: vec![-60, 0, 60],
        tick_liquidity_net: HashMap::new(),
    };
    let err = quote_exact_input(&pool, U256::from_u128(1_000_000_000_000_000_000), SwapDirection::Token0ToToken1)
        .unwrap_err();
    match err {
        DexError::InvalidPool { reason } => {
            assert!(reason.contains("fallback rejected"));
        }
        _ => panic!("expected InvalidPool"),
    }
}

#[test]
fn crosses_ticks_when_liquidity_net_available() {
    let mut liq = HashMap::new();
    liq.insert(60, 500_000_000i128);
    liq.insert(120, 0i128);
    let sqrt_59 = math::get_sqrt_ratio_at_tick(59).unwrap();
    let sqrt_60 = math::get_sqrt_ratio_at_tick(60).unwrap();
    let max_to_60 = math::get_amount1_delta(sqrt_59, sqrt_60, 1_000_000_000u128, true).unwrap();
    let pool = V3PoolSnapshot {
        sqrt_price_x96: sqrt_59,
        tick: 59,
        liquidity: 1_000_000_000u128,
        fee_bps: BasisPoints::new_const(300),
        tick_spacing: 60,
        initialized_ticks: vec![0, 60, 120],
        tick_liquidity_net: liq,
    };
    let q = quote_exact_input(&pool, max_to_60.plus(max_to_60), SwapDirection::Token1ToToken0).unwrap();
    assert!(!q.used_single_range_fallback);
    assert!(q.amount_out > U256::zero());
    assert!(!q.crossed_ticks.is_empty());
}

#[test]
fn fails_closed_if_crossed_tick_missing_liquidity_net() {
    let mut liq = HashMap::new();
    liq.insert(120, 1);
    let pool = V3PoolSnapshot {
        sqrt_price_x96: U256::from_u128(79228162514264337593543950336),
        tick: 0,
        liquidity: 1_000_000_000u128,
        fee_bps: BasisPoints::new_const(300),
        tick_spacing: 60,
        initialized_ticks: vec![-60, 0, 60, 120],
        tick_liquidity_net: liq,
    };
    let err = quote_exact_input(&pool, U256::from_u128(2_000_000_000_000_000_000), SwapDirection::Token1ToToken0)
        .unwrap_err();
    match err {
        DexError::InvalidPool { reason } => {
            assert!(reason.contains("missing liquidityNet"));
        }
        _ => panic!("expected InvalidPool"),
    }
}
