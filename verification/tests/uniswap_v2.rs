//! Constant-product swaps and quotes.

use dex_math_core::base::error::{DexError, MathError};
use dex_math_core::base::precision::BasisPoints;
use dex_math_core::dex::adapter::SwapDirection;
use dex_math_core::dex::uniswap_v2::adapter_math::{quote_exact_input, V2PoolSnapshot};
use dex_math_core::dex::uniswap_v2::math::calculate_v2_amount_out;
use dex_math_core::u256::U256;

#[test]
fn test_v2_amount_out() {
    let amount_in = U256::from_u64(1_000_000);
    let reserve_in = U256::from_u64(100_000_000);
    let reserve_out = U256::from_u64(50_000_000);
    let fee_bps = BasisPoints::new(30).unwrap();

    let amount_out =
        calculate_v2_amount_out(amount_in, reserve_in, reserve_out, fee_bps).unwrap();

    assert!(amount_out > U256::zero());
    assert!(amount_out < U256::from_u64(500_000));
}

#[test]
fn test_v2_zero_amount_in() {
    let result = calculate_v2_amount_out(
        U256::zero(),
        U256::from_u64(100_000_000),
        U256::from_u64(50_000_000),
        BasisPoints::new(30).unwrap(),
    );
    assert!(result.is_err());
}

#[test]
fn test_v2_zero_reserves() {
    let result = calculate_v2_amount_out(
        U256::from_u64(1_000_000),
        U256::zero(),
        U256::from_u64(50_000_000),
        BasisPoints::new(30).unwrap(),
    );
    assert!(result.is_err());
}

#[test]
fn test_v2_matches_solidity_getamountout() {
    let amount_in = U256::from_u128(1_000_000_000_000_000_000);
    let reserve_in = U256::from_u128(100_000_000_000_000_000_000);
    let reserve_out = U256::from_u128(200_000_000_000_000_000_000);
    let fee_bps = BasisPoints::new(30).unwrap();

    let result = calculate_v2_amount_out(amount_in, reserve_in, reserve_out, fee_bps).unwrap();
    assert!(result > U256::zero());
    assert!(result < U256::from_u128(2_000_000_000_000_000_000));
}

#[test]
fn quote_exact_input_token0_to_token1_updates_reserves() {
    let pool = V2PoolSnapshot {
        reserve0: U256::from_u64(100_000_000),
        reserve1: U256::from_u64(200_000_000),
        fee_bps: BasisPoints::new_const(30),
    };
    let q = quote_exact_input(&pool, U256::from_u64(1_000_000), SwapDirection::Token0ToToken1).unwrap();
    assert!(q.amount_out > U256::zero());
    assert!(q.reserve0_after > q.reserve0_before);
    assert!(q.reserve1_after < q.reserve1_before);
    assert!(q.execution_price_wad > U256::zero());
}

#[test]
fn quote_exact_input_token1_to_token0_updates_reserves() {
    let pool = V2PoolSnapshot {
        reserve0: U256::from_u64(200_000_000),
        reserve1: U256::from_u64(100_000_000),
        fee_bps: BasisPoints::new_const(30),
    };
    let q = quote_exact_input(&pool, U256::from_u64(1_000_000), SwapDirection::Token1ToToken0).unwrap();
    assert!(q.amount_out > U256::zero());
    assert!(q.reserve1_after > q.reserve1_before);
    assert!(q.reserve0_after < q.reserve0_before);
    assert!(q.execution_price_wad > U256::zero());
}

#[test]
fn quote_exact_input_rejects_invalid_fee() {
    let pool = V2PoolSnapshot {
        reserve0: U256::from_u64(1000),
        reserve1: U256::from_u64(1000),
        fee_bps: BasisPoints::new_const(10_000),
    };
    let err = quote_exact_input(&pool, U256::from_u64(1), SwapDirection::Token0ToToken1).unwrap_err();
    match err {
        DexError::InvalidPool { reason } => assert!(reason.contains("invalid fee_bps")),
        _ => panic!("expected InvalidPool"),
    }
}

#[test]
fn quote_exact_input_rejects_zero_amount() {
    let pool = V2PoolSnapshot {
        reserve0: U256::from_u64(1000),
        reserve1: U256::from_u64(1000),
        fee_bps: BasisPoints::new_const(30),
    };
    let err = quote_exact_input(&pool, U256::zero(), SwapDirection::Token0ToToken1).unwrap_err();
    match err {
        DexError::MathError(MathError::InvalidInput { .. }) => {}
        _ => panic!("expected MathError::InvalidInput"),
    }
}
