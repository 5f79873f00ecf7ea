//! Weighted-pool swaps, prices and quotes.

use dex_math_core::base::error::{DexError, MathError};
use dex_math_core::base::precision::BasisPoints;
use dex_math_core::dex::adapter::SwapDirection;
use dex_math_core::dex::balancer::adapter_math::{quote_exact_input, BalancerPoolSnapshot};
use dex_math_core::dex::balancer::math::{calculate_balancer_price, calculate_swap_output};
use dex_math_core::u256::U256;

fn w(v: u64) -> U256 {
    U256::from_u64(v * 10_000_000_000_000_000)
}

#[test]
fn quote_exact_input_token0_to_token1() {
    let pool = BalancerPoolSnapshot {
        balance0: U256::from_u64(1_000_000_000),
        balance1: U256::from_u64(2_000_000_000),
        weight0: w(50),
        weight1: w(50),
        swap_fee_bps: BasisPoints::new_const(30),
    };
    let q = quote_exact_input(&pool, U256::from_u64(10_000), SwapDirection::Token0ToToken1).unwrap();
    assert!(q.amount_out > U256::zero());
    assert!(q.balance0_after > q.balance0_before);
    assert!(q.balance1_after < q.balance1_before);
}

#[test]
fn quote_exact_input_token1_to_token0() {
    let pool = BalancerPoolSnapshot {
        balance0: U256::from_u64(2_000_000_000),
        balance1: U256::from_u64(1_000_000_000),
        weight0: w(70),
        weight1: w(30),
        swap_fee_bps: BasisPoints::new_const(30),
    };
    let q = quote_exact_input(&pool, U256::from_u64(10_000), SwapDirection::Token1ToToken0).unwrap();
    assert!(q.amount_out > U256::zero());
    assert!(q.balance1_after > q.balance1_before);
    assert!(q.balance0_after < q.balance0_before);
}

#[test]
fn adapter_math_quote_exact_input_rejects_invalid_fee() {
    let pool = BalancerPoolSnapshot {
        balance0: U256::from_u64(1_000),
        balance1: U256::from_u64(1_000),
        weight0: w(50),
        weight1: w(50),
        swap_fee_bps: BasisPoints::new_const(10_000),
    };
    let err = quote_exact_input(&pool, U256::from_u64(1), SwapDirection::Token0ToToken1).unwrap_err();
    match err {
        DexError::InvalidPool { reason } => assert!(reason.contains("invalid swap_fee_bps")),
        _ => panic!("expected InvalidPool"),
    }
}

#[test]
fn weighted_quote_rejects_zero_amount() {
    let pool = BalancerPoolSnapshot {
        balance0: U256::from_u64(1_000),
        balance1: U256::from_u64(1_000),
        weight0: w(50),
        weight1: w(50),
        swap_fee_bps: BasisPoints::new_const(30),
    };
    let err = quote_exact_input(&pool, U256::zero(), SwapDirection::Token0ToToken1).unwrap_err();
    match err {
        DexError::MathError(MathError::InvalidInput { .. }) => {}
        _ => panic!("expected MathError::InvalidInput"),
    }
}

#[test]
fn test_calculate_swap_output_basic() {
    let weight_50 = U256::from_u64(500_000_000_000_000_000);

    let amount_in = U256::from_u64(1000000);
    let balance_in = U256::from_u64(1000000000000);
    let balance_out = U256::from_u128(1000000000000000000000);
    let swap_fee = U256::from_u64(3_000_000_000_000_000);

    let result = calculate_swap_output(
        amount_in,
        balance_in,
        balance_out,
        weight_50,
        weight_50,
        swap_fee,
    );

    assert!(result.is_ok(), "Swap calculation should succeed");
    let amount_out = result.unwrap();
    assert!(
        amount_out > U256::zero(),
        "Should receive some output tokens"
    );
}

#[test]
fn test_calculate_balancer_price() {
    let balance_in = U256::from_u64(1000000);
    let balance_out = U256::from_u64(1000000);
    let weight_in = U256::from_u64(500_000_000_000_000_000);
    let weight_out = U256::from_u64(500_000_000_000_000_000);

    let result = calculate_balancer_price(balance_in, balance_out, weight_in, weight_out);
    assert!(result.is_ok(), "Price calculation should succeed");

    let price = result.unwrap();
    assert!(
        price > U256::from_u64(900_000_000_000_000_000),
        "Price should be close to 1"
    );
    assert!(
        price < U256::from_u64(1_100_000_000_000_000_000),
        "Price should be close to 1"
    );
}

#[test]
fn test_zero_input() {
    let result = calculate_swap_output(
        U256::zero(),
        U256::from_u64(1000),
        U256::from_u64(1000),
        U256::from_u64(500_000_000_000_000_000),
        U256::from_u64(500_000_000_000_000_000),
        U256::zero(),
    );
    assert_eq!(
        result.unwrap(),
        U256::zero(),
        "Zero input should return zero output"
    );
}

#[test]
fn test_zero_balance() {
    let result = calculate_swap_output(
        U256::from_u64(100),
        U256::zero(),
        U256::from_u64(1000),
        U256::from_u64(500_000_000_000_000_000),
        U256::from_u64(500_000_000_000_000_000),
        U256::zero(),
    );
    assert!(result.is_err(), "Zero balance should return error");
}
