//! The StableSwap invariant, its solutions and the number functions behind them.

use alloy_primitives::U256;
use dex_math_core::base::error::MathError;
use dex_math_core::data::curve_registry::StableswapMathVariant;
use dex_math_core::dex::curve::math;
use dex_math_core::u256::U256 as Wide;

const ZERO: U256 = U256::ZERO;
const ONE: U256 = U256::from_limbs([1, 0, 0, 0]);
const TWO: U256 = U256::from_limbs([2, 0, 0, 0]);
const THREE: U256 = U256::from_limbs([3, 0, 0, 0]);
const FOUR: U256 = U256::from_limbs([4, 0, 0, 0]);
const WAD: U256 = U256::from_limbs([1_000_000_000_000_000_000, 0, 0, 0]);
const BPS_DENOM: U256 = U256::from_limbs([10_000, 0, 0, 0]);
const CURVE_PRECISION: U256 = U256::from_limbs([1_000_000_000_000_000_000, 0, 0, 0]);
const CURVE_FEE_DENOMINATOR: U256 = U256::from_limbs([10_000_000_000, 0, 0, 0]);

/// The library's number for one of `alloy_primitives`.
fn wide(v: U256) -> Wide {
    let w = v.into_limbs();
    Wide::from_limbs(w[0], w[1], w[2], w[3])
}

/// The number of `alloy_primitives` for one of the library.
fn plain(v: Wide) -> U256 {
    U256::from_limbs([v.l0, v.l1, v.l2, v.l3])
}

fn wides(v: &[U256]) -> Vec<Wide> {
    v.iter().map(|n| wide(*n)).collect()
}

fn plains(v: Vec<Wide>) -> Vec<U256> {
    v.into_iter().map(plain).collect()
}

fn calculate_d(
    balances: &[U256],
    a: U256,
    n: usize,
    variant: StableswapMathVariant,
) -> Result<U256, MathError> {
    math::calculate_d(&wides(balances), wide(a), n, variant).map(plain)
}

fn calculate_y(
    i: usize,
    j: usize,
    x: U256,
    xp: &[U256],
    a: U256,
    d: U256,
) -> Result<U256, MathError> {
    math::calculate_y(i, j, wide(x), &wides(xp), wide(a), wide(d)).map(plain)
}

fn calculate_dy(
    i: usize,
    j: usize,
    dx: U256,
    xp: &[U256],
    rates: &[U256],
    variant: StableswapMathVariant,
    a: U256,
    fee_raw: U256,
    fee_bps: u32,
) -> Result<U256, MathError> {
    math::calculate_dy(
        i,
        j,
        wide(dx),
        &wides(xp),
        &wides(rates),
        variant,
        wide(a),
        wide(fee_raw),
        fee_bps,
    )
    .map(plain)
}

fn stableswap_rates_resolve(decimals: &[u8], _stored: Option<&[U256]>) -> Result<Vec<U256>, MathError> {
    math::stableswap_rates_resolve(decimals, None).map(plains)
}

fn stableswap_xp_from_balances(balances: &[U256], decimals: &[u8]) -> Result<Vec<U256>, MathError> {
    math::stableswap_xp_from_balances(&wides(balances), decimals).map(plains)
}

fn stableswap_rate_for_decimals(decimals: u8) -> Result<U256, MathError> {
    math::stableswap_rate_for_decimals(decimals).map(plain)
}

fn curve_fee_raw_from_bps(fee_bps: u32) -> U256 {
    plain(math::curve_fee_raw_from_bps(fee_bps))
}

fn pow_u256(base: U256, exp: usize) -> Result<U256, MathError> {
    math::pow_u256(wide(base), exp).map(plain)
}

fn sqrt_u256(x: U256) -> Result<U256, MathError> {
    math::sqrt_u256(wide(x)).map(plain)
}

#[test]
fn test_calculate_d_simple() {
    let balances = vec![
        U256::from(1000000000000000000000u128),
        U256::from(1000000000000000000000u128),
    ];
    let a = U256::from(100);
    let n = 2;

    let result = calculate_d(&balances, a, n, StableswapMathVariant::Vyper02ThreePool);
    assert!(result.is_ok(), "D calculation should succeed");

    let d = result.unwrap();
    assert!(d > ZERO, "Invariant D should be positive");
    assert!(
        d >= U256::from(1900000000000000000000u128),
        "D should be close to 2 * balance"
    );
    assert!(
        d <= U256::from(2100000000000000000000u128),
        "D should be close to 2 * balance"
    );
}

#[test]
fn test_calculate_d_3_token() {
    let balances = vec![
        U256::from(1000000000000000000000u128),
        U256::from(1000000000000000000000u128),
        U256::from(1000000000000000000000u128),
    ];
    let a = U256::from(100);
    let n = 3;

    let result = calculate_d(&balances, a, n, StableswapMathVariant::Vyper02ThreePool);
    assert!(
        result.is_ok(),
        "D calculation should succeed for 3-token pool"
    );

    let d = result.unwrap();
    assert!(d > ZERO, "Invariant D should be positive");
    assert!(
        d >= U256::from(2800000000000000000000u128),
        "D should be close to 3 * balance"
    );
    assert!(
        d <= U256::from(3200000000000000000000u128),
        "D should be close to 3 * balance"
    );
}

#[test]
fn test_calculate_dy() {
    let balances = vec![
        U256::from(1000000000000000000000u128),
        U256::from(1000000000000000000000u128),
    ];
    let dec = vec![18u8, 18u8];
    let rates = stableswap_rates_resolve(&dec, None).expect("rates");
    let xp = stableswap_xp_from_balances(&balances, &dec).expect("xp");
    let a = U256::from(100);
    let dx = U256::from(1000000000000000000u64);

    let result = calculate_dy(
        0,
        1,
        dx,
        &xp,
        &rates,
        StableswapMathVariant::Vyper02ThreePool,
        a,
        U256::from(4_000_000u64),
        4,
    );
    assert!(result.is_ok(), "Swap calculation should succeed");

    let dy = result.unwrap();
    assert!(dy > ZERO, "Should receive some output tokens");
    assert!(
        dy < dx,
        "Output should be less than input due to fees/slippage"
    );
}

#[test]
fn math_test_zero_balance() {
    let balances = vec![ZERO, U256::from(1000)];
    let a = U256::from(100);
    let result = calculate_d(&balances, a, 2, StableswapMathVariant::Vyper02ThreePool);
    assert_eq!(
        result.unwrap(),
        ZERO,
        "Zero balance should result in D = 0"
    );
}

#[test]
fn test_calculate_y_2_token_simple() {
    let balances = vec![
        U256::from(1000000000000000000000u128),
        U256::from(1000000000000000000000u128),
    ];
    let a = U256::from(100);
    let dx = U256::from(1000000000000000000u64);

    let d = calculate_d(
        &balances,
        a,
        2,
        StableswapMathVariant::Vyper02ThreePool,
    )
    .unwrap();

    let mut xp_modified = balances.clone();
    xp_modified[0] = xp_modified[0] + dx;

    let result = calculate_y(0, 1, dx, &xp_modified, a, d);
    assert!(
        result.is_ok(),
        "calculate_y should succeed for 2-token pool"
    );

    let y = result.unwrap();
    assert!(y > ZERO, "y should be positive");
    assert!(y < balances[1], "y should be less than balance");
}

#[test]
fn test_calculate_y_3_token() {
    let balances = vec![
        U256::from(1000000000000000000000u128),
        U256::from(1000000000000000000000u128),
        U256::from(1000000000000000000000u128),
    ];
    let a = U256::from(100);
    let dx = U256::from(1000000000000000000u64);

    let d = calculate_d(
        &balances,
        a,
        3,
        StableswapMathVariant::Vyper02ThreePool,
    )
    .unwrap();

    let mut xp_modified = balances.clone();
    xp_modified[0] = xp_modified[0] + dx;

    let result = calculate_y(0, 1, dx, &xp_modified, a, d);
    assert!(
        result.is_ok(),
        "calculate_y should succeed for 3-token pool"
    );

    let y = result.unwrap();
    assert!(y > ZERO, "y should be positive");
    assert!(y < balances[1], "y should be less than balance");
}

#[test]
fn test_calculate_y_small_amount() {
    let balances = vec![
        U256::from(1000000000000000000000u128),
        U256::from(1000000000000000000000u128),
    ];
    let a = U256::from(100);
    let dx = U256::from(1000000000000u64);

    let d = calculate_d(
        &balances,
        a,
        2,
        StableswapMathVariant::Vyper02ThreePool,
    )
    .unwrap();
    let mut xp_modified = balances.clone();
    xp_modified[0] = xp_modified[0] + dx;

    let result = calculate_y(0, 1, dx, &xp_modified, a, d);
    assert!(
        result.is_ok(),
        "calculate_y should succeed for small amounts"
    );

    let y = result.unwrap();
    assert!(
        y > ZERO,
        "y should be positive even for small amounts"
    );
}

#[test]
fn test_calculate_y_large_amount() {
    let balances = vec![
        U256::from(1000000000000000000000u128),
        U256::from(1000000000000000000000u128),
    ];
    let a = U256::from(100);
    let dx = U256::from(100_000_000_000_000_000_000u128);

    let d = calculate_d(
        &balances,
        a,
        2,
        StableswapMathVariant::Vyper02ThreePool,
    )
    .unwrap();
    let mut xp_modified = balances.clone();
    xp_modified[0] = xp_modified[0] + dx;

    let result = calculate_y(0, 1, dx, &xp_modified, a, d);
    assert!(
        result.is_ok(),
        "calculate_y should succeed for large amounts"
    );

    let y = result.unwrap();
    assert!(y > ZERO, "y should be positive");
    assert!(
        y < balances[1],
        "y should be less than original balance (swap effect)"
    );
}

#[test]
fn test_calculate_y_consistency_with_calculate_dy() {
    let balances = vec![
        U256::from(1000000000000000000000u128),
        U256::from(1000000000000000000000u128),
    ];
    let dec = vec![18u8, 18u8];
    let rates = stableswap_rates_resolve(&dec, None).expect("rates");
    let xp = stableswap_xp_from_balances(&balances, &dec).expect("xp");
    let a = U256::from(100);
    let dx = U256::from(1000000000000000000u64);
    let fee_bps = 4u32;

    let d = calculate_d(
        &xp,
        a,
        2,
        StableswapMathVariant::Vyper02ThreePool,
    )
    .unwrap();
    let rate_j = stableswap_rate_for_decimals(18).unwrap();
    let dx_xp = dx
        .checked_mul(stableswap_rate_for_decimals(18).unwrap())
        .unwrap()
        .checked_div(CURVE_PRECISION)
        .unwrap();
    let mut xp_modified = xp.clone();
    xp_modified[0] = xp_modified[0] + dx_xp;
    let y = calculate_y(0, 1, dx_xp, &xp_modified, a, d).expect("calculate_y");

    let delta_xp = xp[1].checked_sub(y).expect("xp[1]>=y");
    assert!(delta_xp > ONE);
    let pre_fee_dy = (delta_xp - ONE)
        .checked_mul(CURVE_PRECISION)
        .unwrap()
        .checked_div(rate_j)
        .unwrap();
    let fee_amt = pre_fee_dy
        .checked_mul(curve_fee_raw_from_bps(fee_bps))
        .unwrap()
        .checked_div(CURVE_FEE_DENOMINATOR)
        .unwrap();
    let dy_from_y = pre_fee_dy.checked_sub(fee_amt).unwrap();

    let dy_calc = calculate_dy(
        0,
        1,
        dx,
        &xp,
        &rates,
        StableswapMathVariant::Vyper02ThreePool,
        a,
        U256::from(4_000_000u64),
        fee_bps,
    )
    .expect("calculate_dy");
    assert_eq!(dy_calc, dy_from_y, "get_y + Vyper rounding should match calculate_dy");
}

#[test]
fn test_pow_u256_overflow() {
    let large_base = WAD;
    let result = pow_u256(large_base, 10);
    assert!(result.is_err(), "Large power should return overflow error");

    if let Err(MathError::Overflow { .. }) = result {
    } else {
        panic!("Expected Overflow error");
    }
}

#[test]
fn test_pow_u256_normal() {
    assert_eq!(pow_u256(TWO, 8).unwrap(), U256::from(256));
    assert_eq!(pow_u256(U256::from(10), 2).unwrap(), U256::from(100));
    assert_eq!(pow_u256(U256::from(5), 0).unwrap(), ONE);
    assert_eq!(pow_u256(U256::from(7), 1).unwrap(), U256::from(7));
}

#[test]
fn test_pow_u256_edge_cases() {
    assert_eq!(pow_u256(ONE, 100).unwrap(), ONE);
    assert_eq!(pow_u256(TWO, 0).unwrap(), ONE);
    assert_eq!(pow_u256(TWO, 1).unwrap(), TWO);

    let result = pow_u256(TWO, 255);
    assert!(result.is_ok(), "2^255 should succeed");
}

#[test]
fn test_calculate_y_with_overflow_protection() {
    let large_balance = U256::from(10).pow(U256::from(30));
    let balances = vec![large_balance, large_balance];
    let dec = vec![18u8, 18u8];
    let rates = stableswap_rates_resolve(&dec, None).expect("rates");
    let xp = stableswap_xp_from_balances(&balances, &dec).expect("xp");
    let a = U256::from(100);
    let dx = U256::from(1000000000000000000u64);

    let result = calculate_dy(
        0,
        1,
        dx,
        &xp,
        &rates,
        StableswapMathVariant::Vyper02ThreePool,
        a,
        U256::from(4_000_000u64),
        4,
    );
    assert!(
        result.is_ok() || matches!(result, Err(MathError::Overflow { .. })),
        "calculate_dy should handle overflow gracefully"
    );
}

#[test]
fn test_sqrt_u256_precision() {
    let perfect_square = U256::from(1000000000000000000u128);
    let result = sqrt_u256(perfect_square);
    assert!(result.is_ok(), "sqrt should succeed for perfect square");
    let sqrt_val = result.unwrap();

    let expected = U256::from(1000000000u128);
    let diff = if sqrt_val > expected {
        sqrt_val - expected
    } else {
        expected - sqrt_val
    };

    assert!(
        diff < expected / BPS_DENOM,
        "sqrt precision should be within 0.01%"
    );
}

#[test]
fn test_sqrt_u256_convergence() {
    let large_number = U256::from(10).pow(U256::from(36));
    let result = sqrt_u256(large_number);
    assert!(result.is_ok(), "sqrt should converge for large numbers");

    let sqrt_val = result.unwrap();
    let expected = WAD;
    assert!(
        sqrt_val > expected / TWO,
        "sqrt should be reasonable"
    );
    assert!(
        sqrt_val < expected * TWO,
        "sqrt should be reasonable"
    );
}

#[test]
fn test_sqrt_u256_edge_cases() {
    assert_eq!(sqrt_u256(ZERO).unwrap(), ZERO);
    assert_eq!(sqrt_u256(ONE).unwrap(), ONE);
    assert_eq!(sqrt_u256(FOUR).unwrap(), TWO);
    assert_eq!(sqrt_u256(U256::from(9)).unwrap(), THREE);

    let very_large = U256::MAX / TWO;
    let result = sqrt_u256(very_large);
    assert!(result.is_ok(), "sqrt should handle very large numbers");
}

#[test]
fn test_sqrt_u256_used_in_calculate_y() {
    let balances = vec![
        U256::from(1000000000000000000000u128),
        U256::from(1000000000000000000000u128),
    ];
    let a = U256::from(100);
    let dx = U256::from(1000000000000000000u64);

    let d = calculate_d(
        &balances,
        a,
        2,
        StableswapMathVariant::Vyper02ThreePool,
    )
    .unwrap();
    let mut xp_modified = balances.clone();
    xp_modified[0] = xp_modified[0] + dx;

    let result = calculate_y(0, 1, dx, &xp_modified, a, d);
    assert!(
        result.is_ok(),
        "calculate_y should work with improved sqrt precision"
    );
}

#[test]
fn test_calculate_d_with_overflow_protection() {
    let large_balance = U256::from(10).pow(U256::from(30));
    let balances = vec![large_balance, large_balance, large_balance];
    let a = U256::from(100);

    let result = calculate_d(
        &balances,
        a,
        3,
        StableswapMathVariant::Vyper02ThreePool,
    );
    assert!(
        result.is_ok() || matches!(result, Err(MathError::Overflow { .. })),
        "calculate_d should handle overflow gracefully"
    );
}
