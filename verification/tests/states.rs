//! Basis points, execution prices, the states of pools and the registry of Curve pools.

use dex_math_core::base::precision::{mul_basis_points, BasisPoints};
use dex_math_core::base::types::Address;
use dex_math_core::data::curve_registry::{decode_curve_fee_bps, CurveFeeEncoding};
use dex_math_core::data::kyber_pool_state::KyberPoolStateManager;
use dex_math_core::data::pool_state::{V2PoolState, V3PoolState, V4PoolState};
use dex_math_core::dex::adapter::{calculate_execution_price, SwapDirection};
use dex_math_core::u256::U256;

#[test]
fn test_basis_points() {
    assert!(BasisPoints::new(100).is_ok());
    assert!(BasisPoints::new(10001).is_err());
}

#[test]
fn test_mul_basis_points() {
    let amount = U256::from_u64(1000);
    let bps = BasisPoints::one_percent();
    let result = mul_basis_points(amount, bps).unwrap();
    assert_eq!(result, U256::from_u64(10));
}

#[test]
fn decode_fee_4bps_from_4e6() {
    let bps = decode_curve_fee_bps(U256::from_u64(4_000_000), CurveFeeEncoding::CurveFee1e10)
        .expect("bps");
    assert_eq!(bps, 4);
}

fn address(n: u64) -> Address {
    Address::from_low_u64_be(n)
}

#[test]
fn test_pool_initialization() {
    let mut manager = KyberPoolStateManager::new();
    let pool_addr = address(71);
    let initial_price = U256::from_u128(1 << 96);
    let initial_liq = 1000000u128;
    manager
        .initialize_pool(pool_addr, address(72), address(73), 25, initial_price, initial_liq)
        .unwrap();
    assert!(manager.is_pool_tracked(pool_addr));
    let state = manager.get_pool_state(pool_addr).unwrap();
    assert_eq!(state.sqrt_price_x96, initial_price);
    assert_eq!(state.current_tick, 0);
    assert_eq!(state.liquidity, initial_liq);
    let root = state.sqrt_price_x96.to_u128().unwrap() as f64 / (1u128 << 96) as f64;
    let price = root * root;
    assert!((price - 1.0).abs() < 0.001);
}

#[test]
fn test_mint_burn_operations() {
    let mut manager = KyberPoolStateManager::new();
    let pool_addr = address(71);
    let initial_price = U256::from_u128(1 << 96);
    let initial_liq = 1000000u128;
    manager
        .initialize_pool(pool_addr, address(72), address(73), 25, initial_price, initial_liq)
        .unwrap();
    manager.process_mint_event(pool_addr, -100, 100, 500000).unwrap();
    manager.process_burn_event(pool_addr, -100, 100, 250000).unwrap();
    assert!(manager.is_pool_tracked(pool_addr));
}

#[test]
fn test_v2_pool_state() {
    let mut pool = V2PoolState::new(Address::zero(), address(1), address(2));
    pool.update_reserves(U256::from_u64(1000), U256::from_u64(2000), 100);
    assert_eq!(pool.reserve0, U256::from_u64(1000));
    assert_eq!(pool.reserve1, U256::from_u64(2000));
    assert_eq!(pool.last_update_block, 100);
}

#[test]
fn test_v3_pool_state() {
    let mut pool = V3PoolState::new(Address::zero(), address(1), address(2), 3000);
    pool.update_state(1000000, U256::from_u128(79228162514264337593543950336), 0, 100);
    assert_eq!(pool.liquidity, 1000000);
    assert_eq!(pool.tick, 0);
    assert_eq!(pool.last_update_block, 100);
}

#[test]
fn test_v4_pool_state() {
    let mut pool = V4PoolState::new(Address::zero(), address(1), address(2), 30, 60);
    pool.update_state(777_777, U256::from_u128(79228162514264337593543950336), -12, 321);
    assert_eq!(pool.liquidity, 777_777);
    assert_eq!(pool.tick, -12);
    assert_eq!(pool.last_update_block, 321);
    assert!(!pool.hooks_enabled);
    assert!(!pool.dynamic_fee_enabled);
}

#[test]
fn test_execution_price_calculation() {
    let amount_in = U256::from_u64(1000);
    let amount_out = U256::from_u64(2000);
    let price = calculate_execution_price(amount_in, amount_out, SwapDirection::Token0ToToken1)
        .unwrap();
    assert_eq!(price, U256::from_u64(2_000_000_000_000_000_000));
}
