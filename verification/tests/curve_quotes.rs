//! Exact-input quotes of Curve StableSwap pools.

use dex_math_core::base::error::{DexError, MathError};
use dex_math_core::data::curve_registry::StableswapMathVariant;
use dex_math_core::dex::curve::adapter_math::{quote_exact_input, CurvePoolSnapshot};
use dex_math_core::u256::U256;

fn sample_pool() -> CurvePoolSnapshot {
    CurvePoolSnapshot {
        balances: vec![
            U256::from_u64(1_000_000_000_000),
            U256::from_u64(1_000_000_000_000),
        ],
        decimals: vec![18, 18],
        stored_rates: None,
        variant: StableswapMathVariant::Vyper02ThreePool,
        amplification: U256::from_u64(1000),
        fee_raw: U256::zero(),
        fee_bps: 4,
    }
}

#[test]
fn quote_exact_input_basic() {
    let pool = sample_pool();
    let q = quote_exact_input(&pool, 0, 1, U256::from_u64(1_000_000)).unwrap();
    assert!(q.amount_out > U256::zero());
    assert_eq!(q.balances_after.len(), 2);
    assert!(q.execution_price_wad > U256::zero());
    assert!(q.price_impact_bps <= 10_000);
}

#[test]
fn quote_exact_input_rejects_same_token() {
    let pool = sample_pool();
    let err = quote_exact_input(&pool, 0, 0, U256::from_u64(100)).unwrap_err();
    match err {
        DexError::InvalidPool { reason } => assert!(reason.contains("must differ")),
        _ => panic!("expected InvalidPool"),
    }
}

#[test]
fn adapter_math_quote_exact_input_rejects_zero_amount() {
    let pool = sample_pool();
    let err = quote_exact_input(&pool, 0, 1, U256::zero()).unwrap_err();
    match err {
        DexError::MathError(MathError::InvalidInput { .. }) => {}
        _ => panic!("expected MathError::InvalidInput"),
    }
}
