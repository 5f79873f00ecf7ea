//! Quotes against the outside implementations, over drawn pools.

use dex_math_core::parity::{
    case_pool, case_snapshot, draw_case, parity_sweep, quote_case, ParityCase,
};
use dex_math_core::u256::U256;
use hydra_amm::config::HybridConfig;
use hydra_amm::domain::{
    Amount, BasisPoints, Decimals, FeeTier, SwapSpec, Token, TokenAddress, TokenPair,
};
use hydra_amm::pools::HybridPool;
use hydra_amm::traits::{FromConfig, SwapPool};

#[test]
fn drawn_cases_are_in_range() {
    let mut seed = 0xC0FFEE_u64;
    for _ in 0..500 {
        let case = draw_case(&mut seed);
        assert!(case.reserve0 > 1_000_000 && case.reserve0 < 4_000_001_000_000);
        assert!(case.reserve1 > 1_000_000 && case.reserve1 < 4_000_001_000_000);
        assert!(case.amp > 10 && case.amp < 3_510);
        assert!(case.amount >= 1 && case.amount < (case.reserve0 / 200).max(1_000));
    }
}

#[test]
fn cases_are_quoted_by_all_sources() {
    let case = ParityCase {
        reserve0: 1_000_000_000_000,
        reserve1: 1_000_000_000_000,
        amp: 1_000,
        amount: 1_000_000,
    };
    let out = quote_case(&case).unwrap();
    assert_eq!(out.ours, case_pool(&case).get_amount_out(0, 1, U256::from_u64(1_000_000)).unwrap());
    assert_eq!(out.ours, out.curve);

    let decimals = Decimals::new(18).unwrap();
    let a = Token::new(TokenAddress::from_bytes([7; 32]), decimals);
    let b = Token::new(TokenAddress::from_bytes([8; 32]), decimals);
    let config = HybridConfig::new(
        TokenPair::new(a, b).unwrap(),
        FeeTier::new(BasisPoints::new(4)),
        1_000,
        Amount::new(1_000_000_000_000),
        Amount::new(1_000_000_000_000),
    )
    .unwrap();
    let mut pool = HybridPool::from_config(&config).unwrap();
    let spec = SwapSpec::exact_in(Amount::new(1_000_000)).unwrap();
    let swapped = pool.swap(spec, a).unwrap().amount_out().get();
    assert_eq!(out.hybrid, U256::from_u128(swapped));
    assert_eq!(case_snapshot(&case).balances[0], U256::from_u64(1_000_000_000_000));
}

#[test]
fn refused_cases_have_no_outputs() {
    let case = ParityCase { reserve0: 1_000, reserve1: 1_000, amp: 100, amount: 0 };
    assert!(quote_case(&case).is_none());
    let case = ParityCase { reserve0: 1_000, reserve1: 1_000, amp: 10_001, amount: 10 };
    assert!(quote_case(&case).is_none());
}

#[test]
fn sweeps_tally_what_agrees() {
    let mut seed = 0xC0FFEE_u64;
    let (curve, hybrid) = parity_sweep(&mut seed, 1_000).unwrap();
    assert_eq!((curve.exact, curve.total), (1_000, 1_000));
    assert_eq!((hybrid.exact, hybrid.total), (127, 1_000));
    assert_eq!(curve.max_diff, U256::zero());
    assert_eq!(hybrid.max_diff, U256::from_u64(403_029));
}
