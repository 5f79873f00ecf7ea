//! Exact values and general properties of swaps and quotes.

use dex_math_core::base::error::{DexError, MathError};
use dex_math_core::base::precision::BasisPoints;
use dex_math_core::base::types::{Address, DexType, PoolKey};
use dex_math_core::data::curve_registry::StableswapMathVariant;
use dex_math_core::data::kyber_pool_state::KyberPoolState;
use dex_math_core::data::pool_state::{
    BalancerPoolState, CurvePoolState, V2PoolState, V3PoolState,
};
use dex_math_core::data::{PoolState, PoolStateProvider};
use dex_math_core::dex::adapter::{
    calculate_execution_price, DexAdapter, SwapDirection, SwapResult,
};
use dex_math_core::dex::balancer::adapter_math as balancer;
use dex_math_core::dex::balancer::conversions::{
    map_pool_error_to_math_error, swap_fee_bps_to_18_decimal, WeightedFault,
};
use dex_math_core::dex::balancer::math::{calculate_balancer_price, calculate_swap_output};
use dex_math_core::dex::curve::adapter_math as curve;
use dex_math_core::dex::curve::math as curve_math;
use dex_math_core::dex::kyber::adapter_math as kyber;
use dex_math_core::dex::kyber::math::liq_delta_math::apply_liquidity_delta;
use dex_math_core::dex::kyber::math::swap_math::{calc_reach_amount, compute_swap_step, settle_step};
use dex_math_core::dex::kyber::math::tick_math;
use dex_math_core::dex::pricing::price_impact;
use dex_math_core::dex::uniswap_v2::adapter_math as v2;
use dex_math_core::dex::uniswap_v2::math::calculate_v2_amount_out;
use dex_math_core::dex::uniswap_v3::adapter_math as v3;
use dex_math_core::dex::uniswap_v3::math as v3_math;
use dex_math_core::dex::uniswap_v4::adapter_math as v4;
use dex_math_core::dex::uniswap_v4::hooks::V4HookMode;
use dex_math_core::u256::U256;
use std::collections::HashMap;

const ONE: u128 = 79228162514264337593543950336;
const WAD: u128 = 1_000_000_000_000_000_000;

fn n(v: u128) -> U256 {
    U256::from_u128(v)
}

fn bps(v: u32) -> BasisPoints {
    BasisPoints::new(v).unwrap()
}

fn product(a: U256, b: U256) -> U256 {
    v3_math::mul_div(a, b, n(1)).unwrap()
}

fn pool_reason(e: DexError) -> String {
    match e {
        DexError::InvalidPool { reason } => reason,
        _ => panic!("expected InvalidPool"),
    }
}

#[test]
fn constant_product_outputs_are_exact() {
    let out = calculate_v2_amount_out(n(1_000_000), n(100_000_000), n(50_000_000), bps(30));
    assert_eq!(out.unwrap(), n(493_579));
    let out = calculate_v2_amount_out(n(WAD), n(100 * WAD), n(200 * WAD), bps(30));
    assert_eq!(out.unwrap(), n(1_974_316_068_794_122_597));
    assert!(matches!(
        calculate_v2_amount_out(U256::max_value(), n(1), n(1), bps(30)),
        Err(MathError::Overflow { .. })
    ));
}

#[test]
fn constant_product_never_falls_and_leaves_the_reserve() {
    for (amount, a, b, fee) in [
        (1u128, 1_000u128, 1_000u128, 30u32),
        (1_000_000_000, 7, 13, 0),
        (999, 123_456, 654_321, 9_999),
        (WAD, WAD, 3 * WAD, 100),
    ] {
        let out = calculate_v2_amount_out(n(amount), n(a), n(b), bps(fee)).unwrap();
        assert!(out < n(b));
        let before = product(n(a), n(b));
        let after = product(n(a).plus(n(amount)), n(b).minus(out));
        assert!(after >= before);
    }
}

#[test]
fn constant_product_quotes_settle_reserves_and_prices() {
    let pool = v2::V2PoolSnapshot {
        reserve0: n(100_000_000),
        reserve1: n(200_000_000),
        fee_bps: bps(30),
    };
    let q = v2::quote_exact_input(&pool, n(1_000_000), SwapDirection::Token0ToToken1).unwrap();
    assert_eq!(q.amount_out, n(1_974_316));
    assert_eq!(q.execution_price_wad, n(1_974_316_000_000_000_000));
    assert_eq!(q.reserve0_after, n(101_000_000));
    assert_eq!(q.reserve1_after, n(198_025_684));
    let empty = v2::V2PoolSnapshot { reserve0: U256::zero(), reserve1: n(1), fee_bps: bps(30) };
    let e = v2::quote_exact_input(&empty, n(1), SwapDirection::Token0ToToken1).unwrap_err();
    assert!(pool_reason(e).starts_with("invalid reserves: reserve0=0"));
}

#[test]
fn execution_prices_are_token1_per_token0() {
    let down = calculate_execution_price(n(1_000), n(2_500), SwapDirection::Token0ToToken1);
    assert_eq!(down.unwrap(), n(2_500_000_000_000_000_000));
    let up = calculate_execution_price(n(1_000), n(2_500), SwapDirection::Token1ToToken0);
    assert_eq!(up.unwrap(), n(400_000_000_000_000_000));
    assert!(matches!(
        calculate_execution_price(U256::zero(), n(1), SwapDirection::Token0ToToken1),
        Err(MathError::DivisionByZero { .. })
    ));
    assert!(matches!(
        calculate_execution_price(n(1), U256::zero(), SwapDirection::Token1ToToken0),
        Err(MathError::DivisionByZero { .. })
    ));
    assert!(matches!(
        calculate_execution_price(n(1), U256::max_value(), SwapDirection::Token0ToToken1),
        Err(MathError::Overflow { .. })
    ));
}

#[test]
fn price_impact_is_bounded_and_zero_without_a_change() {
    assert_eq!(price_impact("op", n(WAD), n(WAD)).unwrap(), 0);
    assert_eq!(price_impact("op", n(WAD), n(WAD + WAD / 100)).unwrap(), 100);
    assert_eq!(price_impact("op", n(WAD), n(WAD / 2)).unwrap(), 5_000);
    assert_eq!(price_impact("op", n(1), n(WAD)).unwrap(), 10_000);
    assert_eq!(price_impact("op", U256::zero(), n(WAD)).unwrap(), 0);
    let after = tick_math::get_sqrt_ratio_at_tick(100).unwrap();
    assert_eq!(v3_math::calculate_v3_price_impact(n(ONE), after).unwrap(), 100);
}

#[test]
fn single_range_amounts_are_exact() {
    let out = v3_math::calculate_v3_amount_out(
        n(WAD),
        n(ONE),
        1_000 * WAD,
        bps(300),
        SwapDirection::Token0ToToken1,
    );
    assert_eq!(out.unwrap(), n(969_060_011_788_565_091));
    let (price, tick) = v3_math::calculate_v3_post_swap_state(
        n(WAD),
        n(ONE),
        1_000 * WAD,
        bps(300),
        SwapDirection::Token0ToToken1,
    )
    .unwrap();
    assert_eq!(price, n(79_151_385_670_164_278_243_647_612_153));
    assert_eq!(tick, -20);
    let between = v3_math::get_amount1_delta(price, n(ONE), 1_000 * WAD, false).unwrap();
    assert_eq!(between, n(969_060_011_788_565_091));
    assert!(price < n(ONE));
    let (price, tick) = v3_math::calculate_v3_post_swap_state(
        n(WAD),
        n(ONE),
        1_000 * WAD,
        bps(300),
        SwapDirection::Token1ToToken0,
    )
    .unwrap();
    assert_eq!(price, n(79_305_013_831_903_174_001_009_687_967));
    assert_eq!(tick, 19);
    let between = v3_math::get_amount0_delta(n(ONE), price, 1_000 * WAD, false).unwrap();
    assert_eq!(between, n(969_060_011_788_565_091));
    assert!(price > n(ONE));
}

#[test]
fn amounts_round_in_favour_of_the_pool() {
    let b = tick_math::get_sqrt_ratio_at_tick(1).unwrap();
    for liquidity in [1u128, 1_000_000, 123_456_789_012_345] {
        let up = v3_math::get_amount0_delta(n(ONE), b, liquidity, true).unwrap();
        let down = v3_math::get_amount0_delta(n(ONE), b, liquidity, false).unwrap();
        assert!(up >= down);
        let up = v3_math::get_amount1_delta(n(ONE), b, liquidity, true).unwrap();
        let down = v3_math::get_amount1_delta(n(ONE), b, liquidity, false).unwrap();
        assert!(up >= down);
    }
    let a = n(ONE);
    let b = n(79236108205323166380068368726);
    assert_eq!(v3_math::get_amount0_delta(a, b, 1_000_000, false).unwrap(), n(100));
    assert_eq!(v3_math::get_amount0_delta(a, b, 1_000_000, true).unwrap(), n(101));
    assert_eq!(v3_math::get_amount1_delta(a, b, 1_000_000, true).unwrap(), n(101));
    assert!(v3_math::get_amount0_delta(U256::zero(), b, 1, true).is_err());
}

fn v3_pool(ticks: Vec<i32>, net: &[(i32, i128)]) -> v3::V3PoolSnapshot {
    v3::V3PoolSnapshot {
        sqrt_price_x96: tick_math::get_sqrt_ratio_at_tick(59).unwrap(),
        tick: 59,
        liquidity: 1_000_000_000,
        fee_bps: bps(300),
        tick_spacing: 60,
        initialized_ticks: ticks,
        tick_liquidity_net: net.iter().copied().collect::<HashMap<i32, i128>>(),
    }
}

#[test]
fn crossing_quotes_account_for_liquidity() {
    let pool = v3_pool(vec![0, 60, 120], &[(60, 500_000_000), (120, 0)]);
    let q = v3::quote_exact_input(&pool, n(100_294), SwapDirection::Token1ToToken0).unwrap();
    assert_eq!(q.amount_out, n(96_703));
    assert_eq!(q.sqrt_price_after_x96, n(79_467_416_477_849_046_192_721_213_379));
    assert_eq!(q.tick_after, 60);
    let mut liquidity = 1_000_000_000i128;
    for t in &q.crossed_ticks {
        liquidity += pool.tick_liquidity_net[t];
    }
    assert_eq!(q.liquidity_after as i128, liquidity);
    assert!(q.crossed_ticks.len() <= 1024);
}

#[test]
fn incomplete_v3_snapshots_are_refused() {
    let good = v3_pool(vec![0, 60, 120], &[(60, 0), (120, 0)]);
    let quote = |p: &v3::V3PoolSnapshot, a: u128| {
        v3::quote_exact_input(p, n(a), SwapDirection::Token1ToToken0)
    };
    assert!(quote(&good, 10).is_ok());
    assert!(matches!(
        quote(&good, 0),
        Err(DexError::MathError(MathError::InvalidInput { .. }))
    ));
    let mut p = good.clone();
    p.liquidity = 0;
    assert_eq!(pool_reason(quote(&p, 10).unwrap_err()), "liquidity cannot be zero");
    let mut p = good.clone();
    p.tick_spacing = 0;
    assert_eq!(pool_reason(quote(&p, 10).unwrap_err()), "tick_spacing must be > 0, got 0");
    let mut p = good.clone();
    p.fee_bps = bps(10_000);
    assert_eq!(pool_reason(quote(&p, 10).unwrap_err()), "fee_bps must be < 10000, got 10000");
    let mut p = good.clone();
    p.initialized_ticks = vec![60, 0];
    assert_eq!(
        pool_reason(quote(&p, 10).unwrap_err()),
        "initialized_ticks must be strictly ascending"
    );
    let mut p = good.clone();
    p.tick_liquidity_net = [(60, -1_000_000_000i128)].into_iter().collect();
    assert_eq!(
        pool_reason(quote(&p, 1_000_000).unwrap_err()),
        "active liquidity became zero before input was exhausted"
    );
    p.tick_liquidity_net = [(60, -1_000_000_001i128)].into_iter().collect();
    assert_eq!(
        pool_reason(quote(&p, 1_000_000).unwrap_err()),
        "negative active liquidity after crossing tick 60"
    );
}

#[test]
fn quotes_without_entries_cross_nothing() {
    let mut pool = v3_pool(vec![-60, 60], &[]);
    pool.tick = 0;
    pool.sqrt_price_x96 = n(ONE);
    pool.liquidity = 1_000 * WAD;
    let q = v3::quote_exact_input(&pool, n(WAD), SwapDirection::Token0ToToken1).unwrap();
    assert!(q.used_single_range_fallback);
    assert!(q.crossed_ticks.is_empty());
    assert_eq!(q.liquidity_after, q.liquidity_before);
    assert_eq!(q.amount_out, n(969_060_011_788_565_091));
    let e = v3::quote_exact_input(&pool, n(10 * WAD), SwapDirection::Token0ToToken1).unwrap_err();
    assert_eq!(
        pool_reason(e),
        "single-range fallback rejected; possible tick crossing (tick=0, next_tick=-60)"
    );
}

#[test]
fn simulated_segments_form_a_chain_within_the_input() {
    let net: HashMap<i32, i128> = [(60, 500_000_000i128), (120, 0)].into_iter().collect();
    let start = tick_math::get_sqrt_ratio_at_tick(59).unwrap();
    let path = v3_math::simulate_swap_with_ticks(
        n(100_294),
        start,
        1_000_000_000,
        bps(300),
        60,
        &[0, 60, 120],
        false,
        &net,
    )
    .unwrap();
    assert!(!path.is_empty() && path.len() <= 1000);
    assert_eq!(path[0].sqrt_price_start, start);
    let mut total = U256::zero();
    for k in 0..path.len() {
        total = total.plus(path[k].amount_in);
        if k > 0 {
            assert_eq!(path[k].sqrt_price_start, path[k - 1].sqrt_price_end);
            assert_eq!(path[k].tick_start, path[k - 1].tick_end);
        }
    }
    assert!(total <= n(100_294));
}

#[test]
fn ticks_and_prices_bracket_each_other() {
    for tick in [-887272, -50_000, -1, 0, 1, 77_777, 887271] {
        let price = tick_math::get_sqrt_ratio_at_tick(tick).unwrap();
        assert_eq!(tick_math::get_tick_at_sqrt_ratio(price).unwrap(), tick);
        let above = tick_math::get_sqrt_ratio_at_tick(tick + 1).unwrap();
        assert_eq!(tick_math::get_tick_at_sqrt_ratio(above.minus(n(1))).unwrap(), tick);
    }
    assert_eq!(
        tick_math::get_max_sqrt_ratio(),
        tick_math::get_sqrt_ratio_at_tick(tick_math::MAX_TICK).unwrap()
    );
    assert!(tick_math::get_sqrt_ratio_at_tick(887273).is_err());
    assert!(tick_math::get_tick_at_sqrt_ratio(n(1)).is_err());
}

#[test]
fn swap_steps_are_exact_and_stay_within_the_amount() {
    let target = n(79623317895830914510639640423);
    let liquidity = 2 * WAD;
    let step =
        compute_swap_step(liquidity, n(ONE), target, 6, 1_000_000_000_000_000, true, false).unwrap();
    assert_eq!(step.used_amount, 1_000_000_000_000_000);
    assert_eq!(step.returned_amount, -998_900_849_245_631);
    assert_eq!(step.delta_l, 600_000_000_000);
    assert_eq!(step.next_sqrt_p, n(79_267_752_827_072_715_483_039_444_247));
    let far = compute_swap_step(liquidity, n(ONE), target, 6, i128::MAX, true, false).unwrap();
    assert_eq!(far.next_sqrt_p, target);
    assert!(far.used_amount < i128::MAX);
    let none = compute_swap_step(liquidity, n(ONE), target, 6, 0, true, false).unwrap();
    assert_eq!((none.used_amount, none.returned_amount), (0, 0));
    assert!(compute_swap_step(0, n(ONE), target, 6, 1, true, false).is_err());
    assert!(compute_swap_step(1, U256::zero(), target, 6, 1, true, false).is_err());
    assert!(compute_swap_step(1, n(ONE), target, 10_000, 1, true, false).is_err());
    assert!(compute_swap_step(1, n(ONE), target, 6, i128::MIN, true, false).is_err());
}

#[test]
fn swap_steps_stay_between_the_prices() {
    let prices = [
        tick_math::get_sqrt_ratio_at_tick(-700_000).unwrap(),
        tick_math::get_sqrt_ratio_at_tick(-120).unwrap(),
        n(ONE),
        tick_math::get_sqrt_ratio_at_tick(1).unwrap(),
        tick_math::get_sqrt_ratio_at_tick(700_000).unwrap(),
    ];
    for current in prices {
        for target in prices {
            for amount in [1i128, 777, 1_000_000_000_000, i128::MAX] {
                for exact_input in [true, false] {
                    let step =
                        compute_swap_step(1_000_000, current, target, 30, amount, exact_input, true);
                    let step = step.unwrap();
                    assert!(step.next_sqrt_p >= current.minimum(target));
                    assert!(step.next_sqrt_p <= current || step.next_sqrt_p <= target);
                    if exact_input {
                        assert!(step.used_amount <= amount);
                        assert!(step.next_sqrt_p == target || step.used_amount == amount);
                    } else {
                        assert!(-step.returned_amount <= amount);
                    }
                }
            }
        }
    }
}

#[test]
fn settled_steps_refuse_what_exceeds_the_amount() {
    let step = settle_step(n(9), n(70), n(55), n(5), 75, true).unwrap();
    assert_eq!((step.used_amount, step.returned_amount, step.delta_l), (75, -55, 5));
    assert!(settle_step(n(9), n(71), n(55), n(5), 75, true).is_err());
    assert!(settle_step(n(9), n(71), n(76), n(5), 75, false).is_err());
    assert!(matches!(
        settle_step(n(9), U256::max_value(), n(55), n(5), 75, true),
        Err(MathError::Overflow { .. })
    ));
    assert!(matches!(
        settle_step(n(9), n(u128::MAX), n(55), n(5), 75, true),
        Err(MathError::InvalidInput { .. })
    ));
}

#[test]
fn reach_amounts_follow_their_formulas() {
    let target = tick_math::get_sqrt_ratio_at_tick(100).unwrap();
    assert_eq!(
        calc_reach_amount(WAD, n(ONE), target, 10, true, true).unwrap(),
        4_992_264_335_084_180
    );
    assert_eq!(
        calc_reach_amount(WAD, target, n(ONE), 10, false, true).unwrap(),
        -4_987_272_070_749_096
    );
    assert_eq!(
        calc_reach_amount(WAD, n(ONE), target, 10, true, false).unwrap(),
        5_017_286_909_961_164
    );
    assert_eq!(
        calc_reach_amount(WAD, n(ONE), target, 10, false, false).unwrap(),
        -5_012_269_623_051_203
    );
    assert!(calc_reach_amount(WAD, n(ONE), target, 10_000, true, true).is_err());
    assert!(calc_reach_amount(WAD, U256::zero(), target, 10, true, true).is_err());
    assert!(matches!(
        calc_reach_amount(WAD, n(1), n(2), 10, true, true),
        Err(MathError::DivisionByZero { .. })
    ));
    assert!(matches!(
        calc_reach_amount(u128::MAX, n(1), U256::max_value(), 10, true, false),
        Err(MathError::Overflow { .. })
    ));
}

#[test]
fn liquidity_changes_undo_each_other() {
    let added = apply_liquidity_delta(1_000, 250, true).unwrap();
    assert_eq!(added, 1_250);
    assert_eq!(apply_liquidity_delta(added, -250, false).unwrap(), 1_000);
    let removed = apply_liquidity_delta(1_000, -250, false).unwrap();
    assert_eq!(apply_liquidity_delta(removed, 250, true).unwrap(), 1_000);
    assert!(matches!(
        apply_liquidity_delta(1, -2, false),
        Err(MathError::Underflow { .. })
    ));
    assert!(matches!(
        apply_liquidity_delta(u128::MAX, 1, true),
        Err(MathError::Overflow { .. })
    ));
    assert!(matches!(
        apply_liquidity_delta(5, -1, true),
        Err(MathError::InvalidInput { .. })
    ));
}

fn kyber_pool() -> kyber::KyberPoolSnapshot {
    kyber::KyberPoolSnapshot {
        sqrt_price_x96: tick_math::get_sqrt_ratio_at_tick(59).unwrap(),
        tick: 59,
        liquidity: 1_000_000_000,
        fee_bps: bps(25),
        tick_spacing: 60,
        initialized_ticks: vec![-60, 0, 60, 120],
        tick_liquidity_net: [(60, 100_000_000i128), (120, 0), (180, 0)].into_iter().collect(),
    }
}

#[test]
fn kyber_crossing_quotes_are_exact() {
    let q = kyber::quote_exact_input(&kyber_pool(), n(100_294), SwapDirection::Token1ToToken0)
        .unwrap();
    assert_eq!(q.amount_out, n(99_442));
    assert_eq!(q.sqrt_price_after_x96, n(79_469_785_683_623_689_940_080_165_628));
    assert_eq!(q.crossed_ticks, vec![60]);
    assert_eq!(q.liquidity_after, 1_100_000_000);
}

#[test]
fn incomplete_kyber_snapshots_are_refused() {
    let quote = |p: &kyber::KyberPoolSnapshot, a: U256| {
        kyber::quote_exact_input(p, a, SwapDirection::Token1ToToken0)
    };
    assert!(quote(&kyber_pool(), U256::zero()).is_err());
    let mut p = kyber_pool();
    p.sqrt_price_x96 = U256::zero();
    assert_eq!(pool_reason(quote(&p, n(9)).unwrap_err()), "sqrt_price_x96 cannot be zero");
    let mut p = kyber_pool();
    p.liquidity = 0;
    assert_eq!(pool_reason(quote(&p, n(9)).unwrap_err()), "liquidity cannot be zero");
    let mut p = kyber_pool();
    p.tick_spacing = -1;
    assert_eq!(pool_reason(quote(&p, n(9)).unwrap_err()), "tick_spacing must be >0, got -1");
    let mut p = kyber_pool();
    p.tick_liquidity_net.remove(&60);
    assert_eq!(
        pool_reason(quote(&p, n(100_294)).unwrap_err()),
        "missing liquidityNet for crossed tick 60"
    );
    assert_eq!(
        pool_reason(quote(&kyber_pool(), U256::from_limbs(0, 0, 1, 0)).unwrap_err()),
        "remaining amount exceeds i128 range required by swap step"
    );
}

#[test]
fn even_weights_keep_the_product() {
    let pool = balancer::BalancerPoolSnapshot {
        balance0: n(1_000_000_000),
        balance1: n(2_000_000_000),
        weight0: n(WAD / 2),
        weight1: n(WAD / 2),
        swap_fee_bps: bps(30),
    };
    let q = balancer::quote_exact_input(&pool, n(10_000), SwapDirection::Token0ToToken1).unwrap();
    assert_eq!(q.amount_out, n(19_939));
    assert_eq!(q.balance0_after, n(1_000_010_000));
    assert_eq!(q.balance1_after, n(1_999_980_061));
    assert!(
        product(q.balance0_after, q.balance1_after) >= product(q.balance0_before, q.balance1_before)
    );
}

#[test]
fn weighted_swaps_match_the_outside_formula() {
    let w = |v: U256| alloy_primitives::U256::from_limbs([v.l0, v.l1, v.l2, v.l3]);
    let (bi, bo) = (n(1_000 * WAD), n(5_000 * WAD));
    let (wi, wo) = (n(WAD / 5), n(WAD / 5 * 4));
    let ours = calculate_swap_output(n(10 * WAD), bi, bo, wi, wo, U256::zero()).unwrap();
    let theirs = balancer_maths_rust::pools::weighted::weighted_math::compute_out_given_exact_in(
        &w(bi),
        &w(wi),
        &w(bo),
        &w(wo),
        &w(n(10 * WAD)),
    )
    .unwrap();
    assert_eq!(w(ours), theirs);
    let e = calculate_swap_output(n(400 * WAD), bi, bo, wi, wo, U256::zero()).unwrap_err();
    match e {
        MathError::InvalidInput { reason, .. } => assert!(reason.contains("MaxInRatioExceeded")),
        _ => panic!("expected InvalidInput"),
    }
}

#[test]
fn weighted_inputs_are_checked() {
    let half = n(WAD / 2);
    let swap = |bi: u128, wi: U256, fee: u128| {
        calculate_swap_output(n(10), n(bi), n(1_000), wi, half, n(fee))
    };
    assert!(matches!(swap(0, half, 0), Err(MathError::InvalidInput { .. })));
    assert!(matches!(swap(1_000, U256::zero(), 0), Err(MathError::InvalidInput { .. })));
    assert!(matches!(swap(1_000, half, WAD), Err(MathError::InvalidInput { .. })));
    assert!(matches!(
        calculate_swap_output(U256::max_value(), n(1), n(1), half, half, U256::zero()),
        Err(MathError::Overflow { .. })
    ));
    let price = calculate_balancer_price(n(300), n(100), n(WAD / 4), n(WAD / 4 * 3)).unwrap();
    assert_eq!(price, n(9 * WAD));
    assert!(calculate_balancer_price(U256::zero(), n(1), half, half).is_err());
    assert!(matches!(
        calculate_balancer_price(U256::max_value(), n(1), half, half),
        Err(MathError::Overflow { .. })
    ));
    assert_eq!(swap_fee_bps_to_18_decimal(30), n(3_000_000_000_000_000));
    match map_pool_error_to_math_error(WeightedFault::Other("X".to_string()), "op") {
        MathError::InvalidInput { operation, reason, context } => {
            assert_eq!(operation, "op");
            assert_eq!(reason, "Balancer math crate error: X");
            assert_eq!(context, "Unknown crate error");
        }
        _ => panic!("expected InvalidInput"),
    }
}

fn stable_pool() -> curve::CurvePoolSnapshot {
    curve::CurvePoolSnapshot {
        balances: vec![n(1_000 * WAD), n(3_000 * WAD)],
        decimals: vec![18, 18],
        stored_rates: None,
        variant: StableswapMathVariant::Vyper02ThreePool,
        amplification: n(100),
        fee_raw: n(4_000_000),
        fee_bps: 4,
    }
}

#[test]
fn the_invariant_is_exact() {
    let d = |b: &[U256], v| curve_math::calculate_d(b, n(100), b.len(), v).unwrap();
    let three = StableswapMathVariant::Vyper02ThreePool;
    assert_eq!(d(&[n(1_000 * WAD), n(1_000 * WAD)], three), n(2_000 * WAD));
    assert_eq!(d(&[n(1_000 * WAD), n(3_000 * WAD)], three), n(3_993_431_643_088_518_257_649));
    assert_eq!(d(&[n(WAD), U256::zero()], StableswapMathVariant::Vyper01Legacy), U256::zero());
}

#[test]
fn stable_quotes_move_two_balances() {
    let pool = stable_pool();
    let q = curve::quote_exact_input(&pool, 0, 1, n(10 * WAD)).unwrap();
    assert_eq!(q.balances_before, pool.balances);
    assert_eq!(q.balances_after[0], n(1_010 * WAD));
    assert_eq!(q.balances_after[1], n(3_000 * WAD).minus(q.amount_out));
    assert!(!q.amount_out.is_zero() && q.amount_out <= pool.balances[1]);
    let outside = curve_math::calculate_swap_output(
        n(10 * WAD),
        0,
        1,
        &pool.balances,
        &pool.decimals,
        None,
        pool.variant,
        pool.amplification,
        pool.fee_raw,
        pool.fee_bps,
    );
    assert_eq!(outside.unwrap(), q.amount_out);
    let after = curve_math::calculate_curve_post_frontrun_balances(
        n(10 * WAD),
        &pool.balances,
        &pool.decimals,
        None,
        pool.variant,
        pool.amplification,
        pool.fee_raw,
        pool.fee_bps,
    );
    assert_eq!(after.unwrap(), q.balances_after);
    let after = curve_math::calculate_curve_post_victim_balances(
        n(10 * WAD),
        &pool.balances,
        &pool.decimals,
        None,
        pool.variant,
        pool.amplification,
        pool.fee_raw,
        pool.fee_bps,
    );
    assert_eq!(after.unwrap(), q.balances_after);
}

struct FixedRate;

impl DexAdapter for FixedRate {
    fn dex_type(&self) -> DexType {
        DexType::UniswapV2
    }

    fn calculate_swap(
        &self,
        _pool_key: &PoolKey,
        amount_in: U256,
        _direction: SwapDirection,
        _pool_state_provider: &dyn PoolStateProvider,
    ) -> Result<SwapResult, DexError> {
        Ok(SwapResult {
            amount_out: amount_in.plus(amount_in),
            price_impact_bps: 3,
            gas_estimate: n(21_000),
            execution_price: n(2 * WAD),
        })
    }

    fn get_current_price(
        &self,
        _pool_key: &PoolKey,
        _pool_state_provider: &dyn PoolStateProvider,
    ) -> Result<U256, DexError> {
        Ok(n(2 * WAD))
    }

    fn validate_pool_freshness(
        &self,
        _pool_key: &PoolKey,
        _pool_state_provider: &dyn PoolStateProvider,
        _max_age_blocks: u64,
    ) -> Result<(), DexError> {
        Ok(())
    }
}

#[test]
fn adapters_without_simulation_fall_back_on_the_plain_swap() {
    let adapter = FixedRate;
    let zero = Address::zero();
    let key = PoolKey::new(adapter.dex_type(), zero, zero, zero);
    let down = SwapDirection::Token0ToToken1;
    let state = PoolState::V2(V2PoolState::new(zero, zero, zero));
    let r = adapter.calculate_swap_with_state(&key, n(21), down, &(), Some(&state)).unwrap();
    assert_eq!(r.amount_out, n(42));
    assert_eq!(r.price_impact_bps, 3);
}

#[test]
fn stable_quotes_match_the_outside_kernel() {
    let w = |v: U256| alloy_primitives::U256::from_limbs([v.l0, v.l1, v.l2, v.l3]);
    let pool = stable_pool();
    let q = curve::quote_exact_input(&pool, 0, 1, n(10 * WAD)).unwrap();
    let outside = curve_math_crate_v1(&pool, w(n(10 * WAD)));
    assert_eq!(Some(w(q.amount_out)), outside);
}

fn curve_math_crate_v1(
    pool: &curve::CurvePoolSnapshot,
    dx: alloy_primitives::U256,
) -> Option<alloy_primitives::U256> {
    let w = |v: &U256| alloy_primitives::U256::from_limbs([v.l0, v.l1, v.l2, v.l3]);
    let wad = w(&n(WAD));
    ::curve_math::Pool::StableSwapV1 {
        balances: pool.balances.iter().map(w).collect(),
        rates: vec![wad, wad],
        amp: w(&pool.amplification),
        fee: w(&pool.fee_raw),
    }
    .get_amount_out(0, 1, dx)
}

#[test]
fn rates_follow_from_decimals() {
    assert_eq!(
        curve_math::stableswap_rate_for_decimals(6).unwrap(),
        n(1_000_000_000_000_000_000_000_000_000_000)
    );
    assert!(curve_math::stableswap_rate_for_decimals(40).is_err());
    let xp = curve_math::stableswap_xp_from_balances(&[n(5_000_000), n(7 * WAD)], &[6, 18]).unwrap();
    assert_eq!(xp, vec![n(5 * WAD), n(7 * WAD)]);
    assert!(curve_math::stableswap_xp_from_balances(&[n(1)], &[6, 18]).is_err());
    assert_eq!(curve_math::curve_fee_raw_from_bps(4), n(4_000_000));
}

#[test]
fn snapshots_hold_the_state_they_come_from() {
    let token = Address::from_low_u64_be(5);
    let mut s = V2PoolState::new(Address::zero(), token, token);
    s.update_reserves(n(3), n(4), 1);
    let p = v2::V2PoolSnapshot::from(&s);
    assert_eq!((p.reserve0, p.reserve1, p.fee_bps.as_u32()), (n(3), n(4), 30));
    let mut s = V3PoolState::new(Address::zero(), token, token, 500);
    s.update_state(9, n(ONE), 0, 1);
    s.apply_mint(-10, 10, 7);
    let p = v3::V3PoolSnapshot::from(&s);
    assert_eq!(p.initialized_ticks, vec![-10, 10]);
    assert_eq!(p.tick_liquidity_net[&10], -7);
    assert_eq!((p.tick_spacing, p.fee_bps.as_u32()), (10, 500));
    let s = CurvePoolState::new(Address::zero(), vec![token, token], 4);
    let p = curve::CurvePoolSnapshot::from(&s);
    assert_eq!(p.balances.len(), 2);
    assert_eq!(p.fee_bps, 4);
    let mut s = BalancerPoolState::new(
        Address::zero(),
        token,
        [7; 32],
        vec![token, token],
        vec![n(WAD / 2), n(WAD / 2)],
        30,
    );
    s.update_balances(vec![n(8), n(9)], 2);
    let p = balancer::BalancerPoolSnapshot::from(&s);
    assert_eq!((p.balance0, p.balance1, p.swap_fee_bps.as_u32()), (n(8), n(9), 30));
    let mut s = KyberPoolState::new(Address::zero(), token, token, 25, 10, n(ONE), 50);
    s.initialize_tick_range(-10, 10, 4);
    let p = kyber::KyberPoolSnapshot::try_from(&s).unwrap();
    assert_eq!(p.initialized_ticks, vec![-10, 10]);
    assert_eq!(p.liquidity, 50);
}

fn kyber_row(ticks: Vec<i32>, liquidity: u128) -> kyber::KyberPoolSnapshot {
    kyber::KyberPoolSnapshot {
        sqrt_price_x96: n(ONE),
        tick: 0,
        liquidity,
        fee_bps: bps(25),
        tick_spacing: 1,
        tick_liquidity_net: ticks.iter().map(|t| (*t, 0i128)).collect(),
        initialized_ticks: ticks,
    }
}

#[test]
fn kyber_quotes_use_up_their_input() {
    let pool = kyber_row((0..=1_100).collect(), 1_000_000_000);
    let up = SwapDirection::Token1ToToken0;
    let e = kyber::quote_exact_input(&pool, n(1_000_000_000), up).unwrap_err();
    assert_eq!(pool_reason(e), "swap exceeded 1024 tick-crossings; quote incomplete");
    let q = kyber::quote_exact_input(&pool, n(1_000_000), up).unwrap();
    assert!(!q.used_single_range_fallback);
    assert!(!q.crossed_ticks.is_empty() && q.crossed_ticks.len() < 1024);
    assert_eq!(q.amount_in, n(1_000_000));
}

#[test]
fn liquidity_beyond_the_signed_range_is_not_crossed() {
    let huge = i128::MAX as u128 + 6;
    let up = SwapDirection::Token1ToToken0;
    let amount = n(100_000_000_000_000_000_000_000_000_000_000_000);
    let mut pool = v3_pool(vec![0, 60, 120], &[(60, i128::MAX), (120, 0)]);
    pool.liquidity = huge;
    assert_eq!(
        pool_reason(v3::quote_exact_input(&pool, amount, up).unwrap_err()),
        "active liquidity overflow after crossing tick 60"
    );
    let pool = kyber_row(vec![0, 1, 2], huge);
    assert_eq!(
        pool_reason(kyber::quote_exact_input(&pool, amount, up).unwrap_err()),
        "liquidity overflow after crossing tick 1"
    );
    let pool = v4::V4PoolSnapshot {
        hook_address: None,
        hook_class: None,
        sqrt_price_x96: tick_math::get_sqrt_ratio_at_tick(59).unwrap(),
        tick: 59,
        liquidity: huge,
        fee_bps: bps(30),
        tick_spacing: 60,
        initialized_ticks: vec![0, 60, 120],
        tick_liquidity_net: HashMap::from([(60, i128::MAX), (120, 0)]),
        hook_mode: V4HookMode::NoHooks,
    };
    match v4::quote_exact_input(&pool, amount, up).unwrap_err() {
        DexError::MathError(MathError::Overflow { operation, context, .. }) => {
            assert_eq!(operation, "v4.quote_exact_input.liquidity_update");
            assert_eq!(
                context,
                format!("l={}, liq_net={}, zero_for_one=false", huge, i128::MAX)
            );
        }
        _ => panic!("expected Overflow"),
    }
}

#[test]
fn prices_floor_to_their_ticks() {
    for tick in [-887272, -887271, -60, -1, 0, 1, 60, 887271, 887272] {
        let price = v3_math::get_sqrt_ratio_at_tick(tick).unwrap();
        assert_eq!(v3_math::sqrt_price_to_tick(price).unwrap(), tick);
        let below = v3_math::sqrt_price_to_tick(price.minus(n(1))).unwrap();
        assert_eq!(below, if tick == -887272 { tick } else { tick - 1 });
    }
    let highest = v3_math::get_sqrt_ratio_at_tick(887272).unwrap();
    assert!(v3_math::get_sqrt_ratio_at_tick(887271).unwrap() < highest);
    assert_eq!(v3_math::sqrt_price_to_tick(highest.plus(n(1))).unwrap(), 887272);
    assert_eq!(v3_math::sqrt_price_to_tick(U256::max_value()).unwrap(), 887272);
    assert_eq!(v3_math::sqrt_price_to_tick(U256::zero()).unwrap(), -887272);
}
