//! Exact-input quotes of Uniswap V4 pools and their hooks.

use alloy_primitives::{I256, U256 as A256};
use dex_math_core::base::error::{DexError, MathError};
use dex_math_core::base::precision::BasisPoints;
use dex_math_core::base::types::Address;
use dex_math_core::data::pool_state::V4PoolState;
use dex_math_core::dex::adapter::SwapDirection;
use dex_math_core::dex::kyber::math::tick_math;
use dex_math_core::dex::uniswap_v3::math::sqrt_price_to_tick;
use dex_math_core::dex::uniswap_v4::adapter_math::{
    find_next_initialized_tick, quote_exact_input, quote_exact_input_with_hook_adapter,
    quote_exact_input_with_hook_state, V4PoolSnapshot,
};
use dex_math_core::dex::uniswap_v4::hooks::{
    V4HookClassState, V4HookMode, V4HookQuoteAdapter, V4HookSwapDeltas, V4OfficialHookClass,
};
use dex_math_core::u256::U256;
use std::collections::HashMap;

#[derive(Clone)]
struct ParityFixture {
    pool: V4PoolSnapshot,
    amount_in: U256,
    direction: SwapDirection,
}

fn parity_fixtures() -> Vec<ParityFixture> {
    vec![
        ParityFixture {
            pool: V4PoolSnapshot {
                hook_address: None,
                hook_class: None,
                sqrt_price_x96: tick_math::get_sqrt_ratio_at_tick(0).unwrap(),
                tick: 0,
                liquidity: 1_000_000_000_000u128,
                fee_bps: BasisPoints::new_const(30),
                tick_spacing: 60,
                initialized_ticks: vec![-120, -60, 0, 60, 120],
                tick_liquidity_net: HashMap::from([(60, -200_000i128), (120, -150_000i128)]),
                hook_mode: V4HookMode::NoHooks,
            },
            amount_in: U256::from_u64(100_000),
            direction: SwapDirection::Token1ToToken0,
        },
        ParityFixture {
            pool: V4PoolSnapshot {
                hook_address: None,
                hook_class: None,
                sqrt_price_x96: tick_math::get_sqrt_ratio_at_tick(0).unwrap(),
                tick: 0,
                liquidity: 1_000_000_000_000u128,
                fee_bps: BasisPoints::new_const(30),
                tick_spacing: 60,
                initialized_ticks: vec![-120, -60, 0, 60, 120],
                tick_liquidity_net: HashMap::from([(-60, 150_000i128), (-120, 150_000i128)]),
                hook_mode: V4HookMode::NoHooks,
            },
            amount_in: U256::from_u64(95_000),
            direction: SwapDirection::Token0ToToken1,
        },
        ParityFixture {
            pool: V4PoolSnapshot {
                hook_address: None,
                hook_class: Some(V4OfficialHookClass::DynamicFee),
                sqrt_price_x96: tick_math::get_sqrt_ratio_at_tick(0).unwrap(),
                tick: 0,
                liquidity: 1_000_000_000_000u128,
                fee_bps: BasisPoints::new_const(30),
                tick_spacing: 60,
                initialized_ticks: vec![-120, -60, 0, 60, 120],
                tick_liquidity_net: HashMap::from([(60, -200_000i128)]),
                hook_mode: V4HookMode::DeterministicFeeOnly {
                    class: V4OfficialHookClass::DynamicFee,
                    effective_fee_bps: BasisPoints::new_const(45),
                },
            },
            amount_in: U256::from_u64(50_000),
            direction: SwapDirection::Token1ToToken0,
        },
    ]
}

/// The library's number for one of `alloy_primitives`.
fn wide(v: A256) -> U256 {
    let w = v.into_limbs();
    U256::from_limbs(w[0], w[1], w[2], w[3])
}

/// The number of `alloy_primitives` for one of the library.
fn plain(v: U256) -> A256 {
    A256::from_limbs([v.l0, v.l1, v.l2, v.l3])
}

fn abs_diff(a: A256, b: A256) -> A256 {
    if a >= b {
        a - b
    } else {
        b - a
    }
}

fn overflow(context: &str) -> DexError {
    DexError::MathError(MathError::Overflow {
        operation: "reference".to_string(),
        inputs: vec![],
        context: context.to_string(),
    })
}

/// A quote by the steps of the concentrated-liquidity kernel alone.
fn reference_quote_exact_input(
    pool: &V4PoolSnapshot,
    amount_in: U256,
    direction: SwapDirection,
) -> Result<A256, DexError> {
    pool.validate_static()?;
    let (effective_fee, _) = pool.effective_fee_bps()?;
    let fee_pips = effective_fee.as_u32().checked_mul(100).ok_or_else(|| overflow("fee"))?;
    let zero_for_one = matches!(direction, SwapDirection::Token0ToToken1);
    let mut remaining = plain(amount_in);
    let mut out_total = A256::ZERO;
    let mut current_sqrt = plain(pool.sqrt_price_x96);
    let mut current_tick = pool.tick;
    let mut current_liquidity = pool.liquidity;
    for _ in 0..1024usize {
        if remaining.is_zero() {
            break;
        }
        let next_tick = find_next_initialized_tick(
            current_tick,
            &pool.initialized_ticks,
            pool.tick_spacing,
            zero_for_one,
        )
        .map_err(DexError::MathError)?;
        let target = plain(
            tick_math::get_sqrt_ratio_at_tick(next_tick).map_err(DexError::MathError)?,
        );
        let (next_sqrt, amount_in_net, amount_out, fee_amount) =
            uniswap_v3_math::swap_math::compute_swap_step(
                current_sqrt,
                target,
                current_liquidity,
                I256::from_raw(remaining),
                fee_pips,
            )
            .map_err(|e| DexError::InvalidPool { reason: e.to_string() })?;
        let used = amount_in_net.checked_add(fee_amount).ok_or_else(|| overflow("amount"))?;
        if used > remaining {
            return Err(DexError::InvalidPool {
                reason: format!("step used {} > remaining {}", used, remaining),
            });
        }
        remaining -= used;
        out_total = out_total.checked_add(amount_out).ok_or_else(|| overflow("output"))?;
        current_sqrt = next_sqrt;
        current_tick = sqrt_price_to_tick(wide(current_sqrt)).map_err(DexError::MathError)?;
        if next_sqrt == target && !remaining.is_zero() {
            let liq_net = pool.tick_liquidity_net.get(&next_tick).ok_or_else(|| {
                DexError::InvalidPool {
                    reason: format!("missing liquidityNet for crossed tick {}", next_tick),
                }
            })?;
            let liq_signed = if zero_for_one { -*liq_net } else { *liq_net };
            let new_l = (current_liquidity as i128)
                .checked_add(liq_signed)
                .ok_or_else(|| overflow("liquidity"))?;
            if new_l < 0 {
                return Err(DexError::InvalidPool {
                    reason: format!("negative liquidity after crossing tick {}", next_tick),
                });
            }
            current_liquidity = new_l as u128;
        } else {
            break;
        }
    }
    Ok(out_total)
}

#[test]
fn rejects_unsupported_hook_mode_without_deterministic_metadata() {
    let state = V4PoolState {
        pool_address: Address::zero(),
        token0: Address::zero(),
        token1: Address::zero(),
        liquidity: 1,
        sqrt_price_x96: U256::from_u64(1),
        tick: 0,
        fee_bps: 30,
        tick_spacing: 60,
        last_update_block: 0,
        tick_liquidity_map: HashMap::from([(0, 1i128)]),
        initialized_ticks: vec![0, 60],
        hook_address: Some(Address::from_low_u64_be(1234)),
        hook_class: Some("twamm".to_string()),
        hooks_enabled: true,
        dynamic_fee_enabled: true,
        deterministic_fee_bps: None,
    };
    let snap = V4PoolSnapshot::try_from(&state).unwrap();
    let err = quote_exact_input(&snap, U256::from_u64(100), SwapDirection::Token1ToToken0).unwrap_err();
    match err {
        DexError::InvalidPool { reason } => {
            assert!(reason.contains("requires external adapter") || reason.contains("tick/sqrt_price_x96 mismatch"))
        }
        _ => panic!("expected InvalidPool"),
    }
}

#[test]
fn allows_deterministic_fee_override_hook_mode() {
    let pool = V4PoolSnapshot {
        hook_address: None,
        hook_class: Some(V4OfficialHookClass::DynamicFee),
        sqrt_price_x96: tick_math::get_sqrt_ratio_at_tick(0).unwrap(),
        tick: 0,
        liquidity: 1_000_000_000_000u128,
        fee_bps: BasisPoints::new_const(30),
        tick_spacing: 60,
        initialized_ticks: vec![-60, 0, 60],
        tick_liquidity_net: HashMap::from([(60, -100_000i128)]),
        hook_mode: V4HookMode::DeterministicFeeOnly {
            class: V4OfficialHookClass::DynamicFee,
            effective_fee_bps: BasisPoints::new_const(45),
        },
    };
    let q = quote_exact_input(&pool, U256::from_u64(10_000), SwapDirection::Token1ToToken0).unwrap();
    assert!(q.amount_out > U256::zero());
    assert!(q.used_deterministic_fee_override);
    assert_eq!(q.fee_bps_applied.as_u32(), 45);
}

#[test]
fn rejects_missing_tick_liquidity_map() {
    let pool = V4PoolSnapshot {
        hook_address: None,
        hook_class: None,
        sqrt_price_x96: tick_math::get_sqrt_ratio_at_tick(0).unwrap(),
        tick: 0,
        liquidity: 1_000_000_000_000u128,
        fee_bps: BasisPoints::new_const(30),
        tick_spacing: 60,
        initialized_ticks: vec![-60, 0, 60],
        tick_liquidity_net: HashMap::new(),
        hook_mode: V4HookMode::NoHooks,
    };
    let err = quote_exact_input(&pool, U256::from_u64(10_000), SwapDirection::Token1ToToken0).unwrap_err();
    match err {
        DexError::InvalidPool { reason } => assert!(reason.contains("tick_liquidity_net")),
        _ => panic!("expected InvalidPool"),
    }
}

#[derive(Debug)]
struct TwammMockAdapter {
    fee_bps: BasisPoints,
}

impl V4HookQuoteAdapter for TwammMockAdapter {
    fn class(&self) -> V4OfficialHookClass {
        V4OfficialHookClass::Twamm
    }

    fn resolve_effective_fee_bps(
        &self,
        _pool: &V4PoolSnapshot,
        _amount_in: U256,
        _direction: SwapDirection,
    ) -> Result<BasisPoints, DexError> {
        Ok(self.fee_bps)
    }

    fn adjust_exact_in_output(
        &self,
        _pool: &V4PoolSnapshot,
        _amount_in: U256,
        _direction: SwapDirection,
        core_amount_out: U256,
    ) -> Result<U256, DexError> {
        Ok(core_amount_out)
    }
}

#[test]
fn external_adapter_enables_twamm_class_quotes() {
    let state = V4PoolState {
        pool_address: Address::zero(),
        token0: Address::from_low_u64_be(1),
        token1: Address::from_low_u64_be(2),
        liquidity: 1_000_000_000_000u128,
        sqrt_price_x96: U256::from_u128(79228162514264337593543950336),
        tick: 0,
        fee_bps: 30,
        tick_spacing: 60,
        last_update_block: 1,
        tick_liquidity_map: HashMap::from([(60, -100_000i128)]),
        initialized_ticks: vec![-60, 0, 60],
        hook_address: Some(Address::from_low_u64_be(999)),
        hook_class: Some("twamm".to_string()),
        hooks_enabled: true,
        dynamic_fee_enabled: false,
        deterministic_fee_bps: None,
    };
    let pool = V4PoolSnapshot::try_from(&state).unwrap();

    let no_adapter_err =
        quote_exact_input_with_hook_adapter(&pool, U256::from_u64(20_000), SwapDirection::Token1ToToken0, None)
            .unwrap_err();
    match no_adapter_err {
        DexError::InvalidPool { reason } => assert!(reason.contains("requires external adapter")),
        _ => panic!("expected InvalidPool"),
    }

    let adapter = TwammMockAdapter {
        fee_bps: BasisPoints::new_const(35),
    };
    let q = quote_exact_input_with_hook_adapter(
        &pool,
        U256::from_u64(20_000),
        SwapDirection::Token1ToToken0,
        Some(&adapter),
    )
    .unwrap();
    assert!(q.amount_out > U256::zero());
    assert_eq!(q.fee_bps_applied.as_u32(), 35);
}

#[test]
fn passive_observer_hook_class_uses_core_math() {
    let state = V4PoolState {
        pool_address: Address::zero(),
        token0: Address::from_low_u64_be(1),
        token1: Address::from_low_u64_be(2),
        liquidity: 1_000_000_000_000u128,
        sqrt_price_x96: U256::from_u128(79228162514264337593543950336),
        tick: 0,
        fee_bps: 30,
        tick_spacing: 60,
        last_update_block: 1,
        tick_liquidity_map: HashMap::from([(60, -100_000i128)]),
        initialized_ticks: vec![-60, 0, 60],
        hook_address: Some(Address::from_low_u64_be(88)),
        hook_class: Some("volatility_oracle".to_string()),
        hooks_enabled: true,
        dynamic_fee_enabled: false,
        deterministic_fee_bps: None,
    };
    let pool = V4PoolSnapshot::try_from(&state).unwrap();
    let q = quote_exact_input(&pool, U256::from_u64(20_000), SwapDirection::Token1ToToken0).unwrap();
    assert!(q.amount_out > U256::zero());
    assert_eq!(q.fee_bps_applied.as_u32(), 30);
    assert!(!q.used_deterministic_fee_override);
}

#[test]
fn hook_state_enables_official_class_outputs_without_custom_adapter() {
    let pool = V4PoolSnapshot {
        hook_address: Some(Address { high: 0x1111_1111, middle: 0x1111_1111_1111_1111, low: 0x1111_1111_1111_1111 }),
        hook_class: Some(V4OfficialHookClass::Twamm),
        sqrt_price_x96: tick_math::get_sqrt_ratio_at_tick(0).unwrap(),
        tick: 0,
        liquidity: 1_000_000_000_000u128,
        fee_bps: BasisPoints::new_const(30),
        tick_spacing: 60,
        initialized_ticks: vec![-120, -60, 0, 60, 120],
        tick_liquidity_net: HashMap::from([(60, -100_000i128)]),
        hook_mode: V4HookMode::RequiresExternalAdapter {
            class: V4OfficialHookClass::Twamm,
            reason: "state model required".to_string(),
        },
    };

    let state = V4HookClassState::Twamm {
        effective_fee_bps: BasisPoints::new_const(40),
        deltas: V4HookSwapDeltas {
            before_swap_input_delta: 1_000,
            after_swap_output_delta: -5,
        },
    };
    let q = quote_exact_input_with_hook_state(
        &pool,
        U256::from_u64(25_000),
        SwapDirection::Token1ToToken0,
        Some(&state),
    )
    .unwrap();

    assert!(q.amount_out > U256::zero());
    assert_eq!(q.fee_bps_applied.as_u32(), 40);
    assert_eq!(q.hook_input_delta, 1_000);
    assert_eq!(q.hook_output_delta, -5);
    assert!(q.used_hook_state);
    assert_eq!(q.amount_in_effective, U256::from_u64(26_000));
}

#[test]
fn rejects_hook_state_class_mismatch() {
    let pool = V4PoolSnapshot {
        hook_address: Some(Address { high: 0x2222_2222, middle: 0x2222_2222_2222_2222, low: 0x2222_2222_2222_2222 }),
        hook_class: Some(V4OfficialHookClass::LimitOrder),
        sqrt_price_x96: tick_math::get_sqrt_ratio_at_tick(0).unwrap(),
        tick: 0,
        liquidity: 1_000_000_000_000u128,
        fee_bps: BasisPoints::new_const(30),
        tick_spacing: 60,
        initialized_ticks: vec![-60, 0, 60],
        tick_liquidity_net: HashMap::from([(60, -100_000i128)]),
        hook_mode: V4HookMode::RequiresExternalAdapter {
            class: V4OfficialHookClass::LimitOrder,
            reason: "state model required".to_string(),
        },
    };
    let mismatched = V4HookClassState::Twamm {
        effective_fee_bps: BasisPoints::new_const(35),
        deltas: V4HookSwapDeltas {
            before_swap_input_delta: 0,
            after_swap_output_delta: 0,
        },
    };
    let err = quote_exact_input_with_hook_state(
        &pool,
        U256::from_u64(10_000),
        SwapDirection::Token1ToToken0,
        Some(&mismatched),
    )
    .unwrap_err();
    match err {
        DexError::InvalidPool { reason } => assert!(reason.contains("class mismatch")),
        _ => panic!("expected InvalidPool"),
    }
}

#[test]
fn parity_harness_matches_canonical_within_one_wei() {
    for fixture in parity_fixtures() {
        let local = quote_exact_input(&fixture.pool, fixture.amount_in, fixture.direction).unwrap();
        let reference = reference_quote_exact_input(&fixture.pool, fixture.amount_in, fixture.direction).unwrap();
        let diff = abs_diff(plain(local.amount_out), reference);
        assert!(diff <= A256::from(1u64), "parity diff exceeded 1 wei: {}", diff);
    }
}
