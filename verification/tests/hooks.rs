//! Uniswap V4 pools with hooks: what is refused, and what a hook changes.

use dex_math_core::base::error::{DexError, MathError};
use dex_math_core::base::precision::BasisPoints;
use dex_math_core::base::types::Address;
use dex_math_core::data::pool_state::V4PoolState;
use dex_math_core::dex::adapter::SwapDirection;
use dex_math_core::dex::kyber::math::tick_math;
use dex_math_core::dex::uniswap_v4::adapter_math::{
    apply_signed_delta_to_u256, find_next_initialized_tick, hook_effects_from_state,
    quote_exact_input, quote_exact_input_with_hook_adapter,
    quote_exact_input_with_hook_adapter_and_state, quote_exact_input_with_hook_state,
    V4HookClassState, V4HookMode, V4HookQuoteAdapter, V4HookSwapDeltas, V4OfficialHookClass,
    V4PoolSnapshot,
};
use dex_math_core::u256::U256;
use std::collections::HashMap;

const UP: SwapDirection = SwapDirection::Token1ToToken0;

fn n(v: u128) -> U256 {
    U256::from_u128(v)
}

fn pool(hook_class: Option<V4OfficialHookClass>, hook_mode: V4HookMode) -> V4PoolSnapshot {
    V4PoolSnapshot {
        hook_address: None,
        hook_class,
        sqrt_price_x96: n(1 << 96),
        tick: 0,
        liquidity: 1_000_000_000_000,
        fee_bps: BasisPoints::new_const(30),
        tick_spacing: 60,
        initialized_ticks: vec![-120, -60, 0, 60, 120],
        tick_liquidity_net: HashMap::from([(60, -200_000), (120, -150_000), (-60, 1)]),
        hook_mode,
    }
}

fn plain() -> V4PoolSnapshot {
    pool(None, V4HookMode::NoHooks)
}

fn reason_of(e: DexError) -> String {
    match e {
        DexError::InvalidPool { reason } => reason,
        _ => panic!("expected InvalidPool"),
    }
}

struct Adapter {
    class: V4OfficialHookClass,
    fee_bps: u32,
    bonus: u64,
}

impl V4HookQuoteAdapter for Adapter {
    fn class(&self) -> V4OfficialHookClass {
        self.class
    }

    fn resolve_effective_fee_bps(
        &self,
        _pool: &V4PoolSnapshot,
        _amount_in: U256,
        _direction: SwapDirection,
    ) -> Result<BasisPoints, DexError> {
        Ok(BasisPoints(self.fee_bps))
    }

    fn adjust_exact_in_output(
        &self,
        _pool: &V4PoolSnapshot,
        _amount_in: U256,
        _direction: SwapDirection,
        core_amount_out: U256,
    ) -> Result<U256, DexError> {
        Ok(core_amount_out.plus(U256::from_u64(self.bonus)))
    }
}

fn needs_adapter(class: V4OfficialHookClass) -> V4PoolSnapshot {
    pool(
        Some(class),
        V4HookMode::RequiresExternalAdapter { class, reason: "model needed".to_string() },
    )
}

#[test]
fn plain_quotes_are_exact() {
    let q = quote_exact_input(&plain(), n(100_000), UP).unwrap();
    assert_eq!(q.amount_out, n(99_699));
    assert_eq!(q.sqrt_price_after_x96, n(79_228_170_413_312_140_265_698_408_412));
    assert_eq!(q.tick_after, 0);
    assert_eq!(q.amount_in_after_fee, n(99_700));
    assert!(q.crossed_ticks.is_empty());
}

#[test]
fn crossed_ticks_change_the_liquidity() {
    let pool = plain();
    let q = quote_exact_input(&pool, n(5_000_000_000), UP).unwrap();
    assert_eq!(q.crossed_ticks, vec![60]);
    let mut liquidity = pool.liquidity as i128;
    for t in &q.crossed_ticks {
        liquidity += pool.tick_liquidity_net[t];
    }
    assert_eq!(q.liquidity_after as i128, liquidity);
    let mut pool = plain();
    pool.tick_liquidity_net.remove(&60);
    assert_eq!(
        reason_of(quote_exact_input(&pool, n(5_000_000_000), UP).unwrap_err()),
        "missing liquidityNet for crossed tick 60"
    );
}

#[test]
fn crossed_ticks_follow_the_list() {
    let mut pool = plain();
    pool.initialized_ticks = vec![-180, -120, -60, 0, 60, 120, 180, 240];
    pool.tick_liquidity_net = pool.initialized_ticks.iter().map(|t| (*t, 0i128)).collect();
    pool.tick = 10;
    pool.sqrt_price_x96 = tick_math::get_sqrt_ratio_at_tick(10).unwrap();
    let q = quote_exact_input(&pool, n(9_000_000_000), UP).unwrap();
    assert_eq!(q.crossed_ticks, vec![60, 120, 180]);
    let q = quote_exact_input(&pool, n(7_000_000_000), SwapDirection::Token0ToToken1).unwrap();
    assert_eq!(q.crossed_ticks, vec![0, -60, -120]);
}

#[test]
fn incomplete_v4_snapshots_are_refused() {
    let quote = |p: &V4PoolSnapshot| reason_of(quote_exact_input(p, n(10), UP).unwrap_err());
    let mut p = plain();
    p.sqrt_price_x96 = U256::zero();
    assert_eq!(quote(&p), "sqrt_price_x96 cannot be zero");
    let mut p = plain();
    p.liquidity = 0;
    assert_eq!(quote(&p), "liquidity cannot be zero");
    let mut p = plain();
    p.tick_spacing = -5;
    assert_eq!(quote(&p), "tick_spacing must be >0, got -5");
    let mut p = plain();
    p.initialized_ticks = vec![60, 0];
    assert_eq!(quote(&p), "initialized_ticks must be strictly ascending");
    let mut p = plain();
    p.initialized_ticks = vec![];
    assert_eq!(quote(&p), "initialized_ticks missing; exact v4 math unavailable");
    let mut p = plain();
    p.tick_liquidity_net = HashMap::new();
    assert_eq!(quote(&p), "tick_liquidity_net missing; exact v4 tick crossing unavailable");
    let mut p = plain();
    p.fee_bps = BasisPoints::max();
    assert_eq!(quote(&p), "fee_bps must be <10000, got 10000");
    let mut p = plain();
    p.tick = 61;
    assert_eq!(
        quote(&p),
        "tick/sqrt_price_x96 mismatch: tick=61, decoded_tick=0, spacing=60"
    );
    assert!(matches!(
        quote_exact_input(&plain(), U256::zero(), UP),
        Err(DexError::MathError(MathError::InvalidInput { .. }))
    ));
}

#[test]
fn hooks_that_need_a_model_are_not_guessed() {
    let p = needs_adapter(V4OfficialHookClass::Twamm);
    assert_eq!(
        reason_of(quote_exact_input(&p, n(10), UP).unwrap_err()),
        "hook class Twamm requires external adapter: model needed"
    );
    let p = pool(None, V4HookMode::Unsupported { reason: "opaque".to_string() });
    assert_eq!(
        reason_of(quote_exact_input(&p, n(10), UP).unwrap_err()),
        "unsupported v4 hook mode: opaque"
    );
}

#[test]
fn adapters_set_the_fee_and_the_output() {
    let p = needs_adapter(V4OfficialHookClass::Twamm);
    let adapter = Adapter { class: V4OfficialHookClass::Twamm, fee_bps: 30, bonus: 7 };
    let q = quote_exact_input_with_hook_adapter(&p, n(100_000), UP, Some(&adapter)).unwrap();
    assert_eq!(q.amount_out, n(99_706));
    assert!(q.used_deterministic_fee_override);
    let adapter = Adapter { class: V4OfficialHookClass::Twamm, fee_bps: 10_000, bonus: 0 };
    assert_eq!(
        reason_of(
            quote_exact_input_with_hook_adapter(&p, n(100_000), UP, Some(&adapter)).unwrap_err()
        ),
        "external adapter returned invalid fee_bps 10000"
    );
}

#[test]
fn contradictory_hooks_are_refused() {
    let p = needs_adapter(V4OfficialHookClass::Twamm);
    let other = Adapter { class: V4OfficialHookClass::LimitOrder, fee_bps: 30, bonus: 0 };
    assert_eq!(
        reason_of(quote_exact_input_with_hook_adapter(&p, n(10), UP, Some(&other)).unwrap_err()),
        "hook adapter class mismatch: snapshot=Twamm, adapter=LimitOrder"
    );
    let same = Adapter { class: V4OfficialHookClass::Twamm, fee_bps: 30, bonus: 0 };
    let state = V4HookClassState::Twamm {
        effective_fee_bps: BasisPoints::new_const(30),
        deltas: V4HookSwapDeltas { before_swap_input_delta: 0, after_swap_output_delta: 0 },
    };
    assert!(quote_exact_input_with_hook_adapter_and_state(
        &p,
        n(10),
        UP,
        Some(&same),
        Some(&state)
    )
    .is_err());
}

#[test]
fn hook_states_move_input_and_output() {
    let p = needs_adapter(V4OfficialHookClass::AsyncSwap);
    let state = V4HookClassState::AsyncSwap {
        effective_fee_bps: BasisPoints::new_const(30),
        deltas: V4HookSwapDeltas { before_swap_input_delta: -900_000, after_swap_output_delta: 11 },
    };
    let q = quote_exact_input_with_hook_state(&p, n(1_000_000), UP, Some(&state)).unwrap();
    assert_eq!(q.amount_in, n(1_000_000));
    assert_eq!(q.amount_in_effective, n(100_000));
    assert_eq!(q.amount_out, n(99_710));
    assert_eq!((q.hook_input_delta, q.hook_output_delta), (-900_000, 11));
    assert!(q.used_hook_state);
}

#[test]
fn hook_states_have_to_be_neutral_where_their_class_is() {
    let p = pool(
        Some(V4OfficialHookClass::PointsHook),
        V4HookMode::PassiveObserver { class: V4OfficialHookClass::PointsHook },
    );
    let neutral = V4HookClassState::PointsHook { quote_neutral: true };
    assert!(hook_effects_from_state(&p, &neutral).is_ok());
    let biased = V4HookClassState::PointsHook { quote_neutral: false };
    assert!(hook_effects_from_state(&p, &biased).is_err());
    let fee = V4HookClassState::DynamicFee { effective_fee_bps: BasisPoints::new_const(45) };
    assert_eq!(
        reason_of(hook_effects_from_state(&p, &fee).unwrap_err()),
        "hook state class mismatch: snapshot=PointsHook, state=DynamicFee"
    );
    assert_eq!(
        reason_of(hook_effects_from_state(&plain(), &fee).unwrap_err()),
        "hook_state provided but snapshot hook_class is missing"
    );
    let p = pool(
        Some(V4OfficialHookClass::DynamicFee),
        V4HookMode::DeterministicFeeOnly {
            class: V4OfficialHookClass::DynamicFee,
            effective_fee_bps: BasisPoints::new_const(30),
        },
    );
    assert_eq!(
        hook_effects_from_state(&p, &fee).unwrap(),
        (BasisPoints::new_const(45), 0, 0, true)
    );
}

#[test]
fn signed_changes_stay_in_range() {
    assert_eq!(apply_signed_delta_to_u256(n(10), -4, "x").unwrap(), n(6));
    assert_eq!(apply_signed_delta_to_u256(n(10), 4, "x").unwrap(), n(14));
    assert!(matches!(
        apply_signed_delta_to_u256(n(3), -4, "x"),
        Err(DexError::MathError(MathError::Underflow { .. }))
    ));
    assert!(matches!(
        apply_signed_delta_to_u256(U256::max_value(), 1, "x"),
        Err(DexError::MathError(MathError::Overflow { .. }))
    ));
}

#[test]
fn the_next_tick_is_initialized_or_the_end_of_the_range() {
    let ticks = [-60, 0, 60];
    assert_eq!(find_next_initialized_tick(5, &ticks, 60, false).unwrap(), 60);
    assert_eq!(find_next_initialized_tick(5, &ticks, 60, true).unwrap(), 0);
    assert_eq!(find_next_initialized_tick(61, &ticks, 60, false).unwrap(), 887272);
    assert_eq!(find_next_initialized_tick(-61, &ticks, 60, true).unwrap(), -887272);
    assert!(find_next_initialized_tick(0, &ticks, 0, true).is_err());
}

#[test]
fn states_become_snapshots_by_their_hook_class() {
    let mut s = V4PoolState::new(
        Address::zero(),
        Address::from_low_u64_be(1),
        Address::from_low_u64_be(2),
        30,
        60,
    );
    s.sqrt_price_x96 = n(1 << 96);
    s.initialized_ticks = vec![60, -60, 60, 0];
    let p = V4PoolSnapshot::try_from(&s).unwrap();
    assert_eq!(p.initialized_ticks, vec![-60, 0, 60]);
    assert!(matches!(p.hook_mode, V4HookMode::NoHooks));
    s.hooks_enabled = true;
    assert_eq!(
        reason_of(V4PoolSnapshot::try_from(&s).unwrap_err()),
        "hooks enabled but hook_class missing/unknown (hook_class=None)"
    );
    s.hook_class = Some("who knows".to_string());
    assert_eq!(
        reason_of(V4PoolSnapshot::try_from(&s).unwrap_err()),
        "hooks enabled but hook_class missing/unknown (hook_class=Some(\"who knows\"))"
    );
    s.hook_class = Some("Dynamic_Fee".to_string());
    assert_eq!(
        reason_of(V4PoolSnapshot::try_from(&s).unwrap_err()),
        "dynamic fee hook requires deterministic_fee_bps metadata"
    );
    s.deterministic_fee_bps = Some(10_000);
    assert_eq!(
        reason_of(V4PoolSnapshot::try_from(&s).unwrap_err()),
        "deterministic_fee_bps must be <10000, got 10000"
    );
    s.deterministic_fee_bps = Some(45);
    let p = V4PoolSnapshot::try_from(&s).unwrap();
    assert_eq!(p.effective_fee_bps().unwrap(), (BasisPoints::new_const(45), true));
}
