//! How events change the states of pools.

use dex_math_core::base::types::{Address, DexType};
use dex_math_core::data::curve_registry::{
    CurveExecutionKind, CurveFamily, CurveFeeEncoding, CurveQuotingStrategy, CurveRegistryEntry,
    StableswapMathVariant,
};
use dex_math_core::data::kyber_pool_state::{KyberPoolState, KyberPoolStateManager};
use dex_math_core::data::pool_state::{
    CurvePoolState, PoolState, V2PoolState, V3PoolState,
};
use dex_math_core::u256::U256;

const ONE: u128 = 79228162514264337593543950336;

fn n(v: u128) -> U256 {
    U256::from_u128(v)
}

fn address(v: u64) -> Address {
    Address::from_low_u64_be(v)
}

fn manager() -> KyberPoolStateManager {
    let mut m = KyberPoolStateManager::new();
    m.initialize_pool(address(1), address(2), address(3), 8, n(ONE), 1_000).unwrap();
    m
}

#[test]
fn a_burn_undoes_a_mint() {
    let mut p = V3PoolState::new(address(1), address(2), address(3), 3000);
    p.apply_mint(-60, 60, 500);
    p.apply_mint(0, 60, 20);
    assert_eq!(p.initialized_ticks, vec![-60, 0, 60]);
    assert_eq!(p.tick_liquidity_map[&-60], 500);
    assert_eq!(p.tick_liquidity_map[&60], -520);
    let sum: i128 = p.tick_liquidity_map.values().sum();
    assert_eq!(sum, 0);
    p.apply_burn(0, 60, 20);
    assert_eq!(p.tick_liquidity_map.get(&0).copied().unwrap_or(0), 0);
    assert_eq!(p.tick_liquidity_map[&60], -500);
}

#[test]
fn a_mint_changes_its_range_alone() {
    let mut p = V3PoolState::new(address(1), address(2), address(3), 3000);
    p.liquidity = 9;
    p.sqrt_price_x96 = n(ONE);
    p.tick = 5;
    p.apply_mint(-60, 60, 500);
    let before = p.clone();
    p.apply_mint(60, 60, 7);
    p.apply_mint(90, 60, 7);
    p.apply_mint(-60, 60, 0);
    assert_eq!(p.initialized_ticks, before.initialized_ticks);
    assert_eq!(p.tick_liquidity_map, before.tick_liquidity_map);
    p.apply_mint(0, 120, 7);
    assert_eq!(p.initialized_ticks, vec![-60, 0, 60, 120]);
    assert_eq!(p.tick_liquidity_map[&0], 7);
    assert_eq!(p.tick_liquidity_map[&120], -7);
    p.apply_burn(0, 120, 7);
    assert_eq!(p.initialized_ticks, vec![-60, 0, 60, 120]);
    for t in [-60, 0, 60, 120, 180] {
        let now = p.tick_liquidity_map.get(&t).copied().unwrap_or(0);
        assert_eq!(now, before.tick_liquidity_map.get(&t).copied().unwrap_or(0));
    }
    assert_eq!(p.liquidity, 9);
    assert_eq!(p.sqrt_price_x96, n(ONE));
    assert_eq!(p.tick, 5);
}

#[test]
fn a_kyber_burn_undoes_a_mint() {
    let mut m = manager();
    let before = m.get_pool_state(address(1)).unwrap();
    m.process_mint_event(address(1), -150, 150, 77).unwrap();
    let minted = m.get_pool_state(address(1)).unwrap();
    assert_eq!(minted.liquidity, 1_077);
    assert_eq!(minted.get_tick_liquidity(-150), 77);
    assert_eq!(minted.get_tick_liquidity(150), -77);
    assert!(minted.is_tick_initialized(-150) && minted.is_tick_initialized(150));
    m.process_burn_event(address(1), -150, 150, 77).unwrap();
    let burned = m.get_pool_state(address(1)).unwrap();
    assert_eq!(burned.liquidity, before.liquidity);
    assert_eq!(burned.get_tick_liquidity(-150), 0);
    assert_eq!(burned.get_tick_liquidity(150), 0);
}

#[test]
fn marked_ticks_set_one_bit_each() {
    let mut p = KyberPoolState::new(address(1), address(2), address(3), 8, 1, n(ONE), 0);
    p.initialize_tick_range(-1, 258, 5);
    assert_eq!(p.tick_bitmap[&-1], n(2));
    assert_eq!(p.tick_bitmap[&1], n(4));
    p.initialize_tick_range(-1, 259, 5);
    assert_eq!(p.tick_bitmap[&-1], n(2));
    assert_eq!(p.tick_bitmap[&1], n(12));
}

#[test]
fn bad_kyber_events_change_nothing() {
    let mut m = manager();
    assert_eq!(m.process_mint_event(address(1), 150, -150, 1).unwrap_err(), "Invalid tick range");
    assert_eq!(
        m.process_mint_event(address(1), -151, 150, 1).unwrap_err(),
        "Ticks not aligned with spacing"
    );
    assert!(m
        .process_burn_event(address(1), -150, 150, 2_000)
        .unwrap_err()
        .starts_with("Underflow in apply_liquidity_delta"));
    assert_eq!(m.process_mint_event(address(9), -1, 1, 1).unwrap_err(), "Pool 0x0000…0009 not found");
    assert_eq!(m.process_collect_event(address(9), 0, 0, 1, 1).unwrap_err(), "Pool 0x0000…0009 not found");
    assert!(m.calculate_swap_amount(address(9), true, 5, n(ONE)).is_err());
    assert_eq!(m.get_pool_state(address(1)).unwrap().liquidity, 1_000);
}

#[test]
fn collected_fees_are_reinvested() {
    let mut m = manager();
    m.process_collect_event(address(1), -150, 150, 30, 12).unwrap();
    assert_eq!(m.get_pool_state(address(1)).unwrap().reinvestment_liquidity, 42);
}

#[test]
fn swaps_move_the_price_of_a_pool() {
    let mut m = KyberPoolStateManager::new();
    m.initialize_pool(address(1), address(2), address(3), 6, n(ONE), 2_000_000_000_000_000_000)
        .unwrap();
    let limit = n(79623317895830914510639640423);
    let (used, returned) =
        m.calculate_swap_amount(address(1), false, 1_000_000_000_000_000, limit).unwrap();
    assert_eq!((used, returned), (1_000_000_000_000_000, -998_900_849_245_631));
    let s = m.get_pool_state(address(1)).unwrap();
    assert_eq!(s.sqrt_price_x96, n(79_267_752_827_072_715_483_039_444_247));
    assert_eq!(s.current_tick, 9);
}

#[test]
fn pools_are_listed_until_they_are_cleared() {
    let mut m = manager();
    m.insert_pool(
        address(7),
        KyberPoolState::new(address(7), address(2), address(3), 40, 8, n(ONE), 5),
    );
    assert_eq!(m.get_all_pools().len(), 2);
    assert_eq!(m.iter_pools().len(), 2);
    assert!(m.is_pool_tracked(address(7)));
    m.clear_all();
    assert!(m.get_all_pools().is_empty());
    assert!(m.get_pool_state(address(1)).is_none());
}

#[test]
fn states_know_their_kind() {
    let s = V2PoolState::new(address(4), address(1), address(2)).with_dex_type(DexType::SushiSwap);
    assert_eq!(s.dex_type, DexType::SushiSwap);
    let p = PoolState::V2(s);
    assert_eq!(p.dex_type(), DexType::UniswapV2);
    assert_eq!(p.pool_address(), address(4));
    assert_eq!(p.last_update_block(), 0);
}

#[test]
fn registry_entries_set_the_policy_of_a_pool() {
    let mut s = CurvePoolState::new(address(4), vec![address(1), address(2)], 4);
    s.apply_registry_entry(&CurveRegistryEntry {
        name: "P".to_string(),
        address: "0x04".to_string(),
        family: CurveFamily::MetaStableSwap,
        n_coins: 2,
        quoting_strategy: CurveQuotingStrategy::OnChainView,
        execution_kind: CurveExecutionKind::ExchangeUint256,
        fee_encoding: CurveFeeEncoding::UnknownNotForLocalMath,
        execution_blocked: false,
        stableswap_math_variant: StableswapMathVariant::Vyper01Legacy,
        notes: String::new(),
        verification_refs: vec![],
    });
    assert_eq!(s.curve_family, CurveFamily::MetaStableSwap);
    assert_eq!(s.quoting_strategy, CurveQuotingStrategy::OnChainView);
    assert_eq!(s.execution_kind, CurveExecutionKind::ExchangeUint256);
    assert_eq!(s.stableswap_math_variant, StableswapMathVariant::Vyper01Legacy);
    assert_eq!(StableswapMathVariant::default(), StableswapMathVariant::Vyper02ThreePool);
}
