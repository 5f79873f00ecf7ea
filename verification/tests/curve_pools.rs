//! The registry of Curve pools, the models of its pools, and their quotes.

use alloy_primitives::U256 as A256;
use dex_math_core::base::error::{DexError, MathError};
use dex_math_core::base::types::Address;
use dex_math_core::data::curve_registry::{
    decode_curve_fee_bps, CurveExecutionKind, CurveFamily, CurveFeeEncoding, CurvePoolRegistry,
    CurveQuotingStrategy, CurveRegistryEntry, StableswapMathVariant,
};
use dex_math_core::data::pool_state::{CurveMathAux, CurvePoolState};
use dex_math_core::dex::curve::curve_math_pool::{
    curve_math_pool_from_state, curve_math_quote_out, curve_math_template,
    curve_math_try_quote_out, quote_from_output, CurveMathPool, CurveMathTemplate, TwoCryptoModel,
};
use dex_math_core::u256::U256;

const WAD: u128 = 1_000_000_000_000_000_000;

fn n(v: u128) -> U256 {
    U256::from_u128(v)
}

fn a(v: u128) -> A256 {
    A256::from(v)
}

fn plain(v: U256) -> A256 {
    A256::from_limbs([v.l0, v.l1, v.l2, v.l3])
}

fn entry(name: &str, address: &str, family: CurveFamily) -> CurveRegistryEntry {
    CurveRegistryEntry {
        name: name.to_string(),
        address: address.to_string(),
        family,
        n_coins: 2,
        quoting_strategy: CurveQuotingStrategy::LocalCurveMath,
        execution_kind: CurveExecutionKind::ExchangeInt128,
        fee_encoding: CurveFeeEncoding::CurveFee1e10,
        execution_blocked: false,
        stableswap_math_variant: StableswapMathVariant::Vyper02ThreePool,
        notes: String::new(),
        verification_refs: vec![],
    }
}

const POOL: &str = "0x00000000000000000000000000000000000000aa";

fn pool() -> Address {
    Address::from_low_u64_be(0xaa)
}

fn registry_of(e: CurveRegistryEntry) -> CurvePoolRegistry {
    CurvePoolRegistry::from_entries(vec![e]).unwrap()
}

fn registry(family: CurveFamily) -> CurvePoolRegistry {
    registry_of(entry("P", POOL, family))
}

fn stable_state() -> CurvePoolState {
    let tokens = vec![Address::from_low_u64_be(1), Address::from_low_u64_be(2)];
    let mut s = CurvePoolState::new(pool(), tokens, 4);
    s.update_balances(vec![n(1_000_000 * WAD), n(1_100_000_000_000)], 7);
    s.set_decimals(vec![18, 6]);
    s.amplification = n(200);
    s.fee_raw = n(4_000_000);
    s
}

fn crypto_state() -> CurvePoolState {
    let tokens = vec![Address::from_low_u64_be(1), Address::from_low_u64_be(2)];
    let mut s = CurvePoolState::new(pool(), tokens, 0);
    s.update_balances(vec![n(500_000 * WAD), n(250 * WAD)], 7);
    s.amplification = n(400_000);
    s.curve_math_aux = CurveMathAux {
        crypto_d: Some(n(1_000_000 * WAD)),
        crypto_gamma: Some(n(145_000_000_000_000)),
        crypto_mid_fee: Some(n(26_000_000)),
        crypto_out_fee: Some(n(45_000_000)),
        crypto_fee_gamma: Some(n(230_000_000_000_000)),
        price_scale_uni: Some(n(2_000 * WAD)),
        price_scale_0: Some(n(2_000 * WAD)),
        price_scale_1: Some(n(4_000 * WAD)),
        ng_offpeg_fee_multiplier: Some(n(50_000_000_000)),
        ng_stored_rates: None,
        meta_base_virtual_price: Some(n(WAD + WAD / 50)),
    };
    s
}

fn tri_state() -> CurvePoolState {
    let mut s = crypto_state();
    s.update_balances(vec![n(333_334_000_000), n(166_667 * WAD / 1_000), n(83_334 * WAD / 1_000)], 7);
    s.set_decimals(vec![6, 18, 18]);
    s
}

fn reason(e: DexError) -> String {
    match e {
        DexError::InvalidPool { reason } => reason,
        _ => panic!("expected InvalidPool"),
    }
}

#[test]
fn later_entries_replace_earlier_ones() {
    let first = entry("A", POOL, CurveFamily::StableSwapN);
    let other = entry(
        "B",
        " 0x00000000000000000000000000000000000000bb ",
        CurveFamily::StableSwapV2,
    );
    let mut second = entry("C", POOL, CurveFamily::StableSwapNg);
    second.execution_blocked = true;
    let r = CurvePoolRegistry::from_entries(vec![first, other, second]).unwrap();
    assert_eq!(r.all_pool_addresses().len(), 2);
    assert_eq!(r.get(&pool()).unwrap().name, "C");
    assert_eq!(r.execution_unblocked_addresses(), vec![Address::from_low_u64_be(0xbb)]);
    assert!(r.get(&Address::zero()).is_none());
    assert_eq!(
        r.require(&Address::zero()).unwrap_err(),
        "Curve pool 0x0000000000000000000000000000000000000000 not in curve_pool_registry.json"
    );
}

#[test]
fn bad_addresses_are_refused() {
    let e = CurvePoolRegistry::from_entries(vec![entry("A", "0x12", CurveFamily::StableSwapN)])
        .unwrap_err();
    assert!(e.starts_with("bad address 0x12: "));
}

#[test]
fn fees_decode_only_where_they_are_sane() {
    let enc = CurveFeeEncoding::CurveFee1e10;
    assert_eq!(decode_curve_fee_bps(n(4_999_999), enc).unwrap(), 4);
    assert_eq!(decode_curve_fee_bps(n(500_000_000), enc).unwrap(), 500);
    assert_eq!(
        decode_curve_fee_bps(n(501_000_000), enc).unwrap_err(),
        "decoded fee bps 501 out of sane range (1-500) for curve_fee_1e10"
    );
    assert_eq!(
        decode_curve_fee_bps(n(999_999), enc).unwrap_err(),
        "decoded fee bps 0 out of sane range (1-500) for curve_fee_1e10"
    );
    assert!(decode_curve_fee_bps(U256::zero(), enc).is_err());
    assert!(decode_curve_fee_bps(n(4_000_000), CurveFeeEncoding::TricryptoMidFee).is_err());
}

#[test]
fn families_have_their_models() {
    let expect = |family: CurveFamily, want: CurveMathTemplate| {
        assert_eq!(curve_math_template(&entry("P", POOL, family)).unwrap(), want);
    };
    expect(CurveFamily::LsdEthPool, CurveMathTemplate::StableSwapV2);
    expect(CurveFamily::StableSwapV2, CurveMathTemplate::StableSwapV2);
    expect(CurveFamily::StableSwapNg, CurveMathTemplate::StableSwapNG);
    expect(CurveFamily::CryptoTricrypto, CurveMathTemplate::TriCryptoV1);
    expect(CurveFamily::TwoCryptoNg, CurveMathTemplate::TwoCryptoNG);
    expect(CurveFamily::MetaStableSwap, CurveMathTemplate::StableSwapMeta);
    expect(CurveFamily::StableSwapN, CurveMathTemplate::StableSwapV1);
    let mut legacy = entry("P", POOL, CurveFamily::StableSwapN);
    legacy.stableswap_math_variant = StableswapMathVariant::Vyper01Legacy;
    assert_eq!(curve_math_template(&legacy).unwrap(), CurveMathTemplate::StableSwapV0);
    let named = entry("CVX_ETH", POOL, CurveFamily::TwoCryptoNg);
    assert_eq!(curve_math_template(&named).unwrap(), CurveMathTemplate::TwoCryptoV1);
    let refused = curve_math_template(&entry("P", POOL, CurveFamily::VolatileAmm)).unwrap_err();
    assert_eq!(
        reason(refused),
        "curve_math_pool: family VolatileAmm not supported for LocalCurveMath (pool P)"
    );
}

#[test]
fn first_generation_quotes_match_the_outside_pool() {
    let s = stable_state();
    let balances = vec![a(1_000_000 * WAD), a(1_100_000_000_000)];
    let rates = vec![a(WAD), a(WAD) * a(1_000_000_000_000)];
    let dx = 1_000 * WAD;
    let mut legacy = entry("P", POOL, CurveFamily::StableSwapN);
    legacy.stableswap_math_variant = StableswapMathVariant::Vyper01Legacy;
    let v0 = curve_math::Pool::StableSwapV0 {
        balances: balances.clone(),
        rates: rates.clone(),
        amp: a(200),
        fee: a(4_000_000),
    };
    let quoted = curve_math_quote_out(&registry_of(legacy), &s, 0, 1, n(dx)).unwrap();
    assert_eq!(Some(plain(quoted)), v0.get_amount_out(0, 1, a(dx)));
    let v1 = curve_math::Pool::StableSwapV1 { balances, rates, amp: a(200), fee: a(4_000_000) };
    let quoted =
        curve_math_quote_out(&registry(CurveFamily::StableSwapN), &s, 0, 1, n(dx)).unwrap();
    assert_eq!(Some(plain(quoted)), v1.get_amount_out(0, 1, a(dx)));
    assert!(quoted > n(990_000_000) && quoted < n(1_010_000_000));
}

#[test]
fn factory_quotes_match_the_outside_pool() {
    let s = stable_state();
    let dx = 1_000 * WAD;
    let v2 = curve_math::Pool::StableSwapV2 {
        balances: vec![a(1_000_000 * WAD), a(1_100_000_000_000)],
        rates: vec![a(WAD), a(WAD) * a(1_000_000_000_000)],
        amp: a(20_000),
        fee: a(4_000_000),
    };
    let quoted =
        curve_math_quote_out(&registry(CurveFamily::StableSwapV2), &s, 0, 1, n(dx)).unwrap();
    assert_eq!(Some(plain(quoted)), v2.get_amount_out(0, 1, a(dx)));
}

#[test]
fn dynamic_fee_quotes_match_the_outside_pool() {
    let mut s = stable_state();
    s.curve_math_aux.ng_offpeg_fee_multiplier = Some(n(50_000_000_000));
    s.curve_math_aux.ng_stored_rates = Some(vec![n(WAD), n(1_050_000_000_000_000_000_000_000_000_000)]);
    let dx = 1_000 * WAD;
    let outside = curve_math::Pool::StableSwapNG {
        balances: vec![a(1_000_000 * WAD), a(1_100_000_000_000)],
        rates: vec![a(WAD), a(1_050_000_000_000_000_000_000_000_000_000)],
        amp: a(20_000),
        fee: a(4_000_000),
        offpeg_fee_multiplier: a(50_000_000_000),
    };
    let quoted =
        curve_math_quote_out(&registry(CurveFamily::StableSwapNg), &s, 0, 1, n(dx)).unwrap();
    assert_eq!(Some(plain(quoted)), outside.get_amount_out(0, 1, a(dx)));
}

#[test]
fn meta_quotes_match_the_outside_pool() {
    let mut s = stable_state();
    s.curve_math_aux.meta_base_virtual_price = Some(n(WAD + WAD / 50));
    s.update_balances(vec![n(1_000_000 * WAD), n(1_000_000 * WAD)], 8);
    let dx = 1_000 * WAD;
    let outside = curve_math::Pool::StableSwapMeta {
        balances: vec![a(1_000_000 * WAD), a(1_000_000 * WAD)],
        rates: vec![a(WAD), a(WAD + WAD / 50)],
        amp: a(20_000),
        fee: a(4_000_000),
    };
    let quoted =
        curve_math_quote_out(&registry(CurveFamily::MetaStableSwap), &s, 0, 1, n(dx)).unwrap();
    assert_eq!(Some(plain(quoted)), outside.get_amount_out(0, 1, a(dx)));
}

#[test]
fn two_coin_crypto_quotes_match_the_outside_pool() {
    let s = crypto_state();
    let dx = 100 * WAD;
    let named = registry_of(entry("CVX_ETH", POOL, CurveFamily::TwoCryptoNg));
    let v1 = curve_math::Pool::TwoCryptoV1 {
        balances: [a(500_000 * WAD), a(250 * WAD)],
        precisions: [a(1), a(1)],
        price_scale: a(2_000 * WAD),
        d: a(1_000_000 * WAD),
        ann: a(400_000),
        gamma: a(145_000_000_000_000),
        mid_fee: a(26_000_000),
        out_fee: a(45_000_000),
        fee_gamma: a(230_000_000_000_000),
    };
    let quoted = curve_math_quote_out(&named, &s, 0, 1, n(dx)).unwrap();
    assert_eq!(Some(plain(quoted)), v1.get_amount_out(0, 1, a(dx)));
    let ng = curve_math::Pool::TwoCryptoNG {
        balances: [a(500_000 * WAD), a(250 * WAD)],
        precisions: [a(1), a(1)],
        price_scale: a(2_000 * WAD),
        d: a(1_000_000 * WAD),
        ann: a(400_000),
        gamma: a(145_000_000_000_000),
        mid_fee: a(26_000_000),
        out_fee: a(45_000_000),
        fee_gamma: a(230_000_000_000_000),
    };
    let quoted = curve_math_quote_out(&registry(CurveFamily::TwoCryptoNg), &s, 1, 0, n(WAD)).unwrap();
    assert_eq!(Some(plain(quoted)), ng.get_amount_out(1, 0, a(WAD)));
}

#[test]
fn three_coin_crypto_quotes_match_the_outside_pool() {
    let s = tri_state();
    let outside = curve_math::Pool::TriCryptoV1 {
        balances: [a(333_334_000_000), a(166_667 * WAD / 1_000), a(83_334 * WAD / 1_000)],
        precisions: [a(1_000_000_000_000), a(1), a(1)],
        price_scale: [a(2_000 * WAD), a(4_000 * WAD)],
        d: a(1_000_000 * WAD),
        ann: a(400_000),
        gamma: a(145_000_000_000_000),
        mid_fee: a(26_000_000),
        out_fee: a(45_000_000),
        fee_gamma: a(230_000_000_000_000),
    };
    let r = registry(CurveFamily::CryptoTricrypto);
    let quoted = curve_math_quote_out(&r, &s, 0, 2, n(1_000_000_000)).unwrap();
    assert_eq!(Some(plain(quoted)), outside.get_amount_out(0, 2, a(1_000_000_000)));
    let tried = curve_math_try_quote_out(&r, &s, 0, 2, n(1_000_000_000)).unwrap();
    assert_eq!(tried, Some(quoted));
}

#[test]
fn models_outside_their_range_are_not_asked() {
    let mut s = crypto_state();
    let r = registry(CurveFamily::TwoCryptoNg);
    assert_eq!(curve_math_try_quote_out(&r, &s, 0, 2, n(WAD)).unwrap(), None);
    s.curve_math_aux.crypto_gamma = Some(U256::zero());
    assert_eq!(curve_math_try_quote_out(&r, &s, 0, 1, n(WAD)).unwrap(), None);
    s = crypto_state();
    s.curve_math_aux.price_scale_uni = Some(U256::zero());
    assert_eq!(curve_math_try_quote_out(&r, &s, 0, 1, n(WAD)).unwrap(), None);
    s = crypto_state();
    s.curve_math_aux.crypto_d = Some(U256::zero());
    assert_eq!(curve_math_try_quote_out(&r, &s, 0, 1, n(WAD)).unwrap(), None);
    let named = registry_of(entry("CVX_ETH", POOL, CurveFamily::TwoCryptoNg));
    s = crypto_state();
    s.update_balances(vec![n(18_200_000_000), n(1)], 7);
    s.curve_math_aux.crypto_d = Some(n(1_000_000_000));
    s.curve_math_aux.crypto_gamma = Some(n(82_700_000_000_000_000));
    s.amplification = n(2_520_000_000);
    assert_eq!(curve_math_try_quote_out(&named, &s, 0, 1, n(1)).unwrap(), None);
    s = crypto_state();
    s.amplification = U256::zero();
    assert_eq!(curve_math_try_quote_out(&named, &s, 0, 1, n(WAD)).unwrap(), None);
    let tri = registry(CurveFamily::CryptoTricrypto);
    s = tri_state();
    s.update_balances(vec![n(333_334_000_000), U256::zero(), n(83_334 * WAD / 1_000)], 7);
    assert_eq!(curve_math_try_quote_out(&tri, &s, 0, 2, n(WAD)).unwrap(), None);
    let stable = registry(CurveFamily::StableSwapV2);
    assert_eq!(curve_math_try_quote_out(&stable, &stable_state(), 0, 2, n(WAD)).unwrap(), None);
}

fn two_coins(s: &CurvePoolState) -> [A256; 9] {
    let m = &s.curve_math_aux;
    [
        plain(s.balances[0]),
        plain(s.balances[1]),
        plain(m.price_scale_uni.unwrap()),
        plain(m.crypto_d.unwrap()),
        plain(s.amplification),
        plain(m.crypto_gamma.unwrap()),
        plain(m.crypto_mid_fee.unwrap()),
        plain(m.crypto_out_fee.unwrap()),
        plain(m.crypto_fee_gamma.unwrap()),
    ]
}

fn outside_two(v: [A256; 9], ng: bool) -> curve_math::Pool {
    let balances = [v[0], v[1]];
    let precisions = [a(1), a(1)];
    let (price_scale, d, ann, gamma) = (v[2], v[3], v[4], v[5]);
    let (mid_fee, out_fee, fee_gamma) = (v[6], v[7], v[8]);
    if ng {
        curve_math::Pool::TwoCryptoNG {
            balances, precisions, price_scale, d, ann, gamma, mid_fee, out_fee, fee_gamma,
        }
    } else {
        curve_math::Pool::TwoCryptoV1 {
            balances, precisions, price_scale, d, ann, gamma, mid_fee, out_fee, fee_gamma,
        }
    }
}

#[test]
fn unusual_crypto_pools_are_quoted() {
    let named = registry_of(entry("CVX_ETH", POOL, CurveFamily::TwoCryptoNg));
    let r = registry(CurveFamily::TwoCryptoNg);
    let mut small = crypto_state();
    small.update_balances(vec![n(500_000_000_000), n(250_000_000)], 7);
    small.curve_math_aux.crypto_d = Some(n(1_000_000_000_000));
    let mut flat = crypto_state();
    flat.amplification = n(4_000_000_000);
    flat.curve_math_aux.crypto_gamma = Some(n(199_000_000_000_000_000));
    let mut wide = crypto_state();
    wide.amplification = n(100);
    wide.curve_math_aux.crypto_gamma = Some(n(WAD));
    wide.curve_math_aux.crypto_fee_gamma = Some(n(3 * WAD));
    for s in [small, flat, wide] {
        let dx = 1_000_000u128;
        let v1 = curve_math_quote_out(&named, &s, 0, 1, n(dx * 1_000));
        assert_eq!(v1.ok().map(plain), outside_two(two_coins(&s), false).get_amount_out(0, 1, a(dx * 1_000)));
        assert!(curve_math_try_quote_out(&named, &s, 0, 1, n(dx * 1_000)).unwrap().is_some());
        let ng = curve_math_quote_out(&r, &s, 1, 0, n(dx));
        assert_eq!(ng.ok().map(plain), outside_two(two_coins(&s), true).get_amount_out(1, 0, a(dx)));
        assert!(curve_math_try_quote_out(&r, &s, 1, 0, n(dx)).unwrap().is_some());
    }
    let mut far = crypto_state();
    far.update_balances(vec![n(WAD), n(250 * WAD)], 7);
    let e = curve_math_try_quote_out(&r, &far, 0, 1, n(WAD)).unwrap_err();
    assert_eq!(
        reason(e),
        "curve-math get_amount_out returned None (zero dx or infeasible swap)"
    );
    assert_eq!(outside_two(two_coins(&far), true).get_amount_out(0, 1, a(WAD)), None);
}

#[test]
fn balances_of_crypto_pools_wrap_around() {
    let model = |balance: U256, precision: U256| TwoCryptoModel {
        balances: [balance, n(250 * WAD)],
        precisions: [precision, n(1)],
        price_scale: n(2_000 * WAD),
        d: n(1_000_000 * WAD),
        ann: n(400_000),
        gamma: n(145_000_000_000_000),
        mid_fee: n(26_000_000),
        out_fee: n(45_000_000),
        fee_gamma: n(230_000_000_000_000),
    };
    let half = U256::from_limbs(1, 0, 0, 1 << 63);
    for (balance, precision, dx) in [
        (n(500_000 * WAD), n(1), n(100 * WAD)),
        (U256::max_value(), n(1), n(500_100 * WAD + 1)),
        (n(500_000 * WAD), half, n(100 * WAD)),
    ] {
        let pool = CurveMathPool::TwoCryptoV1(model(balance, precision));
        assert!(pool.can_quote(0, 1, dx));
        let quoted = pool.get_amount_out(0, 1, dx).unwrap();
        let outside = curve_math::Pool::TwoCryptoV1 {
            balances: [plain(balance), a(250 * WAD)],
            precisions: [plain(precision), a(1)],
            price_scale: a(2_000 * WAD),
            d: a(1_000_000 * WAD),
            ann: a(400_000),
            gamma: a(145_000_000_000_000),
            mid_fee: a(26_000_000),
            out_fee: a(45_000_000),
            fee_gamma: a(230_000_000_000_000),
        };
        assert_eq!(Some(plain(quoted)), outside.get_amount_out(0, 1, plain(dx)));
    }
    let empty = CurveMathPool::TwoCryptoV1(model(U256::max_value(), n(1)));
    assert!(!empty.can_quote(0, 1, n(1)));
}

#[test]
fn unbalanced_crypto_pools_are_quoted() {
    let named = registry_of(entry("CVX_ETH", POOL, CurveFamily::TwoCryptoNg));
    let ng = registry(CurveFamily::TwoCryptoNg);
    for (first, second) in [(900_000u128, 30u128), (50_000, 1_500), (499_999, 251), (2_000_000, 100)] {
        let mut s = crypto_state();
        s.update_balances(vec![n(first * WAD), n(second * WAD)], 7);
        for (i, j) in [(0, 1), (1, 0)] {
            let dx = 3 * WAD;
            let v1 = outside_two(two_coins(&s), false).get_amount_out(i, j, a(dx));
            assert_eq!(curve_math_quote_out(&named, &s, i, j, n(dx)).ok().map(plain), v1);
            let closed = outside_two(two_coins(&s), true).get_amount_out(i, j, a(dx));
            assert_eq!(curve_math_quote_out(&ng, &s, i, j, n(dx)).ok().map(plain), closed);
        }
    }
    let mut level = crypto_state();
    level.amplification = n(6_400_000);
    level.curve_math_aux.crypto_gamma = Some(n(WAD / 10));
    assert_eq!(curve_math_try_quote_out(&ng, &level, 0, 1, n(WAD)).unwrap(), None);
}

#[test]
fn new_states_have_no_model_parameters() {
    let s = CurvePoolState::new(pool(), vec![], 4);
    assert!(s.curve_math_aux.crypto_d.is_none() && s.curve_math_aux.crypto_gamma.is_none());
    assert!(s.curve_math_aux.crypto_mid_fee.is_none() && s.curve_math_aux.crypto_out_fee.is_none());
    assert!(s.curve_math_aux.crypto_fee_gamma.is_none());
    assert!(s.curve_math_aux.price_scale_uni.is_none());
    assert!(s.curve_math_aux.price_scale_0.is_none() && s.curve_math_aux.price_scale_1.is_none());
    assert!(s.curve_math_aux.ng_offpeg_fee_multiplier.is_none());
    assert!(s.curve_math_aux.ng_stored_rates.is_none());
    assert!(s.curve_math_aux.meta_base_virtual_price.is_none());
}

#[test]
fn a_swap_of_nothing_has_no_quote() {
    let text = "curve-math get_amount_out returned None (zero dx or infeasible swap)";
    let r = registry(CurveFamily::StableSwapV2);
    let e = curve_math_quote_out(&r, &stable_state(), 0, 1, U256::zero()).unwrap_err();
    assert_eq!(reason(e), text);
    let e = curve_math_try_quote_out(&r, &stable_state(), 5, 9, U256::zero()).unwrap_err();
    assert_eq!(reason(e), text);
    assert_eq!(reason(quote_from_output(None).unwrap_err()), text);
    assert_eq!(quote_from_output(Some(n(3))).unwrap(), n(3));
}

#[test]
fn incomplete_states_have_no_model() {
    let r = registry(CurveFamily::StableSwapNg);
    assert_eq!(
        reason(curve_math_pool_from_state(&r, &stable_state()).unwrap_err()),
        "Curve local math: missing enriched field offpeg_fee_multiplier"
    );
    let r = registry(CurveFamily::MetaStableSwap);
    assert_eq!(
        reason(curve_math_pool_from_state(&r, &stable_state()).unwrap_err()),
        "Curve local math: missing enriched field meta_base_virtual_price"
    );
    let r = registry(CurveFamily::TwoCryptoNg);
    assert_eq!(
        reason(curve_math_pool_from_state(&r, &stable_state()).unwrap_err()),
        "Curve local math: missing enriched field D"
    );
    let mut s = crypto_state();
    s.curve_math_aux.price_scale_1 = None;
    let tri = registry(CurveFamily::CryptoTricrypto);
    assert_eq!(
        reason(curve_math_pool_from_state(&tri, &s).unwrap_err()),
        "Curve local math: missing enriched field price_scale(1)"
    );
    assert_eq!(
        reason(curve_math_pool_from_state(&tri, &crypto_state()).unwrap_err()),
        "TriCrypto: expected 3 coins"
    );
    let mut s = crypto_state();
    s.set_decimals(vec![18, 19]);
    match curve_math_pool_from_state(&r, &s).unwrap_err() {
        DexError::MathError(MathError::InvalidInput { operation, reason, context }) => {
            assert_eq!(operation, "crypto_precision");
            assert_eq!(reason, "decimals 19 > 18");
            assert_eq!(context, "Curve cryptoswap precisions");
        }
        _ => panic!("expected InvalidInput"),
    }
}

#[test]
fn mismatched_states_have_no_model() {
    let mut s = stable_state();
    s.set_decimals(vec![18]);
    assert_eq!(
        reason(
            curve_math_pool_from_state(&registry(CurveFamily::StableSwapV2), &s).unwrap_err()
        ),
        "StableSwapV2: balances/rates length mismatch"
    );
    assert_eq!(
        reason(curve_math_pool_from_state(&registry(CurveFamily::StableSwapN), &s).unwrap_err()),
        "StableSwapV0/V1: balances/rates length mismatch"
    );
    let mut s = stable_state();
    s.stableswap_stored_rates = Some(vec![n(WAD)]);
    assert_eq!(
        reason(curve_math_pool_from_state(&registry(CurveFamily::StableSwapN), &s).unwrap_err()),
        "StableSwapV0/V1: stableswap_stored_rates length mismatch"
    );
    let mut s = stable_state();
    s.amplification = U256::max_value();
    assert_eq!(
        reason(
            curve_math_pool_from_state(&registry(CurveFamily::StableSwapV2), &s).unwrap_err()
        ),
        "StableSwapV2: amp * A_PRECISION overflow"
    );
    let mut s = stable_state();
    s.pool_address = Address::zero();
    assert_eq!(
        reason(
            curve_math_pool_from_state(&registry(CurveFamily::StableSwapV2), &s).unwrap_err()
        ),
        "Curve pool 0x0000000000000000000000000000000000000000 not in curve_pool_registry.json"
    );
}

#[test]
fn models_hold_the_numbers_of_the_state() {
    match curve_math_pool_from_state(&registry(CurveFamily::StableSwapV2), &stable_state()).unwrap() {
        CurveMathPool::StableSwapV2(m) => {
            assert_eq!(m.amp, n(20_000));
            assert_eq!(m.fee, n(4_000_000));
            assert_eq!(m.rates[1], n(1_000_000_000_000_000_000_000_000_000_000));
            assert_eq!(m.balances[1], n(1_100_000_000_000));
        }
        _ => panic!("expected StableSwapV2"),
    }
    match curve_math_pool_from_state(&registry(CurveFamily::CryptoTricrypto), &tri_state()).unwrap() {
        CurveMathPool::TriCryptoV1(m) => {
            assert_eq!(m.precisions[0], n(1_000_000_000_000));
            assert_eq!(m.price_scale[1], n(4_000 * WAD));
            assert_eq!(m.ann, n(400_000));
        }
        _ => panic!("expected TriCryptoV1"),
    }
}
