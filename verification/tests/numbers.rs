//! Wide numbers, their texts, powers, roots, rates and shares.

use dex_math_core::base::error::MathError;
use dex_math_core::base::precision::{
    div_basis_points, mul_basis_points, BasisPoints, ExactAmount, ExactProfit,
};
use dex_math_core::dex::common::calculate_exact_rate;
use dex_math_core::dex::curve::math::{pow10_u256, pow_u256, sqrt_u256};
use dex_math_core::dex::tick_lists::{sorted, sorted_distinct, sorted_set};
use dex_math_core::dex::ticks::{find_first_above, find_last_below};
use dex_math_core::dex::uniswap_v3::math::{
    mul_div, mul_div_rounding_up, reserves_to_sqrt_price_x96, sqrt_price_to_price,
    sqrt_price_to_price_wad,
};
use dex_math_core::text::{normalized, same_text, text_i128, text_u256, trim};
use dex_math_core::u256::U256;
use std::collections::HashSet;

fn n(v: u128) -> U256 {
    U256::from_u128(v)
}

#[test]
fn sums_and_quotients_cross_the_limbs() {
    let a = n(u128::MAX);
    assert_eq!(a.plus(n(1)), U256::from_limbs(0, 0, 1, 0));
    assert_eq!(U256::from_limbs(0, 0, 1, 0).minus(n(1)), a);
    assert_eq!(U256::from_limbs(0, 0, 0, 1).div(n(1 << 64)), U256::from_limbs(0, 0, 1, 0));
    assert_eq!(n(1_000_000_007).rem(n(1_000)), n(7));
    assert_eq!(n(5).distance(n(12)), n(7));
    assert_eq!(n(12).distance(n(5)), n(7));
    assert_eq!(n(5).minimum(n(12)), n(5));
}

#[test]
fn order_is_the_order_of_the_numbers() {
    let low = U256::from_limbs(u64::MAX, u64::MAX, 0, 0);
    let high = U256::from_limbs(0, 0, 1, 0);
    assert!(low.less(&high));
    assert!(!high.less(&low));
    assert!(low < high);
    assert!(high.less(&U256::max_value()));
    assert!(low.same(&n(u128::MAX)));
    assert_eq!(high.to_u128(), None);
    assert_eq!(low.to_u128(), Some(u128::MAX));
}

#[test]
fn numbers_are_written_in_decimal() {
    assert_eq!(text_u256(U256::zero()), "0");
    assert_eq!(text_u256(n(1_000_000_000_000_000_000_001)), "1000000000000000000001");
    assert_eq!(
        text_u256(U256::max_value()),
        "115792089237316195423570985008687907853269984665640564039457584007913129639935"
    );
    assert_eq!(text_i128(-42), "-42");
    assert_eq!(text_i128(i128::MIN), "-170141183460469231731687303715884105728");
}

#[test]
fn labels_are_trimmed_and_folded() {
    assert_eq!(trim("  a b \n"), "a b");
    assert_eq!(normalized(" Limit_Order ").into_iter().collect::<String>(), "limit_order");
    assert!(same_text("CVX_ETH", "CVX_ETH"));
    assert!(!same_text("CVX_ETH", "CVX_ETh"));
    assert!(!same_text("CVX", "CVX_ETH"));
}

#[test]
fn powers_are_exact_or_overflow() {
    assert_eq!(pow_u256(n(3), 40).unwrap(), n(12157665459056928801));
    assert_eq!(pow_u256(n(2), 255).unwrap(), U256::from_limbs(0, 0, 0, 1 << 63));
    assert!(matches!(pow_u256(n(2), 256), Err(MathError::Overflow { .. })));
    assert_eq!(pow_u256(U256::zero(), 5).unwrap(), U256::zero());
    assert_eq!(pow_u256(n(256), 31).unwrap(), U256::from_limbs(0, 0, 0, 1 << 56));
    assert!(matches!(pow_u256(n(256), 32), Err(MathError::Overflow { .. })));
    assert_eq!(pow10_u256(18).unwrap(), n(1_000_000_000_000_000_000));
    assert!(pow10_u256(77).is_ok());
    assert!(matches!(pow10_u256(78), Err(MathError::Overflow { .. })));
}

#[test]
fn roots_round_down() {
    assert_eq!(sqrt_u256(n(99)).unwrap(), n(9));
    assert_eq!(sqrt_u256(n(100)).unwrap(), n(10));
    assert_eq!(sqrt_u256(n(101)).unwrap(), n(10));
    assert_eq!(sqrt_u256(U256::max_value()).unwrap(), n(u128::MAX));
}

#[test]
fn full_products_divide_both_ways() {
    let big = U256::from_limbs(0, 0, 0, 1);
    assert_eq!(mul_div(big, n(6), n(4)).unwrap(), U256::from_limbs(0, 0, 1 << 63, 1));
    assert_eq!(mul_div(n(7), n(3), n(2)).unwrap(), n(10));
    assert_eq!(mul_div_rounding_up(n(7), n(3), n(2)).unwrap(), n(11));
    assert!(mul_div(big, big, n(1)).is_err());
    assert!(mul_div(n(1), n(1), U256::zero()).is_err());
}

#[test]
fn shares_divide_back() {
    let bps = BasisPoints::new(250).unwrap();
    assert_eq!(mul_basis_points(n(12_345), bps).unwrap(), n(308));
    assert_eq!(div_basis_points(n(308), bps).unwrap(), n(12_320));
    assert!(matches!(
        div_basis_points(n(308), BasisPoints::zero()),
        Err(MathError::DivisionByZero { .. })
    ));
    assert!(matches!(
        mul_basis_points(U256::max_value(), BasisPoints::max()),
        Err(MathError::Overflow { .. })
    ));
    assert!(matches!(BasisPoints::new(10_001), Err(MathError::InvalidInput { .. })));
}

#[test]
fn shares_do_not_exceed_and_grow_with_the_amount() {
    let bps = BasisPoints::new(9_999).unwrap();
    let mut last = U256::zero();
    for v in [0u128, 1, 2, 10_000, 10_001, 123_456_789] {
        let share = mul_basis_points(n(v), bps).unwrap();
        assert!(share <= n(v));
        assert!(share >= last);
        last = share;
    }
}

#[test]
fn amounts_are_profitable_unless_zero() {
    assert!(ExactAmount::new(U256::zero()).is_zero());
    assert!(!ExactProfit(U256::zero()).is_profitable());
    assert!(ExactProfit(n(1)).is_profitable());
}

#[test]
fn exact_rate_scales_by_decimals() {
    assert_eq!(calculate_exact_rate(n(1_000_000), n(2_000_000), 6, 6).unwrap(), n(20_000));
    assert_eq!(
        calculate_exact_rate(n(1_000_000), n(3_000_000_000_000_000_000), 6, 18).unwrap(),
        n(30_000)
    );
    assert!(matches!(
        calculate_exact_rate(U256::zero(), n(1), 6, 6),
        Err(MathError::InvalidInput { .. })
    ));
    assert!(matches!(
        calculate_exact_rate(n(1), U256::max_value(), 18, 18),
        Err(MathError::Overflow { .. })
    ));
    assert!(matches!(calculate_exact_rate(n(1), n(1), 39, 18), Err(MathError::Overflow { .. })));
}

#[test]
fn prices_follow_from_roots_and_reserves() {
    let one = n(1 << 96);
    assert_eq!(sqrt_price_to_price_wad(one).unwrap(), n(1_000_000_000_000_000_000));
    assert_eq!(sqrt_price_to_price_wad(n(3 << 95)).unwrap(), n(2_250_000_000_000_000_000));
    assert_eq!(sqrt_price_to_price(n(2 << 96)).unwrap(), n(4));
    assert_eq!(reserves_to_sqrt_price_x96(n(100), n(400)).unwrap(), n(2 << 96));
    assert!(matches!(
        reserves_to_sqrt_price_x96(U256::zero(), n(400)),
        Err(MathError::DivisionByZero { .. }) | Err(MathError::InvalidInput { .. })
    ));
}

#[test]
fn tick_lists_have_one_sorted_form() {
    assert_eq!(sorted(&[60, -60, 0, 60]), vec![-60, 0, 60, 60]);
    assert_eq!(sorted_distinct(&[60, -60, 0, 60]), vec![-60, 0, 60]);
    let set: HashSet<i32> = [5, 3, -1].into_iter().collect();
    assert_eq!(sorted_set(&set), vec![-1, 3, 5]);
}

#[test]
fn neighbours_of_a_tick_are_the_nearest_ones() {
    let ticks = [-120, -60, 0, 60];
    assert_eq!(find_last_below(&ticks, 0), Some(-60));
    assert_eq!(find_last_below(&ticks, -120), None);
    assert_eq!(find_first_above(&ticks, 0), Some(60));
    assert_eq!(find_first_above(&ticks, 60), None);
}
