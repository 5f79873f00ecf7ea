//! What the measuring programs share.

use dex_math_core::harness::{
    absolute_diff, parse_iters, parse_number, rand_amount, warmup_iters, Parity,
};
use dex_math_core::u256::U256;

fn args(list: &[&str]) -> Vec<String> {
    list.iter().map(|s| s.to_string()).collect()
}

#[test]
fn numbers_are_read_as_std_reads_them() {
    for text in [
        "0", "7", "+7", "007", "18446744073709551615", "18446744073709551616", "", "+", "-1", "1x",
        "++1", "99999999999999999999999", "1 ",
    ] {
        assert_eq!(parse_number(text), text.parse::<u64>().ok());
    }
}

#[test]
fn the_last_number_of_rounds_counts() {
    assert_eq!(parse_iters(&args(&[]), 5), 5);
    assert_eq!(parse_iters(&args(&["--iters", "9"]), 5), 9);
    assert_eq!(parse_iters(&args(&["--iters", "9", "x", "--iters", "0"]), 5), 1);
    assert_eq!(parse_iters(&args(&["--iters", "no"]), 5), 5);
    assert_eq!(parse_iters(&args(&["--iters"]), 5), 5);
    assert_eq!(parse_iters(&args(&["--iters", "--iters", "9"]), 5), 5);
}

#[test]
fn warmup_is_a_tenth_within_bounds() {
    assert_eq!(warmup_iters(10), 1_000);
    assert_eq!(warmup_iters(123_456), 12_345);
    assert_eq!(warmup_iters(10_000_000), 20_000);
}

#[test]
fn amounts_are_drawn_by_the_generator() {
    let mut seed = 0xC0FFEEu64;
    let mut x = seed;
    x ^= x >> 12;
    x ^= x << 25;
    x ^= x >> 27;
    let v = x.wrapping_mul(0x2545F4914F6CDD1D) % 4_000;
    assert_eq!(rand_amount(&mut seed, 4_000), U256::from_u64(v.max(1)));
    assert_eq!(seed, x);
    for _ in 0..100 {
        let drawn = rand_amount(&mut seed, 0);
        assert_eq!(drawn, U256::from_u64(1));
    }
}

#[test]
fn a_tally_is_exact_while_nothing_differs() {
    let n = |v: u64| U256::from_u64(v);
    let mut p = Parity::new();
    p.record(n(5), n(5));
    assert_eq!((p.exact, p.total, p.max_diff), (1, 1, n(0)));
    p.record(n(5), n(9));
    p.record(n(9), n(8));
    assert_eq!((p.exact, p.total, p.max_diff), (1, 3, n(4)));
    assert_eq!(absolute_diff(n(3), n(10)), n(7));
}
