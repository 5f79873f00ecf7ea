//! Tests whether the solvers of the crypto pools run through, and where the closed solution does.

use crate::dex::adapter::{wad, wad_value};
use crate::dex::curve::closed_form::Cubic;
use crate::dex::curve::newton::{lemma_floor, spread};
use crate::dex::curve::newton_start::{
    bend, load_of, reach_of_three, reach_of_two, solver_ready, three_runs, two_runs,
};
use crate::u256::{fits, limbs_value, u256_in_range, u256_limit, U256};
use vstd::prelude::*;

verus! {

broadcast use u256_in_range;

/// Powers of ten.
pub open spec fn ten_pow_31() -> nat {
    10_000_000_000_000_000_000_000_000_000_000nat
}

pub open spec fn ten_pow_36() -> nat {
    1_000_000_000_000_000_000_000_000_000_000_000_000nat
}

pub open spec fn ten_pow_38() -> nat {
    100_000_000_000_000_000_000_000_000_000_000_000_000nat
}

pub open spec fn ten_pow_50() -> nat {
    100_000_000_000_000_000_000_000_000_000_000_000_000_000_000_000_000nat
}

/// Whether the solver of a pool of three coins runs through, where the known coins hold `x` and
/// `y`.
pub open spec fn newton_three_ready(d: nat, ann: nat, gamma: nat, x: nat, y: nat) -> bool {
    if x >= y {
        three_runs(d, ann, gamma, x, y)
    } else {
        three_runs(d, ann, gamma, y, x)
    }
}

/// How far from its balance the closed solution takes a pool.
pub open spec fn closed_limit(gamma: nat) -> nat {
    if gamma > 20_000_000_000_000_000 {
        2 * ten_pow_36() / gamma
    } else {
        100 * wad()
    }
}

/// Whether the known coin holds too little or too much for the closed solution, which then gives
/// nothing.
pub open spec fn beyond_closed(d: nat, gamma: nat, x: nat) -> bool {
    2 * wad() * x / d < ten_pow_36() / closed_limit(gamma) || 2 * wad() * x / d > closed_limit(
        gamma,
    )
}

/// Whether the closed solution runs through, and Newton's method where there is no closed one.
pub open spec fn closed_ready(d: nat, ann: nat, gamma: nat, x: nat) -> bool {
    two_runs(d, ann, gamma, x) && (Cubic { d, ann, gamma, x }).solvable()
}

/// Whether the model with the closed solution can be solved or refuses by itself.
pub open spec fn closed_answers(d: nat, ann: nat, gamma: nat, x: nat) -> bool {
    &&& d > 0
    &&& gamma <= 2 * ten_pow_36()
    &&& x <= ten_pow_50()
    &&& beyond_closed(d, gamma, x) || closed_ready(d, ann, gamma, x)
}

fn ten_pow_31_value() -> (r: U256)
    ensures
        r@ == ten_pow_31(),
{
    U256::from_u128(10_000_000_000_000_000_000_000_000_000_000)
}

fn ten_pow_36_value() -> (r: U256)
    ensures
        r@ == ten_pow_36(),
{
    U256::from_u128(1_000_000_000_000_000_000_000_000_000_000_000_000)
}

fn ten_pow_38_value() -> (r: U256)
    ensures
        r@ == ten_pow_38(),
{
    U256::from_u128(100_000_000_000_000_000_000_000_000_000_000_000_000)
}

fn ten_pow_50_value() -> (r: U256)
    ensures
        r@ == ten_pow_50(),
{
    ten_pow_38_value().times(U256::from_u64(1_000_000_000_000))
}

/// Compares a product with a bound.
fn product_is_within(a: U256, b: U256, c: U256, bound: U256) -> (r: bool)
    requires
        c@ > 0,
    ensures
        r == (a@ * b@ * c@ <= bound@),
{
    match a.checked_mul(b) {
        None => {
            proof {
                let p: nat = a@ * b@;
                assert(p * c@ >= p) by (nonlinear_arith)
                    requires
                        c@ > 0,
                ;
            }
            false
        },
        Some(p) => match p.checked_mul(c) {
            None => false,
            Some(v) => !bound.less(&v),
        },
    }
}

proof fn lemma_bend_is_large(ann: nat, gamma: nat)
    requires
        !fits(ann * (gamma * gamma)),
    ensures
        bend(ann, gamma) > 1_000_000_000_000,
{
    let p: nat = ann * (gamma * gamma);
    let unit: nat = 10_000_000_000_000_000_000_000_000_000_000_000_000_000nat;
    assert(p / unit > 1_000_000_000_000) by (nonlinear_arith)
        requires
            p >= unit * ten_pow_36(),
            ten_pow_36() > 1_000_000_000_001,
            unit > 0,
    ;
}

/// The amplification far from the balance, where it is small.
fn bend_value(ann: U256, gamma: U256) -> (r: Option<U256>)
    requires
        ann@ > 0,
    ensures
        match r {
            Some(v) => v@ == bend(ann@, gamma@) && v@ <= 1_000_000_000_000,
            None => bend(ann@, gamma@) > 1_000_000_000_000,
        },
{
    let product = match gamma.checked_mul(gamma) {
        None => {
            proof {
                let square: nat = gamma@ * gamma@;
                assert(ann@ * square >= square) by (nonlinear_arith)
                    requires
                        ann@ > 0,
                ;
                lemma_bend_is_large(ann@, gamma@);
            }
            return None;
        },
        Some(square) => match ann.checked_mul(square) {
            None => {
                proof {
                    lemma_bend_is_large(ann@, gamma@);
                }
                return None;
            },
            Some(v) => v,
        },
    };
    let v = product.div(ten_pow_36_value().times(U256::from_u64(10_000)));
    if U256::from_u64(1_000_000_000_000).less(&v) {
        None
    } else {
        Some(v)
    }
}

/// Tests whether the parameters of a pool are ready for the solver.
fn solver_is_ready(
    d: U256,
    ann: U256,
    gamma: U256,
    reach: U256,
    depth: U256,
    order: u64,
) -> (r: bool)
    requires
        reach@ > 0,
        depth@ > 0,
        0 < order <= 27,
    ensures
        r == solver_ready(
            d@,
            ann@,
            gamma@,
            reach@,
            load_of(ann@, gamma@, reach@),
            depth@,
            order as nat,
        ),
{
    let one = U256::from_u64(1);
    let two = U256::from_u64(2);
    if d.is_zero() || ann.is_zero() || gamma.is_zero() || wad_value().times(two).less(&gamma) {
        return false;
    }
    let width = wad_value().div(gamma).plus(two);
    proof {
        lemma_floor(wad() as int, gamma@ as int);
        assert(width@ <= wad() + 2) by (nonlinear_arith)
            requires
                width@ == wad() / gamma@ + 2,
                (wad() / gamma@) * gamma@ <= wad(),
                gamma@ > 0,
        ;
        assert(0 < width@ * width@ <= ten_pow_38()) by (nonlinear_arith)
            requires
                0 < width@ <= 10_000_000_000_000_000_000nat,
                ten_pow_38() == 10_000_000_000_000_000_000nat * 10_000_000_000_000_000_000nat,
        ;
    }
    if wad_value().less(&width.times(U256::from_u64(128))) {
        return false;
    }
    let weight = match bend_value(ann, gamma) {
        None => {
            proof {
                assert(load_of(ann@, gamma@, reach@) > 1_000_000_000_000) by (nonlinear_arith)
                    requires
                        load_of(ann@, gamma@, reach@) == (bend(ann@, gamma@) + 1) * reach@,
                        bend(ann@, gamma@) > 1_000_000_000_000,
                        reach@ > 0,
                ;
            }
            return false;
        },
        Some(v) => v.plus(one),
    };
    if !product_is_within(weight, reach, one, U256::from_u64(1_000_000_000_000)) {
        return false;
    }
    let burden = weight.times(reach);
    if !product_is_within(reach, d, one, ten_pow_38_value()) {
        return false;
    }
    if !product_is_within(d, width.times(width), one, ten_pow_50_value()) {
        return false;
    }
    let extent = reach.times(d);
    proof {
        lemma_floor(extent@ as int, wad() as int);
        assert(extent@ / wad() <= extent@) by (nonlinear_arith)
            requires
                (extent@ / wad()) * wad() <= extent@,
                wad() >= 1,
        ;
        assert(reach@ <= extent@) by (nonlinear_arith)
            requires
                extent@ == reach@ * d@,
                d@ >= 1,
        ;
        assert(burden@ * burden@ <= ten_pow_36()) by (nonlinear_arith)
            requires
                burden@ <= 1_000_000_000_000,
        ;
    }
    let slack = extent.div(wad_value()).times(U256::from_u64(8)).plus(reach).plus(
        U256::from_u64(12),
    );
    proof {
        assert(64 * slack@ * width@ <= ten_pow_38() * ten_pow_38()) by (nonlinear_arith)
            requires
                64 * slack@ <= 100 * ten_pow_38(),
                100 * width@ <= ten_pow_38(),
        ;
        assert(64 * slack@ > 0 && width@ > 0);
    }
    let share = match depth.checked_mul(U256::from_u64(order)) {
        None => {
            proof {
                lemma_share_is_small(d@, depth@, order as nat);
            }
            return false;
        },
        Some(v) => v,
    };
    proof {
        assert(share@ == order as nat * depth@) by (nonlinear_arith)
            requires
                share@ == depth@ * order as nat,
        ;
        assert(share@ > 0) by (nonlinear_arith)
            requires
                share@ == depth@ * order as nat,
                depth@ > 0,
                order > 0,
        ;
    }
    product_is_within(slack.times(U256::from_u64(64)), width, share, d) && product_is_within(
        burden.times(burden).times(U256::from_u64(730)),
        share,
        one,
        d,
    ) && product_is_within(U256::from_u64(30_000), share, one, d)
}

/// A depth beyond a word is too deep.
proof fn lemma_share_is_small(d: nat, depth: nat, order: nat)
    requires
        fits(d),
        !fits(depth * order),
    ensures
        30_000 * (order * depth) > d,
{
    assert(order * depth == depth * order) by (nonlinear_arith);
}

/// Tests whether two numbers lie where Newton's method can run through at all.
fn are_small(d: U256, x: U256) -> (r: bool)
    ensures
        r == (0 < d@ <= ten_pow_38() && 0 < x@ <= ten_pow_38()),
{
    !d.is_zero() && !ten_pow_38_value().less(&d) && !x.is_zero() && !ten_pow_38_value().less(&x)
}

/// Where the solver is ready, its numbers are small.
proof fn lemma_ready_is_small(d: nat, x: nat, reach: nat)
    requires
        d > 0,
        reach * d <= ten_pow_38(),
        x / d < reach,
    ensures
        d <= ten_pow_38(),
        x <= ten_pow_38(),
{
    lemma_floor(x as int, d as int);
    let q = x / d;
    assert(x <= reach * d && d <= reach * d) by (nonlinear_arith)
        requires
            x < q * d + d,
            q + 1 <= reach,
            q >= 0,
            d >= 0,
    ;
}

/// A quotient of small numbers and one.
fn quotient_and_one(a: U256, b: U256) -> (r: U256)
    requires
        b@ > 0,
        a@ <= ten_pow_38(),
    ensures
        r@ == a@ / b@ + 1,
        0 < r@ <= a@ + 1,
{
    proof {
        lemma_floor(a@ as int, b@ as int);
        assert(a@ / b@ <= a@) by (nonlinear_arith)
            requires
                (a@ / b@) * b@ <= a@,
                b@ >= 1,
        ;
    }
    a.div(b).plus(U256::from_u64(1))
}

/// Tests whether the solver of a pool of two coins runs through.
pub(crate) fn newton_two_is_ready(d: U256, ann: U256, gamma: U256, x: U256) -> (r: bool)
    ensures
        r == two_runs(d@, ann@, gamma@, x@),
{
    if !are_small(d, x) {
        proof {
            if two_runs(d@, ann@, gamma@, x@) {
                lemma_ready_is_small(d@, x@, reach_of_two(x@, d@));
            }
        }
        return false;
    }
    let depth = quotient_and_one(x, d);
    let reach = depth.plus(quotient_and_one(d, x));
    solver_is_ready(d, ann, gamma, reach, depth, 4)
}

/// Tests whether the solver of a pool of three coins runs through, of which one known coin does not
/// hold more than the other.
fn ordered_three_is_ready(d: U256, ann: U256, gamma: U256, large: U256, small: U256) -> (r: bool)
    ensures
        r == three_runs(d@, ann@, gamma@, large@, small@),
{
    if !are_small(d, large) || !are_small(d, small) {
        proof {
            if three_runs(d@, ann@, gamma@, large@, small@) {
                let reach: nat = reach_of_three(large@, small@, d@);
                lemma_three_reach(large@, small@, d@);
                lemma_ready_is_small(d@, large@, reach);
                lemma_ready_is_small(d@, small@, reach);
            }
        }
        return false;
    }
    let of_large = quotient_and_one(large, d);
    let of_small = quotient_and_one(small, d);
    let by_large = quotient_and_one(d, large);
    let by_small = quotient_and_one(d, small);
    proof {
        lemma_three_reach(large@, small@, d@);
        let most: nat = ten_pow_38() + 1;
        assert(by_large@ * by_small@ <= most * most && of_large@ * of_small@ <= most * most)
            by (nonlinear_arith)
            requires
                by_large@ <= most,
                by_small@ <= most,
                of_large@ <= most,
                of_small@ <= most,
        ;
        assert(most * most + 3 * most < u256_limit()) by (nonlinear_arith)
            requires
                most == 100_000_000_000_000_000_000_000_000_000_000_000_001nat,
                u256_limit()
                    == 0x1_0000_0000_0000_0000_0000_0000_0000_0000_0000_0000_0000_0000_0000_0000_0000_0000nat,
        ;
        assert(of_large@ * of_small@ > 0) by (nonlinear_arith)
            requires
                of_large@ > 0,
                of_small@ > 0,
        ;
    }
    let reach = of_large.plus(of_small).plus(by_large.times(by_small));
    solver_is_ready(d, ann, gamma, reach, of_large.times(of_small), 27)
}

/// Tests whether the solver of a pool of three coins runs through.
pub(crate) fn newton_three_is_ready(d: U256, ann: U256, gamma: U256, x: U256, y: U256) -> (r: bool)
    ensures
        r == newton_three_ready(d@, ann@, gamma@, x@, y@),
{
    if x.less(&y) {
        ordered_three_is_ready(d, ann, gamma, y, x)
    } else {
        ordered_three_is_ready(d, ann, gamma, x, y)
    }
}

/// The reach of a pool of three coins is more than either quotient.
proof fn lemma_three_reach(x: nat, y: nat, d: nat)
    requires
        d > 0,
        x > 0,
        y > 0,
    ensures
        reach_of_three(x, y, d) > x / d,
        reach_of_three(x, y, d) > y / d,
{
    let p: nat = d / x + 1;
    let q: nat = d / y + 1;
    assert(p * q >= 0) by (nonlinear_arith);
}

fn half_of_limit() -> (r: U256)
    ensures
        r@ == u256_limit() / 2,
{
    proof {
        reveal(limbs_value);
    }
    U256::from_limbs(0, 0, 0, 0x8000_0000_0000_0000)
}

fn closed_limit_value(gamma: U256) -> (r: U256)
    ensures
        r@ == closed_limit(gamma@),
{
    if U256::from_u64(20_000_000_000_000_000).less(&gamma) {
        ten_pow_36_value().times(U256::from_u64(2)).div(gamma)
    } else {
        wad_value().times(U256::from_u64(100))
    }
}

/// Tests whether the closed solution runs through.
fn closed_is_ready(d: U256, ann: U256, gamma: U256, x: U256) -> (r: bool)
    ensures
        r == closed_ready(d@, ann@, gamma@, x@),
{
    let ghost pool = Cubic { d: d@, ann: ann@, gamma: gamma@, x: x@ };
    if !newton_two_is_ready(d, ann, gamma, x) {
        return false;
    }
    proof {
        lemma_ready_is_small(d@, x@, reach_of_two(x@, d@));
        assert(gamma@ * gamma@ <= ten_pow_38() * ten_pow_38()) by (nonlinear_arith)
            requires
                gamma@ <= ten_pow_38(),
        ;
        assert(pool.amplified() == ann@ * (gamma@ * gamma@));
        assert(pool.amplified() * d@ >= pool.amplified()) by (nonlinear_arith)
            requires
                d@ > 0,
        ;
    }
    if d.times(U256::from_u64(51)).less(&x) {
        return false;
    }
    let product = match ann.checked_mul(gamma.times(gamma)) {
        None => return false,
        Some(v) => match v.checked_mul(d) {
            None => return false,
            Some(v) => v,
        },
    };
    if !product.less(&half_of_limit()) {
        return false;
    }
    let gain = product.div(U256::from_u64(400_000_000)).div(x);
    let loss = ten_pow_31_value().times(U256::from_u64(30)).plus(
        gamma.times(U256::from_u64(200_000_000_000_000)),
    );
    if ten_pow_36_value().times(U256::from_u64(10)).less(&gain) {
        return false;
    }
    !gain.distance(loss).less(&ten_pow_31_value().times(U256::from_u64(3)))
}

/// Tests whether the known coin holds too little or too much for the closed solution.
pub(crate) fn is_beyond_closed(d: U256, gamma: U256, x: U256) -> (r: bool)
    requires
        d@ > 0,
        gamma@ <= 2 * ten_pow_36(),
        x@ <= ten_pow_50(),
    ensures
        r == beyond_closed(d@, gamma@, x@),
        x@ == 0 ==> r,
{
    let limit = closed_limit_value(gamma);
    proof {
        lemma_closed_limit(gamma@);
        if x@ == 0 {
            assert(2 * wad() * x@ / d@ == 0) by (nonlinear_arith)
                requires
                    x@ == 0,
                    d@ > 0,
            ;
            assert(ten_pow_36() / limit@ >= 1) by (nonlinear_arith)
                requires
                    0 < limit@ <= ten_pow_36(),
            ;
        }
    }
    let lean = wad_value().times(U256::from_u64(2)).times(x).div(d);
    lean.less(&ten_pow_36_value().div(limit)) || limit.less(&lean)
}

/// The limit of the closed solution is neither zero nor large.
proof fn lemma_closed_limit(gamma: nat)
    requires
        gamma <= 2 * ten_pow_36(),
    ensures
        0 < closed_limit(gamma) <= 100 * wad(),
{
    if gamma > 20_000_000_000_000_000 {
        assert(2 * ten_pow_36() / gamma >= 1) by (nonlinear_arith)
            requires
                0 < gamma <= 2 * ten_pow_36(),
        ;
        assert(2 * ten_pow_36() / gamma <= 100 * wad()) by (nonlinear_arith)
            requires
                gamma > 20_000_000_000_000_000,
                2 * ten_pow_36() == (100 * wad()) * 20_000_000_000_000_000,
        ;
    }
}

/// Tests whether the model with the closed solution can be solved or refuses by itself.
pub(crate) fn closed_does_answer(d: U256, ann: U256, gamma: U256, x: U256) -> (r: bool)
    ensures
        r == closed_answers(d@, ann@, gamma@, x@),
{
    if d.is_zero() || ten_pow_36_value().times(U256::from_u64(2)).less(&gamma)
        || ten_pow_50_value().less(&x) {
        return false;
    }
    is_beyond_closed(d, gamma, x) || closed_is_ready(d, ann, gamma, x)
}

} // verus!
