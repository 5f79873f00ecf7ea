//! The pools that Newton's method solves: where it starts with two and with three coins, and what
//! the parameters of a pool must be so that it runs through.

use crate::dex::adapter::wad;
use crate::dex::curve::newton::{
    law_newton_divides_by_no_zero, lemma_at_most_quotient, lemma_cancel, lemma_floor, spread, Newton,
};
use crate::u256::{fits, u256_limit};
use vstd::prelude::*;

verus! {

/// What the pool and its reach must be so that the solver runs through: `depth` is more than the
/// product of the known balances as multiples of `d`, and `order` the number of coins to its own
/// power.
pub open spec fn solver_ready(
    d: nat,
    ann: nat,
    gamma: nat,
    reach: nat,
    load: nat,
    depth: nat,
    order: nat,
) -> bool {
    &&& d > 0 && ann > 0
    &&& 0 < gamma <= 2 * wad()
    &&& 128 * spread(gamma) <= wad()
    &&& load <= 1_000_000_000_000
    &&& reach * d <= 100_000_000_000_000_000_000_000_000_000_000_000_000nat
    &&& d * (spread(gamma) * spread(gamma))
        <= 100_000_000_000_000_000_000_000_000_000_000_000_000_000_000_000_000nat
    &&& 64 * (8 * (reach * d / wad()) + reach + 12) * spread(gamma) * (order * depth) <= d
    &&& 730 * (load * load) * (order * depth) <= d
    &&& 30_000 * (order * depth) <= d
}

/// The amplification far from the balance, rounded down: `ann` over its scale of 10000, times the
/// square of `gamma` over [`wad`].
pub open spec fn bend(ann: nat, gamma: nat) -> nat {
    ann * (gamma * gamma) / 10_000_000_000_000_000_000_000_000_000_000_000_000_000nat
}

/// The amplification times the reach.
pub open spec fn load_of(ann: nat, gamma: nat, reach: nat) -> nat {
    (bend(ann, gamma) + 1) * reach
}

/// What is ready for the solver meets its setting.
proof fn lemma_setting(pool: Newton, reach: nat, depth: nat, order: nat)
    requires
        solver_ready(
            pool.d,
            pool.ann,
            pool.gamma,
            reach,
            load_of(pool.ann, pool.gamma, reach),
            depth,
            order,
        ),
        reach >= 2,
        order * depth >= 1,
        pool.weight > 0,
        pool.weight <= order * wad() * depth,
        pool.known <= pool.d ==> pool.weight * (pool.d - pool.known) <= wad() * pool.d,
        wad() * pool.d + pool.weight * pool.known <= pool.weight * (reach * pool.d),
    ensures
        pool.setting(reach, load_of(pool.ann, pool.gamma, reach)),
        pool.small(reach),
{
    let w = wad();
    let d = pool.d;
    let m = pool.weight;
    let od = order * depth;
    let sp = spread(pool.gamma);
    let slack = pool.slack(reach);
    let b = bend(pool.ann, pool.gamma);
    let load = load_of(pool.ann, pool.gamma, reach);
    let full: nat = pool.ann * (pool.gamma * pool.gamma);
    let e40: nat = 10_000_000_000_000_000_000_000_000_000_000_000_000_000nat;
    assert(m <= w * od) by (nonlinear_arith)
        requires
            m <= order * w * depth,
            od == order * depth,
    ;
    assert(load >= reach) by (nonlinear_arith)
        requires
            load == (b + 1) * reach,
    ;
    lemma_floor(full as int, e40 as int);
    assert(full * reach <= (load * 10_000) * (w * w)) by {
        assert(10_000 * (w * w) == e40) by (nonlinear_arith)
            requires
                w == 1_000_000_000_000_000_000nat,
                e40 == 10_000_000_000_000_000_000_000_000_000_000_000_000_000nat,
        ;
        assert(full * reach <= ((b + 1) * e40) * reach) by (nonlinear_arith)
            requires
                full < b * e40 + e40,
        ;
        assert(((b + 1) * e40) * reach == load * e40) by (nonlinear_arith)
            requires
                load == (b + 1) * reach,
        ;
        let ww = w * w;
        assert((load * 10_000) * ww == load * (10_000 * ww)) by (nonlinear_arith);
    }
    let ss: nat = 64 * slack * sp;
    assert(ss * m <= w * d) by (nonlinear_arith)
        requires
            m <= w * od,
            ss * od <= d,
    ;
    let ll: nat = 730 * (load * load);
    assert(ll * m <= w * d) by (nonlinear_arith)
        requires
            m <= w * od,
            ll * od <= d,
    ;
    assert(30_000 * m <= w * d) by (nonlinear_arith)
        requires
            m <= w * od,
            30_000 * od <= d,
    ;
}

/// The solver of a pool of two coins of which the known one holds `x`.
pub open spec fn newton_of_two(d: nat, ann: nat, gamma: nat, x: nat) -> Newton {
    Newton { d, ann, gamma, known: x, weight: 2 * (2 * wad() * x / d) }
}

/// The balance with which it starts.
pub open spec fn start_of_two(d: nat, x: nat) -> nat {
    d * d / (4 * x)
}

/// How far a pool of two coins lies from its balance: more than the sum of the balances with
/// which the solver starts, as a multiple of `d`, where the known coin holds `x`.
pub open spec fn reach_of_two(x: nat, d: nat) -> nat {
    x / d + d / x + 2
}

/// Whether the solver of a pool of two coins runs through.
pub open spec fn two_runs(d: nat, ann: nat, gamma: nat, x: nat) -> bool {
    x > 0 && solver_ready(
        d,
        ann,
        gamma,
        reach_of_two(x, d),
        load_of(ann, gamma, reach_of_two(x, d)),
        x / d + 1,
        4,
    )
}

/// The solver of a pool of two coins divides by no zero and wraps nothing around: neither at its
/// start nor in any of its 255 steps.
pub proof fn law_two_coin_solver_runs(d: nat, ann: nat, gamma: nat, x: nat, steps: nat)
    requires
        two_runs(d, ann, gamma, x),
        steps <= 255,
    ensures
        fits(d * d) && fits(2 * wad() * x),
        newton_of_two(d, ann, gamma, x).divides(
            newton_of_two(d, ann, gamma, x).after(start_of_two(d, x), steps),
        ),
        newton_of_two(d, ann, gamma, x).in_words(
            newton_of_two(d, ann, gamma, x).after(start_of_two(d, x), steps),
        ),
{
    let w = wad() as int;
    let pool = newton_of_two(d, ann, gamma, x);
    let reach = reach_of_two(x, d);
    let load = load_of(ann, gamma, reach);
    let ki = (2 * wad() * x / d) as int;
    let m = 2 * ki;
    let xd = (x / d) as int;
    let dx = (d / x) as int;
    let di = d as int;
    let xi = x as int;
    let y0 = start_of_two(d, x) as int;
    let rd = (reach * d) as int;
    let wd = w * di;
    lemma_floor((2 * wad() * x) as int, di);
    lemma_floor(xi, di);
    lemma_floor(di, xi);
    lemma_floor((d * d) as int, (4 * x) as int);
    assert(xd >= 0 && dx >= 0 && ki >= 0 && y0 >= 0);
    assert(load >= reach) by (nonlinear_arith)
        requires
            load == (bend(ann, gamma) + 1) * reach,
    ;
    assert(m * di <= 4 * (w * xi) && m * di + 2 * di > 4 * (w * xi)) by (nonlinear_arith)
        requires
            m == 2 * ki,
            ki * di <= 2 * w * xi,
            2 * w * xi < ki * di + di,
    ;
    assert(4 * (xi * (di - xi)) <= di * di) by (nonlinear_arith);
    // The excess over d.
    if x <= d {
        assert(m * (di - xi) * di <= wd * di) by {
            let a = di - xi;
            let p = m * di;
            assert(p * a <= 4 * (w * xi) * a) by (nonlinear_arith)
                requires
                    p <= 4 * (w * xi),
                    a >= 0,
            ;
            assert(4 * (w * xi) * a == w * (4 * (xi * a))) by (nonlinear_arith);
            assert(w * (4 * (xi * a)) <= w * (di * di)) by (nonlinear_arith)
                requires
                    4 * (xi * a) <= di * di,
                    w >= 0,
            ;
            assert(m * a * di == p * a) by (nonlinear_arith)
                requires
                    p == m * di,
            ;
            assert(w * (di * di) == wd * di) by (nonlinear_arith)
                requires
                    wd == w * di,
            ;
        }
        lemma_cancel(m * (di - xi), wd, di);
    }
    // The reach.
    let z = dx + 1;
    assert(rd - xi >= z * di) by (nonlinear_arith)
        requires
            rd == (xd + dx + 2) * di,
            xi < xd * di + di,
            z == dx + 1,
    ;
    assert(m * (z * di) >= wd) by {
        assert(z * (4 * (w * xi)) >= 4 * wd) by (nonlinear_arith)
            requires
                di < dx * xi + xi,
                z == dx + 1,
                w >= 0,
                wd == w * di,
        ;
        let p = m * di;
        assert(z * p >= z * (4 * (w * xi)) - z * (2 * di)) by (nonlinear_arith)
            requires
                p + 2 * di > 4 * (w * xi),
                z >= 0,
        ;
        assert(z * (2 * di) <= 3 * wd) by (nonlinear_arith)
            requires
                2 * z <= 3 * w,
                wd == w * di,
                di >= 0,
        ;
        assert(m * (z * di) == z * p) by (nonlinear_arith)
            requires
                p == m * di,
        ;
    }
    assert(m * (rd - xi) >= m * (z * di)) by (nonlinear_arith)
        requires
            rd - xi >= z * di,
            m >= 0,
    ;
    assert(m * rd == m * (rd - xi) + m * xi) by (nonlinear_arith);
    assert(wd > 0) by (nonlinear_arith)
        requires
            wd == w * di,
            w > 0,
            di > 0,
    ;
    assert(m > 0) by (nonlinear_arith)
        requires
            m * (z * di) >= wd,
            wd > 0,
            m >= 0,
    ;
    let depth = xd + 1;
    assert(m <= 4 * w * depth) by {
        assert(m * di <= (4 * w * depth) * di) by (nonlinear_arith)
            requires
                m * di <= 4 * (w * xi),
                xi < xd * di + di,
                depth == xd + 1,
                w >= 0,
        ;
        lemma_cancel(m, 4 * w * depth, di);
    }
    assert(pool.weight * (reach * pool.d) == m * rd);
    lemma_setting(pool, reach, depth as nat, 4);
    // The start.
    let d2 = di * di;
    assert(y0 * (4 * xi) <= d2 < y0 * (4 * xi) + 4 * xi);
    assert(m * y0 <= wd) by {
        assert(m * y0 * di <= wd * di) by (nonlinear_arith)
            requires
                m * di <= 4 * (w * xi),
                y0 * (4 * xi) <= d2,
                d2 == di * di,
                wd == w * di,
                y0 >= 0,
                w >= 0,
        ;
        lemma_cancel(m * y0, wd, di);
    }
    let y1 = y0 + 1;
    assert(m * y1 >= wd - 2 * y1) by {
        assert(m * y1 * di >= (wd - 2 * y1) * di) by {
            let p = m * di;
            assert(p * y1 >= (4 * (w * xi) - 2 * di) * y1) by (nonlinear_arith)
                requires
                    p + 2 * di > 4 * (w * xi),
                    y1 >= 0,
            ;
            assert(4 * (w * xi) * y1 >= w * d2) by (nonlinear_arith)
                requires
                    d2 < y0 * (4 * xi) + 4 * xi,
                    y1 == y0 + 1,
                    w >= 0,
            ;
            assert((4 * (w * xi) - 2 * di) * y1 == 4 * (w * xi) * y1 - 2 * (y1 * di))
                by (nonlinear_arith);
            assert(m * y1 * di == p * y1) by (nonlinear_arith)
                requires
                    p == m * di,
            ;
            assert(w * d2 == wd * di) by (nonlinear_arith)
                requires
                    d2 == di * di,
                    wd == w * di,
            ;
            assert((wd - 2 * y1) * di == wd * di - 2 * (y1 * di)) by (nonlinear_arith);
        }
        lemma_cancel(wd - 2 * y1, m * y1, di);
    }
    assert(y0 <= rd) by {
        assert(y0 * (4 * xi) <= (z * di) * (4 * xi)) by (nonlinear_arith)
            requires
                y0 * (4 * xi) <= d2,
                d2 == di * di,
                di < dx * xi + xi,
                z == dx + 1,
                xi >= 0,
                di >= 0,
        ;
        lemma_cancel(y0, z * di, 4 * xi);
    }
    assert(8 * rd <= wd) by (nonlinear_arith)
        requires
            rd == reach * di,
            reach <= 1_000_000_000_000,
            wd == w * di,
            w >= 8_000_000_000_000,
            di >= 0,
    ;
    assert(m * y1 == m * y0 + m) by (nonlinear_arith)
        requires
            y1 == y0 + 1,
    ;
    assert(30_000 * di <= wd) by (nonlinear_arith)
        requires
            w >= 30_000,
            wd == w * di,
            di >= 0,
    ;
    assert(2 * (m * y0) >= wd);
    lemma_start(pool, y0 as nat, reach, load);
    assert(xi + y0 >= di) by {
        if xi + y0 < di {
            assert(4 * (xi * y1) <= d2) by (nonlinear_arith)
                requires
                    4 * (xi * (di - xi)) <= d2,
                    y1 <= di - xi,
                    xi >= 0,
            ;
            assert(y0 * (4 * xi) + 4 * xi == 4 * (xi * y1)) by (nonlinear_arith)
                requires
                    y1 == y0 + 1,
            ;
        }
    }
    law_newton_divides_by_no_zero(pool, y0 as nat, reach, load, steps);
    lemma_squares(d, x, reach);
}

/// A start at which the curvature is at least one half is high enough.
proof fn lemma_start(pool: Newton, y: nat, reach: nat, load: nat)
    requires
        pool.setting(reach, load),
        2 * (pool.weight * y) >= wad() * pool.d,
        pool.weight * y <= wad() * pool.d,
    ensures
        y > 0,
        pool.weight * y >= pool.floor(load) * pool.d,
        16 * (pool.weight * y) <= 17 * (wad() * pool.d) + 48 * 0 * (pool.d + pool.weight),
        4 * (pool.weight * y) >= wad() * pool.d,
{
    let l26 = (26 * load) as int;
    lemma_floor(wad() as int, l26);
    let least = pool.floor(load) as int;
    let d = pool.d as int;
    let wd = wad() * d;
    assert(2 * (least * d) <= wd) by (nonlinear_arith)
        requires
            least * l26 <= wad(),
            l26 >= 2,
            least >= 0,
            wd == wad() * d,
            d >= 0,
    ;
    assert(wd > 0) by (nonlinear_arith)
        requires
            wd == wad() * d,
            d > 0,
            wad() > 0,
    ;
    assert(y > 0) by (nonlinear_arith)
        requires
            2 * (pool.weight * y) >= wd,
            wd > 0,
    ;
    assert(48 * 0 * (pool.d + pool.weight) == 0) by (nonlinear_arith);
}

/// The first products of the solvers fit into a word.
proof fn lemma_squares(d: nat, x: nat, reach: nat)
    requires
        d > 0,
        reach >= 1,
        x / d < reach,
        reach * d <= 100_000_000_000_000_000_000_000_000_000_000_000_000nat,
    ensures
        fits(d * d),
        fits(2 * wad() * x),
        fits(9 * wad() * x),
        x <= reach * d,
        d <= reach * d,
{
    let e38: nat = 100_000_000_000_000_000_000_000_000_000_000_000_000;
    lemma_floor(x as int, d as int);
    let q = x / d;
    assert(x <= reach * d) by (nonlinear_arith)
        requires
            x < q * d + d,
            q + 1 <= reach,
    ;
    assert(d <= reach * d) by (nonlinear_arith)
        requires
            reach >= 1,
    ;
    assert(9 * wad() * x <= e38 * e38 && 2 * wad() * x <= e38 * e38) by (nonlinear_arith)
        requires
            x <= e38,
            9 * wad() <= e38,
    ;
    assert(d * d <= e38 * e38) by (nonlinear_arith)
        requires
            d <= e38,
    ;
    assert(e38 * e38
        == 10_000_000_000_000_000_000_000_000_000_000_000_000_000_000_000_000_000_000_000_000_000_000_000_000_000nat)
        by (nonlinear_arith)
        requires
            e38 == 100_000_000_000_000_000_000_000_000_000_000_000_000nat,
    ;
}

/// The solver of a pool of three coins of which the known ones hold `large` and `small`.
pub open spec fn newton_of_three(d: nat, ann: nat, gamma: nat, large: nat, small: nat) -> Newton {
    Newton {
        d,
        ann,
        gamma,
        known: large + small,
        weight: 3 * (3 * wad() * large / d * 3 * small / d),
    }
}

/// The balance with which it starts.
pub open spec fn start_of_three(d: nat, large: nat, small: nat) -> nat {
    d / 3 * d / (3 * small) * d / (3 * large)
}

/// How far a pool of three coins lies from its balance, where the known coins hold `x` and `y`.
pub open spec fn reach_of_three(x: nat, y: nat, d: nat) -> nat {
    x / d + y / d + (d / x + 1) * (d / y + 1) + 2
}

/// Whether the solver of a pool of three coins runs through.
pub open spec fn three_runs(d: nat, ann: nat, gamma: nat, x: nat, y: nat) -> bool {
    x > 0 && y > 0 && solver_ready(
        d,
        ann,
        gamma,
        reach_of_three(x, y, d),
        load_of(ann, gamma, reach_of_three(x, y, d)),
        (x / d + 1) * (y / d + 1),
        27,
    )
}

/// The cube of a sum of three numbers is at least 27 times their product.
proof fn lemma_means(a: int, b: int, c: int)
    requires
        a >= 0,
        b >= 0,
        c >= 0,
    ensures
        27 * (a * b * c) <= (a + b + c) * (a + b + c) * (a + b + c),
{
    let s = a + b + c;
    let p = a * b * c;
    let q = a * b + b * c + c * a;
    let r = a * a + b * b + c * c;
    assert(r >= q) by (nonlinear_arith)
        requires
            r == a * a + b * b + c * c,
            q == a * b + b * c + c * a,
    ;
    assert(s * s == r + 2 * q) by (nonlinear_arith)
        requires
            s == a + b + c,
            r == a * a + b * b + c * c,
            q == a * b + b * c + c * a,
    ;
    assert(a * ((b - c) * (b - c)) + b * ((c - a) * (c - a)) + c * ((a - b) * (a - b)) >= 0) by {
        assert(a * ((b - c) * (b - c)) >= 0) by (nonlinear_arith)
            requires
                a >= 0,
        ;
        assert(b * ((c - a) * (c - a)) >= 0) by (nonlinear_arith)
            requires
                b >= 0,
        ;
        assert(c * ((a - b) * (a - b)) >= 0) by (nonlinear_arith)
            requires
                c >= 0,
        ;
    }
    assert(a * ((b - c) * (b - c)) == a * (b * b) + a * (c * c) - 2 * p) by (nonlinear_arith)
        requires
            p == a * b * c,
    ;
    assert(b * ((c - a) * (c - a)) == b * (c * c) + b * (a * a) - 2 * p) by (nonlinear_arith)
        requires
            p == a * b * c,
    ;
    assert(c * ((a - b) * (a - b)) == c * (a * a) + c * (b * b) - 2 * p) by (nonlinear_arith)
        requires
            p == a * b * c,
    ;
    assert(s * q == a * (b * b) + a * (c * c) + b * (c * c) + b * (a * a) + c * (a * a) + c * (b
        * b) + 3 * p) by {
        assert(a * q == b * (a * a) + p + c * (a * a)) by (nonlinear_arith)
            requires
                q == a * b + b * c + c * a,
                p == a * b * c,
        ;
        assert(b * q == a * (b * b) + c * (b * b) + p) by (nonlinear_arith)
            requires
                q == a * b + b * c + c * a,
                p == a * b * c,
        ;
        assert(c * q == p + b * (c * c) + a * (c * c)) by (nonlinear_arith)
            requires
                q == a * b + b * c + c * a,
                p == a * b * c,
        ;
        assert(s * q == a * q + b * q + c * q) by (nonlinear_arith)
            requires
                s == a + b + c,
        ;
    }
    assert(s * q >= 9 * p);
    let t = s * s;
    assert(s * t >= s * (3 * q)) by (nonlinear_arith)
        requires
            t >= 3 * q,
            s >= 0,
    ;
    assert(s * (3 * q) == 3 * (s * q)) by (nonlinear_arith);
    assert(s * s * s == s * t) by (nonlinear_arith)
        requires
            t == s * s,
    ;
}

/// The weight of a pool of three coins.
proof fn lemma_three_weight(w: int, d: int, a: int, b: int, k1: int, ki: int)
    requires
        d > 0,
        b > 0,
        k1 * d <= 3 * (w * a),
        3 * (w * a) < k1 * d + d,
        ki * d <= 3 * (k1 * b),
        3 * (k1 * b) < ki * d + d,
    ensures
        3 * ki * (d * d) <= 27 * (w * (a * b)),
        3 * ki * (d * d) + 9 * (b * d) + 3 * (d * d) >= 27 * (w * (a * b)),
{
    let kd = k1 * d;
    let x = ki * d;
    let p = 3 * (k1 * b);
    assert(x * d <= p * d && p * d <= x * d + d * d) by (nonlinear_arith)
        requires
            x <= p,
            p < x + d,
            d > 0,
    ;
    assert(p * d == 3 * (kd * b)) by (nonlinear_arith)
        requires
            p == 3 * (k1 * b),
            kd == k1 * d,
    ;
    let wa = w * a;
    assert(kd * b <= 3 * wa * b && 3 * wa * b <= kd * b + d * b) by (nonlinear_arith)
        requires
            kd <= 3 * wa,
            3 * wa < kd + d,
            b > 0,
    ;
    assert(3 * wa * b == 3 * (w * (a * b))) by (nonlinear_arith)
        requires
            wa == w * a,
    ;
    assert(3 * ki * (d * d) == 3 * (x * d)) by (nonlinear_arith)
        requires
            x == ki * d,
    ;
    assert(d * b == b * d) by (nonlinear_arith);
}

/// The known coins against `d`, and the reach.
proof fn lemma_three_far(w: int, d: int, a: int, b: int, m: int, za: int, zb: int, reach: int)
    requires
        w >= 26 * reach,
        d > 0,
        a >= b,
        b > 0,
        m * (d * d) + 9 * (b * d) + 3 * (d * d) >= 27 * (w * (a * b)),
        d < za * a,
        za * a <= d + a,
        d < zb * b,
        zb * b <= d + b,
        za >= 1,
        zb >= 1,
        za * zb <= reach,
        a <= reach * d,
        reach >= 2,
    ensures
        m * (za * zb) >= w,
        d * d <= za * zb * (a * b),
        d * b <= za * zb * (a * b),
{
    let t = za * zb;
    let ab = a * b;
    let dd = d * d;
    let p = za * a;
    let q = zb * b;
    assert(dd <= p * q) by (nonlinear_arith)
        requires
            dd == d * d,
            d < p,
            d < q,
            d > 0,
    ;
    assert(p * q == t * ab) by (nonlinear_arith)
        requires
            p == za * a,
            q == zb * b,
            t == za * zb,
            ab == a * b,
    ;
    assert(za <= t) by (nonlinear_arith)
        requires
            t == za * zb,
            za >= 1,
            zb >= 1,
    ;
    assert(d * b <= t * ab) by {
        assert(d * b <= p * b) by (nonlinear_arith)
            requires
                d < p,
                b > 0,
        ;
        assert(p * b == za * ab) by (nonlinear_arith)
            requires
                p == za * a,
                ab == a * b,
        ;
        assert(za * ab <= t * ab) by (nonlinear_arith)
            requires
                za <= t,
                ab >= 0,
        ;
    }
    assert(t * b <= 3 * (reach * d)) by {
        let rd = reach * d;
        assert(t * b == za * q) by (nonlinear_arith)
            requires
                t == za * zb,
                q == zb * b,
        ;
        assert(za * q <= za * d + za * b) by (nonlinear_arith)
            requires
                q <= d + b,
                za >= 1,
        ;
        assert(za * b <= p) by (nonlinear_arith)
            requires
                p == za * a,
                b <= a,
                za >= 1,
        ;
        assert(2 * d <= rd) by (nonlinear_arith)
            requires
                rd == reach * d,
                reach >= 2,
                d > 0,
        ;
        if zb >= 2 {
            assert(2 * (za * d) <= rd) by (nonlinear_arith)
                requires
                    t == za * zb,
                    t <= reach,
                    zb >= 2,
                    rd == reach * d,
                    za >= 1,
                    d > 0,
            ;
        } else {
            assert(za * d <= rd) by (nonlinear_arith)
                requires
                    t == za * zb,
                    t <= reach,
                    zb == 1,
                    rd == reach * d,
                    d > 0,
            ;
        }
    }
    let md = m * dd;
    assert(t * md >= 27 * (w * dd) - 9 * (t * (b * d)) - 3 * (t * dd)) by {
        let bd = b * d;
        let x = 27 * (w * ab);
        assert(t * md >= t * (x - 9 * bd - 3 * dd)) by (nonlinear_arith)
            requires
                md >= x - 9 * bd - 3 * dd,
                t >= 1,
        ;
        assert(t * (x - 9 * bd - 3 * dd) == t * x - 9 * (t * bd) - 3 * (t * dd)) by (nonlinear_arith);
        assert(t * x == 27 * (w * (t * ab))) by (nonlinear_arith)
            requires
                x == 27 * (w * ab),
        ;
        assert(w * (t * ab) >= w * dd) by (nonlinear_arith)
            requires
                dd <= t * ab,
                w >= 0,
        ;
    }
    assert(t * (b * d) <= 3 * (reach * dd)) by {
        let tb = t * b;
        assert(tb * d <= 3 * (reach * d) * d) by (nonlinear_arith)
            requires
                tb <= 3 * (reach * d),
                d > 0,
        ;
        assert(t * (b * d) == tb * d) by (nonlinear_arith)
            requires
                tb == t * b,
        ;
        assert(3 * (reach * d) * d == 3 * (reach * dd)) by (nonlinear_arith)
            requires
                dd == d * d,
        ;
    }
    assert(t * dd <= reach * dd) by (nonlinear_arith)
        requires
            t <= reach,
            dd >= 0,
    ;
    assert(26 * (reach * dd) <= w * dd) by (nonlinear_arith)
        requires
            26 * reach <= w,
            dd >= 0,
    ;
    assert(dd > 0) by (nonlinear_arith)
        requires
            dd == d * d,
            d > 0,
    ;
    assert(t * md >= w * dd) by {
        assert(reach * dd >= 0) by (nonlinear_arith)
            requires
                reach >= 0,
                dd >= 0,
        ;
    }
    assert(t * md == (m * t) * dd) by (nonlinear_arith)
        requires
            md == m * dd,
    ;
    lemma_cancel(w, m * t, dd);
}

/// The balance with which the solver of a pool of three coins starts.
proof fn lemma_three_start(d: int, a: int, b: int, y1: int, y2: int, y0: int)
    requires
        d > 0,
        a > 0,
        b > 0,
        y1 >= 0,
        y2 >= 0,
        y0 >= 0,
        3 * y1 <= d < 3 * y1 + 3,
        3 * (b * y2) <= y1 * d,
        y1 * d < 3 * (b * y2) + 3 * b,
        3 * (a * y0) <= y2 * d,
        y2 * d < 3 * (a * y0) + 3 * a,
    ensures
        27 * (a * b * y0) <= d * d * d,
        27 * (a * b * (y0 + 1)) >= d * d * d - 3 * (d * d) - 9 * (b * d),
{
    let dd = d * d;
    let p = a * y0;
    let q = b * y2;
    let ab = a * b;
    assert(ab * y0 == p * b) by (nonlinear_arith)
        requires
            ab == a * b,
            p == a * y0,
    ;
    assert(3 * (p * b) <= (y2 * d) * b) by (nonlinear_arith)
        requires
            3 * p <= y2 * d,
            b > 0,
    ;
    assert((y2 * d) * b == q * d) by (nonlinear_arith)
        requires
            q == b * y2,
    ;
    assert(3 * (q * d) <= (y1 * d) * d) by (nonlinear_arith)
        requires
            3 * q <= y1 * d,
            d > 0,
    ;
    assert((y1 * d) * d == y1 * dd) by (nonlinear_arith)
        requires
            dd == d * d,
    ;
    assert(3 * (y1 * dd) <= d * dd && d * dd <= 3 * (y1 * dd) + 3 * dd) by (nonlinear_arith)
        requires
            3 * y1 <= d < 3 * y1 + 3,
            dd >= 0,
    ;
    assert(d * d * d == d * dd) by (nonlinear_arith)
        requires
            dd == d * d,
    ;
    assert((y2 * d) * b <= 3 * (p * b) + 3 * ab) by (nonlinear_arith)
        requires
            y2 * d < 3 * p + 3 * a,
            b > 0,
            ab == a * b,
    ;
    assert((y1 * d) * d <= 3 * (q * d) + 3 * (b * d)) by (nonlinear_arith)
        requires
            y1 * d < 3 * q + 3 * b,
            d > 0,
    ;
    assert(ab * (y0 + 1) == ab * y0 + ab) by (nonlinear_arith);
    assert(a * b * y0 == ab * y0 && a * b * (y0 + 1) == ab * (y0 + 1));
}

/// The start of a pool of three coins in terms of its weight.
proof fn lemma_three_curve(
    w: int,
    d: int,
    a: int,
    b: int,
    m: int,
    y0: int,
    za: int,
    t: int,
    reach: int,
)
    requires
        w == wad(),
        a > 0,
        b > 0,
        y0 >= 0,
        m >= 0,
        2 <= reach <= 1_000_000_000_000,
        1 <= za <= t <= reach,
        d >= 3000 * (reach + 12),
        b <= reach * d,
        d < za * a,
        d * d <= t * (a * b),
        m * (d * d) <= 27 * (w * (a * b)),
        m * (d * d) + 9 * (b * d) + 3 * (d * d) >= 27 * (w * (a * b)),
        27 * (a * b * y0) <= d * d * d,
        27 * (a * b * (y0 + 1)) >= d * d * d - 3 * (d * d) - 9 * (b * d),
        30_000 * m <= w * d,
    ensures
        m * y0 <= w * d,
        2 * (m * y0) >= w * d,
{
    let dd = d * d;
    let ab = a * b;
    let wd = w * d;
    let y1 = y0 + 1;
    let d3 = d * dd;
    assert(dd > 0) by (nonlinear_arith)
        requires
            dd == d * d,
            d > 0,
    ;
    assert(d * d * d == d3) by (nonlinear_arith)
        requires
            dd == d * d,
            d3 == d * dd,
    ;
    assert(w * d3 == wd * dd) by (nonlinear_arith)
        requires
            wd == w * d,
            d3 == d * dd,
    ;
    let x = ab * y0;
    assert(m * y0 <= wd) by {
        let md = m * dd;
        assert(md * y0 <= 27 * (w * ab) * y0) by (nonlinear_arith)
            requires
                md <= 27 * (w * ab),
                y0 >= 0,
        ;
        assert(27 * (w * ab) * y0 == w * (27 * x)) by (nonlinear_arith)
            requires
                x == ab * y0,
        ;
        assert(w * (27 * x) <= w * d3) by (nonlinear_arith)
            requires
                27 * x <= d3,
                w >= 0,
        ;
        assert(m * y0 * dd == md * y0) by (nonlinear_arith)
            requires
                md == m * dd,
        ;
        lemma_cancel(m * y0, wd, dd);
    }
    let bd = b * d;
    let rdd = reach * dd;
    assert(bd <= rdd) by (nonlinear_arith)
        requires
            b <= reach * d,
            bd == b * d,
            rdd == reach * dd,
            dd == d * d,
            d > 0,
    ;
    let rd3 = reach * d3;
    assert(27 * (bd * y0) <= rd3) by {
        let by = b * y0;
        assert(27 * (by * d) <= za * d3) by {
            assert(by * d <= by * (za * a)) by (nonlinear_arith)
                requires
                    d < za * a,
                    by >= 0,
            ;
            assert(by * (za * a) == za * x) by (nonlinear_arith)
                requires
                    by == b * y0,
                    x == ab * y0,
                    ab == a * b,
            ;
            assert(27 * (za * x) <= za * d3) by (nonlinear_arith)
                requires
                    27 * x <= d3,
                    za >= 1,
            ;
        }
        assert(za * d3 <= rd3) by (nonlinear_arith)
            requires
                za <= reach,
                rd3 == reach * d3,
                d3 >= 0,
        ;
        assert(bd * y0 == by * d) by (nonlinear_arith)
            requires
                bd == b * d,
                by == b * y0,
        ;
    }
    assert(27 * (dd * y0) <= rd3) by {
        assert(dd * y0 <= t * ab * y0) by (nonlinear_arith)
            requires
                dd <= t * ab,
                y0 >= 0,
        ;
        assert(t * ab * y0 == t * x) by (nonlinear_arith)
            requires
                x == ab * y0,
        ;
        assert(27 * (t * x) <= t * d3) by (nonlinear_arith)
            requires
                27 * x <= d3,
                t >= 1,
        ;
        assert(t * d3 <= rd3) by (nonlinear_arith)
            requires
                t <= reach,
                rd3 == reach * d3,
                d3 >= 0,
        ;
    }
    // m * dd * y1 is at least w * d3 less the roundings.
    let md = m * dd;
    assert(md * y1 >= w * (27 * (ab * y1)) - 9 * (bd * y1) - 3 * (dd * y1)) by {
        let z = 27 * (w * ab);
        assert(md * y1 >= (z - 9 * bd - 3 * dd) * y1) by (nonlinear_arith)
            requires
                md >= z - 9 * bd - 3 * dd,
                y1 >= 0,
        ;
        assert((z - 9 * bd - 3 * dd) * y1 == z * y1 - 9 * (bd * y1) - 3 * (dd * y1))
            by (nonlinear_arith);
        assert(z * y1 == w * (27 * (ab * y1))) by (nonlinear_arith)
            requires
                z == 27 * (w * ab),
        ;
    }
    assert(w * (27 * (ab * y1)) >= w * d3 - 3 * (w * dd) - 9 * (w * bd)) by (nonlinear_arith)
        requires
            27 * (ab * y1) >= d3 - 3 * dd - 9 * bd,
            w >= 0,
    ;
    assert(w * bd <= w * rdd) by (nonlinear_arith)
        requires
            bd <= rdd,
            w >= 0,
    ;
    assert(bd * y1 == bd * y0 + bd && dd * y1 == dd * y0 + dd) by (nonlinear_arith)
        requires
            y1 == y0 + 1,
    ;
    assert(md * y1 >= w * d3 - 3 * (w * dd) - 9 * (w * rdd) - rd3 - 9 * rdd - 3 * dd);
    assert(m * y1 >= wd - 3 * w - 9 * (w * reach) - reach * d - 9 * reach - 3) by {
        let low = wd - 3 * w - 9 * (w * reach) - reach * d - 9 * reach - 3;
        let wr = w * reach;
        let rd = reach * d;
        assert(low * dd == wd * dd - 3 * (w * dd) - 9 * (wr * dd) - rd * dd - 9 * (reach * dd) - 3
            * dd) by (nonlinear_arith)
            requires
                low == wd - 3 * w - 9 * wr - rd - 9 * reach - 3,
        ;
        assert(wr * dd == w * rdd) by (nonlinear_arith)
            requires
                wr == w * reach,
                rdd == reach * dd,
        ;
        assert(rd * dd == rd3) by (nonlinear_arith)
            requires
                rd == reach * d,
                rd3 == reach * d3,
                d3 == d * dd,
        ;
        assert(m * y1 * dd == md * y1) by (nonlinear_arith)
            requires
                md == m * dd,
        ;
        lemma_cancel(low, m * y1, dd);
    }
    assert(3000 * (w * reach) + 36_000 * w <= wd) by (nonlinear_arith)
        requires
            d >= 3000 * (reach + 12),
            wd == w * d,
            w >= 0,
    ;
    assert(1000 * (reach * d) <= wd) by (nonlinear_arith)
        requires
            1000 * reach <= w,
            wd == w * d,
            d >= 0,
    ;
    assert(9 * reach + 3 <= w);
    assert(m * y1 == m * y0 + m) by (nonlinear_arith)
        requires
            y1 == y0 + 1,
    ;
}

/// The solver of a pool of three coins divides by no zero and wraps nothing around: neither at its
/// start nor in any of its 255 steps.
pub proof fn law_three_coin_solver_runs(
    d: nat,
    ann: nat,
    gamma: nat,
    large: nat,
    small: nat,
    steps: nat,
)
    requires
        three_runs(d, ann, gamma, large, small),
        large >= small,
        steps <= 255,
    ensures
        fits(d / 3 * d) && fits(d / 3 * d / (3 * small) * d),
        fits(9 * wad() * large) && fits(3 * wad() * large / d * 3 * small),
        newton_of_three(d, ann, gamma, large, small).divides(
            newton_of_three(d, ann, gamma, large, small).after(
                start_of_three(d, large, small),
                steps,
            ),
        ),
        newton_of_three(d, ann, gamma, large, small).in_words(
            newton_of_three(d, ann, gamma, large, small).after(
                start_of_three(d, large, small),
                steps,
            ),
        ),
{
    let w = wad() as int;
    let pool = newton_of_three(d, ann, gamma, large, small);
    let reach = reach_of_three(large, small, d);
    let load = load_of(ann, gamma, reach);
    let di = d as int;
    let a = large as int;
    let b = small as int;
    let k1 = (3 * wad() * large / d) as int;
    let ki = (3 * wad() * large / d * 3 * small / d) as int;
    let m = 3 * ki;
    let qa = (large / d) as int;
    let qb = (small / d) as int;
    let za = (d / large) as int + 1;
    let zb = (d / small) as int + 1;
    let t = za * zb;
    let rd = (reach * d) as int;
    let wd = w * di;
    let dd = di * di;
    let ab = a * b;
    let y1 = (d / 3) as int;
    let y2 = (d / 3 * d / (3 * small)) as int;
    let y0 = start_of_three(d, large, small) as int;
    lemma_floor((3 * wad() * large) as int, di);
    lemma_floor((3 * wad() * large / d * 3 * small) as int, di);
    lemma_floor(a, di);
    lemma_floor(b, di);
    lemma_floor(di, a);
    lemma_floor(di, b);
    lemma_floor(di, 3);
    lemma_floor((d / 3 * d) as int, (3 * small) as int);
    lemma_floor((d / 3 * d / (3 * small) * d) as int, (3 * large) as int);
    assert(t >= za && t >= zb) by (nonlinear_arith)
        requires
            t == za * zb,
            za >= 1,
            zb >= 1,
    ;
    assert(reach == qa + qb + t + 2);
    assert(load >= reach) by (nonlinear_arith)
        requires
            load == (bend(ann, gamma) + 1) * reach,
    ;
    assert(dd > 0) by (nonlinear_arith)
        requires
            dd == di * di,
            di > 0,
    ;
    // The weight.
    assert((3 * wad() * large) as int == 3 * (w * a)) by (nonlinear_arith)
        requires
            w == wad(),
            a == large,
    ;
    let kn = 3 * wad() * large / d;
    assert(kn * 3 * small == 3 * (k1 * b)) by (nonlinear_arith)
        requires
            k1 == kn,
            b == small,
    ;
    lemma_three_weight(w, di, a, b, k1, ki);
    lemma_squares(d, large, reach);
    assert(za * a <= di + a && di < za * a) by (nonlinear_arith)
        requires
            za == (d / large) as int + 1,
            (d / large) as int * a <= di,
            di < (d / large) as int * a + a,
    ;
    assert(zb * b <= di + b && di < zb * b) by (nonlinear_arith)
        requires
            zb == (d / small) as int + 1,
            (d / small) as int * b <= di,
            di < (d / small) as int * b + b,
    ;
    lemma_three_far(w, di, a, b, m, za, zb, reach as int);
    let known = a + b;
    if known <= di {
        let c = di - known;
        lemma_means(a, b, c);
        assert(m * c * dd <= wd * dd) by {
            let md = m * dd;
            assert(md * c <= 27 * (w * ab) * c) by (nonlinear_arith)
                requires
                    md <= 27 * (w * ab),
                    c >= 0,
            ;
            let abc = ab * c;
            assert(27 * (w * ab) * c == w * (27 * abc)) by (nonlinear_arith)
                requires
                    abc == ab * c,
            ;
            let d3 = di * di * di;
            assert(w * (27 * abc) <= w * d3) by (nonlinear_arith)
                requires
                    27 * abc <= d3,
                    w >= 0,
            ;
            assert(w * d3 == wd * dd) by (nonlinear_arith)
                requires
                    d3 == di * di * di,
                    wd == w * di,
                    dd == di * di,
            ;
            assert(m * c * dd == md * c) by (nonlinear_arith)
                requires
                    md == m * dd,
            ;
        }
        lemma_cancel(m * c, wd, dd);
    }
    // The reach.
    assert(rd - known >= t * di) by (nonlinear_arith)
        requires
            rd == (qa + qb + t + 2) * di,
            a < qa * di + di,
            b < qb * di + di,
            known == a + b,
    ;
    assert(m * (t * di) >= wd) by {
        let mt = m * t;
        assert(mt * di >= w * di) by (nonlinear_arith)
            requires
                mt >= w,
                di > 0,
        ;
        assert(m * (t * di) == mt * di) by (nonlinear_arith)
            requires
                mt == m * t,
        ;
    }
    assert(m * (rd - known) >= m * (t * di)) by (nonlinear_arith)
        requires
            rd - known >= t * di,
            m >= 0,
    ;
    assert(m * rd == m * (rd - known) + m * known) by (nonlinear_arith);
    assert(m > 0) by (nonlinear_arith)
        requires
            m * t >= w,
            w > 0,
            m >= 0,
    ;
    let depth = (qa + 1) * (qb + 1);
    assert(m <= 27 * w * depth) by {
        let p = (qa + 1) * di;
        let q = (qb + 1) * di;
        assert(p == qa * di + di && q == qb * di + di) by (nonlinear_arith)
            requires
                p == (qa + 1) * di,
                q == (qb + 1) * di,
        ;
        assert(ab <= p * q) by (nonlinear_arith)
            requires
                ab == a * b,
                0 <= a <= p,
                0 <= b <= q,
        ;
        assert(p * q == depth * dd) by (nonlinear_arith)
            requires
                p == (qa + 1) * di,
                q == (qb + 1) * di,
                depth == (qa + 1) * (qb + 1),
                dd == di * di,
        ;
        assert(m * dd <= (27 * w * depth) * dd) by (nonlinear_arith)
            requires
                m * dd <= 27 * (w * ab),
                ab <= depth * dd,
                w >= 0,
        ;
        lemma_cancel(m, 27 * w * depth, dd);
    }
    assert(depth >= 1) by (nonlinear_arith)
        requires
            depth == (qa + 1) * (qb + 1),
            qa >= 0,
            qb >= 0,
    ;
    assert(pool.weight * (reach * pool.d) == m * rd);
    assert(pool.weight * pool.known == m * known);
    lemma_setting(pool, reach, depth as nat, 27);
    // The start.
    assert((d / 3 * d) as int == y1 * di);
    assert((3 * small) as int * y2 == 3 * (b * y2)) by (nonlinear_arith)
        requires
            b == small,
    ;
    assert((3 * large) as int * y0 == 3 * (a * y0)) by (nonlinear_arith)
        requires
            a == large,
    ;
    lemma_three_start(di, a, b, y1, y2, y0);
    assert(di >= 3000 * (reach + 12)) by {
        let sl: int = 64 * (8 * (rd / w) + reach + 12);
        let sp = spread(gamma) as int;
        let od = 27 * depth;
        lemma_floor(rd, w);
        lemma_at_most_quotient(0, rd, w);
        assert(sl * sp * od >= sl * 54) by (nonlinear_arith)
            requires
                sl >= 0,
                sp >= 2,
                od >= 27,
        ;
    }
    assert(b <= rd);
    lemma_three_curve(w, di, a, b, m, y0, za, t, reach as int);
    lemma_start(pool, y0 as nat, reach, load);
    assert(known + y0 + t + 1 >= di) by {
        let c = y0 + t + 1;
        let d3 = di * di * di;
        assert(27 * (ab * c) >= d3) by {
            assert(27 * (ab * c) == 27 * (ab * (y0 + 1)) + 27 * (t * ab)) by (nonlinear_arith)
                requires
                    c == y0 + t + 1,
            ;
            assert(di * b == b * di) by (nonlinear_arith);
            assert(a * b * (y0 + 1) == ab * (y0 + 1));
        }
        if known + c < di {
            lemma_means(a, b, c);
            let s = a + b + c;
            assert(s * s * s < d3) by (nonlinear_arith)
                requires
                    0 <= s < di,
                    d3 == di * di * di,
            ;
        }
    }
    law_newton_divides_by_no_zero(pool, y0 as nat, reach, load, steps);
    lemma_three_products(d, large, small, reach, k1, y1, y2);
}

/// The first products of the solver of three coins fit into a word.
proof fn lemma_three_products(
    d: nat,
    large: nat,
    small: nat,
    reach: nat,
    k1: int,
    y1: int,
    y2: int,
)
    requires
        d > 0,
        0 < small <= large <= reach * d,
        reach * d <= 100_000_000_000_000_000_000_000_000_000_000_000_000nat,
        reach <= 1_000_000_000_000,
        d / small < reach,
        0 <= k1,
        k1 * d <= 3 * (wad() * large),
        0 <= y1 <= d,
        0 <= y2,
        3 * (small * y2) <= y1 * d,
    ensures
        y1 * d < u256_limit(),
        y2 * d < u256_limit(),
        3 * (k1 * small) < u256_limit(),
{
    let w = wad() as int;
    let di = d as int;
    let b = small as int;
    let rd = (reach * d) as int;
    let e38: int = 100_000_000_000_000_000_000_000_000_000_000_000_000;
    let e76: int =
        10_000_000_000_000_000_000_000_000_000_000_000_000_000_000_000_000_000_000_000_000_000_000_000_000_000int;
    lemma_floor(di, b);
    let q = (d / small) as int;
    assert(di <= rd) by (nonlinear_arith)
        requires
            rd == reach * di,
            reach >= 1,
            di >= 0,
    ;
    assert(e38 * e38 == e76) by (nonlinear_arith)
        requires
            e38 == 100_000_000_000_000_000_000_000_000_000_000_000_000int,
            e76
                == 10_000_000_000_000_000_000_000_000_000_000_000_000_000_000_000_000_000_000_000_000_000_000_000_000_000int,
    ;
    assert(y1 * di <= e76) by (nonlinear_arith)
        requires
            0 <= y1 <= e38,
            0 <= di <= e38,
            e38 * e38 == e76,
    ;
    assert(y2 <= rd) by {
        assert(y2 * b <= rd * b) by (nonlinear_arith)
            requires
                3 * (b * y2) <= y1 * di,
                y1 <= di,
                di < q * b + b,
                q + 1 <= reach,
                rd == reach * di,
                di > 0,
                b > 0,
                y2 >= 0,
        ;
        lemma_cancel(y2, rd, b);
    }
    assert(y2 * di <= e76) by (nonlinear_arith)
        requires
            0 <= y2 <= e38,
            0 <= di <= e38,
            e38 * e38 == e76,
    ;
    let top: int = 3 * w * reach;
    assert(k1 <= top) by {
        assert(k1 * di <= top * di) by (nonlinear_arith)
            requires
                k1 * di <= 3 * (w * large),
                large <= reach * di,
                top == 3 * w * reach,
                w >= 0,
        ;
        lemma_cancel(k1, top, di);
    }
    assert(3 * top <= e38) by (nonlinear_arith)
        requires
            top == 3 * w * reach,
            w == 1_000_000_000_000_000_000int,
            reach <= 1_000_000_000_000,
            e38 == 100_000_000_000_000_000_000_000_000_000_000_000_000int,
    ;
    assert(3 * (k1 * b) <= e76) by (nonlinear_arith)
        requires
            0 <= k1 <= top,
            0 <= b <= e38,
            3 * top <= e38,
            e38 * e38 == e76,
    ;
}

/// How even the balances of two coins are, in the two orders in which the solvers round.
pub open spec fn evenness_of_two(x: nat, y: nat) -> nat {
    4 * wad() * x / (x + y) * y / (x + y)
}

pub open spec fn stepwise_evenness_of_two(x: nat, y: nat) -> nat {
    2 * wad() * x / (x + y) * 2 * y / (x + y)
}

/// How even the balances of three coins are.
pub open spec fn evenness_of_three(x: nat, y: nat, z: nat) -> nat {
    3 * wad() * x / (x + y + z) * 3 * y / (x + y + z) * 3 * z / (x + y + z)
}

/// Even balances have an evenness of one and others less. So the divisor of the fee, which is
/// `fee_gamma` and one less the evenness, is not zero where `fee_gamma` is not.
pub proof fn law_evenness_is_at_most_one(x: nat, y: nat, z: nat)
    requires
        x + y > 0,
    ensures
        evenness_of_two(x, y) <= wad(),
        stepwise_evenness_of_two(x, y) <= wad(),
        evenness_of_three(x, y, z) <= wad(),
{
    let w = wad() as int;
    let a = x as int;
    let b = y as int;
    let c = z as int;
    let s = a + b;
    let ss = s * s;
    assert(4 * (a * b) <= ss) by (nonlinear_arith)
        requires
            s == a + b,
            ss == s * s,
    ;
    assert(ss > 0) by (nonlinear_arith)
        requires
            ss == s * s,
            s > 0,
    ;
    let k1 = 4 * w * a / s;
    let k2 = k1 * b / s;
    lemma_floor(4 * w * a, s);
    lemma_floor(k1 * b, s);
    lemma_two_floors(4 * w, w, a, b, s, k1, k2);
    let j1 = 2 * w * a / s;
    let j2 = j1 * 2 * b / s;
    lemma_floor(2 * w * a, s);
    lemma_floor(j1 * 2 * b, s);
    assert(j1 * 2 * b == (2 * j1) * b) by (nonlinear_arith);
    assert((2 * j1) * s <= (4 * w) * a) by (nonlinear_arith)
        requires
            j1 * s <= 2 * w * a,
    ;
    lemma_two_floors(4 * w, w, a, b, s, 2 * j1, j2);
    let t = a + b + c;
    let h1 = 3 * w * a / t;
    let h2 = h1 * 3 * b / t;
    let h3 = h2 * 3 * c / t;
    lemma_floor(3 * w * a, t);
    lemma_floor(h1 * 3 * b, t);
    lemma_floor(h2 * 3 * c, t);
    lemma_means(a, b, c);
    assert(h3 * (t * t * t) <= w * (27 * (a * b * c))) by {
        assert(h3 * t <= 3 * (h2 * c) && h2 * t <= 3 * (h1 * b) && h1 * t <= 3 * (w * a))
            by (nonlinear_arith)
            requires
                h3 * t <= h2 * 3 * c,
                h2 * t <= h1 * 3 * b,
                h1 * t <= 3 * w * a,
        ;
        let p = h2 * c;
        assert(h3 * t * t <= 3 * (p * t)) by (nonlinear_arith)
            requires
                h3 * t <= 3 * p,
                t >= 0,
        ;
        let q = h1 * b;
        assert(p * t <= 3 * (q * c)) by (nonlinear_arith)
            requires
                p == h2 * c,
                h2 * t <= 3 * q,
                c >= 0,
        ;
        assert(h3 * t * t <= 9 * (q * c));
        assert(h3 * t * t * t <= 9 * (q * c) * t) by (nonlinear_arith)
            requires
                h3 * t * t <= 9 * (q * c),
                t >= 0,
        ;
        let bc = b * c;
        assert(9 * (q * c) * t == 9 * ((h1 * t) * bc)) by (nonlinear_arith)
            requires
                q == h1 * b,
                bc == b * c,
        ;
        assert((h1 * t) * bc <= 3 * (w * a) * bc) by (nonlinear_arith)
            requires
                h1 * t <= 3 * (w * a),
                bc >= 0,
        ;
        assert(3 * (w * a) * bc == 3 * (w * (a * b * c))) by (nonlinear_arith)
            requires
                bc == b * c,
        ;
        assert(h3 * (t * t * t) == h3 * t * t * t) by (nonlinear_arith);
        let abc = a * b * c;
        assert(w * (27 * abc) == 27 * (w * abc)) by (nonlinear_arith);
    }
    let ttt = t * t * t;
    assert(ttt > 0) by (nonlinear_arith)
        requires
            ttt == t * t * t,
            t > 0,
    ;
    let abc = a * b * c;
    assert(w * (27 * abc) <= w * ttt) by (nonlinear_arith)
        requires
            27 * abc <= ttt,
            w >= 0,
    ;
    lemma_cancel(h3, w, ttt);
}

/// Two roundings after each other.
proof fn lemma_two_floors(k: int, w: int, a: int, b: int, s: int, k1: int, k2: int)
    requires
        w >= 0,
        b >= 0,
        s > 0,
        k == 4 * w,
        k1 * s <= k * a,
        k2 * s <= k1 * b,
        4 * (a * b) <= s * s,
    ensures
        k2 <= w,
{
    let ss = s * s;
    assert(k2 * ss <= (k1 * s) * b) by (nonlinear_arith)
        requires
            k2 * s <= k1 * b,
            ss == s * s,
            s > 0,
    ;
    assert((k1 * s) * b <= (k * a) * b) by (nonlinear_arith)
        requires
            k1 * s <= k * a,
            b >= 0,
    ;
    let ab = a * b;
    assert((k * a) * b == w * (4 * ab)) by (nonlinear_arith)
        requires
            k == 4 * w,
            ab == a * b,
    ;
    assert(w * (4 * ab) <= w * ss) by (nonlinear_arith)
        requires
            4 * ab <= ss,
            w >= 0,
    ;
    assert(ss > 0) by (nonlinear_arith)
        requires
            ss == s * s,
            s > 0,
    ;
    lemma_cancel(k2, w, ss);
}

} // verus!
