//! Newton's method for the balance of one coin of a crypto pool, and why it divides by no zero.
//!
//! The solver keeps a balance `y` and at each step divides by it, by the curvature and by the
//! slope. Here its step is written over the integers, with each division rounded down. From its
//! start on, every step keeps [`Newton::inv`], under which all divisors are positive and all
//! intermediate numbers fit into a word.

use crate::dex::adapter::wad;
use crate::u256::fits;
use vstd::arithmetic::div_mod::lemma_fundamental_div_mod;
use vstd::prelude::*;

verus! {

/// What stays fixed while a crypto pool is solved: the invariant, the amplification, the width of
/// the balanced region, the sum of the known balances, and the curvature per unit of the unknown
/// balance, times `d`.
pub struct Newton {
    pub d: nat,
    pub ann: nat,
    pub gamma: nat,
    pub known: nat,
    pub weight: nat,
}

impl Newton {
    /// The curvature.
    pub open spec fn curve(self, y: nat) -> nat {
        self.weight * y / self.d
    }

    /// The distance of the curvature from the edge of the balanced region, and one.
    pub open spec fn gap(self, y: nat) -> nat {
        if self.gamma + wad() > self.curve(y) {
            (self.gamma + wad() - self.curve(y) + 1) as nat
        } else {
            (self.curve(y) - (self.gamma + wad()) + 1) as nat
        }
    }

    /// The first factor of the slope.
    pub open spec fn factor1(self, y: nat) -> nat {
        wad() * self.d / self.gamma * self.gap(y) / self.gamma * self.gap(y) * 10_000 / self.ann
    }

    /// The second factor of the slope.
    pub open spec fn factor2(self, y: nat) -> nat {
        wad() + 2 * wad() * self.curve(y) / self.gap(y)
    }

    /// The sum of all balances.
    pub open spec fn sum(self, y: nat) -> nat {
        self.known + y
    }

    /// The slope times the balance.
    pub open spec fn rise(self, y: nat) -> int {
        wad() * y + self.sum(y) * self.factor2(y) + self.factor1(y) - self.d * self.factor2(y)
    }

    /// The slope.
    pub open spec fn slope(self, y: nat) -> int {
        self.rise(y) / (y as int)
    }

    /// What the first factor takes away.
    pub open spec fn pull(self, y: nat) -> int {
        self.factor1(y) as int / self.slope(y)
    }

    /// What the next balance gains and what it loses.
    pub open spec fn plus(self, y: nat) -> int {
        (self.rise(y) + wad() * self.d) / self.slope(y) + self.pull(y) * wad() / (self.curve(
            y,
        ) as int)
    }

    pub open spec fn minus(self, y: nat) -> int {
        self.pull(y) + (wad() * self.sum(y)) as int / self.slope(y)
    }

    /// The next balance: half the balance where the slope or the next balance would be negative.
    pub open spec fn next(self, y: nat) -> nat {
        if self.rise(y) < 0 || self.plus(y) < self.minus(y) {
            y / 2
        } else {
            (self.plus(y) - self.minus(y)) as nat
        }
    }
}

/// By how much the width of the balanced region scales what the solver adds up.
pub open spec fn spread(gamma: nat) -> nat {
    wad() / gamma + 2
}

impl Newton {
    /// How far below `d` the balances may add up because of rounding.
    pub open spec fn slack(self, reach: nat) -> nat {
        8 * (reach * self.d / wad()) + reach + 12
    }

    /// The least curvature, where `load` is the amplification times the reach.
    pub open spec fn floor(self, load: nat) -> nat {
        wad() / (26 * load)
    }

    /// What the solver needs of a pool. `reach` bounds the sum of the balances as a multiple of
    /// `d`, and `load` is more than the amplification times `reach`.
    pub open spec fn setting(self, reach: nat, load: nat) -> bool {
        &&& self.d > 0 && self.ann > 0 && self.weight > 0
        &&& 0 < self.gamma <= 2 * wad()
        &&& 128 * spread(self.gamma) <= wad()
        &&& 2 <= reach <= load <= 1_000_000_000_000
        &&& self.ann * (self.gamma * self.gamma) * reach <= (load * 10_000) * (wad() * wad())
        &&& self.known <= self.d ==> self.weight * (self.d - self.known) <= wad() * self.d
        &&& wad() * self.d + self.weight * self.known <= self.weight * (reach * self.d)
        &&& 64 * self.slack(reach) * spread(self.gamma) * self.weight <= wad() * self.d
        &&& 730 * (load * load) * self.weight <= wad() * self.d
        &&& 30_000 * self.weight <= wad() * self.d
        &&& 30_000 <= self.d
    }

    /// What holds of the balance after `steps` steps.
    pub open spec fn inv(self, y: nat, reach: nat, load: nat, steps: nat) -> bool {
        &&& y > 0
        &&& self.weight * y >= self.floor(load) * self.d
        &&& 16 * (self.weight * y) <= 17 * (wad() * self.d) + 48 * steps * (self.d + self.weight)
        &&& self.sum(y) >= self.d || (self.sum(y) + self.slack(reach) >= self.d && 4 * (self.weight
            * y) >= wad() * self.d)
    }
}

/// A quotient, rounded down.
pub(crate) proof fn lemma_floor(a: int, b: int)
    requires
        b > 0,
    ensures
        (a / b) * b <= a < (a / b) * b + b,
        b * (a / b) <= a < b * (a / b) + b,
{
    lemma_fundamental_div_mod(a, b);
    assert((a / b) * b == b * (a / b)) by (nonlinear_arith);
}

/// A number that is not above the dividend in units of the divisor is not above the quotient.
pub(crate) proof fn lemma_at_most_quotient(v: int, a: int, b: int)
    requires
        b > 0,
        v * b <= a,
    ensures
        v <= a / b,
{
    lemma_floor(a, b);
    let q = a / b;
    assert(v <= q) by (nonlinear_arith)
        requires
            b > 0,
            v * b <= a,
            a < q * b + b,
    ;
}

/// The slope in terms of the rise.
proof fn lemma_slope(rise: int, y: int, c: int)
    requires
        y >= 1,
        c >= 1,
        rise >= c * y,
    ensures
        rise / y >= c,
        (rise / y) * y <= rise < (rise / y) * y + y,
{
    lemma_floor(rise, y);
    lemma_at_most_quotient(c, rise, y);
}

/// With the balances at or above `d`, a step takes away no more than the excess.
proof fn lemma_keeps_sum(w: int, d: int, s: int, y: int, rise: int, fp: int)
    requires
        w > 0,
        fp >= w,
        s >= d,
        fp * y <= rise,
    ensures
        (rise + w * d) / fp - (w * s) / fp >= y - (s - d),
{
    let b = (w * s) / fp;
    lemma_floor(w * s, fp);
    let v = b + y - (s - d);
    assert(v * fp <= rise + w * d) by (nonlinear_arith)
        requires
            v == b + y - (s - d),
            b * fp <= w * s,
            fp * y <= rise,
            s >= d,
            fp >= w,
    ;
    lemma_at_most_quotient(v, rise + w * d, fp);
}

/// With the balances below `d`, a step takes nothing away.
proof fn lemma_grows(w: int, d: int, s: int, y: int, rise: int, fp: int)
    requires
        w > 0,
        fp >= 1,
        s <= d,
        fp * y <= rise,
    ensures
        (rise + w * d) / fp - (w * s) / fp >= y,
{
    let b = (w * s) / fp;
    lemma_floor(w * s, fp);
    assert((b + y) * fp <= rise + w * d) by (nonlinear_arith)
        requires
            b * fp <= w * s,
            fp * y <= rise,
            s <= d,
            w > 0,
    ;
    lemma_at_most_quotient(b + y, rise + w * d, fp);
}

/// A step leaves what the rise without the excess leaves.
proof fn lemma_keeps_part(w: int, d: int, s: int, rise: int, fp: int, part: int)
    requires
        fp >= 1,
        part * fp <= rise - w * (s - d),
    ensures
        (rise + w * d) / fp - (w * s) / fp >= part,
{
    let b = (w * s) / fp;
    lemma_floor(w * s, fp);
    assert((b + part) * fp <= rise + w * d) by (nonlinear_arith)
        requires
            b * fp <= w * s,
            part * fp <= rise - w * (s - d),
    ;
    lemma_at_most_quotient(b + part, rise + w * d, fp);
}

/// How far a step can go up.
proof fn lemma_ceiling(w: int, d: int, s: int, rise: int, fp: int)
    requires
        fp >= 1,
    ensures
        ((rise + w * d) / fp - (w * s) / fp - 1) * fp < rise - w * (s - d),
{
    let a = (rise + w * d) / fp;
    let b = (w * s) / fp;
    lemma_floor(rise + w * d, fp);
    lemma_floor(w * s, fp);
    assert((a - b - 1) * fp < rise - w * (s - d)) by (nonlinear_arith)
        requires
            a * fp <= rise + w * d,
            w * s < b * fp + fp,
    ;
}

/// Cancels a positive factor.
pub(crate) proof fn lemma_cancel(a: int, b: int, c: int)
    requires
        c > 0,
        a * c <= b * c,
    ensures
        a <= b,
{
    assert(a <= b) by (nonlinear_arith)
        requires
            c > 0,
            a * c <= b * c,
    ;
}

/// Where the curvature is above one, the two roundings together take away hardly more than the
/// excess `u`.
proof fn lemma_shares(w: int, d: int, u: int, y: int, m: int, k0: int, f1: int, fp: int, ym: int)
    requires
        w >= 2,
        d >= 1,
        y >= 1,
        u >= 0,
        f1 >= 0,
        ym >= 0,
        fp >= 1,
        k0 > w,
        k0 * d <= m * y,
        m * y < (k0 + 1) * d,
        m * u >= m * y - w * d,
        fp * y >= (w - 1) * y + f1,
        ym * fp <= f1,
    ensures
        ((w * u) / fp + (ym * (k0 - w)) / k0 - u) * (w - 1) <= 2 * u,
{
    let e = k0 - w;
    let c = (w * u) / fp;
    let l = (ym * e) / k0;
    let p = fp * y;
    lemma_floor(w * u, fp);
    lemma_floor(ym * e, k0);
    assert(l >= 0) by {
        assert(ym * e >= 0) by (nonlinear_arith)
            requires
                ym >= 0,
                e >= 0,
        ;
        lemma_at_most_quotient(0, ym * e, k0);
    }
    assert(c * p <= w * u * y) by (nonlinear_arith)
        requires
            p == fp * y,
            c * fp <= w * u,
            y >= 1,
    ;
    assert(l * k0 * fp <= f1 * e) by (nonlinear_arith)
        requires
            l * k0 <= ym * e,
            ym * fp <= f1,
            fp >= 1,
            e >= 0,
    ;
    assert(d * e <= m * u) by (nonlinear_arith)
        requires
            e == k0 - w,
            k0 * d <= m * y,
            m * u >= m * y - w * d,
    ;
    let lk = l * k0;
    assert(lk * p * d <= f1 * u * (k0 + 1) * d) by {
        let a = lk * fp;
        assert(a * (y * d) <= f1 * e * (y * d)) by (nonlinear_arith)
            requires
                a <= f1 * e,
                y >= 1,
                d >= 1,
        ;
        assert(lk * p * d == a * (y * d)) by (nonlinear_arith)
            requires
                a == lk * fp,
                p == fp * y,
        ;
        assert(f1 * e * (y * d) == (d * e) * (f1 * y)) by (nonlinear_arith);
        assert((d * e) * (f1 * y) <= (m * u) * (f1 * y)) by (nonlinear_arith)
            requires
                d * e <= m * u,
                f1 >= 0,
                y >= 1,
        ;
        assert((m * u) * (f1 * y) == (m * y) * (f1 * u)) by (nonlinear_arith);
        assert((m * y) * (f1 * u) <= ((k0 + 1) * d) * (f1 * u)) by (nonlinear_arith)
            requires
                m * y < (k0 + 1) * d,
                f1 >= 0,
                u >= 0,
        ;
        assert(((k0 + 1) * d) * (f1 * u) == f1 * u * (k0 + 1) * d) by (nonlinear_arith);
    }
    lemma_cancel(lk * p, f1 * u * (k0 + 1), d);
    let x = c + l - u;
    assert(x * (k0 * p) <= u * k0 * y + f1 * u) by {
        assert(c * p * k0 <= w * u * y * k0) by (nonlinear_arith)
            requires
                c * p <= w * u * y,
                k0 >= 0,
        ;
        assert(u * k0 * p >= u * k0 * ((w - 1) * y + f1)) by (nonlinear_arith)
            requires
                p >= (w - 1) * y + f1,
                u >= 0,
                k0 >= 0,
        ;
        assert(x * (k0 * p) == c * p * k0 + l * k0 * p - u * k0 * p) by (nonlinear_arith)
            requires
                x == c + l - u,
        ;
        let a = u * k0;
        assert(w * u * y * k0 == a * (w * y)) by (nonlinear_arith)
            requires
                a == u * k0,
        ;
        assert(f1 * u * (k0 + 1) == a * f1 + f1 * u) by (nonlinear_arith)
            requires
                a == u * k0,
        ;
        assert(a * ((w - 1) * y + f1) == a * (w * y) - a * y + a * f1) by (nonlinear_arith);
    }
    assert(x * (w - 1) * (k0 * p) <= 2 * u * (k0 * p)) by {
        let kp = k0 * p;
        assert(x * kp * (w - 1) <= (u * k0 * y + f1 * u) * (w - 1)) by (nonlinear_arith)
            requires
                x * kp <= u * k0 * y + f1 * u,
                w >= 2,
        ;
        assert(u * k0 * ((w - 1) * y) <= u * k0 * p) by (nonlinear_arith)
            requires
                p >= (w - 1) * y + f1,
                f1 >= 0,
                u >= 0,
                k0 >= 0,
        ;
        assert(f1 * u * (w - 1) <= u * k0 * p) by (nonlinear_arith)
            requires
                p >= f1,
                f1 >= 0,
                u >= 0,
                0 <= w - 1 <= k0,
        ;
        assert((u * k0 * y + f1 * u) * (w - 1) == u * k0 * ((w - 1) * y) + f1 * u * (w - 1))
            by (nonlinear_arith);
        assert(x * (w - 1) * kp == x * kp * (w - 1)) by (nonlinear_arith);
        assert(2 * u * kp == u * k0 * p + u * k0 * p) by (nonlinear_arith)
            requires
                kp == k0 * p,
        ;
    }
    assert(k0 * p > 0) by (nonlinear_arith)
        requires
            k0 > 0,
            p >= (w - 1) * y + f1,
            w >= 2,
            y >= 1,
            f1 >= 0,
    ;
    lemma_cancel(x * (w - 1), 2 * u, k0 * p);
}

/// How far a step can go up while the curvature is at most one.
proof fn lemma_upper(w: int, d: int, s: int, y: int, m: int, k0: int, rise: int, fp: int, ym: int, slack: int)
    requires
        w >= 128,
        d >= 1,
        y >= 1,
        m >= 1,
        slack >= 0,
        64 <= k0 <= w,
        k0 * d <= m * y,
        m * y < (k0 + 1) * d,
        8 * (m * y) <= 9 * (w * d),
        2 * fp >= w,
        fp >= 1,
        rise < fp * y + y,
        d - s <= slack,
        0 <= ym <= y,
        128 * (m * slack) <= w * d,
        30_000 * m <= w * d,
        30_000 <= w,
    ensures
        16 * (m * ((rise + w * d) / fp - (w * s) / fp + ym * w / k0 - ym)) <= 17 * (w * d),
{
    let up = (rise + w * d) / fp - (w * s) / fp;
    let over = up - 1 - y;
    let back = ym * w / k0 - ym;
    lemma_ceiling(w, d, s, rise, fp);
    assert(m * over <= 3 * d + 2 * (m * slack)) by {
        if over > 0 {
            assert(over * fp < y + w * slack) by (nonlinear_arith)
                requires
                    over == up - 1 - y,
                    (up - 1) * fp < rise - w * (s - d),
                    rise < fp * y + y,
                    d - s <= slack,
                    w >= 0,
            ;
            assert(over * w < 2 * y + 2 * (w * slack)) by (nonlinear_arith)
                requires
                    over * fp < y + w * slack,
                    2 * fp >= w,
                    over > 0,
            ;
            assert(m * over * w <= 2 * (m * y) + 2 * (m * slack) * w) by (nonlinear_arith)
                requires
                    over * w < 2 * y + 2 * (w * slack),
                    m >= 1,
            ;
            assert(m * over * w <= (3 * d + 2 * (m * slack)) * w) by (nonlinear_arith)
                requires
                    m * over * w <= 2 * (m * y) + 2 * (m * slack) * w,
                    8 * (m * y) <= 9 * (w * d),
                    w >= 0,
                    d >= 0,
            ;
            lemma_cancel(m * over, 3 * d + 2 * (m * slack), w);
        } else {
            assert(m * over <= 0) by (nonlinear_arith)
                requires
                    over <= 0,
                    m >= 1,
            ;
            assert(m * slack >= 0) by (nonlinear_arith)
                requires
                    m >= 1,
                    slack >= 0,
            ;
        }
    }
    assert(64 * (m * (y + back)) <= 65 * (w * d) + 64 * d) by {
        lemma_floor(ym * w, k0);
        assert(back * k0 <= y * (w - k0)) by (nonlinear_arith)
            requires
                (ym * w / k0) * k0 <= ym * w,
                back == ym * w / k0 - ym,
                0 <= ym <= y,
                k0 <= w,
        ;
        assert(m * back * k0 <= (k0 + 1) * d * (w - k0)) by (nonlinear_arith)
            requires
                back * k0 <= y * (w - k0),
                m * y < (k0 + 1) * d,
                m >= 1,
                k0 <= w,
        ;
        let my = m * y;
        let mb = m * back;
        assert((my + mb) * k0 <= (w * d + d) * k0 + w * d) by (nonlinear_arith)
            requires
                mb * k0 <= (k0 + 1) * d * (w - k0),
                my < (k0 + 1) * d,
                0 <= k0 <= w,
                d >= 0,
        ;
        assert(m * (y + back) == my + mb) by (nonlinear_arith)
            requires
                my == m * y,
                mb == m * back,
        ;
        let x = my + mb - w * d - d;
        assert(x * k0 <= w * d) by (nonlinear_arith)
            requires
                x == my + mb - w * d - d,
                (my + mb) * k0 <= (w * d + d) * k0 + w * d,
        ;
        assert(64 * x <= w * d) by (nonlinear_arith)
            requires
                x * k0 <= w * d,
                k0 >= 64,
                w * d >= 0,
        ;
    }
    let net = up + back;
    assert(m * net == m * over + m * (y + back) + m) by (nonlinear_arith)
        requires
            net == up + back,
            over == up - 1 - y,
    ;
    assert(30_000 * d <= w * d) by (nonlinear_arith)
        requires
            30_000 <= w,
            d >= 1,
    ;
}

/// How far a step can go up while the curvature is above one.
proof fn lemma_upper_above(w: int, d: int, s: int, y: int, m: int, k0: int, rise: int, fp: int, ym: int)
    requires
        w >= 1,
        d >= 1,
        y >= 1,
        m >= 1,
        k0 >= w,
        8 * (m * y) <= 9 * (w * d),
        fp >= w,
        rise < fp * y + y,
        s >= d,
        ym >= 0,
    ensures
        m * ((rise + w * d) / fp - (w * s) / fp + ym * w / k0 - ym) <= m * y + 3 * (d + m),
{
    let up = (rise + w * d) / fp - (w * s) / fp;
    let over = up - 1 - y;
    lemma_ceiling(w, d, s, rise, fp);
    assert(ym * w / k0 <= ym) by {
        lemma_floor(ym * w, k0);
        let q = ym * w / k0;
        assert(q <= ym) by (nonlinear_arith)
            requires
                q * k0 <= ym * w,
                w <= k0,
                ym >= 0,
                w >= 1,
        ;
    }
    assert(m * over <= 3 * d) by {
        if over > 0 {
            assert(over * fp < y) by (nonlinear_arith)
                requires
                    over == up - 1 - y,
                    (up - 1) * fp < rise - w * (s - d),
                    rise < fp * y + y,
                    s >= d,
                    w >= 0,
            ;
            assert(over * w < y) by (nonlinear_arith)
                requires
                    over * fp < y,
                    fp >= w,
                    over > 0,
            ;
            assert(m * over * w <= m * y) by (nonlinear_arith)
                requires
                    over * w < y,
                    m >= 1,
            ;
            assert(m * over * w <= (3 * d) * w) by (nonlinear_arith)
                requires
                    m * over * w <= m * y,
                    8 * (m * y) <= 9 * (w * d),
                    w >= 0,
                    d >= 0,
            ;
            lemma_cancel(m * over, 3 * d, w);
        } else {
            assert(m * over <= 0) by (nonlinear_arith)
                requires
                    over <= 0,
                    m >= 1,
            ;
        }
    }
    let net = up + ym * w / k0 - ym;
    assert(m * net <= m * over + m * y + m) by (nonlinear_arith)
        requires
            net <= over + 1 + y,
            m >= 1,
    ;
}

/// Where the second factor is large, a step leaves a fixed part of the balance.
proof fn lemma_keeps_share(w: int, d: int, s: int, y: int, f1: int, f2: int, rise: int, fp: int, r: int)
    requires
        w >= 1,
        y >= 1,
        s >= d,
        f1 >= 0,
        r >= 1,
        r * (f2 - w) >= f2,
        rise == w * y + (s - d) * f2 + f1,
        fp >= 1,
        fp * y <= rise,
    ensures
        (rise + w * d) / fp - (w * s) / fp >= y / r,
{
    let u = s - d;
    let part = y / r;
    let rest = rise - w * u;
    lemma_floor(y, r);
    assert(rise <= r * rest) by {
        assert(rest == w * y + u * (f2 - w) + f1) by (nonlinear_arith)
            requires
                rest == rise - w * u,
                rise == w * y + u * f2 + f1,
        ;
        assert(u * f2 <= r * (u * (f2 - w))) by (nonlinear_arith)
            requires
                u >= 0,
                r * (f2 - w) >= f2,
        ;
        assert(w * y + f1 <= r * (w * y + f1)) by (nonlinear_arith)
            requires
                w >= 1,
                y >= 1,
                f1 >= 0,
                r >= 1,
        ;
        assert(r * rest == r * (w * y + f1) + r * (u * (f2 - w))) by (nonlinear_arith)
            requires
                rest == w * y + u * (f2 - w) + f1,
        ;
    }
    assert((part * fp) * r <= rest * r) by (nonlinear_arith)
        requires
            part * r <= y,
            fp * y <= rise,
            rise <= r * rest,
            fp >= 1,
    ;
    lemma_cancel(part * fp, rest, r);
    lemma_keeps_part(w, d, s, rise, fp, part);
}

/// Where the curvature is small, the first factor keeps the next balance up.
proof fn lemma_lower(
    w: int,
    d: int,
    y: int,
    m: int,
    k0: int,
    f1: int,
    rise: int,
    fp: int,
    load: int,
    least: int,
)
    requires
        w >= 1,
        d >= 1,
        y >= 1,
        m >= 1,
        load >= 1,
        f1 >= 1,
        fp >= 1,
        1 <= least <= k0,
        k0 * d <= m * y,
        fp * y <= rise,
        rise <= 13 * load * f1,
        26 * load * least <= w,
        w <= 27 * load * least,
        730 * (load * load) * m <= w * d,
    ensures
        m * ((f1 / fp) * w / k0) >= least * d,
{
    let ym = f1 / fp;
    let f = ym * w / k0;
    let l = 13 * load;
    lemma_floor(f1, fp);
    lemma_floor(ym * w, k0);
    assert(ym >= 0) by {
        lemma_at_most_quotient(0, f1, fp);
    }
    assert((ym + 1) * l >= y) by {
        assert((ym + 1) * rise >= f1 * y) by (nonlinear_arith)
            requires
                f1 < ym * fp + fp,
                fp * y <= rise,
                ym >= 0,
                y >= 1,
        ;
        assert((ym + 1) * rise <= (ym + 1) * (l * f1)) by (nonlinear_arith)
            requires
                rise <= l * f1,
                ym >= 0,
        ;
        assert((ym + 1) * (l * f1) == ((ym + 1) * l) * f1) by (nonlinear_arith);
        assert(f1 * y == y * f1) by (nonlinear_arith);
        lemma_cancel(y, (ym + 1) * l, f1);
    }
    let g = m * (f + 1);
    assert(g * l * k0 >= w * (k0 * d - m * l)) by {
        assert((f + 1) * k0 * l >= w * (y - l)) by (nonlinear_arith)
            requires
                ym * w < f * k0 + k0,
                (ym + 1) * l >= y,
                l >= 1,
                w >= 1,
        ;
        let a = (f + 1) * k0 * l;
        assert(m * a >= m * (w * (y - l))) by (nonlinear_arith)
            requires
                a >= w * (y - l),
                m >= 1,
        ;
        assert(m * a == g * l * k0) by (nonlinear_arith)
            requires
                a == (f + 1) * k0 * l,
                g == m * (f + 1),
        ;
        assert(m * (w * (y - l)) == w * (m * y - m * l)) by (nonlinear_arith);
        assert(w * (m * y - m * l) >= w * (k0 * d - m * l)) by (nonlinear_arith)
            requires
                m * y >= k0 * d,
                w >= 1,
        ;
    }
    let ll = load * load;
    assert(w * (m * l) <= 351 * (ll * m) * k0) by {
        let ml = m * l;
        assert(ml >= 0) by (nonlinear_arith)
            requires
                ml == m * l,
                m >= 1,
                l >= 1,
        ;
        assert(w <= 27 * load * k0) by (nonlinear_arith)
            requires
                w <= 27 * load * least,
                least <= k0,
                load >= 1,
        ;
        assert(w * ml <= (27 * load * k0) * ml) by (nonlinear_arith)
            requires
                w <= 27 * load * k0,
                ml >= 0,
        ;
        assert((27 * load * k0) * ml == 351 * (ll * m) * k0) by (nonlinear_arith)
            requires
                ml == m * (13 * load),
                ll == load * load,
        ;
    }
    assert(g * l >= w * d - 351 * (ll * m)) by {
        assert((w * d - 351 * (ll * m)) * k0 <= g * l * k0) by (nonlinear_arith)
            requires
                g * l * k0 >= w * (k0 * d - m * l),
                w * (m * l) <= 351 * (ll * m) * k0,
        ;
        lemma_cancel(w * d - 351 * (ll * m), g * l, k0);
    }
    assert(m * f * l >= w * d - 364 * (ll * m)) by {
        assert(g * l == m * f * l + m * l) by (nonlinear_arith)
            requires
                g == m * (f + 1),
        ;
        assert(m * l <= 13 * (ll * m)) by (nonlinear_arith)
            requires
                l == 13 * load,
                ll == load * load,
                load >= 1,
                m >= 1,
        ;
    }
    assert(730 * (ll * m) <= w * d) by (nonlinear_arith)
        requires
            730 * ll * m <= w * d,
    ;
    assert((least * d) * (2 * l) <= w * d) by (nonlinear_arith)
        requires
            26 * load * least <= w,
            l == 13 * load,
            d >= 1,
    ;
    assert((least * d) * (2 * l) <= (m * f) * (2 * l)) by (nonlinear_arith)
        requires
            (least * d) * (2 * l) <= w * d,
            m * f * l >= w * d - 364 * (ll * m),
            730 * (ll * m) <= w * d,
            ll * m >= 0,
    ;
    lemma_cancel(least * d, m * f, 2 * l);
}

/// The first factor where the curvature is below one half.
proof fn lemma_factor1(w: int, d: int, ann: int, gamma: int, g: int, reach: int, load: int)
    requires
        w == wad(),
        d >= 30_000,
        ann >= 1,
        1 <= gamma <= 2 * w,
        2 * g >= w,
        g >= gamma,
        reach >= 2,
        2 <= load <= 1_000_000_000_000,
        ann * (gamma * gamma) * reach <= (load * 10_000) * (w * w),
    ensures
        w * d / gamma * g / gamma * g * 10_000 / ann >= 1,
        w * (reach * d) * 1000 <= 4004 * (load * (w * d / gamma * g / gamma * g * 10_000 / ann)),
{
    let wd = w * d;
    let a1 = wd / gamma;
    let a2 = a1 * g / gamma;
    let top = a2 * g * 10_000;
    let f1 = top / ann;
    lemma_floor(wd, gamma);
    lemma_floor(a1 * g, gamma);
    lemma_floor(top, ann);
    assert(15_000 * gamma <= wd) by (nonlinear_arith)
        requires
            gamma <= 2 * w,
            d >= 30_000,
            wd == w * d,
            w >= 1,
    ;
    lemma_at_most_quotient(15_000, wd, gamma);
    assert(a1 * gamma <= a1 * g) by (nonlinear_arith)
        requires
            gamma <= g,
            a1 >= 0,
    ;
    lemma_at_most_quotient(a1, a1 * g, gamma);
    // Each rounding costs at most one part in 15000.
    assert(15_001 * (a1 * gamma) >= 15_000 * wd) by (nonlinear_arith)
        requires
            wd < a1 * gamma + gamma,
            a1 >= 15_000,
            gamma >= 1,
    ;
    assert(15_001 * (a2 * gamma) >= 15_000 * (a1 * g)) by (nonlinear_arith)
        requires
            a1 * g < a2 * gamma + gamma,
            a2 >= 15_000,
            gamma >= 1,
    ;
    let gg = gamma * gamma;
    assert(225_030_001 * (a2 * gg) >= 225_000_000 * (wd * g)) by {
        let p = a2 * gamma;
        let q = a1 * g;
        assert(15_001 * (p * gamma) >= 15_000 * (q * gamma)) by (nonlinear_arith)
            requires
                15_001 * p >= 15_000 * q,
                gamma >= 1,
        ;
        let r = a1 * gamma;
        assert(15_001 * (r * g) >= 15_000 * (wd * g)) by (nonlinear_arith)
            requires
                15_001 * r >= 15_000 * wd,
                g >= 1,
        ;
        assert(p * gamma == a2 * gg) by (nonlinear_arith)
            requires
                p == a2 * gamma,
                gg == gamma * gamma,
        ;
        assert(q * gamma == r * g) by (nonlinear_arith)
            requires
                q == a1 * g,
                r == a1 * gamma,
        ;
    }
    let f = f1 + 1;
    let ag = ann * gg;
    // The factor in full: ann * gamma^2 * f >= a2 * gamma^2 * g * 10000.
    assert(ag * f >= (a2 * gg) * g * 10_000) by (nonlinear_arith)
        requires
            ag == ann * gg,
            f == f1 + 1,
            top < f1 * ann + ann,
            top == a2 * g * 10_000,
            gg >= 0,
    ;
    let low = wd * g;
    assert(225_030_001 * (ag * f) >= 225_000_000 * (low * g * 10_000)) by (nonlinear_arith)
        requires
            ag * f >= (a2 * gg) * g * 10_000,
            225_030_001 * (a2 * gg) >= 225_000_000 * low,
            g >= 1,
    ;
    assert(4 * (low * g) >= wd * (w * w)) by (nonlinear_arith)
        requires
            low == wd * g,
            2 * g >= w,
            w >= 1,
            wd >= 0,
    ;
    let ww = w * w;
    let lf = load * f;
    assert(ag * f * reach <= lf * 10_000 * ww) by (nonlinear_arith)
        requires
            ag * reach <= load * 10_000 * ww,
            lf == load * f,
            f >= 0,
    ;
    assert(225_030_001 * 4 * lf * ww >= 225_000_000 * (wd * reach) * ww) by {
        let x = ag * f;
        let z = low * g;
        let h = wd * ww;
        assert(225_030_001 * (x * reach) >= 225_000_000 * (z * 10_000 * reach)) by (nonlinear_arith)
            requires
                225_030_001 * x >= 225_000_000 * (z * 10_000),
                reach >= 1,
        ;
        assert(4 * (z * reach) >= h * reach) by (nonlinear_arith)
            requires
                4 * z >= h,
                reach >= 1,
        ;
        let lw = lf * ww;
        assert(x * reach <= 10_000 * lw) by (nonlinear_arith)
            requires
                x * reach <= lf * 10_000 * ww,
                lw == lf * ww,
        ;
        let zr = z * reach;
        assert(z * 10_000 * reach == 10_000 * zr) by (nonlinear_arith)
            requires
                zr == z * reach,
        ;
        let xr = x * reach;
        let hr = h * reach;
        assert(225_030_001 * 4 * lw >= 225_000_000 * hr) by (nonlinear_arith)
            requires
                225_030_001 * xr >= 225_000_000 * (10_000 * zr),
                xr <= 10_000 * lw,
                4 * zr >= hr,
        ;
        assert(h * reach == (wd * reach) * ww) by (nonlinear_arith)
            requires
                h == wd * ww,
        ;
        let wr = wd * reach;
        assert(225_000_000 * (wr * ww) == 225_000_000 * wr * ww) by (nonlinear_arith);
        assert(225_030_001 * 4 * lw == 225_030_001 * 4 * lf * ww) by (nonlinear_arith)
            requires
                lw == lf * ww,
        ;
    }
    assert(ww > 0) by (nonlinear_arith)
        requires
            ww == w * w,
            w >= 1,
    ;
    lemma_cancel(225_000_000 * (wd * reach), 225_030_001 * 4 * lf, ww);
    assert(wd * reach >= 60_000 * w) by (nonlinear_arith)
        requires
            wd == w * d,
            d >= 30_000,
            reach >= 2,
            w >= 1,
    ;
    assert(f1 >= 100_000) by {
        assert(f > 100_000) by (nonlinear_arith)
            requires
                lf == load * f,
                225_030_001 * 4 * lf >= 225_000_000 * 60_000 * w,
                w == 1_000_000_000_000_000_000,
                load <= 1_000_000_000_000,
                load >= 2,
        ;
    }
    assert(100_001 * (load * f1) >= 100_000 * lf) by (nonlinear_arith)
        requires
            lf == load * (f1 + 1),
            f1 >= 100_000,
            load >= 2,
    ;
    let wr = wd * reach;
    let l1 = load * f1;
    assert(w * (reach * d) == wr) by (nonlinear_arith)
        requires
            wd == w * d,
            wr == wd * reach,
    ;
    assert(wr * 1000 <= 4004 * l1) by (nonlinear_arith)
        requires
            225_000_000 * wr <= 225_030_001 * 4 * lf,
            100_001 * l1 >= 100_000 * lf,
            lf >= 0,
    ;
}

impl Newton {
    /// What the invariant says of the curvature.
    proof fn lemma_curve(self, y: nat, reach: nat, load: nat, steps: nat)
        requires
            self.setting(reach, load),
            self.inv(y, reach, load, steps),
            steps <= 255,
        ensures
            self.curve(y) * self.d <= self.weight * y < (self.curve(y) + 1) * self.d,
            64 <= self.floor(load) <= self.curve(y),
            8 * self.curve(y) <= 9 * wad(),
            8 * (self.weight * y) <= 9 * (wad() * self.d),
            26 * load * self.floor(load) <= wad() <= 27 * load * self.floor(load),
            self.gap(y) >= 1,
            self.sum(y) <= 2 * (reach * self.d),
            self.curve(y) > wad() ==> self.sum(y) >= self.d,
            self.curve(y) > wad() ==> self.weight * (self.sum(y) - self.d) >= self.weight * y
                - wad() * self.d,
    {
        let w = wad() as int;
        let d = self.d as int;
        let m = self.weight as int;
        let k = self.curve(y) as int;
        let least = self.floor(load) as int;
        let my = m * y;
        let wd = w * d;
        lemma_floor(my, d);
        assert(k * d + d == (k + 1) * d) by (nonlinear_arith);
        lemma_at_most_quotient(least, my, d);
        let l26 = (26 * load) as int;
        lemma_floor(w, l26);
        assert(64 * l26 <= w);
        lemma_at_most_quotient(64, w, l26);
        assert(26 * load * least <= w && w <= 27 * load * least) by (nonlinear_arith)
            requires
                least * l26 <= w,
                w < least * l26 + l26,
                l26 == 26 * load,
                least >= 64,
                load >= 0,
        ;
        assert(12_240 * d + 12_240 * m <= wd) by (nonlinear_arith)
            requires
                30_000 * m <= wd,
                wd == w * d,
                w >= 30_000,
                d >= 1,
        ;
        assert(48 * steps * (d + m) <= 12_240 * (d + m)) by (nonlinear_arith)
            requires
                steps <= 255,
                d + m >= 0,
        ;
        assert(8 * my <= 9 * wd);
        assert((8 * k) * d <= (9 * w) * d) by (nonlinear_arith)
            requires
                k * d <= my,
                8 * my <= 9 * wd,
                wd == w * d,
        ;
        lemma_cancel(8 * k, 9 * w, d);
        let s = (self.known + y) as int;
        let rd = reach * d;
        assert(m * s <= m * (2 * rd)) by (nonlinear_arith)
            requires
                s == self.known + y,
                my == m * y,
                8 * my <= 9 * wd,
                wd + m * self.known <= m * rd,
                m >= 0,
                self.known >= 0,
        ;
        assert(m * s == s * m && m * (2 * rd) == (2 * rd) * m) by (nonlinear_arith);
        lemma_cancel(s, 2 * rd, m);
        if k > w {
            if s < d {
                assert(my <= m * (d - self.known)) by (nonlinear_arith)
                    requires
                        my == m * y,
                        self.known + y < d,
                        m >= 0,
                ;
                assert((k - w) * d >= d) by (nonlinear_arith)
                    requires
                        k >= w + 1,
                        d >= 1,
                ;
                assert(k * d == (k - w) * d + wd) by (nonlinear_arith)
                    requires
                        wd == w * d,
                ;
                assert(false);
            }
            let known = self.known as int;
            assert(m * (s - d) >= my - wd) by (nonlinear_arith)
                requires
                    s == known + y,
                    my == m * y,
                    known <= d ==> m * (d - known) <= wd,
                    m >= 0,
                    wd >= 0,
            ;
        }
    }

    /// The step with the balances below `d`.
    proof fn lemma_step_below(self, y: nat, reach: nat, load: nat, steps: nat)
        requires
            self.setting(reach, load),
            self.inv(y, reach, load, steps),
            steps <= 255,
            self.sum(y) < self.d,
        ensures
            self.rise(y) >= y,
            self.slope(y) >= 1,
            self.plus(y) - self.minus(y) >= y,
            16 * (self.weight * (self.plus(y) - self.minus(y))) <= 17 * (wad() * self.d),
            0 <= self.pull(y) <= y,
    {
        self.lemma_curve(y, reach, load, steps);
        let w = wad() as int;
        let d = self.d as int;
        let m = self.weight as int;
        let k = self.curve(y) as int;
        let s = self.sum(y) as int;
        let f1 = self.factor1(y) as int;
        let f2 = self.factor2(y) as int;
        let g = self.gap(y) as int;
        let gamma = self.gamma as int;
        let rise = self.rise(y);
        let sp = spread(self.gamma) as int;
        let slack = self.slack(reach) as int;
        let wd = w * d;
        let my = m * y;
        assert(k <= w);
        assert(g >= gamma);
        assert(f2 <= 2 * (w * sp)) by {
            let top = 2 * w * k;
            lemma_floor(top, g);
            lemma_floor(w, gamma);
            let q = top / g;
            let r = w / gamma;
            assert(q * gamma <= 2 * w * w) by (nonlinear_arith)
                requires
                    q * g <= top,
                    top == 2 * w * k,
                    k <= w,
                    g >= gamma,
                    gamma >= 1,
                    w >= 0,
                    q >= 0,
            ;
            assert(2 * w * w <= 2 * w * (r + 1) * gamma) by (nonlinear_arith)
                requires
                    w < r * gamma + gamma,
                    w >= 0,
            ;
            lemma_cancel(q, 2 * w * (r + 1), gamma);
            assert(sp == r + 2);
            assert(w + 2 * w * (r + 1) <= 2 * (w * sp)) by (nonlinear_arith)
                requires
                    sp == r + 2,
                    w >= 0,
            ;
        }
        let ss = slack * sp;
        assert(64 * (m * ss) <= wd) by (nonlinear_arith)
            requires
                64 * slack * sp * m <= wd,
                ss == slack * sp,
        ;
        assert(16 * ss <= y) by {
            assert((16 * ss) * m <= y * m) by (nonlinear_arith)
                requires
                    64 * (m * ss) <= wd,
                    4 * my >= wd,
                    my == m * y,
            ;
            lemma_cancel(16 * ss, y as int, m);
        }
        let half: int = 500_000_000_000_000_000;
        assert(rise >= half * y + f1) by {
            let b = d - s;
            assert(rise == w * y + f1 - b * f2) by (nonlinear_arith)
                requires
                    rise == w * y + s * f2 + f1 - d * f2,
                    b == d - s,
            ;
            assert(b * f2 <= 2 * w * ss) by (nonlinear_arith)
                requires
                    0 <= b <= slack,
                    f2 <= 2 * (w * sp),
                    f2 >= 0,
                    ss == slack * sp,
                    w >= 0,
            ;
            assert(2 * w * ss <= half * y) by (nonlinear_arith)
                requires
                    16 * ss <= y,
                    w == 2 * half,
                    half >= 0,
                    ss >= 0,
            ;
        }
        lemma_slope_and_pull(rise, y as int, f1, half);
        let fp = self.slope(y);
        let ym = self.pull(y);
        lemma_grows(w, d, s, y as int, rise, fp);
        lemma_no_loss(ym, w, k);
        assert(128 * (m * slack) <= wd) by (nonlinear_arith)
            requires
                64 * (m * ss) <= wd,
                ss == slack * sp,
                sp >= 2,
                m >= 0,
                slack >= 0,
        ;
        lemma_upper(w, d, s, y as int, m, k, rise, fp, ym, slack);
    }
}

/// The slope and what the first factor takes away.
proof fn lemma_slope_and_pull(rise: int, y: int, f1: int, c: int)
    requires
        y >= 1,
        c >= 1,
        f1 >= 0,
        rise >= c * y + f1,
    ensures
        rise >= y,
        rise / y >= c,
        (rise / y) * y <= rise < (rise / y) * y + y,
        (rise / y) * y >= (c - 1) * y + f1,
        0 <= f1 / (rise / y) <= y,
        (f1 / (rise / y)) * (rise / y) <= f1,
{
    lemma_slope(rise, y, c);
    let fp = rise / y;
    lemma_floor(f1, fp);
    lemma_at_most_quotient(0, f1, fp);
    let ym = f1 / fp;
    assert(rise >= y) by (nonlinear_arith)
        requires
            rise >= c * y + f1,
            c >= 1,
            y >= 1,
            f1 >= 0,
    ;
    assert(fp * y >= (c - 1) * y + f1) by (nonlinear_arith)
        requires
            rise < fp * y + y,
            rise >= c * y + f1,
    ;
    assert(ym <= y) by (nonlinear_arith)
        requires
            ym * fp <= f1,
            fp * y >= (c - 1) * y + f1,
            c >= 1,
            y >= 1,
            fp >= 1,
    ;
}

/// A curvature of at most one loses nothing.
proof fn lemma_no_loss(ym: int, w: int, k: int)
    requires
        ym >= 0,
        1 <= k <= w,
    ensures
        ym * w / k >= ym,
{
    assert(ym * k <= ym * w) by (nonlinear_arith)
        requires
            ym >= 0,
            k <= w,
    ;
    lemma_at_most_quotient(ym, ym * w, k);
}

impl Newton {
    /// The step with the curvature above one.
    proof fn lemma_step_above(self, y: nat, reach: nat, load: nat, steps: nat)
        requires
            self.setting(reach, load),
            self.inv(y, reach, load, steps),
            steps <= 255,
            self.curve(y) > wad(),
        ensures
            self.rise(y) >= y,
            self.slope(y) >= 1,
            4 * (self.plus(y) - self.minus(y)) >= y,
            self.known + self.plus(y) - self.minus(y) + self.slack(reach) >= self.d,
            self.weight * (self.plus(y) - self.minus(y)) <= self.weight * y + 3 * (self.d
                + self.weight),
            0 <= self.pull(y) <= y,
    {
        self.lemma_curve(y, reach, load, steps);
        let w = wad() as int;
        let d = self.d as int;
        let m = self.weight as int;
        let k = self.curve(y) as int;
        let s = self.sum(y) as int;
        let f1 = self.factor1(y) as int;
        let f2 = self.factor2(y) as int;
        let g = self.gap(y) as int;
        let rise = self.rise(y);
        let u = s - d;
        let yi = y as int;
        let rd = (reach * self.d) as int;
        assert(rise == w * yi + u * f2 + f1) by (nonlinear_arith)
            requires
                rise == w * yi + s * f2 + f1 - d * f2,
                u == s - d,
        ;
        assert(f2 >= 2 * w) by {
            let top = 2 * w * k;
            assert(w * g <= top) by (nonlinear_arith)
                requires
                    top == 2 * w * k,
                    g <= 2 * w || g <= k,
                    k > w,
                    w >= 0,
            ;
            lemma_at_most_quotient(w, top, g);
        }
        assert(rise >= w * yi + f1) by (nonlinear_arith)
            requires
                rise == w * yi + u * f2 + f1,
                u >= 0,
                f2 >= 0,
        ;
        lemma_slope_and_pull(rise, yi, f1, w);
        let fp = self.slope(y);
        let ym = self.pull(y);
        let up = (rise + w * d) / fp - (w * s) / fp;
        let back = ym * w / k;
        let net = up + back - ym;
        lemma_keeps_share(w, d, s, yi, f1, f2, rise, fp, 2);
        // What the rounding of the quotient by the curvature takes away.
        let e = k - w;
        let eighth = yi / 8;
        assert((ym - eighth - 1) * k <= ym * w) by {
            lemma_floor(yi, 8);
            assert(8 * (ym * e) <= yi * k) by (nonlinear_arith)
                requires
                    0 <= ym <= yi,
                    8 * k <= 9 * w,
                    e == k - w,
                    k > w,
                    w >= 0,
            ;
            assert(yi * k <= 8 * ((eighth + 1) * k)) by (nonlinear_arith)
                requires
                    yi < eighth * 8 + 8,
                    k >= 0,
            ;
            assert(ym * w == ym * k - ym * e) by (nonlinear_arith)
                requires
                    e == k - w,
            ;
            assert((ym - eighth - 1) * k == ym * k - (eighth + 1) * k) by (nonlinear_arith);
        }
        lemma_at_most_quotient(ym - eighth - 1, ym * w, k);
        assert(yi >= 30_000) by {
            let my = m * yi;
            assert(w * d < my) by (nonlinear_arith)
                requires
                    k * d <= my,
                    k >= w + 1,
                    d >= 1,
            ;
            assert(30_000 * m <= yi * m) by (nonlinear_arith)
                requires
                    30_000 * m <= w * d,
                    w * d < my,
                    my == m * yi,
            ;
            lemma_cancel(30_000, yi, m);
        }
        assert(4 * net >= yi);
        // The sum of the balances.
        let c = (w * u) / fp;
        let l = (ym * e) / k;
        assert(u >= 0);
        assert(fp * yi >= (w - 1) * yi + f1);
        assert(m * u >= m * yi - w * d);
        lemma_shares(w, d, u, yi, m, k, f1, fp, ym);
        assert(up >= yi - c - 1) by {
            lemma_floor(w * u, fp);
            assert((yi - c - 1) * fp <= rise - w * (s - d)) by (nonlinear_arith)
                requires
                    fp * yi <= rise,
                    w * u < c * fp + fp,
                    u == s - d,
            ;
            lemma_keeps_part(w, d, s, rise, fp, yi - c - 1);
        }
        assert(back >= ym - l - 1) by {
            lemma_floor(ym * e, k);
            assert((ym - l - 1) * k <= ym * w) by (nonlinear_arith)
                requires
                    ym * e < l * k + k,
                    e == k - w,
            ;
            lemma_at_most_quotient(ym - l - 1, ym * w, k);
        }
        let x = c + l - u;
        let q = rd / w;
        lemma_floor(rd, w);
        assert(x <= 8 * (q + 1)) by {
            assert(x * (w - 1) <= (8 * (q + 1)) * (w - 1)) by (nonlinear_arith)
                requires
                    x * (w - 1) <= 2 * u,
                    u <= 2 * rd,
                    rd < q * w + w,
                    w >= 2,
                    rd >= 0,
            ;
            lemma_cancel(x, 8 * (q + 1), w - 1);
        }
        assert(net >= yi - u - x - 2);
        lemma_upper_above(w, d, s, yi, m, k, rise, fp, ym);
    }

    /// The step with the balances at or above `d` and the curvature at most one.
    proof fn lemma_step_between(self, y: nat, reach: nat, load: nat, steps: nat)
        requires
            self.setting(reach, load),
            self.inv(y, reach, load, steps),
            steps <= 255,
            self.sum(y) >= self.d,
            self.curve(y) <= wad(),
        ensures
            self.rise(y) >= y,
            self.slope(y) >= 1,
            self.known + self.plus(y) - self.minus(y) >= self.d,
            self.weight * (self.plus(y) - self.minus(y)) >= self.floor(load) * self.d,
            16 * (self.weight * (self.plus(y) - self.minus(y))) <= 17 * (wad() * self.d),
            0 <= self.pull(y) <= y,
    {
        self.lemma_curve(y, reach, load, steps);
        let w = wad() as int;
        let d = self.d as int;
        let m = self.weight as int;
        let k = self.curve(y) as int;
        let s = self.sum(y) as int;
        let f1 = self.factor1(y) as int;
        let f2 = self.factor2(y) as int;
        let g = self.gap(y) as int;
        let gamma = self.gamma as int;
        let rise = self.rise(y);
        let u = s - d;
        let yi = y as int;
        let least = self.floor(load) as int;
        let wd = w * d;
        let my = m * yi;
        assert(rise == w * yi + u * f2 + f1) by (nonlinear_arith)
            requires
                rise == w * yi + s * f2 + f1 - d * f2,
                u == s - d,
        ;
        assert(rise >= w * yi + f1) by (nonlinear_arith)
            requires
                rise == w * yi + u * f2 + f1,
                u >= 0,
                f2 >= 0,
        ;
        lemma_slope_and_pull(rise, yi, f1, w);
        let fp = self.slope(y);
        let ym = self.pull(y);
        let up = (rise + w * d) / fp - (w * s) / fp;
        let back = ym * w / k;
        let net = up + back - ym;
        lemma_keeps_sum(w, d, s, yi, rise, fp);
        lemma_no_loss(ym, w, k);
        lemma_upper(w, d, s, yi, m, k, rise, fp, ym, 0);
        assert(52 * least <= w) by (nonlinear_arith)
            requires
                26 * load * least <= w,
                load >= 2,
                least >= 0,
        ;
        let top = 2 * w * k;
        if 2 * k >= w {
            let third: int = 333_333_333_333_333_334;
            assert(third * g <= top) by (nonlinear_arith)
                requires
                    third == 333_333_333_333_333_334,
                    w == 1_000_000_000_000_000_000,
                    top == 2 * w * k,
                    2 * k >= w,
                    g <= 2 * w + w - k + 1,
            ;
            lemma_at_most_quotient(third, top, g);
            lemma_keeps_share(w, d, s, yi, f1, f2, rise, fp, 4);
            assert(m * net >= least * d) by (nonlinear_arith)
                requires
                    4 * net >= yi - 3,
                    my == m * yi,
                    k * d <= my,
                    2 * k >= w,
                    52 * least <= w,
                    wd == w * d,
                    30_000 * m <= wd,
                    d >= 1,
                    m >= 1,
            ;
        } else {
            assert(g >= gamma && 2 * g >= w);
            assert(f2 <= 3 * w) by {
                lemma_floor(top, g);
                let q = top / g;
                assert(q <= 2 * w) by (nonlinear_arith)
                    requires
                        q * g <= top,
                        top == 2 * w * k,
                        k <= g,
                        g >= 1,
                        w >= 0,
                ;
            }
            lemma_factor1(
                w,
                d,
                self.ann as int,
                gamma,
                g,
                reach as int,
                load as int,
            );
            let rd = reach * d;
            assert(yi + 3 * u <= 3 * rd) by {
                let known = self.known as int;
                assert((yi + 3 * u) * m <= (3 * rd) * m) by (nonlinear_arith)
                    requires
                        u == known + yi - d,
                        my == m * yi,
                        my < (k + 1) * d,
                        2 * k < w,
                        wd == w * d,
                        wd + m * known <= m * rd,
                        w >= 100,
                        d >= 1,
                        m >= 1,
                ;
                lemma_cancel(yi + 3 * u, 3 * rd, m);
            }
            assert(rise <= 13 * load * f1) by {
                assert(u * f2 <= u * (3 * w)) by (nonlinear_arith)
                    requires
                        u >= 0,
                        f2 <= 3 * w,
                ;
                assert(w * yi + u * (3 * w) <= 3 * (w * rd)) by (nonlinear_arith)
                    requires
                        yi + 3 * u <= 3 * rd,
                        w >= 1,
                ;
                let lf = load * f1;
                assert(w * rd * 1000 <= 4004 * lf);
                assert(2 * f1 <= lf) by (nonlinear_arith)
                    requires
                        lf == load * f1,
                        load >= 2,
                        f1 >= 0,
                ;
                assert(13 * load * f1 == 13 * lf) by (nonlinear_arith)
                    requires
                        lf == load * f1,
                ;
            }
            lemma_lower(w, d, yi, m, k, f1, rise, fp, load as int, least);
            assert(ym * fp <= rise - w * (s - d)) by (nonlinear_arith)
                requires
                    ym * fp <= f1,
                    rise == w * yi + u * f2 + f1,
                    u == s - d,
                    u >= 0,
                    f2 >= w,
                    w >= 0,
                    yi >= 0,
            ;
            lemma_keeps_part(w, d, s, rise, fp, ym);
            assert(m * net >= m * back) by (nonlinear_arith)
                requires
                    net >= back,
                    m >= 1,
            ;
        }
    }
}

impl Newton {
    /// Whether no divisor of a step is zero and no number falls below zero.
    pub open spec fn divides(self, y: nat) -> bool {
        &&& self.d > 0 && self.gamma > 0 && self.ann > 0
        &&& y > 0
        &&& self.gap(y) > 0
        &&& self.curve(y) > 0
        &&& self.rise(y) >= 0
        &&& self.slope(y) > 0
        &&& self.plus(y) >= self.minus(y)
    }

    /// Whether the numbers of a step fit into a word.
    pub open spec fn in_words(self, y: nat) -> bool {
        &&& fits(self.weight * y)
        &&& fits(wad() * self.d / self.gamma * self.gap(y))
        &&& fits(
            wad() * self.d / self.gamma * self.gap(y) / self.gamma * self.gap(y) * 10_000,
        )
        &&& fits(2 * wad() * self.curve(y))
        &&& fits(wad() * y + self.sum(y) * self.factor2(y) + self.factor1(y))
        &&& fits(self.d * self.factor2(y))
        &&& fits((self.rise(y) + wad() * self.d) as nat)
        &&& fits((self.pull(y) * wad()) as nat)
        &&& fits(wad() * self.sum(y))
    }

    /// The balance after a number of steps.
    pub open spec fn after(self, y: nat, steps: nat) -> nat
        decreases steps,
    {
        if steps == 0 {
            y
        } else {
            self.next(self.after(y, (steps - 1) as nat))
        }
    }

    /// One step divides by no zero and keeps the invariant.
    proof fn lemma_step(self, y: nat, reach: nat, load: nat, steps: nat)
        requires
            self.setting(reach, load),
            self.inv(y, reach, load, steps),
            steps <= 255,
        ensures
            self.divides(y),
            self.pull(y) <= y,
            self.inv(self.next(y), reach, load, steps + 1),
    {
        self.lemma_curve(y, reach, load, steps);
        let m = self.weight as int;
        let d = self.d as int;
        let wd = (wad() * self.d) as int;
        let net = self.plus(y) - self.minus(y);
        let least = self.floor(load) as int;
        let my = m * y;
        let mn = m * net;
        assert(48 * steps * (d + m) <= 48 * (steps + 1) * (d + m)) by (nonlinear_arith)
            requires
                d + m >= 0,
        ;
        if self.sum(y) < self.d {
            self.lemma_step_below(y, reach, load, steps);
            assert(mn >= my) by (nonlinear_arith)
                requires
                    mn == m * net,
                    my == m * y,
                    net >= y,
                    m >= 0,
            ;
        } else if self.curve(y) > wad() {
            self.lemma_step_above(y, reach, load, steps);
            let k = self.curve(y) as int;
            assert(my >= wd) by (nonlinear_arith)
                requires
                    k * d <= my,
                    k >= wad(),
                    wd == wad() * d,
                    d >= 0,
            ;
            assert(4 * mn >= my) by (nonlinear_arith)
                requires
                    mn == m * net,
                    my == m * y,
                    4 * net >= y,
                    m >= 0,
            ;
            assert(4 * (least * d) <= wd) by (nonlinear_arith)
                requires
                    26 * load * least <= wad(),
                    load >= 2,
                    least >= 0,
                    wd == wad() * d,
                    d >= 0,
            ;
            assert(48 * steps * (d + m) + 48 * (d + m) == 48 * (steps + 1) * (d + m))
                by (nonlinear_arith);
        } else {
            self.lemma_step_between(y, reach, load, steps);
        }
        assert(net > 0) by {
            assert(least * d > 0) by (nonlinear_arith)
                requires
                    least > 0,
                    d > 0,
            ;
            assert(net > 0) by (nonlinear_arith)
                requires
                    mn > 0,
                    mn == m * net,
                    m > 0,
            ;
        }
        assert(self.next(y) == net);
        assert(self.weight * self.next(y) == mn);
    }

    /// The numbers of a step are small.
    proof fn lemma_small(self, y: nat, reach: nat, load: nat, steps: nat)
        requires
            self.setting(reach, load),
            self.inv(y, reach, load, steps),
            steps <= 255,
            self.small(reach),
        ensures
            self.in_words(y),
    {
        self.lemma_curve(y, reach, load, steps);
        self.lemma_step(y, reach, load, steps);
        let w = wad();
        let d = self.d;
        let k = self.curve(y);
        let g = self.gap(y);
        let gamma = self.gamma;
        let sp = spread(gamma);
        let s = self.sum(y);
        let f2 = self.factor2(y);
        let e38: nat = 100_000_000_000_000_000_000_000_000_000_000_000_000;
        let e37: nat = 10_000_000_000_000_000_000_000_000_000_000_000_000;
        let rd = reach * d;
        assert(d <= rd) by (nonlinear_arith)
            requires
                rd == reach * d,
                reach >= 1,
        ;
        let ratio = (2 * w * k) as int / g as int;
        lemma_floor((2 * w * k) as int, g as int);
        assert(ratio <= 2 * w * k) by (nonlinear_arith)
            requires
                ratio * g <= 2 * w * k,
                g >= 1,
                w >= 0,
                k >= 0,
        ;
        assert(2 * w * k <= 3 * w * w) by (nonlinear_arith)
            requires
                8 * k <= 9 * w,
                w >= 0,
        ;
        assert(3 * w * w <= e37) by (nonlinear_arith)
            requires
                w == 1_000_000_000_000_000_000nat,
                e37 == 10_000_000_000_000_000_000_000_000_000_000_000_000nat,
        ;
        assert(f2 <= 2 * e37);
        assert(s * f2 <= (2 * e38) * (2 * e37)) by (nonlinear_arith)
            requires
                s <= 2 * e38,
                f2 <= 2 * e37,
        ;
        assert(d * f2 <= e38 * (2 * e37)) by (nonlinear_arith)
            requires
                d <= e38,
                f2 <= 2 * e37,
        ;
        // The first factor.
        let a1 = w * d / gamma;
        let r = w / gamma;
        lemma_floor((w * d) as int, gamma as int);
        lemma_floor(w as int, gamma as int);
        assert(g <= 3 * (gamma * sp)) by (nonlinear_arith)
            requires
                g <= 3 * w + 1,
                w < r * gamma + gamma,
                sp == r + 2,
                gamma >= 1,
        ;
        assert(a1 * g <= 3 * (w * d * sp)) by (nonlinear_arith)
            requires
                a1 * gamma <= w * d,
                g <= 3 * (gamma * sp),
                a1 >= 0,
                sp >= 0,
        ;
        let a2 = a1 * g / gamma;
        lemma_floor((a1 * g) as int, gamma as int);
        assert(a2 * g <= 3 * (a1 * g * sp)) by (nonlinear_arith)
            requires
                a2 * gamma <= a1 * g,
                g <= 3 * (gamma * sp),
                a2 >= 0,
                sp >= 0,
        ;
        let ag = a1 * g;
        let dss = d * (sp * sp);
        assert(ag * sp <= 3 * (w * dss)) by (nonlinear_arith)
            requires
                ag <= 3 * (w * d * sp),
                dss == d * (sp * sp),
                sp >= 0,
        ;
        assert(sp <= sp * sp) by (nonlinear_arith)
            requires
                sp >= 2,
        ;
        assert(d * sp <= dss) by (nonlinear_arith)
            requires
                sp <= sp * sp,
                dss == d * (sp * sp),
                d >= 0,
        ;
        assert(w * d * sp == w * (d * sp)) by (nonlinear_arith);
        assert(a1 * g <= 3 * (w * dss)) by (nonlinear_arith)
            requires
                a1 * g <= 3 * (w * (d * sp)),
                d * sp <= dss,
                w >= 0,
        ;
        let top = a2 * g * 10_000;
        let f1 = self.factor1(y);
        lemma_floor(top as int, self.ann as int);
        assert(f1 <= top) by (nonlinear_arith)
            requires
                f1 * self.ann <= top,
                self.ann >= 1,
                f1 >= 0,
        ;
        assert(y <= s);
        let ym = self.pull(y);
        assert(ym * w <= y * w) by (nonlinear_arith)
            requires
                ym <= y,
                w >= 0,
        ;
    }

    /// Whether the numbers of the solver stay below the limit of a word.
    pub open spec fn small(self, reach: nat) -> bool {
        &&& reach * self.d <= 100_000_000_000_000_000_000_000_000_000_000_000_000nat
        &&& self.d * (spread(self.gamma) * spread(self.gamma))
            <= 100_000_000_000_000_000_000_000_000_000_000_000_000_000_000_000_000nat
    }
}

/// From a ready start each of the 255 steps of the solver divides by no zero, and no number that it
/// makes wraps around.
pub proof fn law_newton_divides_by_no_zero(
    pool: Newton,
    start: nat,
    reach: nat,
    load: nat,
    steps: nat,
)
    requires
        pool.setting(reach, load),
        pool.small(reach),
        pool.inv(start, reach, load, 0),
        steps <= 255,
    ensures
        pool.inv(pool.after(start, steps), reach, load, steps),
        pool.divides(pool.after(start, steps)),
        pool.in_words(pool.after(start, steps)),
    decreases steps,
{
    if steps > 0 {
        law_newton_divides_by_no_zero(pool, start, reach, load, (steps - 1) as nat);
        pool.lemma_step(pool.after(start, (steps - 1) as nat), reach, load, (steps - 1) as nat);
    }
    pool.lemma_step(pool.after(start, steps), reach, load, steps);
    pool.lemma_small(pool.after(start, steps), reach, load, steps);
}

} // verus!
