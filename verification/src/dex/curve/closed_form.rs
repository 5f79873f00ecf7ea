//! The closed solution of a crypto pool of two coins, and why it divides by no zero.
//!
//! The balance of one coin follows from the root of a cubic equation. The solver scales the
//! coefficients down by a power of ten before it takes roots. Here its numbers are written over the
//! integers. Where the coefficient of the square lies away from zero, none of its divisors is zero
//! and none of its numbers leaves the range of a signed word.

use crate::dex::adapter::wad;
use crate::dex::curve::newton::{lemma_at_most_quotient, lemma_cancel, lemma_floor};
use crate::u256::u256_limit;
use vstd::prelude::*;

verus! {

/// The size of a number.
pub open spec fn size(v: int) -> int {
    if v < 0 {
        -v
    } else {
        v
    }
}

/// The quotient rounded down.
pub open spec fn floor_div(a: int, b: int) -> int {
    if b > 0 {
        a / b
    } else {
        (-a) / (-b)
    }
}

/// The quotient rounded towards zero.
pub open spec fn trunc_div(a: int, b: int) -> int {
    if (a >= 0) == (b > 0) {
        size(a) / size(b)
    } else {
        -(size(a) / size(b))
    }
}

/// Whether a number fits into a signed word.
pub open spec fn signed_fits(v: int) -> bool {
    2 * size(v) < u256_limit()
}

/// The leading coefficient of the cubic equation: ten to the power 32.
pub open spec fn leading() -> int {
    100_000_000_000_000_000_000_000_000_000_000
}

/// By what the coefficients are divided, given the least of the sizes that matter.
pub open spec fn divider(least: int) -> int {
    if least > 1_000_000_000_000_000_000_000_000_000_000 {
        1_000_000_000_000
    } else if least > 10_000_000_000_000_000_000_000_000_000 {
        10_000_000_000
    } else if least > 100_000_000_000_000_000_000_000_000 {
        100_000_000
    } else if least > 1_000_000_000_000_000_000_000_000 {
        1_000_000
    } else if least > 100_000_000_000_000_000_000 {
        100
    } else {
        1
    }
}

/// A pool of two coins of which the known one holds `x`.
pub struct Cubic {
    pub d: nat,
    pub ann: nat,
    pub gamma: nat,
    pub x: nat,
}

impl Cubic {
    /// The amplification with the square of the width.
    pub open spec fn amplified(self) -> nat {
        self.ann * (self.gamma * self.gamma)
    }

    /// What the coefficient of the square gains and what it loses.
    pub open spec fn gain(self) -> nat {
        self.amplified() * self.d / 400_000_000 / self.x
    }

    pub open spec fn loss(self) -> nat {
        300_000_000_000_000_000_000_000_000_000_000nat + 200_000_000_000_000 * self.gamma
    }

    /// The coefficient of the square.
    pub open spec fn square(self) -> int {
        self.gain() - self.loss()
    }

    /// The part of the linear coefficient that the amplification makes.
    pub open spec fn tilt(self) -> nat {
        4 * self.amplified() / 400_000_000
    }

    /// The linear coefficient.
    pub open spec fn linear(self) -> int {
        300_000_000_000_000_000_000_000_000_000_000 + 400_000_000_000_000 * self.gamma + self.gamma
            * self.gamma / 10_000 + self.tilt() * self.x / self.d - self.tilt()
    }

    /// The constant coefficient without its sign.
    pub open spec fn constant(self) -> nat {
        (wad() + self.gamma) * (wad() + self.gamma) / 10_000
    }

    /// The first numbers that tell the roots apart.
    pub open spec fn delta0(self) -> int {
        floor_div(3 * leading() * self.linear(), self.square()) - self.square()
    }

    pub open spec fn delta1(self) -> int {
        3 * self.delta0() + self.square() - floor_div(
            floor_div(27 * leading() * leading(), self.square()) * -(self.constant() as int),
            self.square(),
        )
    }

    /// The unit by which the coefficients are divided.
    pub open spec fn unit(self) -> int {
        let a = size(self.delta0());
        let b = size(self.delta1());
        let c = if a <= b {
            a
        } else {
            b
        };
        divider(
            if c <= leading() {
                c
            } else {
                leading()
            },
        )
    }

    /// The coefficients in that unit.
    pub open spec fn a(self) -> int {
        leading() / self.unit()
    }

    pub open spec fn b(self) -> int {
        trunc_div(self.square(), self.unit())
    }

    pub open spec fn c(self) -> int {
        trunc_div(self.linear(), self.unit())
    }

    pub open spec fn e(self) -> int {
        self.constant() as int / self.unit()
    }

    /// The numbers under the roots.
    pub open spec fn scaled0(self) -> int {
        trunc_div(3 * self.a() * self.c(), self.b()) - self.b()
    }

    pub open spec fn scaled1(self) -> int {
        3 * self.scaled0() + self.b() - trunc_div(
            trunc_div(27 * (self.a() * self.a()), self.b()) * -self.e(),
            self.b(),
        )
    }

    pub open spec fn under_root(self) -> int {
        self.scaled1() * self.scaled1() + trunc_div(4 * (self.scaled0() * self.scaled0()), self.b())
            * self.scaled0()
    }

    /// Where the closed solution is taken: the known coin holds at most 51 times `d`, and the
    /// coefficient of the square lies three tenths of the leading one away from zero.
    pub open spec fn solvable(self) -> bool {
        &&& self.d > 0 && self.x > 0
        &&& self.gamma <= 2 * wad()
        &&& self.x <= 51 * self.d
        &&& self.x <= 100_000_000_000_000_000_000_000_000_000_000_000_000nat
        &&& 2 * (self.amplified() * self.d) < u256_limit()
        &&& size(self.square()) >= 30_000_000_000_000_000_000_000_000_000_000
        &&& self.gain() <= 10_000_000_000_000_000_000_000_000_000_000_000_000nat
    }
}

/// The size of a quotient.
proof fn lemma_trunc(a: int, b: int)
    requires
        b != 0,
    ensures
        size(trunc_div(a, b)) == size(a) / size(b),
        size(trunc_div(a, b)) * size(b) <= size(a) < size(trunc_div(a, b)) * size(b) + size(b),
{
    lemma_floor(size(a), size(b));
    lemma_at_most_quotient(0, size(a), size(b));
}

proof fn lemma_floor_size(a: int, b: int)
    requires
        b != 0,
    ensures
        size(floor_div(a, b)) <= size(a) / size(b) + 1,
        size(floor_div(a, b) - trunc_div(a, b)) <= 1,
{
    let n = if b > 0 {
        a
    } else {
        -a
    };
    let s = size(b);
    let q = n / s;
    lemma_floor(n, s);
    let p = size(a) / s;
    lemma_floor(size(a), s);
    assert(floor_div(a, b) == q);
    if n >= 0 {
        assert(q == p);
    } else {
        assert(-p - 1 <= q <= -p) by (nonlinear_arith)
            requires
                q * s <= n,
                n < q * s + s,
                p * s <= -n,
                -n < p * s + s,
                s > 0,
        ;
    }
    lemma_at_most_quotient(0, size(a), s);
}

/// A quotient is at most a bound that the dividend allows.
proof fn lemma_quotient_within(a: int, b: int, bound: int)
    requires
        b > 0,
        a >= 0,
        a <= bound * b,
    ensures
        0 <= a / b <= bound,
{
    lemma_floor(a, b);
    lemma_at_most_quotient(0, a, b);
    let q = a / b;
    assert(q <= bound) by (nonlinear_arith)
        requires
            q * b <= a,
            a <= bound * b,
            b > 0,
    ;
}

impl Cubic {
    /// The sizes of the coefficients.
    proof fn lemma_coefficients(self)
        requires
            self.solvable(),
        ensures
            30_000_000_000_000_000_000_000_000_000_000 <= size(self.square())
                <= 10_000_000_000_000_000_000_000_000_000_000_000_000,
            size(self.linear()) <= 271_000 * size(self.square()),
            leading() <= self.constant() <= 9 * leading(),
            self.tilt() * self.x < u256_limit() / 2,
    {
        let d = self.d as int;
        let x = self.x as int;
        let ag = self.amplified() as int;
        let gain = self.gain() as int;
        let tilt = self.tilt() as int;
        let b = size(self.square());
        let gamma = self.gamma as int;
        let p = ag * d;
        let n1 = p / 400_000_000;
        assert((self.amplified() * self.d) as int == p);
        lemma_floor(p, 400_000_000);
        lemma_floor(n1, x);
        lemma_floor(4 * ag, 400_000_000);
        let g1 = gain + 1;
        assert(n1 + 1 <= g1 * x) by (nonlinear_arith)
            requires
                n1 < gain * x + x,
                g1 == gain + 1,
        ;
        let gx = g1 * x;
        assert(p < 400_000_000 * gx);
        let td = tilt * d;
        assert(100_000_000 * td <= p) by (nonlinear_arith)
            requires
                100_000_000 * tilt <= ag,
                td == tilt * d,
                p == ag * d,
                d >= 0,
        ;
        assert(gx <= 51 * (g1 * d)) by (nonlinear_arith)
            requires
                gx == g1 * x,
                x <= 51 * d,
                g1 >= 0,
        ;
        assert(tilt <= 204 * g1) by {
            assert(tilt * d <= (204 * g1) * d) by (nonlinear_arith)
                requires
                    td == tilt * d,
                    td < 4 * gx,
                    gx <= 51 * (g1 * d),
            ;
            lemma_cancel(tilt, 204 * g1, d);
        }
        let tx = tilt * x;
        assert(tx <= (51 * tilt) * d) by (nonlinear_arith)
            requires
                tx == tilt * x,
                x <= 51 * d,
                tilt >= 0,
        ;
        assert((self.tilt() * self.x) as int == tx);
        assert(tx <= 51 * td) by (nonlinear_arith)
            requires
                tx <= (51 * tilt) * d,
                td == tilt * d,
        ;
        lemma_quotient_within(tx, d, 51 * tilt);
        let gg = gamma * gamma;
        assert(0 <= gg <= 4 * wad() * wad()) by (nonlinear_arith)
            requires
                gg == gamma * gamma,
                0 <= gamma <= 2 * wad(),
        ;
        assert(4 * wad() * wad() == 4_000_000_000_000_000_000_000_000_000_000_000_000) by (nonlinear_arith)
            requires
                wad() == 1_000_000_000_000_000_000nat,
        ;
        lemma_floor(gg, 10_000);
        assert((self.gamma * self.gamma) as int == gg);
        let w1 = wad() + self.gamma;
        let sq = w1 * w1;
        assert(wad() * wad() <= sq <= 9 * (wad() * wad())) by (nonlinear_arith)
            requires
                sq == w1 * w1,
                wad() <= w1 <= 3 * wad(),
        ;
        assert(wad() * wad() == 1_000_000_000_000_000_000_000_000_000_000_000_000) by (nonlinear_arith)
            requires
                wad() == 1_000_000_000_000_000_000nat,
        ;
        lemma_floor(sq as int, 10_000);
    }

    /// The first numbers.
    proof fn lemma_first(self)
        requires
            self.solvable(),
        ensures
            size(3 * leading() * self.linear()) <= 271_000 * (3 * leading()) * size(self.square()),
            size(self.delta0()) <= 92_000_000_000_000_000_000_000_000_000_000_000_000,
            size(self.delta1()) <= 300_000_000_000_000_000_000_000_000_000_000_000_000,
            signed_fits(3 * leading() * self.linear()),
            signed_fits(
                floor_div(27 * leading() * leading(), self.square()) * -(self.constant() as int),
            ),
            size(
                floor_div(
                    floor_div(27 * leading() * leading(), self.square()) * -(
                    self.constant() as int),
                    self.square(),
                ),
            ) <= 280_000_000_000_000_000_000_000_000_000_000_000,
    {
        self.lemma_coefficients();
        let b = self.square();
        let bs = size(b);
        let c = self.linear();
        let l = leading();
        let n = 3 * l * c;
        assert(size(n) == 3 * l * size(c)) by (nonlinear_arith)
            requires
                n == 3 * l * c,
                l > 0,
                size(n) == if n < 0 { -n } else { n },
                size(c) == if c < 0 { -c } else { c },
        ;
        assert(size(n) <= (813_000 * l) * bs) by (nonlinear_arith)
            requires
                size(n) == 3 * l * size(c),
                size(c) <= 271_000 * bs,
                l > 0,
        ;
        assert((813_000 * l) * bs <= 813_000 * l * 10_000_000_000_000_000_000_000_000_000_000_000_000int)
            by (nonlinear_arith)
            requires
                bs <= 10_000_000_000_000_000_000_000_000_000_000_000_000int,
                l > 0,
        ;
        lemma_floor_size(n, b);
        lemma_quotient_within(size(n), bs, 813_000 * l);
        assert(271_000 * (3 * l) * bs == (813_000 * l) * bs) by (nonlinear_arith);
        // The last part of the second number.
        let top = 27 * l * l;
        assert(top
            == 270_000_000_000_000_000_000_000_000_000_000_000_000_000_000_000_000_000_000_000_000_000int)
            by (nonlinear_arith)
            requires
                l == 100_000_000_000_000_000_000_000_000_000_000int,
                top == 27 * l * l,
        ;
        lemma_floor_size(top, b);
        let f = floor_div(top, b);
        let q = self.constant() as int;
        let m = f * -q;
        let f33: int = 9_100_000_000_000_000_000_000_000_000_000_000;
        assert(top <= (f33 - 1) * bs) by (nonlinear_arith)
            requires
                top
                    == 270_000_000_000_000_000_000_000_000_000_000_000_000_000_000_000_000_000_000_000_000_000int,
                f33 == 9_100_000_000_000_000_000_000_000_000_000_000int,
                bs >= 30_000_000_000_000_000_000_000_000_000_000int,
        ;
        lemma_quotient_within(top, bs, f33 - 1);
        let e35: int = 280_000_000_000_000_000_000_000_000_000_000_000;
        assert(size(m) <= (e35 - 1) * bs) by (nonlinear_arith)
            requires
                m == f * -q,
                -f33 <= f <= f33,
                0 <= q <= 9 * l,
                f33 == 9_100_000_000_000_000_000_000_000_000_000_000int,
                l == 100_000_000_000_000_000_000_000_000_000_000int,
                e35 == 280_000_000_000_000_000_000_000_000_000_000_000int,
                bs >= 30_000_000_000_000_000_000_000_000_000_000int,
                size(m) == if m < 0 { -m } else { m },
        ;
        lemma_floor_size(m, b);
        lemma_quotient_within(size(m), bs, e35 - 1);
    }
}

/// The size of a product.
proof fn lemma_size_product(a: int, b: int)
    ensures
        size(a * b) == size(a) * size(b),
        size(a) >= 0,
{
    assert(size(a * b) == size(a) * size(b)) by (nonlinear_arith)
        requires
            size(a * b) == if a * b < 0 { -(a * b) } else { a * b },
            size(a) == if a < 0 { -a } else { a },
            size(b) == if b < 0 { -b } else { b },
    ;
}

impl Cubic {
    /// The unit is one of six powers of ten.
    proof fn lemma_unit(self)
        ensures
            self.unit() == 1 || self.unit() == 100 || self.unit() == 1_000_000 || self.unit()
                == 100_000_000 || self.unit() == 10_000_000_000 || self.unit()
                == 1_000_000_000_000,
            self.a() * self.unit() == leading(),
            self.a() >= 100_000_000_000_000_000_000,
            self.unit() >= 1_000_000 ==> self.a() <= 100_000_000_000_000_000_000_000_000,
            self.unit() <= 100 ==> size(self.delta0()) <= 1_000_000_000_000_000_000_000_000 || size(
                self.delta1(),
            ) <= 1_000_000_000_000_000_000_000_000,
    {
        let u = self.unit();
        let l = leading();
        if u == 1 {
            assert(l / 1 == l);
        }
    }

    /// The sizes of the coefficients in the unit.
    proof fn lemma_in_unit(self)
        requires
            self.solvable(),
        ensures
            size(self.b()) * self.unit() <= size(self.square()) < size(self.b()) * self.unit()
                + self.unit(),
            100 * size(self.b()) >= 29 * self.a(),
            size(self.b()) <= 100_000 * self.a(),
            size(trunc_div(3 * self.a() * self.c(), self.b())) <= 813_003 * self.a(),
            size(3 * self.a() * self.c()) <= 813_003 * self.a() * size(self.b()),
            size(self.scaled0()) <= 913_003 * self.a(),
            size(trunc_div(27 * (self.a() * self.a()), self.b())) <= 94 * self.a(),
            0 <= self.e() <= 9 * self.a(),
            size(
                trunc_div(
                    trunc_div(27 * (self.a() * self.a()), self.b()) * -self.e(),
                    self.b(),
                ),
            ) <= 2_920 * self.a(),
            size(self.scaled1()) <= 3 * size(self.scaled0()) + size(self.b()) + 2_920 * self.a(),
            size(self.scaled1()) <= 2_900_000 * self.a(),
    {
        self.lemma_coefficients();
        self.lemma_unit();
        let u = self.unit();
        let a = self.a();
        let b = self.b();
        let bs = size(b);
        let cs = size(self.c());
        let big = size(self.square());
        let lin = size(self.linear());
        let l = leading();
        lemma_trunc(self.square(), u);
        lemma_trunc(self.linear(), u);
        assert(100 * bs >= 29 * a) by (nonlinear_arith)
            requires
                big < bs * u + u,
                10 * big >= 3 * l,
                a * u == l,
                u >= 1,
                a >= 1_000,
        ;
        assert(bs <= 100_000 * a) by (nonlinear_arith)
            requires
                bs * u <= big,
                big <= 100_000 * l,
                a * u == l,
                u >= 1,
        ;
        assert(bs >= 10_000_000);
        assert(cs <= 271_001 * bs) by (nonlinear_arith)
            requires
                cs * u <= lin,
                lin <= 271_000 * big,
                big < bs * u + u,
                u >= 1,
                bs >= 10_000_000,
        ;
        // The first quotient.
        let n = 3 * a * self.c();
        lemma_size_product(3 * a, self.c());
        assert(size(n) <= (813_003 * a) * bs) by (nonlinear_arith)
            requires
                size(n) == (3 * a) * cs,
                cs <= 271_001 * bs,
                a >= 0,
        ;
        lemma_trunc(n, b);
        lemma_quotient_within(size(n), bs, 813_003 * a);
        // The second one.
        let aa = a * a;
        let m = 27 * aa;
        assert(0 <= m && m <= (94 * a) * bs) by (nonlinear_arith)
            requires
                m == 27 * aa,
                aa == a * a,
                100 * bs >= 29 * a,
                a >= 0,
        ;
        lemma_trunc(m, b);
        lemma_quotient_within(m, bs, 94 * a);
        let t = trunc_div(m, b);
        let e = self.e();
        assert(0 <= e <= 9 * a) by {
            assert(9 * l == (9 * a) * u) by (nonlinear_arith)
                requires
                    a * u == l,
            ;
            lemma_quotient_within(self.constant() as int, u, 9 * a);
        }
        let p = t * -e;
        lemma_size_product(t, -e);
        assert(size(p) <= (2_920 * a) * bs) by (nonlinear_arith)
            requires
                size(p) == size(t) * e,
                0 <= size(t) <= 94 * a,
                0 <= e <= 9 * a,
                100 * bs >= 29 * a,
                a >= 0,
        ;
        lemma_trunc(p, b);
        lemma_quotient_within(size(p), bs, 2_920 * a);
    }
}

/// What a quotient leaves.
proof fn lemma_remainders(a: int, b: int)
    requires
        b != 0,
    ensures
        size(a - trunc_div(a, b) * b) < size(b),
        size(a - floor_div(a, b) * b) < size(b),
{
    lemma_trunc(a, b);
    let t = trunc_div(a, b);
    lemma_size_product(t, b);
    if t * b == 0 {
        assert(t == 0) by (nonlinear_arith)
            requires
                t * b == 0,
                b != 0,
        ;
    } else {
        assert((t * b > 0) == (a > 0)) by {
            if (a >= 0) == (b > 0) {
                assert(t >= 0);
                if b > 0 {
                    assert(t * b >= 0) by (nonlinear_arith)
                        requires
                            t >= 0,
                            b > 0,
                    ;
                } else {
                    assert(t * b <= 0) by (nonlinear_arith)
                        requires
                            t >= 0,
                            b < 0,
                    ;
                }
            } else {
                assert(t <= 0);
                if b > 0 {
                    assert(t * b <= 0) by (nonlinear_arith)
                        requires
                            t <= 0,
                            b > 0,
                    ;
                } else {
                    assert(t * b >= 0) by (nonlinear_arith)
                        requires
                            t <= 0,
                            b < 0,
                    ;
                }
            }
        }
    }
    let n = if b > 0 {
        a
    } else {
        -a
    };
    let q = n / size(b);
    lemma_floor(n, size(b));
    assert(floor_div(a, b) == q);
    if b < 0 {
        assert(q * b == -(q * -b)) by (nonlinear_arith);
    }
}

impl Cubic {
    /// In a small unit, the number under the roots is close to the first one.
    proof fn lemma_close(self)
        requires
            self.solvable(),
            self.unit() <= 100,
        ensures
            size(self.scaled0() * self.unit() - self.delta0()) <= 500_000_000,
    {
        self.lemma_coefficients();
        self.lemma_unit();
        self.lemma_in_unit();
        let u = self.unit();
        let a1 = self.a();
        let b1 = self.b();
        let c1 = self.c();
        let b = self.square();
        let c = self.linear();
        let l = leading();
        let bs = size(b);
        let n1 = 3 * a1 * c1;
        let n = 3 * l * c;
        let t1 = trunc_div(n1, b1);
        let tf = floor_div(n, b);
        lemma_remainders(b, u);
        lemma_remainders(c, u);
        lemma_remainders(n1, b1);
        lemma_remainders(n, b);
        let eb = b - b1 * u;
        let ec = c - c1 * u;
        let r1 = n1 - t1 * b1;
        let rf = n - tf * b;
        let tu = t1 * u;
        assert((tu - tf) * b == rf - 3 * (l * ec) - r1 * (u * u) + tu * eb) by {
            let uu = u * u;
            assert(tu * b == t1 * b1 * uu + tu * eb) by (nonlinear_arith)
                requires
                    tu == t1 * u,
                    b == b1 * u + eb,
                    uu == u * u,
            ;
            let tb = t1 * b1;
            assert(tb * uu == n1 * uu - r1 * uu) by (nonlinear_arith)
                requires
                    tb == n1 - r1,
            ;
            assert(n1 * uu == 3 * (l * (c1 * u))) by (nonlinear_arith)
                requires
                    n1 == 3 * a1 * c1,
                    uu == u * u,
                    a1 * u == l,
            ;
            let cu = c1 * u;
            assert(l * cu == l * c - l * ec) by (nonlinear_arith)
                requires
                    cu == c - ec,
            ;
            assert(n == 3 * (l * c)) by (nonlinear_arith)
                requires
                    n == 3 * l * c,
            ;
            assert((tu - tf) * b == tu * b - tf * b) by (nonlinear_arith);
        }
        let x = tu - tf;
        let bound: int = 10_000_000_000_000_000_000_000_000_000_000_000_000_000int;
        assert(size(x * b) <= bound) by {
            lemma_size_product(l, ec);
            assert(size(l * ec) <= 100 * l) by (nonlinear_arith)
                requires
                    size(l * ec) == size(l) * size(ec),
                    size(l) == l,
                    0 <= size(ec) <= 100,
                    l > 0,
            ;
            let uu = u * u;
            let b1s = size(b1);
            lemma_size_product(r1, uu);
            lemma_size_product(r1, b1);
            assert(size(r1 * uu) <= 100 * bs) by (nonlinear_arith)
                requires
                    size(r1 * uu) == size(r1) * size(uu),
                    size(uu) == uu,
                    uu == u * u,
                    0 <= size(r1) <= b1s,
                    b1s * u <= bs,
                    1 <= u <= 100,
            ;
            lemma_size_product(tu, eb);
            lemma_size_product(t1, u);
            lemma_size_product(eb, u);
            assert(size(tu) <= 813_003 * l) by (nonlinear_arith)
                requires
                    size(tu) == size(t1) * size(u),
                    size(u) == u,
                    size(t1) <= 813_003 * a1,
                    a1 * u == l,
                    u >= 1,
            ;
            assert(size(tu * eb) <= 81_300_300 * l) by (nonlinear_arith)
                requires
                    size(tu * eb) == size(tu) * size(eb),
                    0 <= size(tu) <= 813_003 * l,
                    0 <= size(eb) <= 100,
                    l > 0,
            ;
        }
        lemma_size_product(x, b);
        assert(size(x) <= 400_000_000) by (nonlinear_arith)
            requires
                size(x * b) == size(x) * bs,
                size(x * b) <= bound,
                bound == 10_000_000_000_000_000_000_000_000_000_000_000_000_000int,
                bs >= 30_000_000_000_000_000_000_000_000_000_000int,
                size(x) >= 0,
        ;
        assert(self.scaled0() * u == tu - b1 * u) by (nonlinear_arith)
            requires
                self.scaled0() == t1 - b1,
                tu == t1 * u,
        ;
    }
}

/// The cube in the number under the root.
proof fn lemma_cube(f: int, b: int, q: int)
    requires
        b != 0,
        q >= 0,
        4 * (f * f) <= q * size(b),
    ensures
        size(trunc_div(4 * (f * f), b)) <= q,
        size(trunc_div(4 * (f * f), b) * f) <= q * size(f),
{
    let n = 4 * (f * f);
    assert(n >= 0) by (nonlinear_arith)
        requires
            n == 4 * (f * f),
    ;
    lemma_trunc(n, b);
    lemma_quotient_within(n, size(b), q);
    let t = trunc_div(n, b);
    lemma_size_product(t, f);
    lemma_size_product(f, t);
    assert(size(t) * size(f) <= q * size(f)) by (nonlinear_arith)
        requires
            size(t) <= q,
            size(f) >= 0,
    ;
}

/// A square in terms of the size.
proof fn lemma_square_within(f: int, bound: int)
    requires
        size(f) <= bound,
    ensures
        0 <= f * f <= bound * bound,
{
    lemma_size_product(f, f);
    let s = size(f);
    assert(s * s <= bound * bound) by (nonlinear_arith)
        requires
            0 <= s <= bound,
    ;
    assert(f * f >= 0) by (nonlinear_arith);
}

impl Cubic {
    /// How large the numbers under the roots may become.
    pub open spec fn scaled_fit(self) -> bool {
        &&& 4 * (self.scaled0() * self.scaled0()) <= 50_000_000_000_000_000_000_000_000_000_000_000_000_000_000_000_000_000_000_000_000_000_000_000_000_000int
        &&& self.scaled1() * self.scaled1() + size(
            trunc_div(4 * (self.scaled0() * self.scaled0()), self.b()) * self.scaled0(),
        ) <= 50_000_000_000_000_000_000_000_000_000_000_000_000_000_000_000_000_000_000_000_000_000_000_000_000_000int
        &&& size(self.scaled1()) <= 110_000_000_000_000_000_000_000_000_000_000_000_000int
        &&& self.unit() <= 100 ==> size(self.b()) * size(self.scaled0()) <= 400_000_000_000_000_000_000_000_000_000_000_000_000_000_000_000_000_000_000_000_000_000_000_000_000int
        &&& self.unit() > 100 ==> size(self.b()) * size(self.scaled0()) <= 1_000_000_000_000_000_000_000_000_000_000_000_000_000_000_000_000_000_000_000_000_000int
    }

    /// In a large unit.
    proof fn lemma_scaled_small(self)
        requires
            self.solvable(),
            self.unit() > 100,
        ensures
            self.scaled_fit(),
    {
        self.lemma_unit();
        self.lemma_in_unit();
        let a = self.a();
        let f0 = self.scaled0();
        let f1 = self.scaled1();
        let bs = size(self.b());
        lemma_square_within(f0, 913_003 * a);
        lemma_square_within(f1, 2_900_000 * a);
        let aa = a * a;
        let top: int = 100_000_000_000_000_000_000_000_000;
        assert(aa <= top * top) by (nonlinear_arith)
            requires
                aa == a * a,
                0 <= a <= top,
        ;
        assert(top * top == 10_000_000_000_000_000_000_000_000_000_000_000_000_000_000_000_000_000int) by (nonlinear_arith)
            requires
                top == 100_000_000_000_000_000_000_000_000int,
        ;
        assert((913_003 * a) * (913_003 * a) == 833_574_478_009 * aa) by (nonlinear_arith)
            requires
                aa == a * a,
        ;
        assert((2_900_000 * a) * (2_900_000 * a) == 8_410_000_000_000 * aa) by (nonlinear_arith)
            requires
                aa == a * a,
        ;
        let q = 12_000_000_000_000 * a;
        assert(4 * (f0 * f0) <= q * bs) by (nonlinear_arith)
            requires
                f0 * f0 <= 833_574_478_009 * aa,
                q == 12_000_000_000_000 * a,
                100 * bs >= 29 * a,
                aa == a * a,
                a >= 0,
        ;
        lemma_cube(f0, self.b(), q);
        assert(q * size(f0) <= 10_956_036_000_000_000_000 * aa) by (nonlinear_arith)
            requires
                q == 12_000_000_000_000 * a,
                0 <= size(f0) <= 913_003 * a,
                aa == a * a,
                a >= 0,
        ;
        assert(bs * size(f0) <= 91_300_300_000 * aa) by (nonlinear_arith)
            requires
                0 <= bs <= 100_000 * a,
                0 <= size(f0) <= 913_003 * a,
                aa == a * a,
                a >= 0,
        ;
    }

    /// In a small unit.
    proof fn lemma_scaled_large(self)
        requires
            self.solvable(),
            self.unit() <= 100,
        ensures
            self.scaled_fit(),
    {
        self.lemma_coefficients();
        self.lemma_first();
        self.lemma_unit();
        self.lemma_in_unit();
        self.lemma_close();
        let u = self.unit();
        let a = self.a();
        let b = self.square();
        let big = size(b);
        let f0 = self.scaled0();
        let f1 = self.scaled1();
        let f = size(f0);
        let bs = size(self.b());
        let near = f0 * u;
        lemma_size_product(f0, u);
        assert(a <= leading()) by (nonlinear_arith)
            requires
                a * u == leading(),
                u >= 1,
                a >= 0,
        ;
        assert(bs <= big && f <= size(near)) by (nonlinear_arith)
            requires
                bs * u <= big,
                size(near) == f * u,
                u >= 1,
                bs >= 0,
                f >= 0,
        ;
        if size(self.delta0()) <= 1_000_000_000_000_000_000_000_000 {
            let k: int = 2_000_000_000_000_000_000_000_000;
            assert(f <= k);
            lemma_square_within(f0, k);
            assert(k * k == 4_000_000_000_000_000_000_000_000_000_000_000_000_000_000_000_000int) by (nonlinear_arith)
                requires
                    k == 2_000_000_000_000_000_000_000_000int,
            ;
            let q: int = 16_000_000_000_000_000_000_000_000_000_000_000_000_000_000_000_000int;
            assert(4 * (f0 * f0) <= q * bs) by (nonlinear_arith)
                requires
                    4 * (f0 * f0) <= q,
                    bs >= 1,
                    q >= 0,
            ;
            lemma_cube(f0, self.b(), q);
            assert(q * f <= q * k) by (nonlinear_arith)
                requires
                    f <= k,
                    q >= 0,
            ;
            assert(q * k <= 400_000_000_000_000_000_000_000_000_000_000_000_000_000_000_000_000_000_000_000_000_000_000_000_000int) by (nonlinear_arith)
                requires
                    q == 16_000_000_000_000_000_000_000_000_000_000_000_000_000_000_000_000int,
                    k == 2_000_000_000_000_000_000_000_000int,
            ;
            let h: int = 11_000_000_000_000_000_000_000_000_000_000_000_000int;
            assert(size(f1) <= h);
            lemma_square_within(f1, h);
            assert(h * h <= 200_000_000_000_000_000_000_000_000_000_000_000_000_000_000_000_000_000_000_000_000_000_000_000_000int) by (nonlinear_arith)
                requires
                    h == 11_000_000_000_000_000_000_000_000_000_000_000_000int,
            ;
            assert(bs * f <= 10_000_000_000_000_000_000_000_000_000_000_000_000int * k) by (nonlinear_arith)
                requires
                    0 <= bs <= 10_000_000_000_000_000_000_000_000_000_000_000_000int,
                    0 <= f <= k,
            ;
        } else if big >= 10_000_000_000_000_000_000_000_000_000_000_000int {
            self.lemma_delta0_by_square();
            assert(f <= 3 * bs) by (nonlinear_arith)
                requires
                    f * u <= 2 * big,
                    big < bs * u + u,
                    u >= 1,
                    bs >= 2,
            ;
            assert(4 * (f0 * f0) <= (36 * bs) * bs) by {
                lemma_square_within(f0, 3 * bs);
                assert((3 * bs) * (3 * bs) == 9 * (bs * bs)) by (nonlinear_arith);
                assert((36 * bs) * bs == 36 * (bs * bs)) by (nonlinear_arith);
            }
            lemma_cube(f0, self.b(), 36 * bs);
            let top: int = 10_000_000_000_000_000_000_000_000_000_000_000_000int;
            assert(bs * bs <= top * top) by (nonlinear_arith)
                requires
                    0 <= bs <= top,
            ;
            assert(top * top == 100_000_000_000_000_000_000_000_000_000_000_000_000_000_000_000_000_000_000_000_000_000_000_000_000int) by (nonlinear_arith)
                requires
                    top == 10_000_000_000_000_000_000_000_000_000_000_000_000int,
            ;
            assert((36 * bs) * bs == 36 * (bs * bs)) by (nonlinear_arith);
            assert((36 * bs) * f <= 108 * (bs * bs)) by (nonlinear_arith)
                requires
                    f <= 3 * bs,
                    bs >= 0,
            ;
            assert(bs * f <= 3 * (bs * bs)) by (nonlinear_arith)
                requires
                    f <= 3 * bs,
                    bs >= 0,
            ;
            let h: int = 103_000_000_000_000_000_000_000_000_000_000_000_000int;
            assert(size(f1) <= h);
            lemma_square_within(f1, h);
            assert(h * h <= 11_000_000_000_000_000_000_000_000_000_000_000_000_000_000_000_000_000_000_000_000_000_000_000_000_000int) by (nonlinear_arith)
                requires
                    h == 103_000_000_000_000_000_000_000_000_000_000_000_000int,
            ;
        } else {
            let k: int = 110_000_000_000_000_000_000_000_000_000_000_000int;
            assert(f <= k);
            lemma_square_within(f0, k);
            assert(k * k == 12_100_000_000_000_000_000_000_000_000_000_000_000_000_000_000_000_000_000_000_000_000_000_000int) by (nonlinear_arith)
                requires
                    k == 110_000_000_000_000_000_000_000_000_000_000_000int,
            ;
            let q: int = 170_000_000_000_000_000_000_000_000_000_000_000_000_000int;
            assert(a >= 1_000_000_000_000_000_000_000_000_000_000int) by (nonlinear_arith)
                requires
                    a * u == leading(),
                    1 <= u <= 100,
                    leading() == 100_000_000_000_000_000_000_000_000_000_000int,
            ;
            assert(4 * (f0 * f0) <= q * bs) by (nonlinear_arith)
                requires
                    4 * (f0 * f0) <= 48_400_000_000_000_000_000_000_000_000_000_000_000_000_000_000_000_000_000_000_000_000_000_000int,
                    q == 170_000_000_000_000_000_000_000_000_000_000_000_000_000int,
                    bs >= 290_000_000_000_000_000_000_000_000_000int,
            ;
            lemma_cube(f0, self.b(), q);
            assert(q * f <= q * k) by (nonlinear_arith)
                requires
                    f <= k,
                    q >= 0,
            ;
            assert(q * k <= 20_000_000_000_000_000_000_000_000_000_000_000_000_000_000_000_000_000_000_000_000_000_000_000_000_000int) by (nonlinear_arith)
                requires
                    q == 170_000_000_000_000_000_000_000_000_000_000_000_000_000int,
                    k == 110_000_000_000_000_000_000_000_000_000_000_000int,
            ;
            let h: int = 700_000_000_000_000_000_000_000_000_000_000_000int;
            assert(size(f1) <= h);
            lemma_square_within(f1, h);
            assert(h * h <= 50_000_000_000_000_000_000_000_000_000_000_000_000_000_000_000_000_000_000_000_000_000_000_000_000int) by (nonlinear_arith)
                requires
                    h == 700_000_000_000_000_000_000_000_000_000_000_000int,
            ;
            assert(bs * f <= 10_000_000_000_000_000_000_000_000_000_000_000int * k) by (nonlinear_arith)
                requires
                    0 <= bs <= 10_000_000_000_000_000_000_000_000_000_000_000int,
                    0 <= f <= k,
            ;
        }
    }

    /// Where the second number is small and the square large, the first number is not above it.
    proof fn lemma_delta0_by_square(self)
        requires
            self.solvable(),
            size(self.delta1()) <= 1_000_000_000_000_000_000_000_000,
            size(self.square()) >= 10_000_000_000_000_000_000_000_000_000_000_000int,
        ensures
            size(self.delta0()) <= size(self.square()),
    {
        self.lemma_coefficients();
        let b = self.square();
        let bs = size(b);
        let l = leading();
        let top = 27 * l * l;
        assert(top == 270_000_000_000_000_000_000_000_000_000_000_000_000_000_000_000_000_000_000_000_000_000int) by (nonlinear_arith)
            requires
                l == 100_000_000_000_000_000_000_000_000_000_000int,
                top == 27 * l * l,
        ;
        let k: int = 3_000_000_000_000_000_000_000_000_000_000int;
        assert(top <= (10 * k - 1) * bs) by (nonlinear_arith)
            requires
                top == 270_000_000_000_000_000_000_000_000_000_000_000_000_000_000_000_000_000_000_000_000_000int,
                k == 3_000_000_000_000_000_000_000_000_000_000int,
                bs >= 10_000_000_000_000_000_000_000_000_000_000_000int,
        ;
        lemma_floor_size(top, b);
        lemma_quotient_within(top, bs, 10 * k - 1);
        let f = floor_div(top, b);
        let q = self.constant() as int;
        let m = f * -q;
        lemma_size_product(f, -q);
        assert(size(m) <= (k - 1) * bs) by (nonlinear_arith)
            requires
                size(m) == size(f) * q,
                0 <= size(f) <= 10 * k,
                0 <= q <= 9 * l,
                k == 3_000_000_000_000_000_000_000_000_000_000int,
                l == 100_000_000_000_000_000_000_000_000_000_000int,
                bs >= 10_000_000_000_000_000_000_000_000_000_000_000int,
        ;
        lemma_floor_size(m, b);
        lemma_quotient_within(size(m), bs, k - 1);
    }
}

/// Whether `r` is the cube root of `v`, scaled by ten to the power 12, up to a factor of two.
pub open spec fn near_cbrt(v: int, r: int) -> bool {
    r >= 0 && 8 * (r * r * r) >= v * 1_000_000_000_000_000_000_000_000_000_000_000_000int && r * r * r <= 8 * (v * 1_000_000_000_000_000_000_000_000_000_000_000_000int)
}

/// The bounds of a cube root.
proof fn lemma_cbrt_from(r: int, cube: int, low: int)
    requires
        r >= 0,
        low >= 0,
        r * r * r >= cube,
        low * low * low <= cube,
    ensures
        r >= low,
{
    if r < low {
        assert(r * r * r < low * low * low) by (nonlinear_arith)
            requires
                0 <= r < low,
        ;
    }
}

proof fn lemma_cbrt_to(r: int, cube: int, high: int)
    requires
        r >= 0,
        high >= 0,
        r * r * r <= cube,
        high * high * high >= cube,
    ensures
        r <= high,
{
    if r > high {
        assert(r * r * r > high * high * high) by (nonlinear_arith)
            requires
                0 <= high < r,
        ;
    }
}

impl Cubic {
    /// The cube roots put together, without a sign.
    pub open spec fn joined(self, of_square: int, of_sum: int) -> int {
        of_square * of_square / (wad() as int) * of_sum / (wad() as int)
    }

    /// Whether up to the square root no divisor is zero and all numbers fit into a signed word.
    pub open spec fn starts(self) -> bool {
        &&& self.square() != 0
        &&& self.unit() > 0
        &&& self.a() > 0
        &&& self.b() != 0
        &&& signed_fits(self.tilt() * self.x as int)
        &&& signed_fits(3 * leading() * self.linear())
        &&& signed_fits(
            floor_div(27 * leading() * leading(), self.square()) * -(self.constant() as int),
        )
        &&& signed_fits(self.delta0()) && signed_fits(self.delta1())
        &&& signed_fits(4 * (self.scaled0() * self.scaled0()))
        &&& signed_fits(self.scaled1() * self.scaled1())
        &&& signed_fits(self.under_root())
    }

    /// Whether from the square root on no divisor is zero and all numbers fit into a signed word.
    pub open spec fn ends(self, of_square: int, of_sum: int) -> bool {
        let joined = self.joined(of_square, of_sum);
        &&& joined > 0
        &&& signed_fits(of_square * of_square)
        &&& signed_fits(of_square * of_square / (wad() as int) * of_sum)
        &&& size(wad() * joined) + size(wad() * self.b()) + size(
            trunc_div(wad() * self.b(), joined) * self.scaled0(),
        ) < u256_limit() / 2
        &&& size(wad() * joined) + size(wad() * self.b()) + size(
            trunc_div(wad() * self.b(), -joined) * self.scaled0(),
        ) < u256_limit() / 2
    }

    /// What is divided by the joined roots is small.
    proof fn lemma_last_quotient(self, joined: int)
        requires
            self.solvable(),
            self.scaled_fit(),
            size(joined) >= 1_000_000_000_000int,
            self.unit() <= 100 ==> size(joined) >= 1_000_000_000_000_000_000int,
        ensures
            size(trunc_div(wad() * self.b(), joined) * self.scaled0()) <= 1_000_000_000_000_000_000_000_000_000_000_000_000_000_000_000_000_000_000_000_000_000_000_000_000_000int,
    {
        self.lemma_unit();
        let w = wad() as int;
        let bs = size(self.b());
        let f = size(self.scaled0());
        let n = w * self.b();
        lemma_size_product(w, self.b());
        lemma_trunc(n, joined);
        let t = trunc_div(n, joined);
        let j = size(joined);
        lemma_size_product(t, self.scaled0());
        let ts = size(t);
        assert(ts * f * j <= w * (bs * f)) by (nonlinear_arith)
            requires
                ts * j <= w * bs,
                f >= 0,
        ;
        let p = ts * f;
        lemma_size_product(self.scaled0(), t);
        if self.unit() <= 100 {
            assert(p <= 1_000_000_000_000_000_000_000_000_000_000_000_000_000_000_000_000_000_000_000_000_000_000_000_000_000int) by (nonlinear_arith)
                requires
                    p * j <= w * (bs * f),
                    bs * f <= 400_000_000_000_000_000_000_000_000_000_000_000_000_000_000_000_000_000_000_000_000_000_000_000_000int,
                    w == 1_000_000_000_000_000_000int,
                    j >= 1_000_000_000_000_000_000int,
                    p >= 0,
            ;
        } else {
            assert(p <= 1_000_000_000_000_000_000_000_000_000_000_000_000_000_000_000_000_000_000_000_000_000_000_000_000_000int) by (nonlinear_arith)
                requires
                    p * j <= w * (bs * f),
                    bs * f <= 1_000_000_000_000_000_000_000_000_000_000_000_000_000_000_000_000_000_000_000_000_000int,
                    w == 1_000_000_000_000_000_000int,
                    j >= 1_000_000_000_000int,
                    p >= 0,
            ;
        }
    }

    /// The joined roots lie in a range.
    proof fn lemma_joined(self, of_square: int, of_sum: int, sum: int)
        requires
            self.solvable(),
            near_cbrt(size(self.b()), of_square),
            near_cbrt(sum, of_sum),
            1 <= sum <= 200_000_000_000_000_000_000_000_000_000_000_000_000int,
        ensures
            1_000_000_000_000int <= self.joined(of_square, of_sum) <= 1_000_000_000_000_000_000_000_000_000_000_000_000_000int,
            self.unit() <= 100 ==> self.joined(of_square, of_sum) >= 1_000_000_000_000_000_000int,
            0 <= of_square * of_square <= 30_000_000_000_000_000_000_000_000_000_000_000_000_000_000_000_000int,
            0 <= of_square * of_square / (wad() as int) * of_sum <= 1_000_000_000_000_000_000_000_000_000_000_000_000_000_000_000_000_000_000_000int,
    {
        self.lemma_unit();
        self.lemma_in_unit();
        self.lemma_coefficients();
        let w = wad() as int;
        let bs = size(self.b());
        let s = of_square;
        let t = of_sum;
        let unit = self.unit();
        let low: int = if unit <= 100 {
            3_000_000_000_000_000_000_000int
        } else {
            1_500_000_000_000_000_000int
        };
        assert(bs <= 10_000_000_000_000_000_000_000_000_000_000_000_000int) by (nonlinear_arith)
            requires
                bs * unit <= size(self.square()),
                size(self.square()) <= 10_000_000_000_000_000_000_000_000_000_000_000_000int,
                unit >= 1,
                bs >= 0,
        ;
        if unit <= 100 {
            assert(self.a() >= 1_000_000_000_000_000_000_000_000_000_000int) by (nonlinear_arith)
                requires
                    self.a() * unit == leading(),
                    1 <= unit <= 100,
                    leading() == 100_000_000_000_000_000_000_000_000_000_000int,
            ;
            assert(low * low * low <= 35_000_000_000_000_000_000_000_000_000_000_000_000_000_000_000_000_000_000_000_000_000int) by (nonlinear_arith)
                requires
                    low == 3_000_000_000_000_000_000_000int,
            ;
            lemma_cbrt_from(s, 35_000_000_000_000_000_000_000_000_000_000_000_000_000_000_000_000_000_000_000_000_000int, low);
        } else {
            assert(low * low * low <= 3_500_000_000_000_000_000_000_000_000_000_000_000_000_000_000_000_000_000int) by (nonlinear_arith)
                requires
                    low == 1_500_000_000_000_000_000int,
            ;
            lemma_cbrt_from(s, 3_500_000_000_000_000_000_000_000_000_000_000_000_000_000_000_000_000_000int, low);
        }
        let high: int = 5_000_000_000_000_000_000_000_000int;
        assert(high * high * high >= 80_000_000_000_000_000_000_000_000_000_000_000_000_000_000_000_000_000_000_000_000_000_000_000_000int) by (nonlinear_arith)
            requires
                high == 5_000_000_000_000_000_000_000_000int,
        ;
        lemma_cbrt_to(s, 80_000_000_000_000_000_000_000_000_000_000_000_000_000_000_000_000_000_000_000_000_000_000_000_000int, high);
        let tl: int = 500_000_000_000int;
        assert(tl * tl * tl == 125_000_000_000_000_000_000_000_000_000_000_000int) by (nonlinear_arith)
            requires
                tl == 500_000_000_000int,
        ;
        lemma_cbrt_from(t, 125_000_000_000_000_000_000_000_000_000_000_000int, tl);
        let th: int = 20_000_000_000_000_000_000_000_000int;
        assert(th * th * th >= 1_600_000_000_000_000_000_000_000_000_000_000_000_000_000_000_000_000_000_000_000_000_000_000_000_000int) by (nonlinear_arith)
            requires
                th == 20_000_000_000_000_000_000_000_000int,
        ;
        lemma_cbrt_to(t, 1_600_000_000_000_000_000_000_000_000_000_000_000_000_000_000_000_000_000_000_000_000_000_000_000_000int, th);
        let ss = s * s;
        assert(low * low <= ss <= high * high) by (nonlinear_arith)
            requires
                0 <= low <= s <= high,
                ss == s * s,
        ;
        assert(high * high == 25_000_000_000_000_000_000_000_000_000_000_000_000_000_000_000_000int) by (nonlinear_arith)
            requires
                high == 5_000_000_000_000_000_000_000_000int,
        ;
        let q = ss / w;
        lemma_floor(ss, w);
        let ql: int = if unit <= 100 {
            8_000_000_000_000_000_000_000_000int
        } else {
            2_200_000_000_000_000_000int
        };
        assert(ql * w <= low * low) by (nonlinear_arith)
            requires
                w == 1_000_000_000_000_000_000int,
                (ql == 8_000_000_000_000_000_000_000_000int && low == 3_000_000_000_000_000_000_000int) || (ql == 2_200_000_000_000_000_000int && low == 1_500_000_000_000_000_000int),
        ;
        lemma_at_most_quotient(ql, ss, w);
        lemma_quotient_within(ss, w, 25_000_000_000_000_000_000_000_000_000_000int);
        let p = q * t;
        assert(ql * tl <= p <= 25_000_000_000_000_000_000_000_000_000_000int * th) by (nonlinear_arith)
            requires
                0 <= ql <= q <= 25_000_000_000_000_000_000_000_000_000_000int,
                0 <= tl <= t <= th,
                p == q * t,
        ;
        assert(25_000_000_000_000_000_000_000_000_000_000int * th == 500_000_000_000_000_000_000_000_000_000_000_000_000_000_000_000_000_000_000int) by (nonlinear_arith)
            requires
                th == 20_000_000_000_000_000_000_000_000int,
        ;
        let jl: int = if unit <= 100 {
            1_000_000_000_000_000_000int
        } else {
            1_000_000_000_000int
        };
        assert(jl * w <= ql * tl) by (nonlinear_arith)
            requires
                w == 1_000_000_000_000_000_000int,
                tl == 500_000_000_000int,
                (ql == 8_000_000_000_000_000_000_000_000int && jl == 1_000_000_000_000_000_000int) || (ql == 2_200_000_000_000_000_000int && jl == 1_000_000_000_000int),
        ;
        lemma_at_most_quotient(jl, p, w);
        lemma_quotient_within(p, w, 1_000_000_000_000_000_000_000_000_000_000_000_000_000int);
    }
}

/// Up to the square root the closed solution divides by no zero, and its numbers stay within a
/// signed word.
pub proof fn law_closed_solution_starts(pool: Cubic)
    requires
        pool.solvable(),
    ensures
        pool.starts(),
        pool.scaled_fit(),
{
    pool.lemma_coefficients();
    pool.lemma_first();
    pool.lemma_unit();
    pool.lemma_in_unit();
    if pool.unit() <= 100 {
        pool.lemma_scaled_large();
    } else {
        pool.lemma_scaled_small();
    }
    lemma_size_product(pool.scaled0(), pool.scaled0());
    lemma_size_product(pool.scaled1(), pool.scaled1());
    lemma_square_within(pool.scaled0(), size(pool.scaled0()));
    lemma_square_within(pool.scaled1(), size(pool.scaled1()));
}

/// From the square root on the closed solution divides by no zero, and its numbers stay within a
/// signed word. `root` is the square root that it takes, `of_square` and `of_sum` are its cube
/// roots. Without a square root the solver falls back on Newton's method.
pub proof fn law_closed_solution_ends(pool: Cubic, root: int, of_square: int, of_sum: int)
    requires
        pool.solvable(),
        pool.under_root() > 0,
        root >= 0,
        root * root <= pool.under_root() < (root + 1) * (root + 1),
        near_cbrt(size(pool.b()), of_square),
        near_cbrt((size(pool.scaled1()) + root) / 2, of_sum),
    ensures
        pool.ends(of_square, of_sum),
{
    law_closed_solution_starts(pool);
    pool.lemma_coefficients();
    pool.lemma_unit();
    pool.lemma_in_unit();
    let f0 = pool.scaled0();
    let f1 = pool.scaled1();
    let b = pool.b();
    let v = size(f1) + root;
    lemma_size_product(f1, f1);
    assert(root >= 1) by (nonlinear_arith)
        requires
            1 <= pool.under_root(),
            pool.under_root() < (root + 1) * (root + 1),
            root >= 0,
    ;
    assert(v >= 2) by {
        if f1 == 0 {
            let n = 4 * (f0 * f0);
            let t = trunc_div(n, b);
            assert(n >= 0) by (nonlinear_arith)
                requires
                    n == 4 * (f0 * f0),
            ;
            assert(f1 * f1 == 0) by (nonlinear_arith)
                requires
                    f1 == 0,
            ;
            let p = t * f0;
            lemma_size_product(t, f0);
            lemma_size_product(f0, f0);
            lemma_size_product(f0, t);
            lemma_trunc(n, b);
            assert(t != 0 && f0 != 0) by (nonlinear_arith)
                requires
                    p > 0,
                    p == t * f0,
            ;
            let f = size(f0);
            assert(n >= size(b)) by (nonlinear_arith)
                requires
                    size(t) * size(b) <= n,
                    size(t) >= 1,
                    size(b) >= 0,
            ;
            assert(f >= 4) by (nonlinear_arith)
                requires
                    4 * (f * f) >= 64,
                    f >= 0,
            ;
            assert(p >= 4) by (nonlinear_arith)
                requires
                    p == size(t) * f,
                    size(t) >= 1,
                    f >= 4,
            ;
            assert(root >= 2) by (nonlinear_arith)
                requires
                    4 <= pool.under_root(),
                    pool.under_root() < (root + 1) * (root + 1),
                    root >= 0,
            ;
        }
    }
    assert(root <= 230_000_000_000_000_000_000_000_000_000_000_000_000int) by (nonlinear_arith)
        requires
            root * root <= 50_000_000_000_000_000_000_000_000_000_000_000_000_000_000_000_000_000_000_000_000_000_000_000_000_000int,
            root >= 0,
    ;
    pool.lemma_joined(of_square, of_sum, v / 2);
    let joined = pool.joined(of_square, of_sum);
    pool.lemma_last_quotient(joined);
    pool.lemma_last_quotient(-joined);
    let w = wad() as int;
    lemma_size_product(w, b);
    lemma_size_product(w, joined);
    assert(size(b) <= 10_000_000_000_000_000_000_000_000_000_000_000_000int) by (nonlinear_arith)
        requires
            size(b) * pool.unit() <= size(pool.square()),
            size(pool.square()) <= 10_000_000_000_000_000_000_000_000_000_000_000_000int,
            pool.unit() >= 1,
            size(b) >= 0,
    ;
}

} // verus!
