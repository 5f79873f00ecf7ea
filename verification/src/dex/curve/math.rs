//! Curve StableSwap mathematics.

use crate::base::error::{
    e_invalid, e_overflow, e_underflow, e_zero_division, invalid, math_view, overflow0, overflow1,
    overflow2, underflow2, unexplained, zero_division, MathErr, MathError,
};
use crate::data::curve_registry::StableswapMathVariant;
use crate::dex::adapter::{wad, wad_value};
use crate::dex::checked::{product, product_spec, sum, sum_spec};
use crate::text::{dec, text_u128, text_u256};
use crate::u256::{distance, fits, u256_in_range, u256_limit, values, U256};
use vstd::arithmetic::power::{
    lemma_pow0, lemma_pow1, lemma_pow_adds, lemma_pow_increases, lemma_pow_multiplies,
    lemma_pow_positive, lemma_square_is_pow2, pow,
};
use vstd::arithmetic::power2::{lemma_pow2_adds, lemma_pow2_pos, lemma_pow2_strictly_increases, pow2};
use vstd::prelude::*;
use vstd::string::StringExecFns;

verus! {

/// `r` is the square root of `n`, rounded down.
pub open spec fn is_isqrt(r: nat, n: nat) -> bool {
    r * r <= n < (r + 1) * (r + 1)
}

/// The square root of `n`, rounded down.
pub open spec fn isqrt(n: nat) -> nat {
    choose|r: nat| is_isqrt(r, n)
}

/// There is only one rounded-down square root.
pub proof fn lemma_isqrt_is(r: nat, n: nat)
    requires
        is_isqrt(r, n),
    ensures
        isqrt(n) == r,
{
    let s = isqrt(n);
    assert(is_isqrt(s, n));
    if s < r {
        assert((s + 1) * (s + 1) <= r * r) by (nonlinear_arith)
            requires
                s + 1 <= r,
        ;
    } else if r < s {
        assert((r + 1) * (r + 1) <= s * s) by (nonlinear_arith)
            requires
                r + 1 <= s,
        ;
    }
}

/// Every number has a square root, rounded down.
pub proof fn law_square_root_exists(n: nat)
    ensures
        is_isqrt(isqrt(n), n),
    decreases n,
{
    if n == 0 {
        assert(0nat * 0nat == 0 && (0nat + 1) * (0nat + 1) == 1) by (nonlinear_arith);
        assert(is_isqrt(0, n));
    } else {
        law_square_root_exists((n - 1) as nat);
        let r = isqrt((n - 1) as nat);
        if n < (r + 1) * (r + 1) {
            assert(is_isqrt(r, n));
        } else {
            assert((r + 1) * (r + 1) < (r + 2) * (r + 2)) by (nonlinear_arith);
            assert(is_isqrt((r + 1) as nat, n));
        }
    }
}

/// One step of Newton's method for the square root stays at or above the root.
proof fn lemma_sqrt_step(x: nat, z: nat, q: nat, m: nat)
    requires
        z > 0,
        q == x / z,
        m == (z + q) / 2,
    ensures
        x < (m + 1) * (m + 1),
{
    vstd::arithmetic::div_mod::lemma_fundamental_div_mod(x as int, z as int);
    assert(z * (q + 1) == z * q + z) by (nonlinear_arith);
    assert(x < z * (q + 1));
    assert(2 * (m + 1) >= z + q + 1);
    assert((z + q + 1) * (z + q + 1) >= 4 * (z * (q + 1))) by (nonlinear_arith);
    assert(4 * ((m + 1) * (m + 1)) >= (z + q + 1) * (z + q + 1)) by (nonlinear_arith)
        requires
            2 * (m + 1) >= z + q + 1,
    ;
}

/// Integer square root by Newton's method, from a power of two above the root.
pub fn sqrt_u256(x: U256) -> (r: Result<U256, MathError>)
    ensures
        math_view(r) == Ok::<nat, MathErr>(isqrt(x@)),
        r matches Ok(v) && is_isqrt(v@, x@),
{
    broadcast use u256_in_range;

    let one = U256::from_u64(1);
    if !one.less(&x) {
        proof {
            assert(x@ * x@ <= x@ < (x@ + 1) * (x@ + 1)) by (nonlinear_arith)
                requires
                    x@ <= 1,
            ;
            lemma_isqrt_is(x@, x@);
        }
        return Ok(x);
    }
    let zeros: usize = x.leading_zeros();
    let bits: usize = 256 - zeros;
    let half: usize = (bits + 1) / 2;
    let mut z = one.shl(half);
    proof {
        let h = half as nat;
        lemma_pow2_pos(h);
        lemma_pow2_adds(h, h);
        assert(half <= 128);
        if h < 128 {
            lemma_pow2_strictly_increases(h, 128);
        }
        vstd::arithmetic::power2::lemma2_to64_rest();
        lemma_pow2_adds(64, 64);
        assert(pow2(128) == 0x1_0000_0000_0000_0000_0000_0000_0000_0000nat);
        assert(one@ * pow2(h) == pow2(h));
        assert(z@ == pow2(h)) by {
            vstd::arithmetic::div_mod::lemma_small_mod(pow2(h), u256_limit());
        }
        if bits < 2 * half {
            lemma_pow2_strictly_increases(bits as nat, h + h);
        }
        assert(x@ < z@ * z@);
        assert(x@ < (z@ + 1) * (z@ + 1)) by (nonlinear_arith)
            requires
                x@ < z@ * z@,
        ;
    }
    loop
        invariant_except_break
            x@ > 1,
            0 < z@ <= 0x1_0000_0000_0000_0000_0000_0000_0000_0000nat,
            x@ < (z@ + 1) * (z@ + 1),
        ensures
            is_isqrt(z@, x@),
        decreases z@,
    {
        let q = x.div(z);
        proof {
            assert(q@ <= z@ + 3) by (nonlinear_arith)
                requires
                    x@ < (z@ + 1) * (z@ + 1),
                    q@ == x@ / z@,
                    z@ > 0,
            {
                assert((z@ + 1) * (z@ + 1) <= z@ * (z@ + 3));
                assert(x@ / z@ <= z@ + 3) by {
                    vstd::arithmetic::div_mod::lemma_fundamental_div_mod(x@ as int, z@ as int);
                }
            }
            vstd::arithmetic::power2::lemma2_to64();
        }
        let next = z.plus(q).shr(1);
        proof {
            lemma_sqrt_step(x@, z@, q@, next@);
        }
        if !next.less(&z) {
            proof {
                assert(q@ >= z@);
                assert(z@ * z@ <= x@) by (nonlinear_arith)
                    requires
                        q@ == x@ / z@,
                        q@ >= z@,
                        z@ > 0,
                {
                    vstd::arithmetic::div_mod::lemma_fundamental_div_mod(x@ as int, z@ as int);
                    assert(z@ * q@ <= x@);
                    assert(z@ * z@ <= z@ * q@);
                }
            }
            break;
        }
        proof {
            if next@ == 0 {
                assert((next@ + 1) * (next@ + 1) == 1) by (nonlinear_arith)
                    requires
                        next@ == 0,
                ;
            }
        }
        z = next;
    }
    proof {
        lemma_isqrt_is(z@, x@);
    }
    Ok(z)
}

/// The sum of a sequence.
pub open spec fn total(s: Seq<nat>) -> nat
    decreases s.len(),
{
    if s.len() == 0 {
        0
    } else {
        total(s.drop_last()) + s.last()
    }
}

/// The sum of a sequence, held at the largest 256-bit value.
pub open spec fn saturated_total(s: Seq<nat>) -> nat {
    if fits(total(s)) {
        total(s)
    } else {
        (u256_limit() - 1) as nat
    }
}

/// Every number times `n`, or the first overflow, for the first `count` numbers.
pub open spec fn times_n_spec(balances: Seq<nat>, n: nat, count: nat) -> Result<Seq<nat>, MathErr>
    decreases count,
{
    if count == 0 {
        Ok(seq![])
    } else {
        match times_n_spec(balances, n, (count - 1) as nat) {
            Err(e) => Err(e),
            Ok(done) => match product_spec(
                "calculate_d"@,
                "balance * n (hoisted for D_P)"@,
                balances[count - 1],
                n,
            ) {
                Err(e) => Err(e),
                Ok(p) => Ok(done.push(p)),
            },
        }
    }
}

/// One factor of `D_P`: `p * d / divisor`, where the divisor is `x * N`, or `x * N + 1`.
pub open spec fn d_p_factor(p: nat, d: nat, x_n: nat, variant: StableswapMathVariant) -> Result<
    nat,
    MathErr,
> {
    match variant {
        StableswapMathVariant::Vyper02ThreePool => d_p_quotient(p, d, x_n),
        StableswapMathVariant::Vyper01Legacy => if !fits(x_n + 1) {
            Err(e_overflow("calculate_d"@, seq![x_n], "x*N+1 for legacy D_P"@))
        } else {
            d_p_quotient(p, d, x_n + 1)
        },
    }
}

/// `p * d / divisor`, rounded down.
pub open spec fn d_p_quotient(p: nat, d: nat, divisor: nat) -> Result<nat, MathErr> {
    if divisor == 0 {
        Err(e_zero_division("calculate_d"@, "D_P divisor is zero"@))
    } else {
        match product_spec("calculate_d"@, "d_p * d in D_P calculation"@, p, d) {
            Err(e) => Err(e),
            Ok(v) => Ok(v / divisor),
        }
    }
}

/// `D_P` after the first `count` balances: `d` times `d / (x * N)` for each of them.
pub open spec fn d_p_spec(
    x_n: Seq<nat>,
    d: nat,
    variant: StableswapMathVariant,
    count: nat,
) -> Result<nat, MathErr>
    decreases count,
{
    if count == 0 {
        Ok(d)
    } else {
        match d_p_spec(x_n, d, variant, (count - 1) as nat) {
            Err(e) => Err(e),
            Ok(p) => d_p_factor(p, d, x_n[count - 1], variant),
        }
    }
}

/// Newton's step for the invariant:
/// `(Ann * S + D_P * N) * D / ((Ann - 1) * D + (N + 1) * D_P)`.
pub open spec fn next_d_spec(ann: nat, s: nat, n: nat, d: nat, d_p: nat) -> Result<nat, MathErr> {
    let ann_less = if ann == 0 {
        0
    } else {
        (ann - 1) as nat
    };
    match product_spec("calculate_d"@, "Ann * S"@, ann, s) {
        Err(e) => Err(e),
        Ok(ann_s) => match product_spec("calculate_d"@, "D_P * N"@, d_p, n) {
            Err(e) => Err(e),
            Ok(d_p_n) => match sum_spec("calculate_d"@, "Ann * S + D_P * N"@, ann_s, d_p_n) {
                Err(e) => Err(e),
                Ok(inner) => match product_spec(
                    "calculate_d"@,
                    "(Ann * S + D_P * N) * D"@,
                    inner,
                    d,
                ) {
                    Err(e) => Err(e),
                    Ok(numerator) => match d_denominator_spec(ann_less, n, d, d_p) {
                        Err(e) => Err(e),
                        Ok(denominator) => Ok(numerator / denominator),
                    },
                },
            },
        },
    }
}

/// The denominator of Newton's step for the invariant.
pub open spec fn d_denominator_spec(ann_less: nat, n: nat, d: nat, d_p: nat) -> Result<
    nat,
    MathErr,
> {
    match product_spec("calculate_d"@, "(Ann - 1) * D"@, ann_less, d) {
        Err(e) => Err(e),
        Ok(term1) => match product_spec("calculate_d"@, "(N + 1) * D_P"@, n + 1, d_p) {
            Err(e) => Err(e),
            Ok(term2) => match sum_spec(
                "calculate_d"@,
                "(Ann - 1) * D + (N + 1) * D_P"@,
                term1,
                term2,
            ) {
                Err(e) => Err(e),
                Ok(denominator) => if denominator == 0 {
                    Err(
                        e_zero_division("calculate_d"@, "Newton iteration denominator is zero"@),
                    )
                } else {
                    Ok(denominator)
                },
            },
        },
    }
}

/// One iteration for the invariant.
pub open spec fn d_step_spec(
    x_n: Seq<nat>,
    ann: nat,
    s: nat,
    variant: StableswapMathVariant,
    d: nat,
) -> Result<nat, MathErr> {
    match d_p_spec(x_n, d, variant, x_n.len()) {
        Err(e) => Err(e),
        Ok(d_p) => next_d_spec(ann, s, x_n.len(), d, d_p),
    }
}

/// Newton's method for the invariant: it ends where two values differ by at most one.
pub open spec fn newton_d_spec(
    x_n: Seq<nat>,
    ann: nat,
    s: nat,
    variant: StableswapMathVariant,
    d: nat,
    left: nat,
) -> Result<nat, MathErr>
    decreases left,
{
    if left == 0 {
        Err(
            e_invalid(
                "calculate_d"@,
                "Newton's method did not converge after 255 iterations"@,
                "Last D: "@ + dec(d) + ", n: "@ + dec(x_n.len()),
            ),
        )
    } else {
        match d_step_spec(x_n, ann, s, variant, d) {
            Err(e) => Err(e),
            Ok(next) => if distance(next, d) <= 1 {
                Ok(next)
            } else {
                newton_d_spec(x_n, ann, s, variant, next, (left - 1) as nat)
            },
        }
    }
}

/// The invariant of a pool, or the error.
pub open spec fn d_spec(
    balances: Seq<nat>,
    a: nat,
    n: nat,
    variant: StableswapMathVariant,
) -> Result<nat, MathErr> {
    if balances.len() != n {
        Err(
            e_invalid(
                "calculate_d"@,
                "Balance count "@ + dec(balances.len()) + " doesn't match n "@ + dec(n),
                seq![],
            ),
        )
    } else if n == 0 {
        Err(e_invalid("calculate_d"@, "Pool must have at least 1 token"@, seq![]))
    } else if balances.contains(0) {
        Ok(0)
    } else {
        match product_spec("calculate_d"@, "Ann = A * N_COINS"@, a, n) {
            Err(e) => Err(e),
            Ok(ann) => match times_n_spec(balances, n, n) {
                Err(e) => Err(e),
                Ok(x_n) => newton_d_spec(
                    x_n,
                    ann,
                    saturated_total(balances),
                    variant,
                    saturated_total(balances),
                    255,
                ),
            },
        }
    }
}

/// Adds up balances, held at the largest 256-bit value.
fn sum_of(balances: &[U256]) -> (r: U256)
    ensures
        r@ == saturated_total(values(balances@)),
{
    broadcast use u256_in_range;

    let mut acc = U256::zero();
    let mut i: usize = 0;
    let ghost all = values(balances@);
    while i < balances.len()
        invariant
            i <= balances@.len(),
            all == values(balances@),
            acc@ == saturated_total(all.take(i as int)),
        decreases balances@.len() - i,
    {
        proof {
            assert(all.take(i + 1).drop_last() =~= all.take(i as int));
        }
        acc = acc.saturating_add(balances[i]);
        i = i + 1;
    }
    proof {
        assert(all.take(i as int) =~= all);
    }
    acc
}

/// Multiplies every balance by the number of tokens.
fn times_n(balances: &[U256], n: U256) -> (r: Result<Vec<U256>, MathError>)
    ensures
        list_view(r) == times_n_spec(values(balances@), n@, balances@.len()),
        r matches Ok(v) ==> v@.len() == balances@.len(),
{
    let mut out: Vec<U256> = Vec::new();
    let mut i: usize = 0;
    let ghost all = values(balances@);
    let ghost len = balances@.len();
    proof {
        assert(values(out@) =~= seq![]);
    }
    while i < balances.len()
        invariant
            i <= balances@.len(),
            len == balances@.len(),
            all == values(balances@),
            out@.len() == i,
            times_n_spec(all, n@, i as nat) == Ok::<Seq<nat>, MathErr>(values(out@)),
        decreases balances@.len() - i,
    {
        match product("calculate_d", "balance * n (hoisted for D_P)", balances[i], n) {
            Ok(p) => {
                let ghost before = out@;
                out.push(p);
                proof {
                    assert(values(out@) =~= values(before).push(p@));
                }
            },
            Err(e) => {
                proof {
                    lemma_times_n_fails(all, n@, (i + 1) as nat, len);
                }
                return Err(e);
            },
        }
        i = i + 1;
    }
    Ok(out)
}

/// The first error in a list of products is the error of every longer list.
proof fn lemma_times_n_fails(balances: Seq<nat>, n: nat, count: nat, more: nat)
    requires
        count <= more,
        times_n_spec(balances, n, count) is Err,
    ensures
        times_n_spec(balances, n, more) == times_n_spec(balances, n, count),
    decreases more - count,
{
    if count < more {
        lemma_times_n_fails(balances, n, count, (more - 1) as nat);
    }
}

/// The view of a list of amounts.
pub open spec fn list_view(r: Result<Vec<U256>, MathError>) -> Result<Seq<nat>, MathErr> {
    match r {
        Ok(v) => Ok(values(v@)),
        Err(e) => Err(e@),
    }
}

/// The first error of `D_P` is its error after every longer list.
proof fn lemma_d_p_fails(
    x_n: Seq<nat>,
    d: nat,
    variant: StableswapMathVariant,
    count: nat,
    more: nat,
)
    requires
        count <= more,
        d_p_spec(x_n, d, variant, count) is Err,
    ensures
        d_p_spec(x_n, d, variant, more) == d_p_spec(x_n, d, variant, count),
    decreases more - count,
{
    if count < more {
        lemma_d_p_fails(x_n, d, variant, count, (more - 1) as nat);
    }
}

/// Computes `D_P`.
fn d_p_of(x_n: &Vec<U256>, d: U256, variant: StableswapMathVariant) -> (r: Result<U256, MathError>)
    ensures
        math_view(r) == d_p_spec(values(x_n@), d@, variant, x_n@.len()),
{
    let mut d_p = d;
    let mut i: usize = 0;
    let ghost all = values(x_n@);
    let ghost len = x_n@.len();
    while i < x_n.len()
        invariant
            i <= x_n@.len(),
            len == x_n@.len(),
            all == values(x_n@),
            d_p_spec(all, d@, variant, i as nat) == Ok::<nat, MathErr>(d_p@),
        decreases x_n@.len() - i,
    {
        let factor = match variant {
            StableswapMathVariant::Vyper02ThreePool => d_p_divided(d_p, d, x_n[i]),
            StableswapMathVariant::Vyper01Legacy => match x_n[i].checked_add(U256::from_u64(1)) {
                None => Err(overflow1("calculate_d", x_n[i], "x*N+1 for legacy D_P")),
                Some(divisor) => d_p_divided(d_p, d, divisor),
            },
        };
        match factor {
            Ok(p) => {
                d_p = p;
            },
            Err(e) => {
                proof {
                    lemma_d_p_fails(all, d@, variant, (i + 1) as nat, len);
                }
                return Err(e);
            },
        }
        i = i + 1;
    }
    Ok(d_p)
}

fn d_p_divided(d_p: U256, d: U256, divisor: U256) -> (r: Result<U256, MathError>)
    ensures
        math_view(r) == d_p_quotient(d_p@, d@, divisor@),
{
    if divisor.is_zero() {
        return Err(zero_division("calculate_d", "D_P divisor is zero"));
    }
    match product("calculate_d", "d_p * d in D_P calculation", d_p, d) {
        Err(e) => Err(e),
        Ok(v) => Ok(v.div(divisor)),
    }
}

/// Computes Newton's step for the invariant.
fn next_d(ann: U256, s: U256, n: U256, d: U256, d_p: U256) -> (r: Result<U256, MathError>)
    requires
        fits(n@ + 1),
    ensures
        math_view(r) == next_d_spec(ann@, s@, n@, d@, d_p@),
{
    let ann_s = match product("calculate_d", "Ann * S", ann, s) {
        Ok(v) => v,
        Err(e) => return Err(e),
    };
    let d_p_n = match product("calculate_d", "D_P * N", d_p, n) {
        Ok(v) => v,
        Err(e) => return Err(e),
    };
    let inner = match sum("calculate_d", "Ann * S + D_P * N", ann_s, d_p_n) {
        Ok(v) => v,
        Err(e) => return Err(e),
    };
    let numerator = match product("calculate_d", "(Ann * S + D_P * N) * D", inner, d) {
        Ok(v) => v,
        Err(e) => return Err(e),
    };
    let ann_less = ann.saturating_sub(U256::from_u64(1));
    let term1 = match product("calculate_d", "(Ann - 1) * D", ann_less, d) {
        Ok(v) => v,
        Err(e) => return Err(e),
    };
    let n_more = n.saturating_add(U256::from_u64(1));
    let term2 = match product("calculate_d", "(N + 1) * D_P", n_more, d_p) {
        Ok(v) => v,
        Err(e) => return Err(e),
    };
    let denominator = match sum("calculate_d", "(Ann - 1) * D + (N + 1) * D_P", term1, term2) {
        Ok(v) => v,
        Err(e) => return Err(e),
    };
    if denominator.is_zero() {
        return Err(zero_division("calculate_d", "Newton iteration denominator is zero"));
    }
    Ok(numerator.div(denominator))
}

/// Whether a list holds a zero.
fn has_zero(balances: &[U256]) -> (r: bool)
    ensures
        r == values(balances@).contains(0),
{
    let mut i: usize = 0;
    let ghost all = values(balances@);
    while i < balances.len()
        invariant
            i <= balances@.len(),
            all == values(balances@),
            forall|k: int| 0 <= k < i ==> all[k] != 0,
        decreases balances@.len() - i,
    {
        if balances[i].is_zero() {
            assert(all[i as int] == 0);
            return true;
        }
        i = i + 1;
    }
    false
}

/// Calculates the invariant `D` by Newton's method, with `Ann = A * N`.
pub fn calculate_d(balances: &[U256], a: U256, n: usize, variant: StableswapMathVariant) -> (r:
    Result<U256, MathError>)
    ensures
        math_view(r) == d_spec(values(balances@), a@, n as nat, variant),
{
    if balances.len() != n {
        let reason = "Balance count ".to_owned().concat(
            text_u128(balances.len() as u128).as_str(),
        ).concat(" doesn't match n ").concat(text_u128(n as u128).as_str());
        return Err(unexplained("calculate_d", reason.as_str()));
    }
    if n == 0 {
        return Err(unexplained("calculate_d", "Pool must have at least 1 token"));
    }
    if has_zero(balances) {
        return Ok(U256::zero());
    }
    let s = sum_of(balances);
    let n_word = U256::from_u64(n as u64);
    let ann = match product("calculate_d", "Ann = A * N_COINS", a, n_word) {
        Ok(v) => v,
        Err(e) => return Err(e),
    };
    let x_n = match times_n(balances, n_word) {
        Ok(v) => v,
        Err(e) => return Err(e),
    };
    let ghost xs = values(x_n@);
    let ghost whole = newton_d_spec(xs, ann@, s@, variant, s@, 255);
    let mut d = s;
    let mut left: u32 = 255;
    while left > 0
        invariant
            x_n@.len() == n,
            xs == values(x_n@),
            n_word@ == n,
            whole == d_spec(values(balances@), a@, n as nat, variant),
            whole == newton_d_spec(xs, ann@, s@, variant, d@, left as nat),
        decreases left,
    {
        left = left - 1;
        let d_p = match d_p_of(&x_n, d, variant) {
            Ok(v) => v,
            Err(e) => return Err(e),
        };
        let next = match next_d(ann, s, n_word, d, d_p) {
            Ok(v) => v,
            Err(e) => return Err(e),
        };
        let diff = next.distance(d);
        if !U256::from_u64(1).less(&diff) {
            return Ok(next);
        }
        d = next;
    }
    let context = "Last D: ".to_owned().concat(text_u256(d).as_str()).concat(", n: ").concat(
        text_u128(n as u128).as_str(),
    );
    Err(
        invalid(
            "calculate_d",
            "Newton's method did not converge after 255 iterations",
            context.as_str(),
        ),
    )
}

/// What the balances other than the output balance contribute: their sum, and `D` times
/// `D / (x * N)` for each of them; for the first `count` balances.
pub open spec fn y_terms_spec(xp: Seq<nat>, j: int, d: nat, count: nat) -> Result<
    (nat, nat),
    MathErr,
>
    decreases count,
{
    if count == 0 {
        Ok((0, d))
    } else {
        match y_terms_spec(xp, j, d, (count - 1) as nat) {
            Err(e) => Err(e),
            Ok((s, c)) => if count - 1 == j {
                Ok((s, c))
            } else {
                y_term_spec(xp, count - 1, d, s, c)
            },
        }
    }
}

/// What one balance contributes.
pub open spec fn y_term_spec(xp: Seq<nat>, k: int, d: nat, s: nat, c: nat) -> Result<
    (nat, nat),
    MathErr,
> {
    let x = xp[k];
    if x == 0 {
        Err(e_zero_division("calculate_y"@, "Balance at index "@ + dec(k as nat) + " is zero"@))
    } else {
        match sum_spec("calculate_y"@, "Sum calculation"@, s, x) {
            Err(e) => Err(e),
            Ok(s2) => match product_spec("calculate_y"@, "xp_k * n"@, x, xp.len()) {
                Err(e) => Err(e),
                Ok(x_n) => match product_spec(
                    "calculate_y"@,
                    "c * D in iterative calculation"@,
                    c,
                    d,
                ) {
                    Err(e) => Err(e),
                    Ok(c_d) => Ok((s2, c_d / x_n)),
                },
            },
        }
    }
}

/// The coefficients of the equation for the output balance: `c = c * D / (Ann * N)` and
/// `b = S + D / Ann`.
pub open spec fn y_coefficients_spec(ann: nat, n: nat, d: nat, s: nat, c: nat) -> Result<
    (nat, nat),
    MathErr,
> {
    match product_spec("calculate_y"@, "Final c * D"@, c, d) {
        Err(e) => Err(e),
        Ok(c_d) => match product_spec("calculate_y"@, "Ann * n"@, ann, n) {
            Err(e) => Err(e),
            Ok(ann_n) => if ann_n == 0 {
                Err(e_zero_division("calculate_y"@, "c / (Ann * n)"@))
            } else {
                match sum_spec("calculate_y"@, "S + D/Ann"@, s, d / ann) {
                    Err(e) => Err(e),
                    Ok(b) => Ok((b, c_d / ann_n)),
                }
            },
        },
    }
}

/// Newton's step for the output balance: `(y * y + c) / (2 * y + b - D)`.
pub open spec fn y_step_spec(b: nat, c: nat, d: nat, y: nat) -> Result<nat, MathErr> {
    match product_spec("calculate_y"@, "y^2"@, y, y) {
        Err(e) => Err(e),
        Ok(y2) => match sum_spec("calculate_y"@, "y^2 + c"@, y2, c) {
            Err(e) => Err(e),
            Ok(numerator) => match sum_spec("calculate_y"@, "2*y + b"@, 2 * y, b) {
                Err(e) => Err(e),
                Ok(before) => if before < d {
                    Err(
                        e_invalid(
                            "calculate_y"@,
                            "Newton denominator would be negative"@,
                            "2y+b="@ + dec(before) + ", d="@ + dec(d),
                        ),
                    )
                } else if before == d {
                    Err(
                        e_zero_division("calculate_y"@, "Newton iteration denominator is zero"@),
                    )
                } else {
                    Ok(numerator / ((before - d) as nat))
                },
            },
        },
    }
}

/// Newton's method for the output balance: it ends where two values differ by at most one.
pub open spec fn newton_y_spec(b: nat, c: nat, d: nat, n: nat, y: nat, left: nat) -> Result<
    nat,
    MathErr,
>
    decreases left,
{
    if left == 0 {
        Err(
            e_invalid(
                "calculate_y"@,
                "Newton's method did not converge after 255 iterations"@,
                "Last y: "@ + dec(y) + ", D: "@ + dec(d) + ", n: "@ + dec(n),
            ),
        )
    } else {
        match y_step_spec(b, c, d, y) {
            Err(e) => Err(e),
            Ok(next) => if distance(next, y) <= 1 {
                Ok(next)
            } else {
                newton_y_spec(b, c, d, n, next, (left - 1) as nat)
            },
        }
    }
}

/// The output balance that keeps the invariant, or the error.
pub open spec fn y_spec(i: nat, j: nat, xp: Seq<nat>, a: nat, d: nat) -> Result<nat, MathErr> {
    let n = xp.len();
    if i == j {
        Err(
            e_invalid(
                "calculate_y"@,
                "Input and output tokens cannot be the same"@,
                "i="@ + dec(i) + ", j="@ + dec(j),
            ),
        )
    } else if j >= n {
        Err(
            e_invalid(
                "calculate_y"@,
                "Output token index out of bounds"@,
                "j="@ + dec(j) + ", len="@ + dec(n),
            ),
        )
    } else {
        match product_spec("calculate_y"@, "Ann = A * N_COINS"@, a, n) {
            Err(e) => Err(e),
            Ok(ann) => match y_terms_spec(xp, j as int, d, n) {
                Err(e) => Err(e),
                Ok((s, c)) => match y_coefficients_spec(ann, n, d, s, c) {
                    Err(e) => Err(e),
                    Ok((b, c2)) => newton_y_spec(b, c2, d, n, d, 255),
                },
            },
        }
    }
}

/// The first error among the terms is the error of every longer list.
proof fn lemma_y_terms_fail(xp: Seq<nat>, j: int, d: nat, count: nat, more: nat)
    requires
        count <= more,
        y_terms_spec(xp, j, d, count) is Err,
    ensures
        y_terms_spec(xp, j, d, more) == y_terms_spec(xp, j, d, count),
    decreases more - count,
{
    if count < more {
        lemma_y_terms_fail(xp, j, d, count, (more - 1) as nat);
    }
}

/// The view of a pair of numbers.
pub open spec fn pair_view(r: Result<(U256, U256), MathError>) -> Result<(nat, nat), MathErr> {
    match r {
        Ok(v) => Ok((v.0@, v.1@)),
        Err(e) => Err(e@),
    }
}

fn y_term(xp: &[U256], k: usize, n: U256, d: U256, s: U256, c: U256) -> (r: Result<
    (U256, U256),
    MathError,
>)
    requires
        k < xp@.len(),
        n@ == xp@.len(),
    ensures
        pair_view(r) == y_term_spec(values(xp@), k as int, d@, s@, c@),
{
    let x = xp[k];
    if x.is_zero() {
        let context = "Balance at index ".to_owned().concat(text_u128(k as u128).as_str()).concat(
            " is zero",
        );
        return Err(zero_division("calculate_y", context.as_str()));
    }
    let s2 = match sum("calculate_y", "Sum calculation", s, x) {
        Ok(v) => v,
        Err(e) => return Err(e),
    };
    let x_n = match product("calculate_y", "xp_k * n", x, n) {
        Ok(v) => v,
        Err(e) => return Err(e),
    };
    let c_d = match product("calculate_y", "c * D in iterative calculation", c, d) {
        Ok(v) => v,
        Err(e) => return Err(e),
    };
    proof {
        assert(x@ * n@ > 0) by (nonlinear_arith)
            requires
                x@ > 0,
                n@ > 0,
        ;
    }
    Ok((s2, c_d.div(x_n)))
}

fn y_terms(xp: &[U256], j: usize, n: U256, d: U256) -> (r: Result<(U256, U256), MathError>)
    requires
        n@ == xp@.len(),
    ensures
        pair_view(r) == y_terms_spec(values(xp@), j as int, d@, xp@.len()),
{
    let mut s = U256::zero();
    let mut c = d;
    let mut k: usize = 0;
    let ghost all = values(xp@);
    let ghost len = xp@.len();
    while k < xp.len()
        invariant
            k <= xp@.len(),
            len == xp@.len(),
            n@ == len,
            all == values(xp@),
            y_terms_spec(all, j as int, d@, k as nat) == Ok::<(nat, nat), MathErr>((s@, c@)),
        decreases xp@.len() - k,
    {
        if k != j {
            match y_term(xp, k, n, d, s, c) {
                Ok(next) => {
                    s = next.0;
                    c = next.1;
                },
                Err(e) => {
                    proof {
                        lemma_y_terms_fail(all, j as int, d@, (k + 1) as nat, len);
                    }
                    return Err(e);
                },
            }
        }
        k = k + 1;
    }
    Ok((s, c))
}

fn y_coefficients(ann: U256, n: U256, d: U256, s: U256, c: U256) -> (r: Result<
    (U256, U256),
    MathError,
>)
    ensures
        pair_view(r) == y_coefficients_spec(ann@, n@, d@, s@, c@),
{
    let c_d = match product("calculate_y", "Final c * D", c, d) {
        Ok(v) => v,
        Err(e) => return Err(e),
    };
    let ann_n = match product("calculate_y", "Ann * n", ann, n) {
        Ok(v) => v,
        Err(e) => return Err(e),
    };
    if ann_n.is_zero() {
        return Err(zero_division("calculate_y", "c / (Ann * n)"));
    }
    proof {
        assert(ann@ != 0) by (nonlinear_arith)
            requires
                ann@ * n@ != 0,
        ;
    }
    match sum("calculate_y", "S + D/Ann", s, d.div(ann)) {
        Ok(b) => Ok((b, c_d.div(ann_n))),
        Err(e) => Err(e),
    }
}

fn y_step(b: U256, c: U256, d: U256, y: U256) -> (r: Result<U256, MathError>)
    ensures
        math_view(r) == y_step_spec(b@, c@, d@, y@),
{
    broadcast use u256_in_range;

    let y2 = match product("calculate_y", "y^2", y, y) {
        Ok(v) => v,
        Err(e) => return Err(e),
    };
    let numerator = match sum("calculate_y", "y^2 + c", y2, c) {
        Ok(v) => v,
        Err(e) => return Err(e),
    };
    let two_y = y.shl(1);
    proof {
        vstd::arithmetic::power2::lemma2_to64();
        assert(2 * y@ < u256_limit()) by {
            if y@ >= 2 {
                assert(2 * y@ <= y@ * y@) by (nonlinear_arith)
                    requires
                        y@ >= 2,
                ;
            }
        }
        assert(two_y@ == 2 * y@) by {
            vstd::arithmetic::div_mod::lemma_small_mod(2 * y@, u256_limit());
        }
    }
    let before = match sum("calculate_y", "2*y + b", two_y, b) {
        Ok(v) => v,
        Err(e) => return Err(e),
    };
    if before.less(&d) {
        let context = "2y+b=".to_owned().concat(text_u256(before).as_str()).concat(", d=").concat(
            text_u256(d).as_str(),
        );
        return Err(
            invalid("calculate_y", "Newton denominator would be negative", context.as_str()),
        );
    }
    let denominator = before.minus(d);
    if denominator.is_zero() {
        return Err(zero_division("calculate_y", "Newton iteration denominator is zero"));
    }
    Ok(numerator.div(denominator))
}

/// Calculates the output balance that keeps the invariant `D`, by Newton's method. The input
/// amount is already in `xp`.
pub fn calculate_y(i: usize, j: usize, _x: U256, xp: &[U256], a: U256, d: U256) -> (r: Result<
    U256,
    MathError,
>)
    ensures
        math_view(r) == y_spec(i as nat, j as nat, values(xp@), a@, d@),
{
    if i == j {
        let context = "i=".to_owned().concat(text_u128(i as u128).as_str()).concat(", j=").concat(
            text_u128(j as u128).as_str(),
        );
        return Err(
            invalid(
                "calculate_y",
                "Input and output tokens cannot be the same",
                context.as_str(),
            ),
        );
    }
    let n: usize = xp.len();
    if j >= n {
        let context = "j=".to_owned().concat(text_u128(j as u128).as_str()).concat(", len=").concat(
            text_u128(n as u128).as_str(),
        );
        return Err(
            invalid("calculate_y", "Output token index out of bounds", context.as_str()),
        );
    }
    let n_word = U256::from_u64(n as u64);
    let ann = match product("calculate_y", "Ann = A * N_COINS", a, n_word) {
        Ok(v) => v,
        Err(e) => return Err(e),
    };
    let (s, c0) = match y_terms(xp, j, n_word, d) {
        Ok(v) => v,
        Err(e) => return Err(e),
    };
    let (b, c) = match y_coefficients(ann, n_word, d, s, c0) {
        Ok(v) => v,
        Err(e) => return Err(e),
    };
    let ghost whole = newton_y_spec(b@, c@, d@, n as nat, d@, 255);
    let mut y = d;
    let mut left: u32 = 255;
    while left > 0
        invariant
            whole == y_spec(i as nat, j as nat, values(xp@), a@, d@),
            whole == newton_y_spec(b@, c@, d@, n as nat, y@, left as nat),
        decreases left,
    {
        left = left - 1;
        let next = match y_step(b, c, d, y) {
            Ok(v) => v,
            Err(e) => return Err(e),
        };
        let diff = next.distance(y);
        if !U256::from_u64(1).less(&diff) {
            return Ok(next);
        }
        y = next;
    }
    let context = "Last y: ".to_owned().concat(text_u256(y).as_str()).concat(", D: ").concat(
        text_u256(d).as_str(),
    ).concat(", n: ").concat(text_u128(n as u128).as_str());
    Err(
        invalid(
            "calculate_y",
            "Newton's method did not converge after 255 iterations",
            context.as_str(),
        ),
    )
}

/// Ten to a power, or the overflow of the last product.
pub open spec fn pow10_spec(exp: nat) -> Result<nat, MathErr> {
    if fits(pow(10, exp) as nat) {
        Ok(pow(10, exp) as nat)
    } else {
        Err(e_overflow("pow10_u256"@, seq![pow(10, 77) as nat, 10nat], "10^"@ + dec(exp)))
    }
}

/// The largest power of ten below the limit is the 77th.
pub proof fn lemma_largest_power_of_ten()
    ensures
        fits(pow(10, 77) as nat),
        !fits(pow(10, 78) as nat),
        pow(10, 36) == 1_000_000_000_000_000_000_000_000_000_000_000_000int,
{
    lemma_pow1(10);
    lemma_power_product(1, 1, 10, 10);
    lemma_power_product(2, 2, 100, 100);
    lemma_power_product(4, 4, 10_000, 10_000);
    lemma_power_product(8, 1, 100_000_000, 10);
    lemma_power_product(9, 9, 1_000_000_000, 1_000_000_000);
    let e18 = 1_000_000_000_000_000_000int;
    lemma_power_product(18, 18, e18, e18);
    let e36 = 1_000_000_000_000_000_000_000_000_000_000_000_000int;
    assert(e18 * e18 == e36) by (nonlinear_arith)
        requires
            e18 == 1_000_000_000_000_000_000int,
            e36 == 1_000_000_000_000_000_000_000_000_000_000_000_000int,
    ;
    lemma_power_product(36, 36, e36, e36);
    let e72 = 1_000_000_000_000_000_000_000_000_000_000_000_000_000_000_000_000_000_000_000_000_000_000_000_000int;
    assert(e36 * e36 == e72) by (nonlinear_arith)
        requires
            e36 == 1_000_000_000_000_000_000_000_000_000_000_000_000int,
            e72
                == 1_000_000_000_000_000_000_000_000_000_000_000_000_000_000_000_000_000_000_000_000_000_000_000_000int,
    ;
    lemma_power_product(72, 4, e72, 10_000);
    lemma_power_product(76, 1, e72 * 10_000, 10);
    lemma_power_product(77, 1, e72 * 10_000 * 10, 10);
}

/// The product of two powers of ten.
proof fn lemma_power_product(a: nat, b: nat, x: int, y: int)
    requires
        pow(10, a) == x,
        pow(10, b) == y,
    ensures
        pow(10, a + b) == x * y,
{
    lemma_pow_adds(10, a, b);
}

/// Calculates a power of ten.
pub fn pow10_u256(exp: u32) -> (r: Result<U256, MathError>)
    ensures
        math_view(r) == pow10_spec(exp as nat),
{
    proof {
        lemma_pow0(10);
    }
    let mut acc = U256::from_u64(1);
    let ten = U256::from_u64(10);
    let mut i: u32 = 0;
    while i < exp
        invariant
            i <= exp,
            ten@ == 10,
            acc@ == pow(10, i as nat),
        decreases exp - i,
    {
        proof {
            lemma_pow1(10);
            lemma_pow_adds(10, i as nat, 1);
        }
        match acc.checked_mul(ten) {
            Some(v) => {
                acc = v;
            },
            None => {
                proof {
                    lemma_largest_power_of_ten();
                    u256_in_range(acc);
                    lemma_pow_positive(10, 77);
                    lemma_pow_positive(10, 78);
                    if i < 77 {
                        lemma_pow_increases(10, (i + 1) as nat, 77);
                    }
                    if i > 77 {
                        lemma_pow_increases(10, 78, i as nat);
                    }
                    assert(i == 77);
                    lemma_pow_increases(10, 78, exp as nat);
                }
                let context = "10^".to_owned().concat(text_u128(exp as u128).as_str());
                return Err(overflow2("pow10_u256", acc, ten, context.as_str()));
            },
        }
        i = i + 1;
    }
    proof {
        u256_in_range(acc);
    }
    Ok(acc)
}

/// The rate that scales a token of so many decimals: ten to the power 36 less its decimals.
pub open spec fn rate_spec(decimals: u8) -> Result<nat, MathErr> {
    if decimals > 18 {
        Err(
            e_invalid(
                "stableswap_rate_for_decimals"@,
                "decimals "@ + dec(decimals as nat) + " > "@ + dec(18),
                "Curve stableswap RATES derivation"@,
            ),
        )
    } else {
        Ok(pow(10, (36 - decimals) as nat) as nat)
    }
}

/// Derives the rate of a token from its decimals.
pub fn stableswap_rate_for_decimals(decimals: u8) -> (r: Result<U256, MathError>)
    ensures
        math_view(r) == rate_spec(decimals),
{
    if decimals > 18 {
        let reason = "decimals ".to_owned().concat(text_u128(decimals as u128).as_str()).concat(
            " > ",
        ).concat(text_u128(18).as_str());
        return Err(
            invalid(
                "stableswap_rate_for_decimals",
                reason.as_str(),
                "Curve stableswap RATES derivation",
            ),
        );
    }
    let exp: u32 = 36 - decimals as u32;
    proof {
        lemma_largest_power_of_ten();
        lemma_pow_increases(10, exp as nat, 36);
        lemma_pow_positive(10, exp as nat);
    }
    pow10_u256(exp)
}

/// The scaled balances `balance * rate / 1e18` of the first `count` tokens, or the first
/// overflow.
pub open spec fn scaled_spec(balances: Seq<nat>, rates: Seq<nat>, count: nat) -> Result<
    Seq<nat>,
    MathErr,
>
    decreases count,
{
    if count == 0 {
        Ok(seq![])
    } else {
        match scaled_spec(balances, rates, (count - 1) as nat) {
            Err(e) => Err(e),
            Ok(done) => match product_spec(
                "stableswap_xp_from_rates"@,
                "balance * rate"@,
                balances[count - 1],
                rates[count - 1],
            ) {
                Err(e) => Err(e),
                Ok(p) => Ok(done.push(p / wad())),
            },
        }
    }
}

/// The scaled balances of a pool.
pub open spec fn xp_spec(balances: Seq<nat>, rates: Seq<nat>) -> Result<Seq<nat>, MathErr> {
    if balances.len() != rates.len() {
        Err(
            e_invalid(
                "stableswap_xp_from_rates"@,
                "balances len "@ + dec(balances.len()) + " != rates len "@ + dec(rates.len()),
                seq![],
            ),
        )
    } else {
        scaled_spec(balances, rates, balances.len())
    }
}

/// The first error among scaled balances is the error of every longer list.
proof fn lemma_scaled_fails(balances: Seq<nat>, rates: Seq<nat>, count: nat, more: nat)
    requires
        count <= more,
        scaled_spec(balances, rates, count) is Err,
    ensures
        scaled_spec(balances, rates, more) == scaled_spec(balances, rates, count),
    decreases more - count,
{
    if count < more {
        lemma_scaled_fails(balances, rates, count, (more - 1) as nat);
    }
}

/// Scales balances by rates.
pub fn stableswap_xp_from_rates(balances: &[U256], rates: &[U256]) -> (r: Result<
    Vec<U256>,
    MathError,
>)
    ensures
        list_view(r) == xp_spec(values(balances@), values(rates@)),
        r matches Ok(v) ==> v@.len() == balances@.len() == rates@.len(),
{
    if balances.len() != rates.len() {
        let reason = "balances len ".to_owned().concat(
            text_u128(balances.len() as u128).as_str(),
        ).concat(" != rates len ").concat(text_u128(rates.len() as u128).as_str());
        return Err(unexplained("stableswap_xp_from_rates", reason.as_str()));
    }
    let mut xp: Vec<U256> = Vec::new();
    let mut i: usize = 0;
    let scale = wad_value();
    let ghost bs = values(balances@);
    let ghost rs = values(rates@);
    let ghost len = balances@.len();
    proof {
        assert(values(xp@) =~= seq![]);
    }
    while i < balances.len()
        invariant
            i <= balances@.len(),
            len == balances@.len() == rates@.len(),
            bs == values(balances@),
            rs == values(rates@),
            scale@ == wad(),
            xp@.len() == i,
            scaled_spec(bs, rs, i as nat) == Ok::<Seq<nat>, MathErr>(values(xp@)),
        decreases balances@.len() - i,
    {
        match product("stableswap_xp_from_rates", "balance * rate", balances[i], rates[i]) {
            Ok(p) => {
                let ghost before = xp@;
                let x = p.div(scale);
                xp.push(x);
                proof {
                    assert(values(xp@) =~= values(before).push(x@));
                }
            },
            Err(e) => {
                proof {
                    lemma_scaled_fails(bs, rs, (i + 1) as nat, len);
                }
                return Err(e);
            },
        }
        i = i + 1;
    }
    Ok(xp)
}

/// The rates of the first `count` tokens, or the first error.
pub open spec fn derived_rates_spec(decimals: Seq<u8>, count: nat) -> Result<Seq<nat>, MathErr>
    decreases count,
{
    if count == 0 {
        Ok(seq![])
    } else {
        match derived_rates_spec(decimals, (count - 1) as nat) {
            Err(e) => Err(e),
            Ok(done) => match rate_spec(decimals[count - 1]) {
                Err(e) => Err(e),
                Ok(r) => Ok(done.push(r)),
            },
        }
    }
}

/// The rates of a pool: the stored ones where there are any, else those of its decimals.
pub open spec fn rates_spec(decimals: Seq<u8>, stored: Option<Seq<nat>>) -> Result<
    Seq<nat>,
    MathErr,
> {
    match stored {
        Some(rates) => if rates.len() != decimals.len() {
            Err(
                e_invalid(
                    "stableswap_rates_resolve"@,
                    "stored_rates len "@ + dec(rates.len()) + " != decimals len "@ + dec(
                        decimals.len(),
                    ),
                    seq![],
                ),
            )
        } else {
            Ok(rates)
        },
        None => derived_rates_spec(decimals, decimals.len()),
    }
}

/// The numbers behind an optional slice.
pub open spec fn opt_values(v: Option<&[U256]>) -> Option<Seq<nat>> {
    match v {
        Some(s) => Some(values(s@)),
        None => None,
    }
}

/// The first error among derived rates is the error of every longer list.
proof fn lemma_derived_rates_fail(decimals: Seq<u8>, count: nat, more: nat)
    requires
        count <= more,
        derived_rates_spec(decimals, count) is Err,
    ensures
        derived_rates_spec(decimals, more) == derived_rates_spec(decimals, count),
    decreases more - count,
{
    if count < more {
        lemma_derived_rates_fail(decimals, count, (more - 1) as nat);
    }
}

/// Copies a list of amounts.
pub fn copied(list: &[U256]) -> (r: Vec<U256>)
    ensures
        r@ == list@,
{
    let mut out: Vec<U256> = Vec::new();
    let mut i: usize = 0;
    while i < list.len()
        invariant
            i <= list@.len(),
            out@ == list@.take(i as int),
        decreases list@.len() - i,
    {
        out.push(list[i]);
        i = i + 1;
        proof {
            assert(list@.take(i as int) =~= list@.take(i - 1).push(list@[i - 1]));
        }
    }
    proof {
        assert(list@.take(i as int) =~= list@);
    }
    out
}

/// Takes the stored rates where there are any, else derives the rates from the decimals.
pub fn stableswap_rates_resolve(decimals: &[u8], stored_rates: Option<&[U256]>) -> (r: Result<
    Vec<U256>,
    MathError,
>)
    ensures
        list_view(r) == rates_spec(decimals@, opt_values(stored_rates)),
        r matches Ok(v) ==> v@.len() == decimals@.len(),
{
    match stored_rates {
        Some(rates) => {
            if rates.len() != decimals.len() {
                let reason = "stored_rates len ".to_owned().concat(
                    text_u128(rates.len() as u128).as_str(),
                ).concat(" != decimals len ").concat(text_u128(decimals.len() as u128).as_str());
                return Err(unexplained("stableswap_rates_resolve", reason.as_str()));
            }
            return Ok(copied(rates));
        },
        None => {},
    }
    let mut out: Vec<U256> = Vec::new();
    let mut i: usize = 0;
    let ghost len = decimals@.len();
    proof {
        assert(values(out@) =~= seq![]);
    }
    while i < decimals.len()
        invariant
            i <= decimals@.len(),
            len == decimals@.len(),
            stored_rates is None,
            out@.len() == i,
            derived_rates_spec(decimals@, i as nat) == Ok::<Seq<nat>, MathErr>(values(out@)),
        decreases decimals@.len() - i,
    {
        match stableswap_rate_for_decimals(decimals[i]) {
            Ok(rate) => {
                let ghost before = out@;
                out.push(rate);
                proof {
                    assert(values(out@) =~= values(before).push(rate@));
                }
            },
            Err(e) => {
                proof {
                    lemma_derived_rates_fail(decimals@, (i + 1) as nat, len);
                }
                return Err(e);
            },
        }
        i = i + 1;
    }
    Ok(out)
}

/// The scaled balances of a pool whose rates come from its decimals.
pub open spec fn xp_from_decimals_spec(balances: Seq<nat>, decimals: Seq<u8>) -> Result<
    Seq<nat>,
    MathErr,
> {
    match rates_spec(decimals, None) {
        Err(e) => Err(e),
        Ok(rates) => xp_spec(balances, rates),
    }
}

/// Scales balances by the rates of their decimals.
pub fn stableswap_xp_from_balances(balances: &[U256], decimals: &[u8]) -> (r: Result<
    Vec<U256>,
    MathError,
>)
    ensures
        list_view(r) == xp_from_decimals_spec(values(balances@), decimals@),
{
    match stableswap_rates_resolve(decimals, None) {
        Err(e) => Err(e),
        Ok(rates) => stableswap_xp_from_rates(balances, rates.as_slice()),
    }
}

/// The fee of a pool as a fraction of ten to the power ten: the raw fee, or the fee in basis
/// points where the raw fee is zero.
pub open spec fn fee_scalar_spec(fee_raw: nat, fee_bps: nat) -> nat {
    if fee_raw == 0 {
        fee_bps * 1_000_000
    } else {
        fee_raw
    }
}

/// The fee in basis points as a fraction of ten to the power ten.
pub fn curve_fee_raw_from_bps(fee_bps: u32) -> (r: U256)
    ensures
        r@ == fee_bps * 1_000_000,
{
    U256::from_u64(fee_bps as u64).saturating_mul(U256::from_u64(1_000_000))
}

fn curve_fee_scalar(fee_raw: U256, fee_bps: u32) -> (r: U256)
    ensures
        r@ == fee_scalar_spec(fee_raw@, fee_bps as nat),
{
    if fee_raw.is_zero() {
        curve_fee_raw_from_bps(fee_bps)
    } else {
        fee_raw
    }
}

/// The input amount on the scale of the balances.
pub open spec fn scaled_input_spec(dx: nat, rate: nat) -> Result<nat, MathErr> {
    match product_spec("calculate_dy"@, "dx * rates[i]"@, dx, rate) {
        Err(e) => Err(e),
        Ok(p) => Ok(p / wad()),
    }
}

/// What a pool pays for a drop of the scaled output balance, after the fee.
pub open spec fn paid_out_spec(numer: nat, rate: nat, fee: nat) -> Result<nat, MathErr> {
    if !fits(numer * wad()) {
        Err(e_overflow("calculate_dy"@, seq![], "numer * PRECISION"@))
    } else if rate == 0 {
        Err(e_zero_division("calculate_dy"@, "numer * PRECISION / rates[j]"@))
    } else {
        let gross = numer * wad() / rate;
        match product_spec("calculate_dy"@, "fee * dy"@, gross, fee) {
            Err(e) => Err(e),
            Ok(p) => {
                let charged = p / 10_000_000_000;
                if charged > gross {
                    Err(e_underflow("calculate_dy"@, seq![gross, charged], "dy after fee"@))
                } else {
                    Ok((gross - charged) as nat)
                }
            },
        }
    }
}

/// The part of a drop of the scaled output balance that is paid out.
pub open spec fn payable(before: nat, after: nat, variant: StableswapMathVariant) -> nat {
    let kept: nat = match variant {
        StableswapMathVariant::Vyper02ThreePool => 1,
        StableswapMathVariant::Vyper01Legacy => 0,
    };
    if before <= after + kept {
        0
    } else {
        (before - after - kept) as nat
    }
}

/// The output of a swap, or the error.
pub open spec fn dy_spec(
    i: nat,
    j: nat,
    dx: nat,
    xp: Seq<nat>,
    rates: Seq<nat>,
    variant: StableswapMathVariant,
    a: nat,
    fee: nat,
) -> Result<nat, MathErr> {
    let n = xp.len();
    if rates.len() != n {
        Err(
            e_invalid(
                "calculate_dy"@,
                "rates len "@ + dec(rates.len()) + " != xp len "@ + dec(n),
                seq![],
            ),
        )
    } else if i >= n || j >= n {
        Err(
            e_invalid(
                "calculate_dy"@,
                "Token index out of bounds"@,
                "i="@ + dec(i) + ", j="@ + dec(j) + ", n="@ + dec(n),
            ),
        )
    } else if i == j {
        Err(
            e_invalid(
                "calculate_dy"@,
                "Cannot swap token with itself"@,
                "i="@ + dec(i) + ", j="@ + dec(j),
            ),
        )
    } else {
        match d_spec(xp, a, n, variant) {
            Err(e) => Err(e),
            Ok(d) => match scaled_input_spec(dx, rates[i as int]) {
                Err(e) => Err(e),
                Ok(dx_xp) => match sum_spec(
                    "calculate_dy"@,
                    "xp[i] + dx_xp"@,
                    xp[i as int],
                    dx_xp,
                ) {
                    Err(e) => Err(e),
                    Ok(x) => match y_spec(i, j, xp.update(i as int, x), a, d) {
                        Err(e) => Err(e),
                        Ok(y) => {
                            let numer = payable(xp[j as int], y, variant);
                            if numer == 0 {
                                Ok(0)
                            } else {
                                paid_out_spec(numer, rates[j as int], fee)
                            }
                        },
                    },
                },
            },
        }
    }
}

/// Pays out a drop of the scaled output balance, less the fee.
fn pay_out(numer: U256, rate: U256, fee: U256) -> (r: Result<U256, MathError>)
    ensures
        math_view(r) == paid_out_spec(numer@, rate@, fee@),
{
    let scaled = match numer.checked_mul(wad_value()) {
        Some(v) => v,
        None => return Err(overflow0("calculate_dy", "numer * PRECISION")),
    };
    if rate.is_zero() {
        return Err(zero_division("calculate_dy", "numer * PRECISION / rates[j]"));
    }
    let gross = scaled.div(rate);
    let charged = match product("calculate_dy", "fee * dy", gross, fee) {
        Ok(p) => p.div(U256::from_u64(10_000_000_000)),
        Err(e) => return Err(e),
    };
    match gross.checked_sub(charged) {
        Some(v) => Ok(v),
        None => Err(underflow2("calculate_dy", gross, charged, "dy after fee")),
    }
}

/// Calculates the output of a swap of `dx_raw` of token `i` for token `j`. The raw fee is used
/// where it is not zero, else the fee in basis points.
pub fn calculate_dy(
    i: usize,
    j: usize,
    dx_raw: U256,
    xp: &[U256],
    rates: &[U256],
    variant: StableswapMathVariant,
    a: U256,
    fee_raw: U256,
    fee_bps: u32,
) -> (r: Result<U256, MathError>)
    ensures
        math_view(r) == dy_spec(
            i as nat,
            j as nat,
            dx_raw@,
            values(xp@),
            values(rates@),
            variant,
            a@,
            fee_scalar_spec(fee_raw@, fee_bps as nat),
        ),
{
    let n: usize = xp.len();
    if rates.len() != n {
        let reason = "rates len ".to_owned().concat(
            text_u128(rates.len() as u128).as_str(),
        ).concat(" != xp len ").concat(text_u128(n as u128).as_str());
        return Err(unexplained("calculate_dy", reason.as_str()));
    }
    if i >= n || j >= n {
        let context = "i=".to_owned().concat(text_u128(i as u128).as_str()).concat(", j=").concat(
            text_u128(j as u128).as_str(),
        ).concat(", n=").concat(text_u128(n as u128).as_str());
        return Err(invalid("calculate_dy", "Token index out of bounds", context.as_str()));
    }
    if i == j {
        let context = "i=".to_owned().concat(text_u128(i as u128).as_str()).concat(", j=").concat(
            text_u128(j as u128).as_str(),
        );
        return Err(invalid("calculate_dy", "Cannot swap token with itself", context.as_str()));
    }
    let d = match calculate_d(xp, a, n, variant) {
        Ok(v) => v,
        Err(e) => return Err(e),
    };
    let dx_xp = match product("calculate_dy", "dx * rates[i]", dx_raw, rates[i]) {
        Ok(p) => p.div(wad_value()),
        Err(e) => return Err(e),
    };
    let x = match sum("calculate_dy", "xp[i] + dx_xp", xp[i], dx_xp) {
        Ok(v) => v,
        Err(e) => return Err(e),
    };
    let mut xp_modified = copied(xp);
    xp_modified.set(i, x);
    proof {
        assert(values(xp_modified@) =~= values(xp@).update(i as int, x@));
    }
    let y = match calculate_y(i, j, dx_xp, xp_modified.as_slice(), a, d) {
        Ok(v) => v,
        Err(e) => return Err(e),
    };
    if !y.less(&xp[j]) {
        return Ok(U256::zero());
    }
    let delta = xp[j].minus(y);
    let numer = match variant {
        StableswapMathVariant::Vyper02ThreePool => delta.minus(U256::from_u64(1)),
        StableswapMathVariant::Vyper01Legacy => delta,
    };
    if numer.is_zero() {
        return Ok(U256::zero());
    }
    pay_out(numer, rates[j], curve_fee_scalar(fee_raw, fee_bps))
}

/// The output of a swap in a pool of so many decimals, or of stored rates.
pub open spec fn swap_output_spec(
    amount_in: nat,
    i: nat,
    j: nat,
    balances: Seq<nat>,
    decimals: Seq<u8>,
    stored: Option<Seq<nat>>,
    variant: StableswapMathVariant,
    a: nat,
    fee: nat,
) -> Result<nat, MathErr> {
    match rates_spec(decimals, stored) {
        Err(e) => Err(e),
        Ok(rates) => match xp_spec(balances, rates) {
            Err(e) => Err(e),
            Ok(xp) => dy_spec(i, j, amount_in, xp, rates, variant, a, fee),
        },
    }
}

/// Calculates the output of a swap from balances and decimals, or stored rates.
pub fn calculate_swap_output(
    amount_in: U256,
    token_in_index: usize,
    token_out_index: usize,
    balances: &[U256],
    decimals: &[u8],
    stored_rates: Option<&[U256]>,
    variant: StableswapMathVariant,
    a: U256,
    fee_raw: U256,
    fee_bps: u32,
) -> (r: Result<U256, MathError>)
    ensures
        math_view(r) == swap_output_spec(
            amount_in@,
            token_in_index as nat,
            token_out_index as nat,
            values(balances@),
            decimals@,
            opt_values(stored_rates),
            variant,
            a@,
            fee_scalar_spec(fee_raw@, fee_bps as nat),
        ),
{
    let rates = match stableswap_rates_resolve(decimals, stored_rates) {
        Ok(v) => v,
        Err(e) => return Err(e),
    };
    let xp = match stableswap_xp_from_rates(balances, rates.as_slice()) {
        Ok(v) => v,
        Err(e) => return Err(e),
    };
    calculate_swap_output_from_xp(
        amount_in,
        token_in_index,
        token_out_index,
        xp.as_slice(),
        rates.as_slice(),
        variant,
        a,
        fee_raw,
        fee_bps,
    )
}

/// Calculates the output of a swap from scaled balances and rates.
pub fn calculate_swap_output_from_xp(
    amount_in: U256,
    token_in_index: usize,
    token_out_index: usize,
    xp: &[U256],
    rates: &[U256],
    variant: StableswapMathVariant,
    a: U256,
    fee_raw: U256,
    fee_bps: u32,
) -> (r: Result<U256, MathError>)
    ensures
        math_view(r) == dy_spec(
            token_in_index as nat,
            token_out_index as nat,
            amount_in@,
            values(xp@),
            values(rates@),
            variant,
            a@,
            fee_scalar_spec(fee_raw@, fee_bps as nat),
        ),
{
    calculate_dy(
        token_in_index,
        token_out_index,
        amount_in,
        xp,
        rates,
        variant,
        a,
        fee_raw,
        fee_bps,
    )
}

/// The price of a swap of a million units without a fee, scaled by ten to the power 18.
pub open spec fn curve_price_spec(
    i: nat,
    j: nat,
    xp: Seq<nat>,
    rates: Seq<nat>,
    variant: StableswapMathVariant,
    a: nat,
) -> Result<nat, MathErr> {
    match dy_spec(i, j, 1_000_000, xp, rates, variant, a, 0) {
        Err(e) => Err(e),
        Ok(dy) => match product_spec("calculate_curve_price"@, "dy * WAD"@, dy, wad()) {
            Err(e) => Err(e),
            Ok(p) => Ok(p / 1_000_000),
        },
    }
}

/// Calculates the spot price of a pool.
pub fn calculate_curve_price(
    token_in_index: usize,
    token_out_index: usize,
    xp: &[U256],
    rates: &[U256],
    variant: StableswapMathVariant,
    a: U256,
) -> (r: Result<U256, MathError>)
    ensures
        math_view(r) == curve_price_spec(
            token_in_index as nat,
            token_out_index as nat,
            values(xp@),
            values(rates@),
            variant,
            a@,
        ),
{
    let amount = U256::from_u64(1_000_000);
    let dy = match calculate_dy(
        token_in_index,
        token_out_index,
        amount,
        xp,
        rates,
        variant,
        a,
        U256::zero(),
        0,
    ) {
        Ok(v) => v,
        Err(e) => return Err(e),
    };
    match product("calculate_curve_price", "dy * WAD", dy, wad_value()) {
        Ok(p) => Ok(p.div(amount)),
        Err(e) => Err(e),
    }
}

/// The balances after a swap of token 0 for token 1.
pub open spec fn post_swap_spec(
    amount: nat,
    balances: Seq<nat>,
    decimals: Seq<u8>,
    stored: Option<Seq<nat>>,
    variant: StableswapMathVariant,
    a: nat,
    fee: nat,
) -> Result<Seq<nat>, MathErr> {
    match swap_output_spec(amount, 0, 1, balances, decimals, stored, variant, a, fee) {
        Err(e) => Err(e),
        Ok(out) => match sum_spec(
            "calculate_curve_post_frontrun_balances"@,
            "Balance in"@,
            balances[0],
            amount,
        ) {
            Err(e) => Err(e),
            Ok(in_after) => if out > balances[1] {
                Err(
                    e_underflow(
                        "calculate_curve_post_frontrun_balances"@,
                        seq![balances[1], out],
                        "Balance out"@,
                    ),
                )
            } else {
                Ok(balances.update(0, in_after).update(1, (balances[1] - out) as nat))
            },
        },
    }
}

/// Calculates the balances after a swap of token 0 for token 1.
pub fn calculate_curve_post_frontrun_balances(
    frontrun_amount: U256,
    balances: &[U256],
    decimals: &[u8],
    stored_rates: Option<&[U256]>,
    variant: StableswapMathVariant,
    amplification: U256,
    fee_raw: U256,
    fee_bps: u32,
) -> (r: Result<Vec<U256>, MathError>)
    ensures
        list_view(r) == post_swap_spec(
            frontrun_amount@,
            values(balances@),
            decimals@,
            opt_values(stored_rates),
            variant,
            amplification@,
            fee_scalar_spec(fee_raw@, fee_bps as nat),
        ),
{
    let rates = match stableswap_rates_resolve(decimals, stored_rates) {
        Ok(v) => v,
        Err(e) => return Err(e),
    };
    let xp = match stableswap_xp_from_rates(balances, rates.as_slice()) {
        Ok(v) => v,
        Err(e) => return Err(e),
    };
    let out = match calculate_dy(
        0,
        1,
        frontrun_amount,
        xp.as_slice(),
        rates.as_slice(),
        variant,
        amplification,
        fee_raw,
        fee_bps,
    ) {
        Ok(v) => v,
        Err(e) => return Err(e),
    };
    assert(balances@.len() >= 2);
    let in_after = match sum(
        "calculate_curve_post_frontrun_balances",
        "Balance in",
        balances[0],
        frontrun_amount,
    ) {
        Ok(v) => v,
        Err(e) => return Err(e),
    };
    let out_after = match balances[1].checked_sub(out) {
        Some(v) => v,
        None => return Err(
            underflow2(
                "calculate_curve_post_frontrun_balances",
                balances[1],
                out,
                "Balance out",
            ),
        ),
    };
    let mut new_balances = copied(balances);
    new_balances.set(0, in_after);
    new_balances.set(1, out_after);
    proof {
        assert(values(new_balances@) =~= values(balances@).update(0, in_after@).update(
            1,
            out_after@,
        ));
    }
    Ok(new_balances)
}

/// Calculates the balances after a swap of token 0 for token 1 by another trader.
pub fn calculate_curve_post_victim_balances(
    victim_amount: U256,
    balances: &[U256],
    decimals: &[u8],
    stored_rates: Option<&[U256]>,
    variant: StableswapMathVariant,
    amplification: U256,
    fee_raw: U256,
    fee_bps: u32,
) -> (r: Result<Vec<U256>, MathError>)
    ensures
        list_view(r) == post_swap_spec(
            victim_amount@,
            values(balances@),
            decimals@,
            opt_values(stored_rates),
            variant,
            amplification@,
            fee_scalar_spec(fee_raw@, fee_bps as nat),
        ),
{
    calculate_curve_post_frontrun_balances(
        victim_amount,
        balances,
        decimals,
        stored_rates,
        variant,
        amplification,
        fee_raw,
        fee_bps,
    )
}

/// A lower bound on the bits that each factor of a power adds.
pub open spec fn bits_per_factor(base: nat) -> nat {
    if base >= 0x1_0000_0000_0000_0000 {
        64
    } else if base >= 0x1_0000_0000 {
        32
    } else if base >= 0x1_0000 {
        16
    } else if base >= 0x100 {
        8
    } else {
        1
    }
}

/// Repeated squaring: `result` times `base` to the power `exp`, or the first overflow.
pub open spec fn squaring_spec(result: nat, base: nat, exp: nat) -> Result<nat, MathErr>
    decreases exp,
{
    if exp == 0 {
        Ok(result)
    } else if exp % 2 == 1 && !fits(result * base) {
        Err(
            e_overflow(
                "pow_u256"@,
                seq![base, exp],
                "Multiplication overflow: result * base would exceed U256::MAX"@,
            ),
        )
    } else if exp > 1 && !fits(base * base) {
        Err(
            e_overflow(
                "pow_u256"@,
                seq![base, exp],
                "Squaring overflow: base * base would exceed U256::MAX"@,
            ),
        )
    } else {
        squaring_spec(
            if exp % 2 == 1 {
                result * base
            } else {
                result
            },
            if exp > 1 {
                base * base
            } else {
                base
            },
            exp / 2,
        )
    }
}

/// A power, or the overflow.
pub open spec fn power_spec(base: nat, exp: nat) -> Result<nat, MathErr> {
    if exp == 0 {
        Ok(1)
    } else if exp == 1 {
        Ok(base)
    } else if base > 1 && bits_per_factor(base) * exp > 256 {
        Err(
            e_overflow(
                "pow_u256"@,
                seq![base, exp],
                "Exponent "@ + dec(exp) + " with base "@ + dec(base) + " would overflow U256"@,
            ),
        )
    } else {
        squaring_spec(1, base, exp)
    }
}

/// Calculates a power by repeated squaring.
pub fn pow_u256(base: U256, exp: usize) -> (r: Result<U256, MathError>)
    ensures
        math_view(r) == power_spec(base@, exp as nat),
{
    if exp == 0 {
        return Ok(U256::from_u64(1));
    }
    if exp == 1 {
        return Ok(base);
    }
    if U256::from_u64(1).less(&base) {
        let bits: usize = if !base.less(&U256::from_u128(0x1_0000_0000_0000_0000)) {
            64
        } else if !base.less(&U256::from_u64(0x1_0000_0000)) {
            32
        } else if !base.less(&U256::from_u64(0x1_0000)) {
            16
        } else if !base.less(&U256::from_u64(0x100)) {
            8
        } else {
            1
        };
        if exp > 256 / bits {
            let context = "Exponent ".to_owned().concat(text_u128(exp as u128).as_str()).concat(
                " with base ",
            ).concat(text_u256(base).as_str()).concat(" would overflow U256");
            return Err(
                overflow2("pow_u256", base, U256::from_u64(exp as u64), context.as_str()),
            );
        }
    }
    let mut result = U256::from_u64(1);
    let mut factor = base;
    let mut left: usize = exp;
    let ghost whole = squaring_spec(1, base@, exp as nat);
    while left > 0
        invariant
            whole == power_spec(base@, exp as nat),
            whole == squaring_spec(result@, factor@, left as nat),
        decreases left,
    {
        if left % 2 == 1 {
            result = match result.checked_mul(factor) {
                Some(v) => v,
                None => return Err(
                    overflow2(
                        "pow_u256",
                        factor,
                        U256::from_u64(left as u64),
                        "Multiplication overflow: result * base would exceed U256::MAX",
                    ),
                ),
            };
        }
        if left > 1 {
            factor = match factor.checked_mul(factor) {
                Some(v) => v,
                None => return Err(
                    overflow2(
                        "pow_u256",
                        factor,
                        U256::from_u64(left as u64),
                        "Squaring overflow: base * base would exceed U256::MAX",
                    ),
                ),
            };
        }
        left = left / 2;
    }
    Ok(result)
}

/// A larger base has no smaller power.
proof fn lemma_power_grows_with_base(a: nat, b: nat, exp: nat)
    requires
        a <= b,
    ensures
        0 <= pow(a as int, exp) <= pow(b as int, exp),
    decreases exp,
{
    reveal(pow);
    if exp > 0 {
        lemma_power_grows_with_base(a, b, (exp - 1) as nat);
        let x = pow(a as int, (exp - 1) as nat);
        let y = pow(b as int, (exp - 1) as nat);
        assert(0 <= a * x <= b * y) by (nonlinear_arith)
            requires
                0 <= a <= b,
                0 <= x <= y,
        ;
    }
}

/// Two to the power 256 is the limit.
proof fn lemma_limit_is_power()
    ensures
        pow(2, 256) == u256_limit(),
        pow(2, 64) == 0x1_0000_0000_0000_0000,
        pow(2, 32) == 0x1_0000_0000,
        pow(2, 16) == 0x1_0000,
        pow(2, 8) == 0x100,
        pow(2, 1) == 2,
{
    lemma_pow1(2);
    lemma_pow_adds(2, 1, 1);
    lemma_pow_adds(2, 2, 2);
    lemma_pow_adds(2, 4, 4);
    lemma_pow_adds(2, 8, 8);
    lemma_pow_adds(2, 16, 16);
    lemma_pow_adds(2, 32, 32);
    lemma_pow_adds(2, 64, 64);
    lemma_pow_adds(2, 128, 128);
    let p1 = pow(2, 1);
    let p2 = pow(2, 2);
    let p4 = pow(2, 4);
    let p8 = pow(2, 8);
    let p16 = pow(2, 16);
    let p32 = pow(2, 32);
    let p64 = pow(2, 64);
    let p128 = pow(2, 128);
    assert(p2 == 4 && p4 == 16 && p8 == 0x100 && p16 == 0x1_0000 && p32 == 0x1_0000_0000) by (
    nonlinear_arith)
        requires
            p1 == 2,
            p2 == p1 * p1,
            p4 == p2 * p2,
            p8 == p4 * p4,
            p16 == p8 * p8,
            p32 == p16 * p16,
    ;
    assert(p64 == 0x1_0000_0000_0000_0000int) by (nonlinear_arith)
        requires
            p32 == 0x1_0000_0000,
            p64 == p32 * p32,
    ;
    assert(p128 == 0x1_0000_0000_0000_0000_0000_0000_0000_0000int) by (nonlinear_arith)
        requires
            p64 == 0x1_0000_0000_0000_0000int,
            p128 == p64 * p64,
    ;
    let limit = u256_limit() as int;
    assert(p128 * p128 == limit) by (nonlinear_arith)
        requires
            p128 == 0x1_0000_0000_0000_0000_0000_0000_0000_0000int,
            limit
                == 0x1_0000_0000_0000_0000_0000_0000_0000_0000_0000_0000_0000_0000_0000_0000_0000_0000int,
    ;
}

/// Too many bits per factor make a power that does not fit.
proof fn lemma_too_many_bits(base: nat, exp: nat)
    requires
        base > 1,
        bits_per_factor(base) * exp > 256,
    ensures
        !fits(pow(base as int, exp) as nat),
{
    lemma_limit_is_power();
    let bits = bits_per_factor(base);
    let small = pow(2, bits) as nat;
    assert(small <= base);
    lemma_power_grows_with_base(small, base, exp);
    lemma_pow_multiplies(2, bits, exp);
    lemma_pow_increases(2, 256, bits * exp);
}

/// Repeated squaring computes the power where it fits, and fails where it does not.
proof fn lemma_squaring(result: nat, base: nat, exp: nat)
    requires
        fits(result),
        fits(base),
        result >= 1 || base == 0,
    ensures
        0 <= pow(base as int, exp),
        fits(result * pow(base as int, exp) as nat) ==> squaring_spec(result, base, exp) == Ok::<
            nat,
            MathErr,
        >(result * pow(base as int, exp) as nat),
        !fits(result * pow(base as int, exp) as nat) ==> squaring_spec(result, base, exp) matches Err(
            MathErr::Overflow { .. },
        ),
    decreases exp,
{
    lemma_power_grows_with_base(base, base, exp);
    let b = base as int;
    let p = pow(b, exp) as nat;
    if exp == 0 {
        lemma_pow0(b);
        assert(result * p == result) by (nonlinear_arith)
            requires
                p == 1,
        ;
    } else if exp == 1 {
        lemma_pow1(b);
        reveal_with_fuel(squaring_spec, 2);
    } else {
        let half = exp / 2;
        lemma_square_is_pow2(b);
        lemma_pow_multiplies(b, 2, half);
        lemma_power_grows_with_base(base * base, base * base, half);
        let q = pow(b * b, half) as nat;
        let odd = exp % 2 == 1;
        lemma_pow1(b);
        assert(base == 0 ==> base * base == 0) by (nonlinear_arith);
        if odd {
            lemma_pow_adds(b, 2 * half, 1);
            assert(p == q * base);
        } else {
            assert(p == q);
        }
        if base > 0 {
            lemma_pow_increases(base, 1, exp);
            lemma_pow_increases(base, 2, exp);
        }
        if odd && !fits(result * base) {
            assert(result * p >= result * base) by (nonlinear_arith)
                requires
                    p >= base,
            ;
        } else if !fits(base * base) {
            assert(result * p >= base * base) by (nonlinear_arith)
                requires
                    p >= base * base,
                    result >= 1,
            ;
        } else {
            let next = if odd {
                result * base
            } else {
                result
            };
            assert(next >= 1 || base * base == 0) by (nonlinear_arith)
                requires
                    result >= 1 || base == 0,
                    next == result * base || next == result,
            ;
            lemma_squaring(next, base * base, half);
            assert(next * q == result * p) by (nonlinear_arith)
                requires
                    odd ==> (next == result * base && p == q * base),
                    !odd ==> (next == result && p == q),
            ;
        }
    }
}

/// A power is computed exactly where it is below two to the power 256, and every other power is
/// reported as an overflow.
pub proof fn law_power_is_exact_or_overflow(base: nat, exp: nat)
    requires
        fits(base),
    ensures
        0 <= pow(base as int, exp),
        fits(pow(base as int, exp) as nat) ==> power_spec(base, exp) == Ok::<nat, MathErr>(
            pow(base as int, exp) as nat,
        ),
        !fits(pow(base as int, exp) as nat) ==> power_spec(base, exp) matches Err(
            MathErr::Overflow { .. },
        ),
{
    lemma_squaring(1, base, exp);
    lemma_pow0(base as int);
    lemma_pow1(base as int);
    if base > 1 && bits_per_factor(base) * exp > 256 {
        lemma_too_many_bits(base, exp);
    }
}

/// A pool with an empty balance has the invariant zero.
pub proof fn law_empty_balance_has_zero_invariant(
    balances: Seq<nat>,
    a: nat,
    variant: StableswapMathVariant,
)
    requires
        balances.contains(0),
    ensures
        d_spec(balances, a, balances.len(), variant) == Ok::<nat, MathErr>(0),
{
}

/// An invariant that Newton's method returns has settled: it is one step away from a value that
/// differs from it by at most one.
pub proof fn law_newton_invariant_has_settled(
    x_n: Seq<nat>,
    ann: nat,
    s: nat,
    variant: StableswapMathVariant,
    start: nat,
    left: nat,
)
    requires
        newton_d_spec(x_n, ann, s, variant, start, left) is Ok,
    ensures
        exists|before: nat|
            {
                let d = newton_d_spec(x_n, ann, s, variant, start, left)->Ok_0;
                &&& #[trigger] d_step_spec(x_n, ann, s, variant, before) == Ok::<nat, MathErr>(d)
                &&& distance(d, before) <= 1
            },
    decreases left,
{
    let next = d_step_spec(x_n, ann, s, variant, start)->Ok_0;
    if distance(next, start) > 1 {
        law_newton_invariant_has_settled(x_n, ann, s, variant, next, (left - 1) as nat);
    }
}

/// An output balance that Newton's method returns has settled: it is one step away from a value
/// that differs from it by at most one.
pub proof fn law_newton_balance_has_settled(
    b: nat,
    c: nat,
    d: nat,
    n: nat,
    start: nat,
    left: nat,
)
    requires
        newton_y_spec(b, c, d, n, start, left) is Ok,
    ensures
        exists|before: nat|
            {
                let y = newton_y_spec(b, c, d, n, start, left)->Ok_0;
                &&& #[trigger] y_step_spec(b, c, d, before) == Ok::<nat, MathErr>(y)
                &&& distance(y, before) <= 1
            },
    decreases left,
{
    let next = y_step_spec(b, c, d, start)->Ok_0;
    if distance(next, start) > 1 {
        law_newton_balance_has_settled(b, c, d, n, next, (left - 1) as nat);
    }
}

/// The scaled balance of each token is its balance times its rate, rounded down.
proof fn lemma_scaled_at(balances: Seq<nat>, rates: Seq<nat>, count: nat, k: int)
    requires
        scaled_spec(balances, rates, count) is Ok,
        0 <= k < count,
    ensures
        scaled_spec(balances, rates, count)->Ok_0.len() == count,
        scaled_spec(balances, rates, count)->Ok_0[k] == balances[k] * rates[k] / wad(),
    decreases count,
{
    if k < count - 1 {
        lemma_scaled_at(balances, rates, (count - 1) as nat, k);
    } else if count > 1 {
        lemma_scaled_at(balances, rates, (count - 1) as nat, 0);
    }
}

/// A swap pays out no more than the balance of the token that it takes.
pub proof fn law_swap_output_is_within_the_balance(
    amount_in: nat,
    i: nat,
    j: nat,
    balances: Seq<nat>,
    decimals: Seq<u8>,
    stored: Option<Seq<nat>>,
    variant: StableswapMathVariant,
    a: nat,
    fee: nat,
)
    requires
        swap_output_spec(amount_in, i, j, balances, decimals, stored, variant, a, fee) is Ok,
    ensures
        swap_output_spec(amount_in, i, j, balances, decimals, stored, variant, a, fee)->Ok_0
            <= balances[j as int],
{
    let rates = rates_spec(decimals, stored)->Ok_0;
    let xp = xp_spec(balances, rates)->Ok_0;
    let n = balances.len();
    let out = dy_spec(i, j, amount_in, xp, rates, variant, a, fee)->Ok_0;
    if n > 0 {
        lemma_scaled_at(balances, rates, n, 0);
    }
    lemma_scaled_at(balances, rates, n, j as int);
    if out > 0 {
        let d = d_spec(xp, a, xp.len(), variant)->Ok_0;
        let dx_xp = scaled_input_spec(amount_in, rates[i as int])->Ok_0;
        let x = xp[i as int] + dx_xp;
        let y = y_spec(i, j, xp.update(i as int, x), a, d)->Ok_0;
        let numer = payable(xp[j as int], y, variant);
        let rate = rates[j as int];
        let balance = balances[j as int];
        let gross = numer * wad() / rate;
        assert(out <= gross);
        assert(numer <= xp[j as int]);
        assert(xp[j as int] * wad() <= balance * rate) by (nonlinear_arith)
            requires
                xp[j as int] == balance * rate / wad(),
                wad() == 1_000_000_000_000_000_000nat,
        ;
        assert(numer * wad() <= xp[j as int] * wad()) by (nonlinear_arith)
            requires
                numer <= xp[j as int],
        ;
        assert(gross <= balance) by (nonlinear_arith)
            requires
                gross == numer * wad() / rate,
                numer * wad() <= balance * rate,
                rate > 0,
        {
            vstd::arithmetic::div_mod::lemma_fundamental_div_mod(
                (numer * wad()) as int,
                rate as int,
            );
            assert(rate * gross <= balance * rate);
        }
    }
}

} // verus!
