//! What holds of stableswap swaps, in plain arithmetic.

use crate::base::error::MathErr;
use crate::data::curve_registry::StableswapMathVariant;
use crate::dex::adapter::wad;
use crate::dex::curve::math::{
    curve_price_spec, d_p_spec, d_spec, d_step_spec, derived_rates_spec, dy_spec, fee_scalar_spec,
    law_newton_balance_has_settled, law_newton_invariant_has_settled, newton_d_spec,
    newton_y_spec, payable, post_swap_spec, rate_spec, rates_spec, saturated_total, scaled_input_spec, scaled_spec, swap_output_spec,
    times_n_spec, total, xp_from_decimals_spec, xp_spec, y_coefficients_spec, y_spec, y_step_spec,
    y_terms_spec,
};
use crate::dex::pricing::is_scaled_quotient;
use crate::u256::{distance, fits, u256_limit};
use vstd::arithmetic::div_mod::lemma_fundamental_div_mod;
use vstd::arithmetic::power::{lemma_pow_adds, pow};
use vstd::prelude::*;

verus! {

/// Whether a number is `a / b`, rounded down.
pub open spec fn is_quotient(q: nat, a: nat, b: nat) -> bool {
    q * b <= a < (q + 1) * b
}

/// A quotient is what it should be.
proof fn lemma_quotient(a: nat, b: nat)
    requires
        b > 0,
    ensures
        is_quotient(a / b, a, b),
{
    lemma_fundamental_div_mod(a as int, b as int);
    let q = a / b;
    assert(q * b == b * q && (q + 1) * b == b * q + b) by (nonlinear_arith);
}

/// A rate brings one whole token, ten to the power of its decimals, to ten to the power 36.
pub proof fn law_rate_evens_out_the_decimals(decimals: u8)
    ensures
        rate_spec(decimals) is Ok <==> decimals <= 18,
        rate_spec(decimals) matches Ok(rate) ==> rate * pow(10, decimals as nat) == pow(10, 36),
{
    if decimals <= 18 {
        lemma_pow_adds(10, (36 - decimals) as nat, decimals as nat);
        vstd::arithmetic::power::lemma_pow_positive(10, (36 - decimals) as nat);
    }
}

/// The rates of a pool are the stored ones, or else each token's own.
pub proof fn law_each_token_has_its_own_rate(decimals: Seq<u8>, stored: Option<Seq<nat>>, k: int)
    requires
        rates_spec(decimals, stored) is Ok,
        0 <= k < decimals.len(),
    ensures
        ({
            let rates = rates_spec(decimals, stored)->Ok_0;
            &&& rates.len() == decimals.len()
            &&& stored is Some ==> rates[k] == stored->0[k]
            &&& stored is None ==> rates[k] * pow(10, decimals[k] as nat) == pow(10, 36)
        }),
{
    if stored is None {
        lemma_derived_rate(decimals, decimals.len(), k);
        law_rate_evens_out_the_decimals(decimals[k]);
    }
}

/// Each derived rate is that of its token.
proof fn lemma_derived_rate(decimals: Seq<u8>, count: nat, k: int)
    requires
        derived_rates_spec(decimals, count) is Ok,
        0 <= k < count,
    ensures
        derived_rates_spec(decimals, count)->Ok_0.len() == count,
        rate_spec(decimals[k]) == Ok::<nat, MathErr>(derived_rates_spec(decimals, count)->Ok_0[k]),
    decreases count,
{
    if k < count - 1 {
        lemma_derived_rate(decimals, (count - 1) as nat, k);
    } else if count > 1 {
        lemma_derived_rate(decimals, (count - 1) as nat, 0);
    }
}

/// The scaled balances have the length of the balances.
proof fn lemma_scaled_len(balances: Seq<nat>, rates: Seq<nat>, count: nat)
    requires
        scaled_spec(balances, rates, count) is Ok,
    ensures
        scaled_spec(balances, rates, count)->Ok_0.len() == count,
    decreases count,
{
    if count > 0 {
        lemma_scaled_len(balances, rates, (count - 1) as nat);
    }
}

/// The scaled balance of each token is its balance times its rate by ten to the power 18.
pub proof fn law_scaled_balance_is_balance_times_rate(
    balances: Seq<nat>,
    rates: Seq<nat>,
    k: int,
)
    requires
        xp_spec(balances, rates) is Ok,
        0 <= k < balances.len(),
    ensures
        ({
            let xp = xp_spec(balances, rates)->Ok_0;
            &&& xp.len() == balances.len()
            &&& is_quotient(xp[k], balances[k] * rates[k], 1_000_000_000_000_000_000)
        }),
{
    lemma_scaled_entry(balances, rates, balances.len(), k);
    lemma_quotient(balances[k] * rates[k], wad());
}

proof fn lemma_scaled_entry(balances: Seq<nat>, rates: Seq<nat>, count: nat, k: int)
    requires
        scaled_spec(balances, rates, count) is Ok,
        0 <= k < count,
    ensures
        scaled_spec(balances, rates, count)->Ok_0.len() == count,
        scaled_spec(balances, rates, count)->Ok_0[k] == balances[k] * rates[k] / wad(),
    decreases count,
{
    lemma_scaled_len(balances, rates, (count - 1) as nat);
    if k < count - 1 {
        lemma_scaled_entry(balances, rates, (count - 1) as nat, k);
    }
}

/// Whether `out` is `gross` less a fee of `fee` in ten to the power ten, rounded down.
pub open spec fn is_net_of_fee(gross: nat, fee: nat, out: nat) -> bool {
    &&& out <= gross
    &&& is_quotient((gross - out) as nat, gross * fee, 10_000_000_000)
}

/// Whether a drop of a scaled output balance from `before` to `after` pays `out`: the drop, less
/// one unit where the pool keeps it, is turned into units of the token by its rate, and the fee, a
/// fraction of ten to the power ten, is taken from that; each step rounds down.
pub open spec fn pays_for_drop(
    before: nat,
    after: nat,
    rate: nat,
    fee: nat,
    variant: StableswapMathVariant,
    out: nat,
) -> bool {
    let kept: nat = match variant {
        StableswapMathVariant::Vyper02ThreePool => 1,
        StableswapMathVariant::Vyper01Legacy => 0,
    };
    if before <= after + kept {
        out == 0
    } else {
        exists|gross: nat|
            {
                &&& is_quotient(
                    gross,
                    ((before - after - kept) * 1_000_000_000_000_000_000) as nat,
                    rate,
                )
                &&& #[trigger] is_net_of_fee(gross, fee, out)
            }
    }
}

/// A swap moves along the curve: the input balance that the solver sees is the scaled balance and,
/// on top, the input times its rate; the output balance is the one that the curve asks for beside
/// it; and what is paid is the drop to it.
pub proof fn law_swap_moves_along_the_curve(
    i: nat,
    j: nat,
    dx: nat,
    xp: Seq<nat>,
    rates: Seq<nat>,
    variant: StableswapMathVariant,
    a: nat,
    fee: nat,
)
    requires
        dy_spec(i, j, dx, xp, rates, variant, a, fee) is Ok,
    ensures
        i < xp.len() && j < xp.len() && i != j,
        exists|d: nat, x: nat, y: nat|
            {
                &&& d_spec(xp, a, xp.len(), variant) == Ok::<nat, MathErr>(d)
                &&& x >= xp[i as int]
                &&& is_quotient(
                    (x - xp[i as int]) as nat,
                    dx * rates[i as int],
                    1_000_000_000_000_000_000,
                )
                &&& #[trigger] y_spec(i, j, xp.update(i as int, x), a, d) == Ok::<nat, MathErr>(y)
                &&& #[trigger] pays_for_drop(
                    xp[j as int],
                    y,
                    rates[j as int],
                    fee,
                    variant,
                    dy_spec(i, j, dx, xp, rates, variant, a, fee)->Ok_0,
                )
            },
{
    let out = dy_spec(i, j, dx, xp, rates, variant, a, fee)->Ok_0;
    let d = d_spec(xp, a, xp.len(), variant)->Ok_0;
    let dx_xp = scaled_input_spec(dx, rates[i as int])->Ok_0;
    lemma_quotient(dx * rates[i as int], wad());
    let x = xp[i as int] + dx_xp;
    let y = y_spec(i, j, xp.update(i as int, x), a, d)->Ok_0;
    let (before, rate) = (xp[j as int], rates[j as int]);
    let numer = payable(before, y, variant);
    if numer > 0 {
        let gross = numer * wad() / rate;
        lemma_quotient(numer * wad(), rate);
        lemma_quotient(gross * fee, 10_000_000_000);
        assert(is_quotient(gross, numer * wad(), rate));
        assert(is_net_of_fee(gross, fee, out));
    }
    assert(pays_for_drop(before, y, rate, fee, variant, out));
    assert(y_spec(i, j, xp.update(i as int, x), a, d) == Ok::<nat, MathErr>(y));
}

/// The output does not depend on the unit of the input token: units that are `m` times finer, at a
/// rate that is `m` times lower, give the same output for an input that is `m` times larger.
pub proof fn law_input_unit_does_not_matter(
    i: nat,
    j: nat,
    dx: nat,
    m: nat,
    rate: nat,
    xp: Seq<nat>,
    rates: Seq<nat>,
    variant: StableswapMathVariant,
    a: nat,
    fee: nat,
)
    requires
        rates.len() == xp.len(),
        i < xp.len(),
        i != j,
        fits(dx * (rate * m)),
    ensures
        dy_spec(i, j, dx * m, xp, rates.update(i as int, rate), variant, a, fee) == dy_spec(
            i,
            j,
            dx,
            xp,
            rates.update(i as int, rate * m),
            variant,
            a,
            fee,
        ),
{
    assert(dx * m * rate == dx * (rate * m)) by (nonlinear_arith);
    let fine = rates.update(i as int, rate);
    let coarse = rates.update(i as int, rate * m);
    if j < xp.len() {
        assert(fine[j as int] == coarse[j as int]);
    }
}

/// The same of a whole pool: its balance of the input token is counted in the finer units too.
pub proof fn law_pool_unit_does_not_matter(
    i: nat,
    j: nat,
    dx: nat,
    m: nat,
    rate: nat,
    balance: nat,
    balances: Seq<nat>,
    rates: Seq<nat>,
    decimals: Seq<u8>,
    variant: StableswapMathVariant,
    a: nat,
    fee: nat,
)
    requires
        rates.len() == balances.len(),
        i < balances.len(),
        i != j,
        fits(dx * (rate * m)),
        fits(balance * (rate * m)),
    ensures
        swap_output_spec(
            dx * m,
            i,
            j,
            balances.update(i as int, balance * m),
            decimals,
            Some(rates.update(i as int, rate)),
            variant,
            a,
            fee,
        ) == swap_output_spec(
            dx,
            i,
            j,
            balances.update(i as int, balance),
            decimals,
            Some(rates.update(i as int, rate * m)),
            variant,
            a,
            fee,
        ),
{
    let fine = rates.update(i as int, rate);
    let coarse = rates.update(i as int, rate * m);
    let many = balances.update(i as int, balance * m);
    let few = balances.update(i as int, balance);
    lemma_same_scaled(many, fine, few, coarse, i as int, balance, m, rate, balances.len());
    if xp_spec(few, coarse) is Ok {
        let xp = xp_spec(few, coarse)->Ok_0;
        lemma_scaled_len(few, coarse, few.len());
        law_input_unit_does_not_matter(i, j, dx, m, rate, xp, rates, variant, a, fee);
    }
}

/// Finer units of one token leave the scaled balances as they are.
proof fn lemma_same_scaled(
    many: Seq<nat>,
    fine: Seq<nat>,
    few: Seq<nat>,
    coarse: Seq<nat>,
    i: int,
    balance: nat,
    m: nat,
    rate: nat,
    count: nat,
)
    requires
        count <= many.len(),
        many.len() == few.len() && few.len() == fine.len() && fine.len() == coarse.len(),
        0 <= i < many.len(),
        many[i] == balance * m && fine[i] == rate,
        few[i] == balance && coarse[i] == rate * m,
        forall|k: int|
            0 <= k < many.len() && k != i ==> #[trigger] many[k] == few[k] && fine[k]
                == coarse[k],
        fits(balance * (rate * m)),
    ensures
        scaled_spec(many, fine, count) == scaled_spec(few, coarse, count),
    decreases count,
{
    if count > 0 {
        lemma_same_scaled(
            many,
            fine,
            few,
            coarse,
            i,
            balance,
            m,
            rate,
            (count - 1) as nat,
        );
        assert(balance * m * rate == balance * (rate * m)) by (nonlinear_arith);
        if count - 1 != i {
            assert(many[count - 1] == few[count - 1]);
        }
    }
}

/// The input counts like a larger balance: the input balance that the solver sees is, up to one
/// unit of rounding, the scaled balance of the pool that holds the input already.
pub proof fn law_input_counts_like_a_larger_balance(
    i: nat,
    j: nat,
    dx: nat,
    balances: Seq<nat>,
    rates: Seq<nat>,
    variant: StableswapMathVariant,
    a: nat,
    fee: nat,
)
    requires
        xp_spec(balances, rates) is Ok,
        dy_spec(i, j, dx, xp_spec(balances, rates)->Ok_0, rates, variant, a, fee) is Ok,
        xp_spec(balances.update(i as int, balances[i as int] + dx), rates) is Ok,
    ensures
        ({
            let xp = xp_spec(balances, rates)->Ok_0;
            let larger = xp_spec(
                balances.update(i as int, balances[i as int] + dx),
                rates,
            )->Ok_0;
            let out = dy_spec(i, j, dx, xp, rates, variant, a, fee)->Ok_0;
            exists|d: nat, x: nat, y: nat|
                {
                    &&& d_spec(xp, a, xp.len(), variant) == Ok::<nat, MathErr>(d)
                    &&& x <= larger[i as int] <= x + 1
                    &&& #[trigger] y_spec(i, j, xp.update(i as int, x), a, d) == Ok::<
                        nat,
                        MathErr,
                    >(y)
                    &&& #[trigger] pays_for_drop(xp[j as int], y, rates[j as int], fee, variant, out)
                }
        }),
{
    let xp = xp_spec(balances, rates)->Ok_0;
    let more = balances.update(i as int, balances[i as int] + dx);
    let larger = xp_spec(more, rates)->Ok_0;
    let out = dy_spec(i, j, dx, xp, rates, variant, a, fee)->Ok_0;
    law_swap_moves_along_the_curve(i, j, dx, xp, rates, variant, a, fee);
    lemma_scaled_len(balances, rates, balances.len());
    let (d, x, y) = choose|d: nat, x: nat, y: nat|
        {
            &&& d_spec(xp, a, xp.len(), variant) == Ok::<nat, MathErr>(d)
            &&& x >= xp[i as int]
            &&& is_quotient(
                (x - xp[i as int]) as nat,
                dx * rates[i as int],
                1_000_000_000_000_000_000,
            )
            &&& #[trigger] y_spec(i, j, xp.update(i as int, x), a, d) == Ok::<nat, MathErr>(y)
            &&& #[trigger] pays_for_drop(xp[j as int], y, rates[j as int], fee, variant, out)
        };
    law_scaled_balance_is_balance_times_rate(balances, rates, i as int);
    law_scaled_balance_is_balance_times_rate(more, rates, i as int);
    let (b, r) = (balances[i as int], rates[i as int]);
    assert((b + dx) * r == b * r + dx * r) by (nonlinear_arith);
    assert(x <= larger[i as int] <= x + 1);
}

/// A fee is the raw one where there is one, and else the basis points of ten to the power ten.
pub proof fn law_raw_fee_goes_first(fee_raw: nat, fee_bps: nat)
    ensures
        fee_raw > 0 ==> fee_scalar_spec(fee_raw, fee_bps) == fee_raw,
        fee_scalar_spec(0, fee_bps) * 10_000 == fee_bps * 10_000_000_000,
{
}

/// The spot price is what a million units of the input pay without a fee, by a million.
pub proof fn law_price_is_that_of_a_million_units(
    i: nat,
    j: nat,
    xp: Seq<nat>,
    rates: Seq<nat>,
    variant: StableswapMathVariant,
    a: nat,
)
    requires
        curve_price_spec(i, j, xp, rates, variant, a) is Ok,
    ensures
        dy_spec(i, j, 1_000_000, xp, rates, variant, a, 0) is Ok,
        is_scaled_quotient(
            curve_price_spec(i, j, xp, rates, variant, a)->Ok_0,
            dy_spec(i, j, 1_000_000, xp, rates, variant, a, 0)->Ok_0,
            1_000_000,
        ),
{
    let dy = dy_spec(i, j, 1_000_000, xp, rates, variant, a, 0)->Ok_0;
    lemma_quotient(dy * wad(), 1_000_000);
}

/// A swap of token 0 for token 1 adds its input to the first balance, takes its output from the
/// second one and leaves the others.
pub proof fn law_swap_moves_two_balances(
    amount: nat,
    balances: Seq<nat>,
    decimals: Seq<u8>,
    stored: Option<Seq<nat>>,
    variant: StableswapMathVariant,
    a: nat,
    fee: nat,
)
    requires
        post_swap_spec(amount, balances, decimals, stored, variant, a, fee) is Ok,
    ensures
        ({
            let after = post_swap_spec(amount, balances, decimals, stored, variant, a, fee)->Ok_0;
            let out = swap_output_spec(
                amount,
                0,
                1,
                balances,
                decimals,
                stored,
                variant,
                a,
                fee,
            );
            &&& balances.len() >= 2 && after.len() == balances.len()
            &&& after[0] == balances[0] + amount
            &&& out matches Ok(paid) && after[1] + paid == balances[1]
            &&& forall|k: int| 2 <= k < balances.len() ==> #[trigger] after[k] == balances[k]
        }),
{
    let rates = rates_spec(decimals, stored)->Ok_0;
    lemma_scaled_len(balances, rates, balances.len());
}

/// Whether a chain of numbers starts at `d` and each is the one before times `d`, divided by a
/// divisor and rounded down; a divisor of zero leaves the number as it is.
pub open spec fn is_chain(chain: Seq<nat>, d: nat, divisors: Seq<nat>) -> bool {
    &&& chain.len() == divisors.len() + 1
    &&& chain[0] == d
    &&& forall|k: int|
        0 <= k < divisors.len() ==> if divisors[k] == 0 {
            #[trigger] chain[k + 1] == chain[k]
        } else {
            is_quotient(chain[k + 1], chain[k] * d, divisors[k])
        }
}

/// The divisors by which the invariant enters its own equation.
pub open spec fn balance_divisors(balances: Seq<nat>, variant: StableswapMathVariant) -> Seq<nat> {
    Seq::new(
        balances.len(),
        |k: int|
            balances[k] * balances.len() + match variant {
                StableswapMathVariant::Vyper02ThreePool => 0nat,
                StableswapMathVariant::Vyper01Legacy => 1nat,
            },
    )
}

/// The divisors of the equation for the output balance, which itself is left out.
pub open spec fn other_divisors(xp: Seq<nat>, j: int) -> Seq<nat> {
    Seq::new(
        xp.len(),
        |k: int|
            if k == j {
                0nat
            } else {
                xp[k] * xp.len()
            },
    )
}

/// Whether a number has settled as the invariant of a pool: from a neighbour of it, one step of
/// Newton's method for `A n^n S + D == A D n^n + D^(n+1) / (n^n P)` leads to it.
pub open spec fn is_settled_invariant(
    balances: Seq<nat>,
    a: nat,
    variant: StableswapMathVariant,
    d: nat,
) -> bool {
    let n = balances.len();
    exists|before: nat, chain: Seq<nat>|
        {
            let d_p = chain[n as int];
            let less: nat = if a == 0 {
                0
            } else {
                (a * n - 1) as nat
            };
            &&& before <= d + 1 && d <= before + 1
            &&& #[trigger] is_chain(chain, before, balance_divisors(balances, variant))
            &&& is_quotient(
                d,
                (a * n * total(balances) + d_p * n) * before,
                less * before + (n + 1) * d_p,
            )
        }
}

/// Whether `y` is `(before^2 + c) / (2 before + b - d)`, rounded down.
pub open spec fn steps_to(before: nat, b: int, c: nat, d: int, y: nat) -> bool {
    &&& d < 2 * before + b
    &&& is_quotient(y, before * before + c, (2 * before + b - d) as nat)
}

/// Whether a number has settled as the output balance of a pool with the invariant `d`: from a
/// neighbour of it, one step of Newton's method for `y^2 + (b - D) y == c` leads to it.
pub open spec fn is_settled_balance(xp: Seq<nat>, j: int, a: nat, d: nat, y: nat) -> bool {
    let n = xp.len();
    let b = total(xp) - xp[j] + d / (a * n);
    exists|before: nat, chain: Seq<nat>, c: nat|
        {
            &&& before <= y + 1 && y <= before + 1
            &&& #[trigger] is_chain(chain, d, other_divisors(xp, j))
            &&& #[trigger] is_quotient(c, chain[n as int] * d, a * n * n)
            &&& #[trigger] steps_to(before, b, c, d as int, y)
        }
}

/// The invariant that comes out of Newton's method has settled.
pub proof fn law_invariant_settles(balances: Seq<nat>, a: nat, variant: StableswapMathVariant)
    requires
        balances.len() > 0,
        d_spec(balances, a, balances.len(), variant) is Ok,
        !balances.contains(0),
    ensures
        is_settled_invariant(
            balances,
            a,
            variant,
            d_spec(balances, a, balances.len(), variant)->Ok_0,
        ),
{
    let n = balances.len();
    let d = d_spec(balances, a, n, variant)->Ok_0;
    let ann = a * n;
    let x_n = times_n_spec(balances, n, n)->Ok_0;
    lemma_times_n(balances, n, n);
    assert forall|k: int| 0 <= k < n implies fits(#[trigger] balances[k] * n) by {
        assert(times_n_spec(balances, n, n)->Ok_0[k] == balances[k] * n);
    }
    lemma_total_fits(balances, n);
    let s = saturated_total(balances);
    law_newton_invariant_has_settled(x_n, ann, s, variant, s, 255);
    let before = choose|before: nat|
        {
            &&& #[trigger] d_step_spec(x_n, ann, s, variant, before) == Ok::<nat, MathErr>(d)
            &&& distance(d, before) <= 1
        };
    let divisors = balance_divisors(balances, variant);
    let d_p = d_p_spec(x_n, before, variant, n)->Ok_0;
    let chain = Seq::new(
        n + 1,
        |k: int| d_p_spec(x_n, before, variant, k as nat)->Ok_0,
    );
    assert(chain[n as int] == d_p);
    lemma_d_p_chain(x_n, before, variant, n);
    assert(is_chain(chain, before, divisors)) by {
        assert forall|k: int| 0 <= k < n implies if divisors[k] == 0 {
            #[trigger] chain[k + 1] == chain[k]
        } else {
            is_quotient(chain[k + 1], chain[k] * before, divisors[k])
        } by {
            lemma_d_p_chain(x_n, before, variant, (k + 1) as nat);
            lemma_d_p_chain(x_n, before, variant, k as nat);
            assert(x_n[k] == balances[k] * n);
            lemma_quotient(chain[k] * before, divisors[k]);
        }
    }
    let less: nat = if a == 0 {
        0
    } else {
        (a * n - 1) as nat
    };
    assert(ann == 0 <==> a == 0) by (nonlinear_arith)
        requires
            ann == a * n,
            n > 0,
    ;
    let numerator = (ann * s + d_p * n) * before;
    let denominator = less * before + (n + 1) * d_p;
    lemma_quotient(numerator, denominator);
}

/// The partial products up to a count succeed where the whole does, and each divides the one
/// before.
proof fn lemma_d_p_chain(x_n: Seq<nat>, d: nat, variant: StableswapMathVariant, count: nat)
    requires
        d_p_spec(x_n, d, variant, x_n.len()) is Ok,
        count <= x_n.len(),
    ensures
        d_p_spec(x_n, d, variant, count) is Ok,
        count > 0 ==> {
            let divisor = x_n[count - 1] + match variant {
                StableswapMathVariant::Vyper02ThreePool => 0nat,
                StableswapMathVariant::Vyper01Legacy => 1nat,
            };
            &&& divisor > 0
            &&& d_p_spec(x_n, d, variant, (count - 1) as nat) is Ok
            &&& d_p_spec(x_n, d, variant, count)->Ok_0 == d_p_spec(
                x_n,
                d,
                variant,
                (count - 1) as nat,
            )->Ok_0 * d / divisor
        },
    decreases x_n.len() - count,
{
    if count < x_n.len() {
        lemma_d_p_chain(x_n, d, variant, count + 1);
    }
}

/// The products of the balances with their number.
proof fn lemma_times_n(balances: Seq<nat>, n: nat, count: nat)
    requires
        times_n_spec(balances, n, count) is Ok,
        count <= balances.len(),
    ensures
        times_n_spec(balances, n, count)->Ok_0.len() == count,
        forall|k: int|
            0 <= k < count ==> #[trigger] times_n_spec(balances, n, count)->Ok_0[k] == balances[k]
                * n && fits(balances[k] * n),
    decreases count,
{
    if count > 0 {
        lemma_times_n(balances, n, (count - 1) as nat);
    }
}

/// Balances whose products with their number fit have a sum that fits.
proof fn lemma_total_fits(balances: Seq<nat>, n: nat)
    requires
        n == balances.len(),
        n > 0,
        forall|k: int| 0 <= k < n ==> fits(#[trigger] balances[k] * n),
    ensures
        fits(total(balances)),
{
    lemma_total_bound(balances, n);
    let t = total(balances);
    let limit = u256_limit();
    assert(t < limit) by (nonlinear_arith)
        requires
            t * n < n * limit,
            n > 0,
    ;
}

proof fn lemma_total_bound(s: Seq<nat>, n: nat)
    requires
        forall|k: int| 0 <= k < s.len() ==> fits(#[trigger] s[k] * n),
    ensures
        total(s) * n <= s.len() * u256_limit(),
        s.len() > 0 ==> total(s) * n < s.len() * u256_limit(),
    decreases s.len(),
{
    if s.len() > 0 {
        let rest = s.drop_last();
        assert forall|k: int| 0 <= k < rest.len() implies fits(#[trigger] rest[k] * n) by {
            assert(rest[k] == s[k]);
        }
        lemma_total_bound(rest, n);
        let (t, l, limit) = (total(rest), s.last(), u256_limit());
        assert(s.last() == s[s.len() - 1]);
        assert((t + l) * n == t * n + l * n) by (nonlinear_arith);
        assert(rest.len() * limit + limit == s.len() * limit) by (nonlinear_arith)
            requires
                rest.len() + 1 == s.len(),
        ;
    } else {
        assert(0 * n == 0);
    }
}

/// The output balance that comes out of Newton's method has settled.
pub proof fn law_output_balance_settles(i: nat, j: nat, xp: Seq<nat>, a: nat, d: nat)
    requires
        y_spec(i, j, xp, a, d) is Ok,
    ensures
        j < xp.len() && i != j,
        is_settled_balance(xp, j as int, a, d, y_spec(i, j, xp, a, d)->Ok_0),
{
    let n = xp.len();
    let y = y_spec(i, j, xp, a, d)->Ok_0;
    let ann = a * n;
    let (s, c0) = y_terms_spec(xp, j as int, d, n)->Ok_0;
    let (b, c) = y_coefficients_spec(ann, n, d, s, c0)->Ok_0;
    law_newton_balance_has_settled(b, c, d, n, d, 255);
    let before = choose|before: nat|
        {
            &&& #[trigger] y_step_spec(b, c, d, before) == Ok::<nat, MathErr>(y)
            &&& distance(y, before) <= 1
        };
    let divisors = other_divisors(xp, j as int);
    let chain = Seq::new(n + 1, |k: int| y_terms_spec(xp, j as int, d, k as nat)->Ok_0.1);
    lemma_y_terms_sum(xp, j as int, d, n);
    assert(xp.take(n as int) =~= xp);
    assert(chain[n as int] == c0);
    assert(is_chain(chain, d, divisors)) by {
        assert forall|k: int| 0 <= k < n implies if divisors[k] == 0 {
            #[trigger] chain[k + 1] == chain[k]
        } else {
            is_quotient(chain[k + 1], chain[k] * d, divisors[k])
        } by {
            lemma_y_terms_chain(xp, j as int, d, (k + 1) as nat);
            if divisors[k] > 0 {
                lemma_quotient(chain[k] * d, divisors[k]);
            } else if k != j {
                assert(xp[k] * n > 0) by (nonlinear_arith)
                    requires
                        xp[k] > 0,
                        n > 0,
                ;
            }
        }
    }
    lemma_quotient(c0 * d, ann * n);
    assert(is_quotient(c, chain[n as int] * d, a * n * n));
    lemma_quotient(before * before + c, (2 * before + b - d) as nat);
    assert(b == total(xp) - xp[j as int] + d / ann);
    assert(steps_to(before, b as int, c, d as int, y));
}

/// The terms up to a count succeed where the whole does, and each continues the one before.
proof fn lemma_y_terms_chain(xp: Seq<nat>, j: int, d: nat, count: nat)
    requires
        y_terms_spec(xp, j, d, xp.len()) is Ok,
        0 < count <= xp.len(),
    ensures
        y_terms_spec(xp, j, d, count) is Ok,
        y_terms_spec(xp, j, d, (count - 1) as nat) is Ok,
        count - 1 == j ==> y_terms_spec(xp, j, d, count) == y_terms_spec(
            xp,
            j,
            d,
            (count - 1) as nat,
        ),
        count - 1 != j ==> xp[count - 1] > 0 && y_terms_spec(xp, j, d, count)->Ok_0.1
            == y_terms_spec(xp, j, d, (count - 1) as nat)->Ok_0.1 * d / (xp[count - 1] * xp.len())
            && y_terms_spec(xp, j, d, count)->Ok_0.0 == y_terms_spec(
            xp,
            j,
            d,
            (count - 1) as nat,
        )->Ok_0.0 + xp[count - 1],
    decreases xp.len() - count,
{
    if count < xp.len() {
        lemma_y_terms_chain(xp, j, d, count + 1);
    }
}

/// The terms add up the balances other than the output balance.
proof fn lemma_y_terms_sum(xp: Seq<nat>, j: int, d: nat, count: nat)
    requires
        y_terms_spec(xp, j, d, xp.len()) is Ok,
        count <= xp.len(),
        0 <= j < xp.len(),
    ensures
        y_terms_spec(xp, j, d, count) is Ok,
        y_terms_spec(xp, j, d, count)->Ok_0.0 == total(xp.take(count as int)) - if j < count {
            xp[j] as int
        } else {
            0
        },
    decreases count,
{
    if count > 0 {
        lemma_y_terms_chain(xp, j, d, count);
        lemma_y_terms_sum(xp, j, d, (count - 1) as nat);
        assert(xp.take(count as int).drop_last() =~= xp.take(count - 1));
    }
}

/// Scaled by its decimals, a balance is the same number of whole tokens at 18 decimals, with nothing
/// rounded off.
pub proof fn law_balances_are_scaled_to_18_decimals(
    balances: Seq<nat>,
    decimals: Seq<u8>,
    k: int,
)
    requires
        xp_from_decimals_spec(balances, decimals) is Ok,
        0 <= k < balances.len(),
    ensures
        ({
            let xp = xp_from_decimals_spec(balances, decimals)->Ok_0;
            &&& xp.len() == balances.len() && decimals.len() == balances.len()
            &&& decimals[k] <= 18
            &&& xp[k] == balances[k] * pow(10, (18 - decimals[k]) as nat)
        }),
{
    let rates = rates_spec(decimals, None)->Ok_0;
    if decimals.len() > 0 {
        lemma_derived_rate(decimals, decimals.len(), 0);
    }
    lemma_derived_rate(decimals, decimals.len(), k);
    lemma_scaled_entry(balances, rates, balances.len(), k);
    let d = decimals[k];
    let p = pow(10, (18 - d) as nat) as nat;
    lemma_pow_adds(10, (18 - d) as nat, 18);
    vstd::arithmetic::power::lemma_pow_positive(10, (18 - d) as nat);
    vstd::arithmetic::power::lemma_pow_positive(10, (36 - d) as nat);
    assert(pow(10, 18) == 1_000_000_000_000_000_000) by {
        reveal_with_fuel(pow, 19);
    }
    let b = balances[k];
    assert(b * rates[k] == (b * p) * wad()) by (nonlinear_arith)
        requires
            rates[k] == p * wad(),
    ;
    vstd::arithmetic::div_mod::lemma_div_multiples_vanish((b * p) as int, wad() as int);
    assert(((b * p) * wad()) / wad() == b * p) by {
        assert((b * p) * wad() == wad() * (b * p)) by (nonlinear_arith);
    }
}

/// An invariant is owed wherever Newton's method, from the sum of the balances on, settles within 255
/// steps.
pub proof fn law_invariant_is_owed(
    balances: Seq<nat>,
    a: nat,
    variant: StableswapMathVariant,
    x_n: Seq<nat>,
    d: nat,
)
    requires
        balances.len() > 0,
        !balances.contains(0),
        fits(a * balances.len()),
        x_n.len() == balances.len(),
        forall|k: int|
            0 <= k < balances.len() ==> fits(balances[k] * balances.len()) && #[trigger] x_n[k]
                == balances[k] * balances.len(),
        newton_d_spec(
            x_n,
            a * balances.len(),
            total(balances),
            variant,
            total(balances),
            255,
        ) == Ok::<nat, MathErr>(d),
    ensures
        d_spec(balances, a, balances.len(), variant) == Ok::<nat, MathErr>(d),
{
    let n = balances.len();
    assert forall|k: int| 0 <= k < n implies fits(#[trigger] balances[k] * n) by {
        assert(x_n[k] == balances[k] * n);
    }
    lemma_total_fits(balances, n);
    lemma_times_n_is_owed(balances, n, n);
    lemma_times_n(balances, n, n);
    assert(times_n_spec(balances, n, n)->Ok_0 =~= x_n);
}

/// The products of the balances with their number are there where they fit.
proof fn lemma_times_n_is_owed(balances: Seq<nat>, n: nat, count: nat)
    requires
        count <= balances.len(),
        forall|k: int| 0 <= k < balances.len() ==> fits(#[trigger] balances[k] * n),
    ensures
        times_n_spec(balances, n, count) is Ok,
    decreases count,
{
    if count > 0 {
        lemma_times_n_is_owed(balances, n, (count - 1) as nat);
        assert(fits(balances[count - 1] * n));
    }
}

/// An output balance is owed wherever the coefficients of its equation are there and Newton's method,
/// from the invariant on, settles within 255 steps.
pub proof fn law_output_balance_is_owed(
    i: nat,
    j: nat,
    xp: Seq<nat>,
    a: nat,
    d: nat,
    s: nat,
    c: nat,
    b: nat,
    c2: nat,
    y: nat,
)
    requires
        i != j && j < xp.len(),
        fits(a * xp.len()),
        y_terms_spec(xp, j as int, d, xp.len()) == Ok::<(nat, nat), MathErr>((s, c)),
        y_coefficients_spec(a * xp.len(), xp.len(), d, s, c) == Ok::<(nat, nat), MathErr>((b, c2)),
        newton_y_spec(b, c2, d, xp.len(), d, 255) == Ok::<nat, MathErr>(y),
    ensures
        y_spec(i, j, xp, a, d) == Ok::<nat, MathErr>(y),
{
}

/// Newton's method for the invariant gives the same where it may take more steps.
pub proof fn law_more_steps_change_nothing(
    x_n: Seq<nat>,
    ann: nat,
    s: nat,
    variant: StableswapMathVariant,
    d: nat,
    left: nat,
    more: nat,
)
    requires
        left <= more,
    ensures
        newton_d_spec(x_n, ann, s, variant, d, left) is Ok ==> newton_d_spec(
            x_n,
            ann,
            s,
            variant,
            d,
            more,
        ) == newton_d_spec(x_n, ann, s, variant, d, left),
    decreases left,
{
    if left > 0 {
        match d_step_spec(x_n, ann, s, variant, d) {
            Err(_) => {},
            Ok(next) => {
                law_more_steps_change_nothing(
                    x_n,
                    ann,
                    s,
                    variant,
                    next,
                    (left - 1) as nat,
                    (more - 1) as nat,
                );
            },
        }
    }
}

} // verus!
