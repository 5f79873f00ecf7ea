//! The concentrated-liquidity kernel: the functions of the `uniswap_v3_math` crate that the
//! library calls, and what it relies on of each.
//!
//! Prices are square roots in Q64.96 fixed point. An error of the crate is carried as the text
//! that the crate displays for it.

use crate::u256::{fits, u256_limit, U256};
use vstd::prelude::*;

verus! {

/// The lowest tick.
pub const MIN_TICK: i32 = -887272;

/// The highest tick.
pub const MAX_TICK: i32 = 887272;

/// The square-root price at the lowest tick, the lowest one that has a tick.
pub open spec fn min_sqrt_ratio() -> nat {
    4295128739
}

/// The square-root price at the highest tick; prices from here up have no tick.
pub open spec fn max_sqrt_ratio() -> nat {
    1461446703485210103287273052203988822378723970342nat
}

/// Two to the power 96, one in Q64.96.
pub open spec fn q96() -> nat {
    0x1_0000_0000_0000_0000_0000_0000
}

/// Two to the power 160, one past the largest square-root price.
pub open spec fn q160() -> nat {
    0x1_0000_0000_0000_0000_0000_0000_0000_0000_0000_0000nat
}

/// Division rounded up.
pub open spec fn div_up(a: nat, b: nat) -> nat {
    if a % b == 0 {
        a / b
    } else {
        a / b + 1
    }
}

/// The smaller of two numbers.
pub open spec fn lower(a: nat, b: nat) -> nat {
    if a <= b {
        a
    } else {
        b
    }
}

/// The larger of two numbers.
pub open spec fn upper(a: nat, b: nat) -> nat {
    if a <= b {
        b
    } else {
        a
    }
}

/// A result whose error is a text.
pub open spec fn text_view<T: View>(r: Result<T, String>) -> Result<T::V, Seq<char>> {
    match r {
        Ok(v) => Ok(v@),
        Err(e) => Err(e@),
    }
}

/// `a * b / d` rounded down, with the product taken in full.
pub open spec fn mul_div_spec(a: nat, b: nat, d: nat) -> Result<nat, Seq<char>> {
    if fits(a * b) && d == 0 {
        Err("Denominator is 0"@)
    } else if d * u256_limit() <= a * b {
        Err("Denominator is less than or equal to prod_1"@)
    } else {
        Ok(a * b / d)
    }
}

/// `a * b / d` rounded up, with the product taken in full.
pub open spec fn mul_div_up_spec(a: nat, b: nat, d: nat) -> Result<nat, Seq<char>> {
    match mul_div_spec(a, b, d) {
        Err(e) => Err(e),
        Ok(q) => if (a * b) % d == 0 {
            Ok(q)
        } else if q == u256_limit() - 1 {
            Err("Result is U256::MAX"@)
        } else {
            Ok(q + 1)
        },
    }
}

/// The amount of token 0 between two prices: `L * 2^96 * (hi - lo) / hi / lo`, each division
/// rounded as asked.
pub open spec fn amount0_spec(a: nat, b: nat, liquidity: nat, round_up: bool) -> Result<
    nat,
    Seq<char>,
> {
    let lo = lower(a, b);
    let hi = upper(a, b);
    let n = liquidity * q96() * ((hi - lo) as nat);
    if lo == 0 {
        Err("Sqrt price is 0"@)
    } else if round_up {
        Ok(div_up(div_up(n, hi), lo))
    } else {
        Ok(n / hi / lo)
    }
}

/// The amount of token 1 between two prices: `L * (hi - lo) / 2^96`, rounded as asked.
pub open spec fn amount1_spec(a: nat, b: nat, liquidity: nat, round_up: bool) -> Result<
    nat,
    Seq<char>,
> {
    let gap = (upper(a, b) - lower(a, b)) as nat;
    if round_up {
        mul_div_up_spec(liquidity, gap, q96())
    } else {
        mul_div_spec(liquidity, gap, q96())
    }
}

/// Whether `L * 2^96 + amount * price` stays within 256 bits.
pub open spec fn product_fits(price: nat, liquidity: nat, amount: nat) -> bool {
    fits(amount * price) && fits(liquidity * q96() + amount * price)
}

/// The price after `amount` of token 0 has come in: `L * price / (L + amount * price)` rounded
/// up, or the coarser `L / (L / price + amount)` where the product does not fit.
pub open spec fn next_price0_spec(price: nat, liquidity: nat, amount: nat) -> Result<
    nat,
    Seq<char>,
> {
    let n = liquidity * q96();
    if amount == 0 {
        Ok(price)
    } else if product_fits(price, liquidity, amount) {
        mul_div_up_spec(n, price, n + amount * price)
    } else {
        Ok(div_up(n, n / price + amount))
    }
}

/// The price after `amount` of token 1 has come in: `price + amount / L` rounded down.
pub open spec fn next_price1_spec(price: nat, liquidity: nat, amount: nat) -> Result<
    nat,
    Seq<char>,
> {
    match next_price1_quotient(liquidity, amount) {
        Err(e) => Err(e),
        Ok(q) => if (price + q) % u256_limit() >= q160() {
            Err("Overflow when casting to U160"@)
        } else {
            Ok((price + q) % u256_limit())
        },
    }
}

/// `amount * 2^96 / L`, the step of the price in [`next_price1_spec`].
pub open spec fn next_price1_quotient(liquidity: nat, amount: nat) -> Result<nat, Seq<char>> {
    if amount < q160() {
        Ok(amount * q96() / liquidity)
    } else {
        mul_div_spec(amount, q96(), liquidity)
    }
}

/// The price after an input amount without fee has come in.
pub open spec fn next_price_spec(
    price: nat,
    liquidity: nat,
    amount: nat,
    down: bool,
) -> Result<nat, Seq<char>> {
    if down {
        next_price0_spec(price, liquidity, amount)
    } else {
        next_price1_spec(price, liquidity, amount)
    }
}

/// The square-root price at a tick, as `uniswap_v3_math::tick_math::get_sqrt_ratio_at_tick`
/// returns it.
pub uninterp spec fn sqrt_ratio_at(tick: int) -> nat;

/// The tick of a square-root price, as `uniswap_v3_math::tick_math::get_tick_at_sqrt_ratio`
/// returns it.
pub uninterp spec fn tick_at_ratio(price: nat) -> Result<int, Seq<char>>;

/// One step of a swap, as `uniswap_v3_math::swap_math::compute_swap_step` returns it: the next
/// price, the input without fee, the output and the fee.
pub uninterp spec fn swap_step_of(
    current: nat,
    target: nat,
    liquidity: nat,
    amount_remaining: int,
    fee_pips: nat,
) -> Result<(nat, nat, nat, nat), Seq<char>>;

/// What ties the amounts of a step to its prices: the input without fee lies between the prices,
/// rounded up, and so does the output, rounded down and no more than what was asked for. A step
/// that ends short of its target takes the whole input, the rest of it as the fee; any other fee
/// is a share of the input, rounded up.
pub open spec fn step_amounts(
    current: nat,
    target: nat,
    liquidity: nat,
    amount_remaining: int,
    fee_pips: nat,
    step: (nat, nat, nat, nat),
) -> bool {
    let (next, amount_in, amount_out, fee) = step;
    &&& taken_between(current, next, liquidity, current >= target) == Ok::<nat, Seq<char>>(
        amount_in,
    )
    &&& given_between(current, next, liquidity, current >= target) matches Ok(out) && amount_out
        == if amount_remaining < 0 {
        lower(out, (-amount_remaining) as nat)
    } else {
        out
    }
    &&& if amount_remaining >= 0 && next != target {
        (amount_in + fee) % u256_limit() == amount_remaining
    } else {
        mul_div_up_spec(amount_in, fee_pips, (1_000_000 - fee_pips) as nat) == Ok::<nat, Seq<char>>(
            fee,
        )
    }
}

/// The price at which a step ends: the target, where the input without fee covers what lies up
/// to it, or where the wanted output does; else the price that the amount moves to.
pub open spec fn step_price(
    current: nat,
    target: nat,
    liquidity: nat,
    amount_remaining: int,
    fee_pips: nat,
    next: nat,
) -> bool {
    let down = current >= target;
    if amount_remaining >= 0 {
        let net = (amount_remaining as nat) * ((1_000_000 - fee_pips) as nat) / 1_000_000;
        taken_between(current, target, liquidity, down) matches Ok(needed) && if net >= needed {
            next == target
        } else {
            next_price_spec(current, liquidity, net, down) == Ok::<nat, Seq<char>>(next)
        }
    } else {
        let wanted = (-amount_remaining) as nat;
        given_between(current, target, liquidity, down) matches Ok(available) && if wanted
            >= available {
            next == target
        } else {
            is_price_after_output(current, liquidity, wanted, down, next)
        }
    }
}

/// Whether a price is the one after an output: `price - out / L` of token 1, or
/// `L * price / (L - out * price)` of token 0, both rounded against the trader.
pub open spec fn is_price_after_output(
    price: nat,
    liquidity: nat,
    out: nat,
    down: bool,
    next: nat,
) -> bool {
    let n = liquidity * q96();
    if down {
        next == price - div_up(out * q96(), liquidity)
    } else {
        out * price < n && mul_div_up_spec(n, price, (n - out * price) as nat) == Ok::<
            nat,
            Seq<char>,
        >(next)
    }
}

/// The input between two prices, rounded up.
pub open spec fn taken_between(before: nat, after: nat, liquidity: nat, down: bool) -> Result<
    nat,
    Seq<char>,
> {
    if down {
        amount0_spec(after, before, liquidity, true)
    } else {
        amount1_spec(before, after, liquidity, true)
    }
}

/// The output between two prices, rounded down.
pub open spec fn given_between(before: nat, after: nat, liquidity: nat, down: bool) -> Result<
    nat,
    Seq<char>,
> {
    if down {
        amount1_spec(after, before, liquidity, false)
    } else {
        amount0_spec(before, after, liquidity, false)
    }
}

/// What lies below a quotient rounded up, times the divisor, lies below the dividend.
proof fn lemma_below_div_up(k: nat, a: nat, b: nat)
    requires
        b > 0,
        k < div_up(a, b),
    ensures
        k * b < a,
{
    vstd::arithmetic::div_mod::lemma_fundamental_div_mod(a as int, b as int);
    let q = a / b;
    assert(k <= q);
    assert(k * b <= q * b) by (nonlinear_arith)
        requires
            k <= q,
    ;
    assert(b * q == q * b) by (nonlinear_arith);
    if a % b == 0 {
        assert((k + 1) * b <= q * b) by (nonlinear_arith)
            requires
                k + 1 <= q,
        ;
        assert((k + 1) * b == k * b + b) by (nonlinear_arith);
    }
}

/// A quotient rounded up lies between two numbers whose products with the divisor enclose the
/// dividend.
proof fn lemma_div_up_between(low: nat, a: nat, b: nat, high: nat)
    requires
        b > 0,
        low * b <= a <= high * b,
    ensures
        low <= div_up(a, b) <= high,
{
    vstd::arithmetic::div_mod::lemma_fundamental_div_mod(a as int, b as int);
    let q = a / b;
    let m = a % b;
    assert(low <= q) by (nonlinear_arith)
        requires
            low * b <= b * q + m,
            m < b,
    ;
    assert(m > 0 ==> q < high) by (nonlinear_arith)
        requires
            b * q + m <= high * b,
            b > 0,
    ;
    assert(m == 0 ==> q <= high) by (nonlinear_arith)
        requires
            b * q + m <= high * b,
            b > 0,
    ;
}

/// A step of an input of token 0 that does not cover what lies up to the target.
proof fn lemma_price_between0(current: nat, target: nat, liquidity: nat, net: nat, next: nat)
    requires
        0 < target <= current,
        liquidity > 0,
        net < div_up(
            div_up(liquidity * q96() * ((current - target) as nat), current),
            target,
        ),
        next_price0_spec(current, liquidity, net) == Ok::<nat, Seq<char>>(next),
    ensures
        target <= next <= current,
{
    let n = liquidity * q96();
    let gap = (current - target) as nat;
    assert(n > 0) by (nonlinear_arith)
        requires
            n == liquidity * q96(),
            liquidity > 0,
            q96() > 0,
    ;
    lemma_below_div_up(net, div_up(n * gap, current), target);
    lemma_below_div_up(net * target, n * gap, current);
    let c = current;
    let t = target;
    assert(net * t * c < n * gap);
    if net > 0 {
        if product_fits(c, liquidity, net) {
            let d = n + net * c;
            assert(t * d <= n * c <= c * d) by (nonlinear_arith)
                requires
                    d == n + net * c,
                    net * t * c < n * gap,
                    gap == c - t,
                    c > 0,
            ;
            lemma_div_up_between(t, n * c, d, c);
        } else {
            vstd::arithmetic::div_mod::lemma_fundamental_div_mod(n as int, c as int);
            let q = n / c;
            let m = n % c;
            let d = q + net;
            assert(n <= c * d) by (nonlinear_arith)
                requires
                    n == c * q + m,
                    m < c,
                    d == q + net,
                    net > 0,
            ;
            assert(t * d <= n) by (nonlinear_arith)
                requires
                    n == c * q + m,
                    m >= 0,
                    d == q + net,
                    net * t * c < n * gap,
                    gap == c - t,
                    0 < t <= c,
            {
                assert(c * (t * d) <= c * n) by {
                    assert(c * (t * d) == t * (c * q) + net * t * c);
                    assert(t * (c * q) <= t * n);
                    assert(t * n + n * gap == c * n);
                }
                assert(t * d <= n);
            }
            lemma_div_up_between(t, n, d, c);
        }
    }
}

/// An input of token 0 does not raise the price.
pub proof fn lemma_input0_lowers(current: nat, liquidity: nat, net: nat, next: nat)
    requires
        current > 0,
        liquidity > 0,
        next_price0_spec(current, liquidity, net) == Ok::<nat, Seq<char>>(next),
    ensures
        next <= current,
{
    let n = liquidity * q96();
    let c = current;
    assert(n > 0) by (nonlinear_arith)
        requires
            n == liquidity * q96(),
            liquidity > 0,
            q96() > 0,
    ;
    if net > 0 {
        if product_fits(c, liquidity, net) {
            let d = n + net * c;
            assert(n * c <= c * d) by (nonlinear_arith)
                requires
                    d == n + net * c,
            ;
            lemma_div_up_between(0, n * c, d, c);
        } else {
            vstd::arithmetic::div_mod::lemma_fundamental_div_mod(n as int, c as int);
            let q = n / c;
            let d = q + net;
            assert(n <= c * d) by (nonlinear_arith)
                requires
                    n < c * q + c,
                    d == q + net,
                    net > 0,
            ;
            lemma_div_up_between(0, n, d, c);
        }
    }
}

/// A step of an input of token 1 that does not cover what lies up to the target.
proof fn lemma_price_between1(current: nat, target: nat, liquidity: nat, net: nat, next: nat)
    requires
        current < target,
        fits(target),
        liquidity > 0,
        net < div_up(liquidity * ((target - current) as nat), q96()),
        net < q160(),
        next_price1_spec(current, liquidity, net) == Ok::<nat, Seq<char>>(next),
    ensures
        current <= next <= target,
{
    let gap = (target - current) as nat;
    lemma_below_div_up(net, liquidity * gap, q96());
    let q = net * q96() / liquidity;
    vstd::arithmetic::div_mod::lemma_fundamental_div_mod((net * q96()) as int, liquidity as int);
    assert(q < gap) by (nonlinear_arith)
        requires
            liquidity * q <= net * q96(),
            net * q96() < liquidity * gap,
    ;
    vstd::arithmetic::div_mod::lemma_small_mod(current + q, u256_limit());
}

/// A step of an output that the range up to the target can give.
proof fn lemma_price_between_output(
    current: nat,
    target: nat,
    liquidity: nat,
    wanted: nat,
    next: nat,
)
    requires
        0 < target,
        0 < current,
        liquidity > 0,
        current >= target ==> wanted < liquidity * ((current - target) as nat) / q96(),
        current < target ==> wanted < liquidity * q96() * ((target - current) as nat) / target
            / current,
        is_price_after_output(current, liquidity, wanted, current >= target, next),
    ensures
        lower(current, target) <= next <= upper(current, target),
{
    let c = current;
    let t = target;
    if c >= t {
        let gap = (c - t) as nat;
        let a = liquidity * gap;
        vstd::arithmetic::div_mod::lemma_fundamental_div_mod(a as int, q96() as int);
        let available = a / q96();
        assert(wanted * q96() <= gap * liquidity) by (nonlinear_arith)
            requires
                wanted < available,
                q96() * available <= a,
                a == liquidity * gap,
                q96() > 0,
        ;
        lemma_div_up_between(0, wanted * q96(), liquidity, gap);
    } else {
        let n = liquidity * q96();
        let gap = (t - c) as nat;
        let inner = n * gap / t;
        vstd::arithmetic::div_mod::lemma_fundamental_div_mod((n * gap) as int, t as int);
        vstd::arithmetic::div_mod::lemma_fundamental_div_mod(inner as int, c as int);
        let available = inner / c;
        let d = (n - wanted * c) as nat;
        assert(wanted * c <= inner) by (nonlinear_arith)
            requires
                wanted < available,
                c * available <= inner,
                c > 0,
        ;
        assert(c * d <= n * c <= t * d) by (nonlinear_arith)
            requires
                d == n - wanted * c,
                wanted * c <= inner,
                t * inner <= n * gap,
                gap == t - c,
                c > 0,
                t > 0,
        ;
        lemma_div_up_between(c, n * c, d, t);
    }
}

/// The price at which a step ends lies between the price at which it starts and the target.
pub proof fn law_step_price_stays_between(
    current: nat,
    target: nat,
    liquidity: nat,
    amount_remaining: int,
    fee_pips: nat,
    next: nat,
)
    requires
        0 < current,
        0 < target,
        fits(current),
        fits(target),
        liquidity > 0,
        i128::MIN < amount_remaining <= i128::MAX,
        fee_pips < 1_000_000,
        step_price(current, target, liquidity, amount_remaining, fee_pips, next),
    ensures
        lower(current, target) <= next <= upper(current, target),
{
    if amount_remaining >= 0 {
        let kept = (1_000_000 - fee_pips) as nat;
        let net = (amount_remaining as nat) * kept / 1_000_000;
        assert(net <= amount_remaining) by (nonlinear_arith)
            requires
                net == (amount_remaining as nat) * kept / 1_000_000,
                kept <= 1_000_000,
                amount_remaining >= 0,
        ;
        let needed = taken_between(current, target, liquidity, current >= target)->Ok_0;
        if net < needed {
            if current >= target {
                lemma_price_between0(current, target, liquidity, net, next);
            } else {
                lemma_price_between1(current, target, liquidity, net, next);
            }
        }
    } else {
        let wanted = (-amount_remaining) as nat;
        let available = given_between(current, target, liquidity, current >= target)->Ok_0;
        if wanted < available {
            lemma_price_between_output(current, target, liquidity, wanted, next);
        }
    }
}

/// A quotient rounded up is at most a number whose product with the divisor covers the dividend,
/// and its own product covers it.
proof fn lemma_div_up_covers(a: nat, b: nat)
    requires
        b > 0,
    ensures
        a <= div_up(a, b) * b,
{
    vstd::arithmetic::div_mod::lemma_fundamental_div_mod(a as int, b as int);
    let q = a / b;
    assert(b * q == q * b) by (nonlinear_arith);
    assert((q + 1) * b == q * b + b) by (nonlinear_arith);
}

/// An input of token 0 covers what lies up to the price that it moves to.
proof fn lemma_input_covers0(current: nat, liquidity: nat, net: nat, next: nat)
    requires
        0 < next <= current,
        liquidity > 0,
        next_price0_spec(current, liquidity, net) == Ok::<nat, Seq<char>>(next),
    ensures
        div_up(div_up(liquidity * q96() * ((current - next) as nat), current), next) <= net,
{
    let n = liquidity * q96();
    let c = current;
    let gap = (c - next) as nat;
    assert(n > 0) by (nonlinear_arith)
        requires
            n == liquidity * q96(),
            liquidity > 0,
            q96() > 0,
    ;
    assert(n * gap <= net * next * c) by {
        if net == 0 {
            assert(n * gap == 0) by (nonlinear_arith)
                requires
                    gap == 0,
            ;
        } else if product_fits(c, liquidity, net) {
            let d = n + net * c;
            lemma_div_up_covers(n * c, d);
            assert(n * gap <= net * next * c) by (nonlinear_arith)
                requires
                    d == n + net * c,
                    n * c <= next * d,
                    gap == c - next,
            ;
        } else {
            vstd::arithmetic::div_mod::lemma_fundamental_div_mod(n as int, c as int);
            let q = n / c;
            let d = q + net;
            lemma_div_up_covers(n, d);
            assert(n * gap <= net * next * c) by (nonlinear_arith)
                requires
                    c * q <= n,
                    d == q + net,
                    n <= next * d,
                    gap == c - next,
                    c > 0,
            {
                assert(n * c <= next * d * c);
                assert(next * d * c == next * (c * q) + net * next * c);
                assert(next * (c * q) <= next * n);
            }
        }
    }
    lemma_div_up_between(0, n * gap, c, net * next);
    lemma_div_up_between(0, div_up(n * gap, c), next, net);
}

/// A step of an exact input takes no more than the input, fee and all.
pub proof fn law_exact_input_is_not_exceeded(
    current: nat,
    target: nat,
    liquidity: nat,
    amount_remaining: int,
    fee_pips: nat,
    step: (nat, nat, nat, nat),
)
    requires
        0 < current,
        0 < target,
        fits(current),
        fits(target),
        fits(step.1),
        fits(step.3),
        liquidity > 0,
        0 <= amount_remaining <= i128::MAX,
        fee_pips < 1_000_000,
        step_price(current, target, liquidity, amount_remaining, fee_pips, step.0),
        step_amounts(current, target, liquidity, amount_remaining, fee_pips, step),
    ensures
        step.1 + step.3 <= amount_remaining,
        step.1 * 1_000_000 <= amount_remaining * (1_000_000 - fee_pips),
{
    let (next, amount_in, _, fee) = step;
    let given = amount_remaining as nat;
    let kept = (1_000_000 - fee_pips) as nat;
    let net = given * kept / 1_000_000;
    let down = current >= target;
    law_step_price_stays_between(current, target, liquidity, amount_remaining, fee_pips, next);
    vstd::arithmetic::div_mod::lemma_fundamental_div_mod((given * kept) as int, 1_000_000);
    assert(net <= given) by (nonlinear_arith)
        requires
            1_000_000 * net <= given * kept,
            kept <= 1_000_000,
    ;
    let needed = taken_between(current, target, liquidity, down)->Ok_0;
    assert(amount_in <= net) by {
        if net < needed {
            if down {
                lemma_input_covers0(current, liquidity, net, next);
            } else {
                let q = net * q96() / liquidity;
                vstd::arithmetic::div_mod::lemma_fundamental_div_mod(
                    (net * q96()) as int,
                    liquidity as int,
                );
                let gap = (target - current) as nat;
                lemma_below_div_up(net, liquidity * gap, q96());
                assert(q < gap) by (nonlinear_arith)
                    requires
                        liquidity * q <= net * q96(),
                        net * q96() < liquidity * gap,
                ;
                vstd::arithmetic::div_mod::lemma_small_mod(current + q, u256_limit());
                assert(next == current + q);
                lemma_div_up_between(0, liquidity * q, q96(), net);
            }
        }
    }
    assert(amount_in * 1_000_000 <= given * kept) by (nonlinear_arith)
        requires
            amount_in <= net,
            1_000_000 * net <= given * kept,
    ;
    assert(given * kept == amount_remaining * (1_000_000 - fee_pips));
    if next == target {
        assert(fee == div_up(amount_in * fee_pips, kept));
        assert(amount_in * fee_pips <= ((given - amount_in) as nat) * kept) by (nonlinear_arith)
            requires
                amount_in <= net,
                1_000_000 * net <= given * kept,
                kept == 1_000_000 - fee_pips,
                kept > 0,
                amount_in <= given,
        ;
        lemma_div_up_between(0, amount_in * fee_pips, kept, (given - amount_in) as nat);
    } else {
        let total = amount_in + fee;
        if total >= u256_limit() {
            vstd::arithmetic::div_mod::lemma_fundamental_div_mod(
                total as int,
                u256_limit() as int,
            );
            assert(total / u256_limit() >= 1);
            assert(false) by (nonlinear_arith)
                requires
                    total == u256_limit() * (total / u256_limit()) + given,
                    total / u256_limit() >= 1,
                    total == amount_in + fee,
                    fee < u256_limit(),
                    amount_in <= given,
                    u256_limit() > 0,
            ;
        }
        vstd::arithmetic::div_mod::lemma_small_mod(total, u256_limit());
    }
}

/// `true` for a tick that has a square-root price.
pub open spec fn tick_in_range(tick: int) -> bool {
    MIN_TICK <= tick <= MAX_TICK
}

/// Whether a tick is the last one whose square-root price is not above a price: lower ticks have
/// lower prices, and higher ticks have higher ones.
pub open spec fn is_tick_of(tick: int, price: nat) -> bool {
    &&& MIN_TICK <= tick < MAX_TICK
    &&& sqrt_ratio_at(tick) <= price < sqrt_ratio_at(tick + 1)
    &&& orders_ticks(tick, price)
}

/// Whether a tick is the one of any price: the last tick whose price is not above it, or the
/// lowest tick where there is none.
pub open spec fn is_floor_tick(tick: int, price: nat) -> bool {
    &&& tick_in_range(tick)
    &&& tick > MIN_TICK ==> sqrt_ratio_at(tick) <= price
    &&& orders_ticks(tick, price)
}

/// Whether a price lies between those of the ticks below and above a tick.
pub open spec fn orders_ticks(tick: int, price: nat) -> bool {
    &&& forall|t: int| MIN_TICK <= t < tick ==> #[trigger] sqrt_ratio_at(t) < price
    &&& forall|t: int| tick < t <= MAX_TICK ==> price < #[trigger] sqrt_ratio_at(t)
}

/// The tick of a price is the lowest one below the price of the lowest tick, the highest one from
/// the price of the highest tick on, and between them the tick whose price is not above it while
/// that of the next tick is.
pub proof fn law_tick_floors_the_price(tick: int, price: nat)
    requires
        is_floor_tick(tick, price),
    ensures
        price < sqrt_ratio_at(MIN_TICK as int) ==> tick == MIN_TICK,
        price >= sqrt_ratio_at(MAX_TICK as int) ==> tick == MAX_TICK,
        sqrt_ratio_at(MIN_TICK as int) <= price < sqrt_ratio_at(MAX_TICK as int) ==> MIN_TICK
            <= tick < MAX_TICK && sqrt_ratio_at(tick) <= price < sqrt_ratio_at(tick + 1),
{
}

/// The tick of the price of a tick is that tick, for every tick in range.
pub proof fn law_price_of_a_tick_has_that_tick(t: int, tick: int)
    requires
        tick_in_range(t),
        is_floor_tick(tick, sqrt_ratio_at(t)),
    ensures
        tick == t,
{
}

/// A higher price has no lower tick.
pub proof fn law_ticks_grow_with_prices(low: nat, low_tick: int, high: nat, high_tick: int)
    requires
        low <= high,
        is_floor_tick(low_tick, low),
        is_floor_tick(high_tick, high),
    ensures
        low_tick <= high_tick,
{
    if low_tick > high_tick {
        assert(high < sqrt_ratio_at(low_tick));
    }
}

/// The square-root price of a tick, or the error for a tick out of range.
pub open spec fn ratio_spec(tick: int) -> Result<nat, Seq<char>> {
    if tick_in_range(tick) {
        Ok(sqrt_ratio_at(tick))
    } else {
        Err("The given tick must be less than, or equal to, the maximum tick"@)
    }
}

/// What the square-root price of a tick is at the ends of the range and at tick zero. No other
/// tick has the price of an end.
pub open spec fn fixed_ratios(tick: int, price: nat) -> bool {
    &&& tick == MIN_TICK ==> price == min_sqrt_ratio()
    &&& tick > MIN_TICK ==> price > min_sqrt_ratio()
    &&& tick == 0 ==> price == q96()
    &&& tick < MAX_TICK ==> price < max_sqrt_ratio()
    &&& tick == MAX_TICK ==> price == max_sqrt_ratio()
}

/// The square-root price at the lowest tick.
pub fn min_sqrt_ratio_value() -> (r: U256)
    ensures
        r@ == min_sqrt_ratio(),
{
    U256::from_u64(4295128739)
}

/// The square-root price at the highest tick.
pub fn max_sqrt_ratio_value() -> (r: U256)
    ensures
        r@ == max_sqrt_ratio(),
{
    proof {
        reveal(crate::u256::limbs_value);
    }
    U256::from_limbs(6743328256752651558, 17280870778742802505, 4294805859, 0)
}

/// `uniswap_v3_math::full_math::mul_div`: `a * b / d` rounded down over the full 512-bit
/// product. It fails for a zero divisor and where the quotient does not fit in 256 bits.
#[verifier::external_body]
pub(crate) fn full_mul_div(a: U256, b: U256, d: U256) -> (r: Result<U256, String>)
    ensures
        text_view(r) == mul_div_spec(a@, b@, d@),
{
    let x = alloy_primitives::U256::from_limbs([a.l0, a.l1, a.l2, a.l3]);
    let y = alloy_primitives::U256::from_limbs([b.l0, b.l1, b.l2, b.l3]);
    let z = alloy_primitives::U256::from_limbs([d.l0, d.l1, d.l2, d.l3]);
    match uniswap_v3_math::full_math::mul_div(x, y, z) {
        Ok(v) => {
            let w = v.into_limbs();
            Ok(U256 { l3: w[3], l2: w[2], l1: w[1], l0: w[0] })
        },
        Err(e) => Err(e.to_string()),
    }
}

/// `uniswap_v3_math::full_math::mul_div_rounding_up`: `a * b / d` rounded up over the full
/// 512-bit product. It fails where [`full_mul_div`] fails, and where rounding up leaves 256 bits.
#[verifier::external_body]
pub(crate) fn full_mul_div_up(a: U256, b: U256, d: U256) -> (r: Result<U256, String>)
    ensures
        text_view(r) == mul_div_up_spec(a@, b@, d@),
{
    let x = alloy_primitives::U256::from_limbs([a.l0, a.l1, a.l2, a.l3]);
    let y = alloy_primitives::U256::from_limbs([b.l0, b.l1, b.l2, b.l3]);
    let z = alloy_primitives::U256::from_limbs([d.l0, d.l1, d.l2, d.l3]);
    match uniswap_v3_math::full_math::mul_div_rounding_up(x, y, z) {
        Ok(v) => {
            let w = v.into_limbs();
            Ok(U256 { l3: w[3], l2: w[2], l1: w[1], l0: w[0] })
        },
        Err(e) => Err(e.to_string()),
    }
}

/// `uniswap_v3_math::sqrt_price_math::_get_amount_0_delta`: the amount of token 0 between two
/// prices. It fails only where the lower price is zero.
#[verifier::external_body]
pub(crate) fn amount0_delta(a: U256, b: U256, liquidity: u128, round_up: bool) -> (r: Result<
    U256,
    String,
>)
    ensures
        text_view(r) == amount0_spec(a@, b@, liquidity as nat, round_up),
{
    let x = alloy_primitives::U256::from_limbs([a.l0, a.l1, a.l2, a.l3]);
    let y = alloy_primitives::U256::from_limbs([b.l0, b.l1, b.l2, b.l3]);
    match uniswap_v3_math::sqrt_price_math::_get_amount_0_delta(x, y, liquidity, round_up) {
        Ok(v) => {
            let w = v.into_limbs();
            Ok(U256 { l3: w[3], l2: w[2], l1: w[1], l0: w[0] })
        },
        Err(e) => Err(e.to_string()),
    }
}

/// `uniswap_v3_math::sqrt_price_math::_get_amount_1_delta`: the amount of token 1 between two
/// prices. It fails only where the amount does not fit in 256 bits.
#[verifier::external_body]
pub(crate) fn amount1_delta(a: U256, b: U256, liquidity: u128, round_up: bool) -> (r: Result<
    U256,
    String,
>)
    ensures
        text_view(r) == amount1_spec(a@, b@, liquidity as nat, round_up),
{
    let x = alloy_primitives::U256::from_limbs([a.l0, a.l1, a.l2, a.l3]);
    let y = alloy_primitives::U256::from_limbs([b.l0, b.l1, b.l2, b.l3]);
    match uniswap_v3_math::sqrt_price_math::_get_amount_1_delta(x, y, liquidity, round_up) {
        Ok(v) => {
            let w = v.into_limbs();
            Ok(U256 { l3: w[3], l2: w[2], l1: w[1], l0: w[0] })
        },
        Err(e) => Err(e.to_string()),
    }
}

/// `uniswap_v3_math::sqrt_price_math::get_next_sqrt_price_from_amount_0_rounding_up` for an
/// amount that comes in. Where the exact product does not fit, the crate divides by
/// `L / price + amount` in wrapping arithmetic; the condition keeps that sum from wrapping, so
/// that the divisor is not zero.
#[verifier::external_body]
pub(crate) fn next_price_from_amount0(price: U256, liquidity: u128, amount: U256) -> (r: Result<
    U256,
    String,
>)
    requires
        product_fits(price@, liquidity as nat, amount@) || fits(
            (liquidity as nat) * q96() / price@ + amount@,
        ),
    ensures
        text_view(r) == next_price0_spec(price@, liquidity as nat, amount@),
{
    let p = alloy_primitives::U256::from_limbs([price.l0, price.l1, price.l2, price.l3]);
    let a = alloy_primitives::U256::from_limbs([amount.l0, amount.l1, amount.l2, amount.l3]);
    match uniswap_v3_math::sqrt_price_math::get_next_sqrt_price_from_amount_0_rounding_up(
        p, liquidity, a, true,
    ) {
        Ok(v) => {
            let w = v.into_limbs();
            Ok(U256 { l3: w[3], l2: w[2], l1: w[1], l0: w[0] })
        },
        Err(e) => Err(e.to_string()),
    }
}

/// `uniswap_v3_math::sqrt_price_math::get_next_sqrt_price_from_amount_1_rounding_down` for an
/// amount that comes in. The crate divides by the liquidity, so that must not be zero. The sum
/// of price and step wraps at 256 bits.
#[verifier::external_body]
pub(crate) fn next_price_from_amount1(price: U256, liquidity: u128, amount: U256) -> (r: Result<
    U256,
    String,
>)
    requires
        liquidity > 0,
    ensures
        text_view(r) == next_price1_spec(price@, liquidity as nat, amount@),
{
    let p = alloy_primitives::U256::from_limbs([price.l0, price.l1, price.l2, price.l3]);
    let a = alloy_primitives::U256::from_limbs([amount.l0, amount.l1, amount.l2, amount.l3]);
    match uniswap_v3_math::sqrt_price_math::get_next_sqrt_price_from_amount_1_rounding_down(
        p, liquidity, a, true,
    ) {
        Ok(v) => {
            let w = v.into_limbs();
            Ok(U256 { l3: w[3], l2: w[2], l1: w[1], l0: w[0] })
        },
        Err(e) => Err(e.to_string()),
    }
}

/// `uniswap_v3_math::tick_math::get_sqrt_ratio_at_tick`: the square-root price of a tick, a
/// fixed function of the tick that grows from each tick to the next, from the lowest price at the
/// lowest tick through one at tick zero to the highest price at the highest tick. It fails exactly for a tick out of range. The crate negates the tick, which the lowest `i32` does not
/// survive.
#[verifier::external_body]
pub(crate) fn ratio_at_tick(tick: i32) -> (r: Result<U256, String>)
    requires
        tick != i32::MIN,
    ensures
        match r {
            Ok(v) => tick_in_range(tick as int) && v@ == sqrt_ratio_at(tick as int)
                && min_sqrt_ratio() <= v@ <= max_sqrt_ratio(),
            Err(e) => !tick_in_range(tick as int) && e@
                == "The given tick must be less than, or equal to, the maximum tick"@,
        },
        r matches Ok(v) ==> fixed_ratios(tick as int, v@),
        r matches Ok(v) ==> orders_ticks(tick as int, v@),
{
    match uniswap_v3_math::tick_math::get_sqrt_ratio_at_tick(tick) {
        Ok(v) => {
            let w = v.into_limbs();
            Ok(U256 { l3: w[3], l2: w[2], l1: w[1], l0: w[0] })
        },
        Err(e) => Err(e.to_string()),
    }
}

/// The square-root price of any tick, in or out of range.
pub fn checked_ratio_at_tick(tick: i32) -> (r: Result<U256, String>)
    ensures
        text_view(r) == ratio_spec(tick as int),
        r matches Ok(v) ==> min_sqrt_ratio() <= v@ <= max_sqrt_ratio() && fixed_ratios(
            tick as int,
            v@,
        ) && orders_ticks(tick as int, v@),
{
    if tick < MIN_TICK || tick > MAX_TICK {
        return Err("The given tick must be less than, or equal to, the maximum tick".to_owned());
    }
    ratio_at_tick(tick)
}

/// `uniswap_v3_math::tick_math::get_tick_at_sqrt_ratio`: the tick of a square-root price, a
/// fixed function of the price. In the range of prices it is the last tick whose price is not
/// above the given one. Out of the range it fails with the crate's range error.
#[verifier::external_body]
pub(crate) fn tick_at_price(price: U256) -> (r: Result<i32, String>)
    ensures
        match r {
            Ok(t) => tick_at_ratio(price@) == Ok::<int, Seq<char>>(t as int),
            Err(e) => tick_at_ratio(price@) == Err::<int, Seq<char>>(e@),
        },
        min_sqrt_ratio() <= price@ < max_sqrt_ratio() ==> r is Ok && is_tick_of(
            r->Ok_0 as int,
            price@,
        ),
        !(min_sqrt_ratio() <= price@ < max_sqrt_ratio()) ==> r is Err && r->Err_0@
            == "Second inequality must be < because the price can never reach the price at the max tick"@,
{
    let p = alloy_primitives::U256::from_limbs([price.l0, price.l1, price.l2, price.l3]);
    uniswap_v3_math::tick_math::get_tick_at_sqrt_ratio(p).map_err(|e| e.to_string())
}

/// `uniswap_v3_math::swap_math::compute_swap_step`: one step of a swap, a fixed function of its
/// arguments. Where it succeeds, its price is the one that [`step_price`] says, and its amounts
/// follow from the prices as [`step_amounts`] says. It succeeds on prices of at most 160 bits; on
/// others, whether it fails is left to the name. The crate subtracts the fee from one million, so
/// the fee stays below that.
#[verifier::external_body]
pub(crate) fn swap_step(
    current: U256,
    target: U256,
    liquidity: u128,
    amount_remaining: i128,
    fee_pips: u32,
) -> (r: Result<(U256, U256, U256, U256), String>)
    requires
        liquidity > 0,
        current@ > 0,
        target@ > 0,
        amount_remaining > i128::MIN,
        fee_pips < 1_000_000,
    ensures
        match r {
            Ok(v) => swap_step_of(
                current@,
                target@,
                liquidity as nat,
                amount_remaining as int,
                fee_pips as nat,
            ) == Ok::<(nat, nat, nat, nat), Seq<char>>((v.0@, v.1@, v.2@, v.3@)),
            Err(e) => swap_step_of(
                current@,
                target@,
                liquidity as nat,
                amount_remaining as int,
                fee_pips as nat,
            ) == Err::<(nat, nat, nat, nat), Seq<char>>(e@),
        },
        current@ < q160() && target@ < q160() ==> r is Ok,
        r matches Ok(v) ==> step_price(
            current@,
            target@,
            liquidity as nat,
            amount_remaining as int,
            fee_pips as nat,
            v.0@,
        ),
        r matches Ok(v) ==> step_amounts(
            current@,
            target@,
            liquidity as nat,
            amount_remaining as int,
            fee_pips as nat,
            (v.0@, v.1@, v.2@, v.3@),
        ),
{
    let c = alloy_primitives::U256::from_limbs([current.l0, current.l1, current.l2, current.l3]);
    let t = alloy_primitives::U256::from_limbs([target.l0, target.l1, target.l2, target.l3]);
    let a = alloy_primitives::I256::unchecked_from(amount_remaining);
    let (n, i, o, f) = uniswap_v3_math::swap_math::compute_swap_step(c, t, liquidity, a, fee_pips)
        .map_err(|e| e.to_string())?;
    let w = [n, i, o, f].map(|v| v.into_limbs());
    let r = w.map(|w| U256 { l3: w[3], l2: w[2], l1: w[1], l0: w[0] });
    Ok((r[0], r[1], r[2], r[3]))
}

/// An input of token 1 raises the price by its share of the liquidity, where the sum does not leave
/// the range of 256 bits.
pub proof fn lemma_input1_raises(current: nat, liquidity: nat, net: nat, next: nat)
    requires
        liquidity > 0,
        fits(current + net * q96() / liquidity),
        next_price1_spec(current, liquidity, net) == Ok::<nat, Seq<char>>(next),
    ensures
        next == current + net * q96() / liquidity,
        next < q160(),
{
    let q = net * q96() / liquidity;
    vstd::arithmetic::div_mod::lemma_small_mod(current + q, u256_limit());
}

/// An input that does not cover the way to a target moves the price towards it and not past it, and
/// covers what lies up to the price that it moves to.
pub proof fn lemma_short_input(
    current: nat,
    target: nat,
    liquidity: nat,
    net: nat,
    needed: nat,
    next: nat,
    down: bool,
)
    requires
        liquidity > 0,
        0 < current,
        down ==> 0 < target <= current,
        !down ==> current <= target < q160(),
        taken_between(current, target, liquidity, down) == Ok::<nat, Seq<char>>(needed),
        net < needed,
        next_price_spec(current, liquidity, net, down) == Ok::<nat, Seq<char>>(next),
    ensures
        down ==> target <= next <= current,
        !down ==> current <= next <= target,
        taken_between(current, next, liquidity, down) matches Ok(n) && n <= net,
{
    if down {
        lemma_price_between0(current, target, liquidity, net, next);
        lemma_input_covers0(current, liquidity, net, next);
    } else {
        let gap = (target - current) as nat;
        lemma_below_div_up(net, liquidity * gap, q96());
        let q = net * q96() / liquidity;
        vstd::arithmetic::div_mod::lemma_fundamental_div_mod(
            (net * q96()) as int,
            liquidity as int,
        );
        assert(q < gap) by (nonlinear_arith)
            requires
                liquidity * q <= net * q96(),
                net * q96() < liquidity * gap,
        ;
        lemma_input1_raises(current, liquidity, net, next);
        lemma_div_up_between(0, liquidity * q, q96(), net);
        let n = liquidity * q;
        assert(n < q96() * u256_limit()) by (nonlinear_arith)
            requires
                n <= net * q96(),
                net < u256_limit(),
        ;
    }
}

} // verus!
