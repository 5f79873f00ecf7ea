//! Exact-input quotes for two-token weighted pools.

use crate::base::error::{
    bad_pool, dex_view, e_invalid, e_overflow, e_pool, e_underflow, overflow0, underflow0,
    unexplained, DexErr, DexError, MathErr, MathError,
};
use crate::base::precision::BasisPoints;
use crate::data::pool_state::BalancerPoolState;
use crate::dex::adapter::SwapDirection;
use crate::dex::balancer::conversions::{swap_fee_bps_to_18_decimal, weighted_out};
use crate::dex::balancer::math::{
    balancer_net_input, balancer_output_spec, balancer_price_spec, calculate_balancer_price,
    calculate_swap_output, law_weighted_price_is_the_quotient,
};
use crate::dex::pricing::{
    execution_price, execution_price_spec, is_impact_of, is_price_of, is_scaled_quotient,
    law_execution_price_is_token1_per_token0, law_price_impact_is_the_change, price_impact,
    price_impact_spec,
};
use crate::text::{dec, text_u128};
use crate::u256::{fits, U256};
use vstd::prelude::*;
use vstd::string::StringExecFns;

verus! {

/// Snapshot of a two-token weighted pool.
#[derive(Clone, Debug)]
pub struct BalancerPoolSnapshot {
    pub balance0: U256,
    pub balance1: U256,
    /// The weight of token 0, scaled by ten to the power 18.
    pub weight0: U256,
    /// The weight of token 1, scaled by ten to the power 18.
    pub weight1: U256,
    pub swap_fee_bps: BasisPoints,
}

/// The first two numbers of a list, or zeros where it has fewer.
pub open spec fn first_two(list: Seq<U256>) -> (nat, nat) {
    if list.len() >= 2 {
        (list[0]@, list[1]@)
    } else {
        (0, 0)
    }
}

fn take_two(list: &Vec<U256>) -> (r: (U256, U256))
    ensures
        (r.0@, r.1@) == first_two(list@),
{
    if list.len() >= 2 {
        (list[0], list[1])
    } else {
        (U256::zero(), U256::zero())
    }
}

impl From<&BalancerPoolState> for BalancerPoolSnapshot {
    /// The snapshot of the first two tokens of a pool.
    fn from(v: &BalancerPoolState) -> (r: BalancerPoolSnapshot)
        ensures
            (r.balance0@, r.balance1@) == first_two(v.balances@),
            (r.weight0@, r.weight1@) == first_two(v.weights@),
            v.balances@.len() >= 2 ==> r.balance0@ == v.balances@[0]@ && r.balance1@
                == v.balances@[1]@,
            v.weights@.len() >= 2 ==> r.weight0@ == v.weights@[0]@ && r.weight1@
                == v.weights@[1]@,
            r.swap_fee_bps@ == v.swap_fee_bps,
    {
        let (balance0, balance1) = take_two(&v.balances);
        let (weight0, weight1) = take_two(&v.weights);
        BalancerPoolSnapshot {
            balance0,
            balance1,
            weight0,
            weight1,
            swap_fee_bps: BasisPoints(v.swap_fee_bps),
        }
    }
}

impl vstd::std_specs::convert::FromSpecImpl<&BalancerPoolState> for BalancerPoolSnapshot {
    open spec fn obeys_from_spec() -> bool {
        false
    }

    open spec fn from_spec(v: &BalancerPoolState) -> BalancerPoolSnapshot {
        arbitrary()
    }
}

/// Exact-input quote with the balances after the swap.
#[derive(Clone, Debug)]
pub struct BalancerExactInQuote {
    pub amount_in: U256,
    pub amount_out: U256,
    pub execution_price_wad: U256,
    pub price_impact_bps: u32,
    pub balance0_before: U256,
    pub balance1_before: U256,
    pub balance0_after: U256,
    pub balance1_after: U256,
}

/// What a [`BalancerExactInQuote`] says.
pub struct BalancerQuoteView {
    pub amount_in: nat,
    pub amount_out: nat,
    pub execution_price_wad: nat,
    pub price_impact_bps: nat,
    pub balance0_before: nat,
    pub balance1_before: nat,
    pub balance0_after: nat,
    pub balance1_after: nat,
}

impl View for BalancerExactInQuote {
    type V = BalancerQuoteView;

    open spec fn view(&self) -> BalancerQuoteView {
        BalancerQuoteView {
            amount_in: self.amount_in@,
            amount_out: self.amount_out@,
            execution_price_wad: self.execution_price_wad@,
            price_impact_bps: self.price_impact_bps as nat,
            balance0_before: self.balance0_before@,
            balance1_before: self.balance1_before@,
            balance0_after: self.balance0_after@,
            balance1_after: self.balance1_after@,
        }
    }
}

/// The balances after a swap, or the overflow or underflow of one of them.
pub open spec fn balances_moved(
    balance0: nat,
    balance1: nat,
    amount_in: nat,
    amount_out: nat,
    direction: SwapDirection,
) -> Result<(nat, nat), MathErr> {
    match direction {
        SwapDirection::Token0ToToken1 => if !fits(balance0 + amount_in) {
            Err(e_overflow("balancer.quote_exact_input"@, seq![], "balance0 + amount_in"@))
        } else if balance1 < amount_out {
            Err(e_underflow("balancer.quote_exact_input"@, seq![], "balance1 - amount_out"@))
        } else {
            Ok((balance0 + amount_in, (balance1 - amount_out) as nat))
        },
        SwapDirection::Token1ToToken0 => if !fits(balance1 + amount_in) {
            Err(e_overflow("balancer.quote_exact_input"@, seq![], "balance1 + amount_in"@))
        } else if balance0 < amount_out {
            Err(e_underflow("balancer.quote_exact_input"@, seq![], "balance0 - amount_out"@))
        } else {
            Ok(((balance0 - amount_out) as nat, balance1 + amount_in))
        },
    }
}

/// The spot price in the direction of a swap.
pub open spec fn weighted_spot_price(
    pool: BalancerPoolSnapshot,
    balance0: nat,
    balance1: nat,
    direction: SwapDirection,
) -> Result<nat, MathErr> {
    match direction {
        SwapDirection::Token0ToToken1 => balancer_price_spec(
            balance0,
            balance1,
            pool.weight0@,
            pool.weight1@,
        ),
        SwapDirection::Token1ToToken0 => balancer_price_spec(
            balance1,
            balance0,
            pool.weight1@,
            pool.weight0@,
        ),
    }
}

/// The quote once the output is known.
pub open spec fn balancer_settled_spec(
    pool: BalancerPoolSnapshot,
    amount_in: nat,
    amount_out: nat,
    direction: SwapDirection,
) -> Result<BalancerQuoteView, DexErr> {
    if amount_out == 0 {
        Err(e_pool("amount_out computed as zero"@))
    } else {
        match balances_moved(pool.balance0@, pool.balance1@, amount_in, amount_out, direction) {
            Err(e) => Err(DexErr::MathError(e)),
            Ok((after0, after1)) => match weighted_spot_price(
                pool,
                pool.balance0@,
                pool.balance1@,
                direction,
            ) {
                Err(e) => Err(DexErr::MathError(e)),
                Ok(before) => match weighted_spot_price(pool, after0, after1, direction) {
                    Err(e) => Err(DexErr::MathError(e)),
                    Ok(after) => match execution_price_spec(
                        "balancer.execution_price_wad"@,
                        "mul_div failed: "@,
                        "inverse mul_div failed: "@,
                        amount_in,
                        amount_out,
                        direction,
                    ) {
                        Err(e) => Err(DexErr::MathError(e)),
                        Ok(execution) => match price_impact_spec(
                            "balancer.price_impact_bps"@,
                            before,
                            after,
                        ) {
                            Err(e) => Err(DexErr::MathError(e)),
                            Ok(impact) => Ok(
                                BalancerQuoteView {
                                    amount_in,
                                    amount_out,
                                    execution_price_wad: execution,
                                    price_impact_bps: impact,
                                    balance0_before: pool.balance0@,
                                    balance1_before: pool.balance1@,
                                    balance0_after: after0,
                                    balance1_after: after1,
                                },
                            ),
                        },
                    },
                },
            },
        }
    }
}

/// The output of a swap in a pool.
pub open spec fn pool_output_spec(
    pool: BalancerPoolSnapshot,
    amount_in: nat,
    direction: SwapDirection,
) -> Result<nat, MathErr> {
    let fee = pool.swap_fee_bps@ * 100_000_000_000_000;
    match direction {
        SwapDirection::Token0ToToken1 => balancer_output_spec(
            amount_in,
            pool.balance0@,
            pool.balance1@,
            pool.weight0@,
            pool.weight1@,
            fee,
        ),
        SwapDirection::Token1ToToken0 => balancer_output_spec(
            amount_in,
            pool.balance1@,
            pool.balance0@,
            pool.weight1@,
            pool.weight0@,
            fee,
        ),
    }
}

/// The exact-input quote.
pub open spec fn balancer_quote_spec(
    pool: BalancerPoolSnapshot,
    amount_in: nat,
    direction: SwapDirection,
) -> Result<BalancerQuoteView, DexErr> {
    if amount_in == 0 {
        Err(
            DexErr::MathError(
                e_invalid("balancer.quote_exact_input"@, "amount_in cannot be zero"@, seq![]),
            ),
        )
    } else if pool.swap_fee_bps@ >= 10_000 {
        Err(e_pool("invalid swap_fee_bps "@ + dec(pool.swap_fee_bps@) + "; must be < 10000"@))
    } else {
        match pool_output_spec(pool, amount_in, direction) {
            Err(e) => Err(DexErr::MathError(e)),
            Ok(out) => balancer_settled_spec(pool, amount_in, out, direction),
        }
    }
}

fn spot_price(pool: &BalancerPoolSnapshot, balance0: U256, balance1: U256, direction: SwapDirection)
    -> (r: Result<U256, MathError>)
    ensures
        crate::base::error::math_view(r) == weighted_spot_price(
            *pool,
            balance0@,
            balance1@,
            direction,
        ),
{
    match direction {
        SwapDirection::Token0ToToken1 => calculate_balancer_price(
            balance0,
            balance1,
            pool.weight0,
            pool.weight1,
        ),
        SwapDirection::Token1ToToken0 => calculate_balancer_price(
            balance1,
            balance0,
            pool.weight1,
            pool.weight0,
        ),
    }
}

/// The view of a pair of balances.
pub open spec fn balances_view(r: Result<(U256, U256), MathError>) -> Result<(nat, nat), MathErr> {
    match r {
        Ok(v) => Ok((v.0@, v.1@)),
        Err(e) => Err(e@),
    }
}

fn move_balances(
    balance0: U256,
    balance1: U256,
    amount_in: U256,
    amount_out: U256,
    direction: SwapDirection,
) -> (r: Result<(U256, U256), MathError>)
    ensures
        balances_view(r) == balances_moved(
            balance0@,
            balance1@,
            amount_in@,
            amount_out@,
            direction,
        ),
{
    match direction {
        SwapDirection::Token0ToToken1 => match balance0.checked_add(amount_in) {
            None => Err(overflow0("balancer.quote_exact_input", "balance0 + amount_in")),
            Some(b0) => match balance1.checked_sub(amount_out) {
                None => Err(underflow0("balancer.quote_exact_input", "balance1 - amount_out")),
                Some(b1) => Ok((b0, b1)),
            },
        },
        SwapDirection::Token1ToToken0 => match balance1.checked_add(amount_in) {
            None => Err(overflow0("balancer.quote_exact_input", "balance1 + amount_in")),
            Some(b1) => match balance0.checked_sub(amount_out) {
                None => Err(underflow0("balancer.quote_exact_input", "balance0 - amount_out")),
                Some(b0) => Ok((b0, b1)),
            },
        },
    }
}

/// Makes the quote of a swap whose output is known.
pub fn quote_of_output(
    pool: &BalancerPoolSnapshot,
    amount_in: U256,
    amount_out: U256,
    direction: SwapDirection,
) -> (r: Result<BalancerExactInQuote, DexError>)
    ensures
        dex_view(r) == balancer_settled_spec(*pool, amount_in@, amount_out@, direction),
{
    if amount_out.is_zero() {
        return Err(bad_pool("amount_out computed as zero"));
    }
    let (balance0_after, balance1_after) = match move_balances(
        pool.balance0,
        pool.balance1,
        amount_in,
        amount_out,
        direction,
    ) {
        Ok(v) => v,
        Err(e) => return Err(DexError::MathError(e)),
    };
    let before = match spot_price(pool, pool.balance0, pool.balance1, direction) {
        Ok(v) => v,
        Err(e) => return Err(DexError::MathError(e)),
    };
    let after = match spot_price(pool, balance0_after, balance1_after, direction) {
        Ok(v) => v,
        Err(e) => return Err(DexError::MathError(e)),
    };
    let execution = match execution_price(
        "balancer.execution_price_wad",
        "mul_div failed: ",
        "inverse mul_div failed: ",
        amount_in,
        amount_out,
        direction,
    ) {
        Ok(v) => v,
        Err(e) => return Err(DexError::MathError(e)),
    };
    let impact: u32 = match price_impact("balancer.price_impact_bps", before, after) {
        Ok(v) => v,
        Err(e) => return Err(DexError::MathError(e)),
    };
    Ok(
        BalancerExactInQuote {
            amount_in,
            amount_out,
            execution_price_wad: execution,
            price_impact_bps: impact,
            balance0_before: pool.balance0,
            balance1_before: pool.balance1,
            balance0_after,
            balance1_after,
        },
    )
}

/// Quotes an exact input.
pub fn quote_exact_input(
    pool: &BalancerPoolSnapshot,
    amount_in: U256,
    direction: SwapDirection,
) -> (r: Result<BalancerExactInQuote, DexError>)
    ensures
        dex_view(r) == balancer_quote_spec(*pool, amount_in@, direction),
{
    if amount_in.is_zero() {
        return Err(
            DexError::MathError(
                unexplained("balancer.quote_exact_input", "amount_in cannot be zero"),
            ),
        );
    }
    if pool.swap_fee_bps.as_u32() >= 10_000 {
        let reason = "invalid swap_fee_bps ".to_owned().concat(
            text_u128(pool.swap_fee_bps.as_u32() as u128).as_str(),
        ).concat("; must be < 10000");
        return Err(bad_pool(reason.as_str()));
    }
    let fee = swap_fee_bps_to_18_decimal(pool.swap_fee_bps.as_u32());
    let output = match direction {
        SwapDirection::Token0ToToken1 => calculate_swap_output(
            amount_in,
            pool.balance0,
            pool.balance1,
            pool.weight0,
            pool.weight1,
            fee,
        ),
        SwapDirection::Token1ToToken0 => calculate_swap_output(
            amount_in,
            pool.balance1,
            pool.balance0,
            pool.weight1,
            pool.weight0,
            fee,
        ),
    };
    match output {
        Ok(amount_out) => quote_of_output(pool, amount_in, amount_out, direction),
        Err(e) => Err(DexError::MathError(e)),
    }
}

/// A quote moves exactly its two amounts, and no more goes out than there is.
pub proof fn law_quote_moves_its_amounts(
    pool: BalancerPoolSnapshot,
    amount_in: nat,
    direction: SwapDirection,
)
    requires
        balancer_quote_spec(pool, amount_in, direction) is Ok,
    ensures
        ({
            let q = balancer_quote_spec(pool, amount_in, direction)->Ok_0;
            &&& q.balance0_before == pool.balance0@ && q.balance1_before == pool.balance1@
            &&& match direction {
                SwapDirection::Token0ToToken1 => q.balance0_after == q.balance0_before + amount_in
                    && q.balance1_after == q.balance1_before - q.amount_out,
                SwapDirection::Token1ToToken0 => q.balance1_after == q.balance1_before + amount_in
                    && q.balance0_after == q.balance0_before - q.amount_out,
            }
            &&& q.amount_out > 0
            &&& q.price_impact_bps <= 10_000
        }),
{
}

/// The pool with its two tokens numbered the other way round.
pub open spec fn renumbered(pool: BalancerPoolSnapshot) -> BalancerPoolSnapshot {
    BalancerPoolSnapshot {
        balance0: pool.balance1,
        balance1: pool.balance0,
        weight0: pool.weight1,
        weight1: pool.weight0,
        swap_fee_bps: pool.swap_fee_bps,
    }
}

/// A quote does not depend on how the tokens are numbered: token 1 for token 0 is token 0 for token
/// 1 in the pool with the balances and the weights exchanged. The output, or the error of the
/// formula, is the same, and the quotes differ in the numbering alone.
pub proof fn law_quote_does_not_depend_on_the_numbering(
    pool: BalancerPoolSnapshot,
    amount_in: nat,
)
    ensures
        pool_output_spec(pool, amount_in, SwapDirection::Token1ToToken0) == pool_output_spec(
            renumbered(pool),
            amount_in,
            SwapDirection::Token0ToToken1,
        ),
        ({
            let up = balancer_quote_spec(pool, amount_in, SwapDirection::Token1ToToken0);
            let down = balancer_quote_spec(
                renumbered(pool),
                amount_in,
                SwapDirection::Token0ToToken1,
            );
            up is Ok && down is Ok ==> {
                &&& up->Ok_0.amount_in == down->Ok_0.amount_in
                &&& up->Ok_0.amount_out == down->Ok_0.amount_out
                &&& up->Ok_0.price_impact_bps == down->Ok_0.price_impact_bps
                &&& up->Ok_0.balance0_before == down->Ok_0.balance1_before
                &&& up->Ok_0.balance1_before == down->Ok_0.balance0_before
                &&& up->Ok_0.balance0_after == down->Ok_0.balance1_after
                &&& up->Ok_0.balance1_after == down->Ok_0.balance0_after
            }
        }),
{
}

/// A quote pays what the weighted-pool formula gives for the balance and the weight of the token
/// that goes in, those of the token that goes out, and the input less its fee, rounded down.
pub proof fn law_quote_pays_by_the_balances_and_their_weights(
    pool: BalancerPoolSnapshot,
    amount_in: nat,
    direction: SwapDirection,
)
    requires
        balancer_quote_spec(pool, amount_in, direction) is Ok,
    ensures
        ({
            let q = balancer_quote_spec(pool, amount_in, direction)->Ok_0;
            let fee = pool.swap_fee_bps@;
            &&& q.amount_in == amount_in
            &&& exists|net: nat|
                {
                    &&& net * 10_000 <= amount_in * (10_000 - fee) < (net + 1) * 10_000
                    &&& Ok::<nat, (bool, Seq<char>)>(q.amount_out) == match direction {
                        SwapDirection::Token0ToToken1 => #[trigger] weighted_out(
                            pool.balance0@,
                            pool.weight0@,
                            pool.balance1@,
                            pool.weight1@,
                            net,
                        ),
                        SwapDirection::Token1ToToken0 => #[trigger] weighted_out(
                            pool.balance1@,
                            pool.weight1@,
                            pool.balance0@,
                            pool.weight0@,
                            net,
                        ),
                    }
                }
            &&& is_price_of(q.execution_price_wad, amount_in, q.amount_out, direction)
        }),
{
    let q = balancer_quote_spec(pool, amount_in, direction)->Ok_0;
    let fee = pool.swap_fee_bps@;
    let net = balancer_net_input(amount_in, fee * 100_000_000_000_000);
    law_execution_price_is_token1_per_token0(
        "balancer.execution_price_wad"@,
        "mul_div failed: "@,
        "inverse mul_div failed: "@,
        amount_in,
        q.amount_out,
        direction,
    );
    let keep = (10_000 - fee) as nat;
    let n = amount_in * ((1_000_000_000_000_000_000 - fee * 100_000_000_000_000) as nat);
    assert(n == amount_in * keep * 100_000_000_000_000) by (nonlinear_arith)
        requires
            n == amount_in * ((1_000_000_000_000_000_000 - fee * 100_000_000_000_000) as nat),
            keep == 10_000 - fee,
            fee < 10_000,
    ;
    assert(net * 10_000 <= amount_in * keep < (net + 1) * 10_000) by {
        assert(net == n / 1_000_000_000_000_000_000);
    }
    assert(amount_in * (10_000 - fee) == amount_in * keep);
    let w = match direction {
        SwapDirection::Token0ToToken1 => weighted_out(
            pool.balance0@,
            pool.weight0@,
            pool.balance1@,
            pool.weight1@,
            net,
        ),
        SwapDirection::Token1ToToken0 => weighted_out(
            pool.balance1@,
            pool.weight1@,
            pool.balance0@,
            pool.weight0@,
            net,
        ),
    };
    assert(w == Ok::<nat, (bool, Seq<char>)>(q.amount_out));
}

/// The impact of a quote is the change of the spot price
/// `balance_in * weight_out / (balance_out * weight_in)` from the balances before to those after.
pub proof fn law_impact_is_the_change_of_the_weighted_price(
    pool: BalancerPoolSnapshot,
    amount_in: nat,
    direction: SwapDirection,
)
    requires
        balancer_quote_spec(pool, amount_in, direction) is Ok,
    ensures
        ({
            let q = balancer_quote_spec(pool, amount_in, direction)->Ok_0;
            let (w0, w1) = (pool.weight0@, pool.weight1@);
            exists|before: nat, after: nat|
                {
                    &&& #[trigger] is_impact_of(q.price_impact_bps, before, after)
                    &&& match direction {
                        SwapDirection::Token0ToToken1 => is_scaled_quotient(
                            before,
                            q.balance0_before * w1,
                            q.balance1_before * w0,
                        ) && is_scaled_quotient(
                            after,
                            q.balance0_after * w1,
                            q.balance1_after * w0,
                        ),
                        SwapDirection::Token1ToToken0 => is_scaled_quotient(
                            before,
                            q.balance1_before * w0,
                            q.balance0_before * w1,
                        ) && is_scaled_quotient(
                            after,
                            q.balance1_after * w0,
                            q.balance0_after * w1,
                        ),
                    }
                }
        }),
{
    let q = balancer_quote_spec(pool, amount_in, direction)->Ok_0;
    let (w0, w1) = (pool.weight0@, pool.weight1@);
    let before = weighted_spot_price(pool, q.balance0_before, q.balance1_before, direction)->Ok_0;
    let after = weighted_spot_price(pool, q.balance0_after, q.balance1_after, direction)->Ok_0;
    law_price_impact_is_the_change("balancer.price_impact_bps"@, before, after);
    match direction {
        SwapDirection::Token0ToToken1 => {
            law_weighted_price_is_the_quotient(q.balance0_before, q.balance1_before, w0, w1);
            law_weighted_price_is_the_quotient(q.balance0_after, q.balance1_after, w0, w1);
        },
        SwapDirection::Token1ToToken0 => {
            law_weighted_price_is_the_quotient(q.balance1_before, q.balance0_before, w1, w0);
            law_weighted_price_is_the_quotient(q.balance1_after, q.balance0_after, w1, w0);
        },
    }
    assert(is_impact_of(q.price_impact_bps, before, after));
}

/// A pool that is quoted has both balances and both weights and a fee below 100%, and the input is
/// not empty.
pub proof fn law_quoted_pool_is_complete(
    pool: BalancerPoolSnapshot,
    amount_in: nat,
    direction: SwapDirection,
)
    requires
        balancer_quote_spec(pool, amount_in, direction) is Ok,
    ensures
        amount_in > 0,
        pool.balance0@ > 0 && pool.balance1@ > 0,
        pool.weight0@ > 0 && pool.weight1@ > 0,
        pool.swap_fee_bps@ < 10_000,
{
}

} // verus!
