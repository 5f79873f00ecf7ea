//! Exact-input quotes for constant-product pools.

use crate::base::error::{
    bad_pool, dex_view, e_invalid, e_overflow, e_pool, overflow0, unexplained, DexErr, DexError,
    MathErr, MathError,
};
use crate::base::precision::BasisPoints;
use crate::data::pool_state::V2PoolState;
use crate::dex::adapter::SwapDirection;
use crate::dex::pricing::{
    execution_price, execution_price_spec, is_impact_of, is_price_of, is_scaled_quotient,
    law_execution_price_is_token1_per_token0, law_price_impact_is_the_change,
    law_scaled_ratio_is_the_quotient, price_impact, price_impact_spec, scaled_ratio,
    scaled_ratio_spec,
};
use crate::dex::uniswap_v2::math::{
    calculate_v2_amount_out, law_output_is_below_the_reserve,
    law_output_is_the_most_that_keeps_the_product, v2_amount_out_spec,
};
use crate::text::{dec, text_u128, text_u256};
use crate::u256::{fits, U256};
use vstd::prelude::*;
use vstd::string::StringExecFns;

verus! {

/// Snapshot of a constant-product pool.
#[derive(Clone, Debug)]
pub struct V2PoolSnapshot {
    pub reserve0: U256,
    pub reserve1: U256,
    pub fee_bps: BasisPoints,
}

impl From<&V2PoolState> for V2PoolSnapshot {
    /// The snapshot of a pool state, with the fee of 30 basis points.
    fn from(v: &V2PoolState) -> (r: V2PoolSnapshot) {
        V2PoolSnapshot { reserve0: v.reserve0, reserve1: v.reserve1, fee_bps: BasisPoints(30) }
    }
}

impl vstd::std_specs::convert::FromSpecImpl<&V2PoolState> for V2PoolSnapshot {
    open spec fn obeys_from_spec() -> bool {
        true
    }

    open spec fn from_spec(v: &V2PoolState) -> V2PoolSnapshot {
        V2PoolSnapshot { reserve0: v.reserve0, reserve1: v.reserve1, fee_bps: BasisPoints(30) }
    }
}

/// Exact-input quote with the reserves after the swap.
#[derive(Clone, Debug)]
pub struct V2ExactInQuote {
    pub amount_in: U256,
    pub amount_out: U256,
    pub execution_price_wad: U256,
    pub price_impact_bps: u32,
    pub reserve0_before: U256,
    pub reserve1_before: U256,
    pub reserve0_after: U256,
    pub reserve1_after: U256,
}

/// What a [`V2ExactInQuote`] says.
pub struct V2QuoteView {
    pub amount_in: nat,
    pub amount_out: nat,
    pub execution_price_wad: nat,
    pub price_impact_bps: nat,
    pub reserve0_before: nat,
    pub reserve1_before: nat,
    pub reserve0_after: nat,
    pub reserve1_after: nat,
}

impl View for V2ExactInQuote {
    type V = V2QuoteView;

    open spec fn view(&self) -> V2QuoteView {
        V2QuoteView {
            amount_in: self.amount_in@,
            amount_out: self.amount_out@,
            execution_price_wad: self.execution_price_wad@,
            price_impact_bps: self.price_impact_bps as nat,
            reserve0_before: self.reserve0_before@,
            reserve1_before: self.reserve1_before@,
            reserve0_after: self.reserve0_after@,
            reserve1_after: self.reserve1_after@,
        }
    }
}

/// The spot price in the direction of a swap.
pub open spec fn v2_spot_price(reserve0: nat, reserve1: nat, direction: SwapDirection) -> Result<
    nat,
    MathErr,
> {
    match direction {
        SwapDirection::Token0ToToken1 => scaled_ratio_spec(
            "v2.spot_price_wad"@,
            "token0->token1 mul_div failed: "@,
            reserve1,
            reserve0,
        ),
        SwapDirection::Token1ToToken0 => scaled_ratio_spec(
            "v2.spot_price_wad"@,
            "token1->token0 mul_div failed: "@,
            reserve0,
            reserve1,
        ),
    }
}

fn spot_price_wad(reserve0: U256, reserve1: U256, direction: SwapDirection) -> (r: Result<
    U256,
    MathError,
>)
    ensures
        crate::base::error::math_view(r) == v2_spot_price(reserve0@, reserve1@, direction),
{
    match direction {
        SwapDirection::Token0ToToken1 => scaled_ratio(
            "v2.spot_price_wad",
            "token0->token1 mul_div failed: ",
            reserve1,
            reserve0,
        ),
        SwapDirection::Token1ToToken0 => scaled_ratio(
            "v2.spot_price_wad",
            "token1->token0 mul_div failed: ",
            reserve0,
            reserve1,
        ),
    }
}

/// The reserves after a swap, where the input reserve still fits.
pub open spec fn v2_reserves_after(
    reserve0: nat,
    reserve1: nat,
    amount_in: nat,
    amount_out: nat,
    direction: SwapDirection,
) -> Result<(nat, nat), MathErr> {
    match direction {
        SwapDirection::Token0ToToken1 => if fits(reserve0 + amount_in) {
            Ok((reserve0 + amount_in, (reserve1 - amount_out) as nat))
        } else {
            Err(e_overflow("v2.quote_exact_input"@, seq![], "reserve0 + amount_in"@))
        },
        SwapDirection::Token1ToToken0 => if fits(reserve1 + amount_in) {
            Ok(((reserve0 - amount_out) as nat, reserve1 + amount_in))
        } else {
            Err(e_overflow("v2.quote_exact_input"@, seq![], "reserve1 + amount_in"@))
        },
    }
}

/// The quote once the output is known.
pub open spec fn v2_settled_spec(
    pool: V2PoolSnapshot,
    amount_in: nat,
    amount_out: nat,
    direction: SwapDirection,
) -> Result<V2QuoteView, DexErr> {
    if amount_out == 0 {
        Err(e_pool("amount_out computed as zero"@))
    } else {
        match v2_reserves_after(
            pool.reserve0@,
            pool.reserve1@,
            amount_in,
            amount_out,
            direction,
        ) {
            Err(e) => Err(DexErr::MathError(e)),
            Ok((after0, after1)) => match execution_price_spec(
                "v2.execution_price_wad"@,
                "mul_div failed: "@,
                "inverse mul_div failed: "@,
                amount_in,
                amount_out,
                direction,
            ) {
                Err(e) => Err(DexErr::MathError(e)),
                Ok(execution) => match v2_spot_price(pool.reserve0@, pool.reserve1@, direction) {
                    Err(e) => Err(DexErr::MathError(e)),
                    Ok(before) => match v2_spot_price(after0, after1, direction) {
                        Err(e) => Err(DexErr::MathError(e)),
                        Ok(after) => match price_impact_spec(
                            "v2.price_impact_bps"@,
                            before,
                            after,
                        ) {
                            Err(e) => Err(DexErr::MathError(e)),
                            Ok(impact) => Ok(
                                V2QuoteView {
                                    amount_in,
                                    amount_out,
                                    execution_price_wad: execution,
                                    price_impact_bps: impact,
                                    reserve0_before: pool.reserve0@,
                                    reserve1_before: pool.reserve1@,
                                    reserve0_after: after0,
                                    reserve1_after: after1,
                                },
                            ),
                        },
                    },
                },
            },
        }
    }
}

/// The exact-input quote.
pub open spec fn v2_quote_spec(
    pool: V2PoolSnapshot,
    amount_in: nat,
    direction: SwapDirection,
) -> Result<V2QuoteView, DexErr> {
    let (reserve_in, reserve_out) = match direction {
        SwapDirection::Token0ToToken1 => (pool.reserve0@, pool.reserve1@),
        SwapDirection::Token1ToToken0 => (pool.reserve1@, pool.reserve0@),
    };
    if amount_in == 0 {
        Err(
            DexErr::MathError(
                e_invalid("v2.quote_exact_input"@, "amount_in cannot be zero"@, seq![]),
            ),
        )
    } else if pool.reserve0@ == 0 || pool.reserve1@ == 0 {
        Err(
            e_pool(
                "invalid reserves: reserve0="@ + dec(pool.reserve0@) + ", reserve1="@ + dec(
                    pool.reserve1@,
                ),
            ),
        )
    } else if pool.fee_bps@ >= 10_000 {
        Err(e_pool("invalid fee_bps "@ + dec(pool.fee_bps@) + "; must be < 10000"@))
    } else {
        match v2_amount_out_spec(amount_in, reserve_in, reserve_out, pool.fee_bps@) {
            Err(e) => Err(DexErr::MathError(e)),
            Ok(out) => v2_settled_spec(pool, amount_in, out, direction),
        }
    }
}

/// Makes the quote once the output is known.
fn settle(
    pool: &V2PoolSnapshot,
    amount_in: U256,
    amount_out: U256,
    direction: SwapDirection,
) -> (r: Result<V2ExactInQuote, DexError>)
    requires
        match direction {
            SwapDirection::Token0ToToken1 => amount_out@ <= pool.reserve1@,
            SwapDirection::Token1ToToken0 => amount_out@ <= pool.reserve0@,
        },
    ensures
        dex_view(r) == v2_settled_spec(*pool, amount_in@, amount_out@, direction),
{
    if amount_out.is_zero() {
        return Err(bad_pool("amount_out computed as zero"));
    }
    let (after0, after1) = match direction {
        SwapDirection::Token0ToToken1 => match pool.reserve0.checked_add(amount_in) {
            Some(v) => (v, pool.reserve1.minus(amount_out)),
            None => return Err(
                DexError::MathError(overflow0("v2.quote_exact_input", "reserve0 + amount_in")),
            ),
        },
        SwapDirection::Token1ToToken0 => match pool.reserve1.checked_add(amount_in) {
            Some(v) => (pool.reserve0.minus(amount_out), v),
            None => return Err(
                DexError::MathError(overflow0("v2.quote_exact_input", "reserve1 + amount_in")),
            ),
        },
    };
    let execution = match execution_price(
        "v2.execution_price_wad",
        "mul_div failed: ",
        "inverse mul_div failed: ",
        amount_in,
        amount_out,
        direction,
    ) {
        Ok(v) => v,
        Err(e) => return Err(DexError::MathError(e)),
    };
    let before = match spot_price_wad(pool.reserve0, pool.reserve1, direction) {
        Ok(v) => v,
        Err(e) => return Err(DexError::MathError(e)),
    };
    let after = match spot_price_wad(after0, after1, direction) {
        Ok(v) => v,
        Err(e) => return Err(DexError::MathError(e)),
    };
    let impact: u32 = match price_impact("v2.price_impact_bps", before, after) {
        Ok(v) => v,
        Err(e) => return Err(DexError::MathError(e)),
    };
    Ok(
        V2ExactInQuote {
            amount_in,
            amount_out,
            execution_price_wad: execution,
            price_impact_bps: impact,
            reserve0_before: pool.reserve0,
            reserve1_before: pool.reserve1,
            reserve0_after: after0,
            reserve1_after: after1,
        },
    )
}

/// Quotes an exact input.
pub fn quote_exact_input(pool: &V2PoolSnapshot, amount_in: U256, direction: SwapDirection) -> (r:
    Result<V2ExactInQuote, DexError>)
    ensures
        dex_view(r) == v2_quote_spec(*pool, amount_in@, direction),
{
    if amount_in.is_zero() {
        return Err(
            DexError::MathError(unexplained("v2.quote_exact_input", "amount_in cannot be zero")),
        );
    }
    if pool.reserve0.is_zero() || pool.reserve1.is_zero() {
        let reason = "invalid reserves: reserve0=".to_owned().concat(
            text_u256(pool.reserve0).as_str(),
        ).concat(", reserve1=").concat(text_u256(pool.reserve1).as_str());
        return Err(bad_pool(reason.as_str()));
    }
    if pool.fee_bps.as_u32() >= 10_000 {
        let reason = "invalid fee_bps ".to_owned().concat(
            text_u128(pool.fee_bps.as_u32() as u128).as_str(),
        ).concat("; must be < 10000");
        return Err(bad_pool(reason.as_str()));
    }
    let (reserve_in, reserve_out) = match direction {
        SwapDirection::Token0ToToken1 => (pool.reserve0, pool.reserve1),
        SwapDirection::Token1ToToken0 => (pool.reserve1, pool.reserve0),
    };
    let amount_out = match calculate_v2_amount_out(
        amount_in,
        reserve_in,
        reserve_out,
        pool.fee_bps,
    ) {
        Ok(v) => v,
        Err(e) => return Err(DexError::MathError(e)),
    };
    proof {
        law_output_is_below_the_reserve(amount_in@, reserve_in@, reserve_out@, pool.fee_bps@);
    }
    settle(pool, amount_in, amount_out, direction)
}

/// A quote moves exactly its two amounts, leaves something in the output reserve, and does not
/// lower the product of the reserves.
pub proof fn law_quote_keeps_the_product(
    pool: V2PoolSnapshot,
    amount_in: nat,
    direction: SwapDirection,
)
    requires
        v2_quote_spec(pool, amount_in, direction) is Ok,
    ensures
        ({
            let q = v2_quote_spec(pool, amount_in, direction)->Ok_0;
            &&& q.reserve0_after + q.reserve1_after + q.amount_out == q.reserve0_before
                + q.reserve1_before + q.amount_in
            &&& q.reserve0_after > 0 && q.reserve1_after > 0
            &&& q.reserve0_after * q.reserve1_after >= q.reserve0_before * q.reserve1_before
            &&& q.price_impact_bps <= 10_000
        }),
{
    let (reserve_in, reserve_out) = match direction {
        SwapDirection::Token0ToToken1 => (pool.reserve0@, pool.reserve1@),
        SwapDirection::Token1ToToken0 => (pool.reserve1@, pool.reserve0@),
    };
    let out = v2_amount_out_spec(amount_in, reserve_in, reserve_out, pool.fee_bps@)->Ok_0;
    law_output_is_below_the_reserve(amount_in, reserve_in, reserve_out, pool.fee_bps@);
    crate::dex::uniswap_v2::math::law_product_does_not_fall(
        amount_in,
        reserve_in,
        reserve_out,
        pool.fee_bps@,
    );
    let q = v2_quote_spec(pool, amount_in, direction)->Ok_0;
    match direction {
        SwapDirection::Token0ToToken1 => {
            assert(q.reserve0_after * q.reserve1_after == (reserve_in + amount_in) * (reserve_out
                - out));
        },
        SwapDirection::Token1ToToken0 => {
            assert(q.reserve0_after * q.reserve1_after == (reserve_in + amount_in) * (reserve_out
                - out)) by (nonlinear_arith)
                requires
                    q.reserve0_after == reserve_out - out,
                    q.reserve1_after == reserve_in + amount_in,
            ;
            assert(q.reserve0_before * q.reserve1_before == reserve_in * reserve_out)
                by (nonlinear_arith)
                requires
                    q.reserve0_before == reserve_out,
                    q.reserve1_before == reserve_in,
            ;
        },
    }
}

/// The pool with its two tokens numbered the other way round.
pub open spec fn renumbered(pool: V2PoolSnapshot) -> V2PoolSnapshot {
    V2PoolSnapshot { reserve0: pool.reserve1, reserve1: pool.reserve0, fee_bps: pool.fee_bps }
}

/// A quote does not depend on how the tokens are numbered: token 1 for token 0 is token 0 for token
/// 1 in the pool with the reserves exchanged.
pub proof fn law_quote_does_not_depend_on_the_numbering(pool: V2PoolSnapshot, amount_in: nat)
    ensures
        ({
            let up = v2_quote_spec(pool, amount_in, SwapDirection::Token1ToToken0);
            let down = v2_quote_spec(renumbered(pool), amount_in, SwapDirection::Token0ToToken1);
            up is Ok && down is Ok ==> {
                &&& up->Ok_0.amount_out == down->Ok_0.amount_out
                &&& up->Ok_0.price_impact_bps == down->Ok_0.price_impact_bps
                &&& up->Ok_0.reserve0_before == down->Ok_0.reserve1_before
                &&& up->Ok_0.reserve1_before == down->Ok_0.reserve0_before
                &&& up->Ok_0.reserve0_after == down->Ok_0.reserve1_after
                &&& up->Ok_0.reserve1_after == down->Ok_0.reserve0_after
            }
        }),
{
}

/// A quote adds its input to one reserve and takes its output from the other. The output is the most
/// that keeps the product with the input counted less its fee, and the quote says the price of the
/// trade in token 1 per token 0 and the relative change of what one of the input is worth.
pub proof fn law_quote_reports_the_trade(
    pool: V2PoolSnapshot,
    amount_in: nat,
    direction: SwapDirection,
)
    requires
        v2_quote_spec(pool, amount_in, direction) is Ok,
    ensures
        ({
            let q = v2_quote_spec(pool, amount_in, direction)->Ok_0;
            let fee = pool.fee_bps@;
            &&& q.amount_in == amount_in
            &&& q.reserve0_before == pool.reserve0@ && q.reserve1_before == pool.reserve1@
            &&& is_price_of(q.execution_price_wad, amount_in, q.amount_out, direction)
            &&& match direction {
                SwapDirection::Token0ToToken1 => {
                    let grown = pool.reserve0@ * 10000 + amount_in * (10000 - fee);
                    let whole = pool.reserve0@ * 10000 * pool.reserve1@;
                    &&& q.reserve0_after == pool.reserve0@ + amount_in
                    &&& q.reserve1_after == pool.reserve1@ - q.amount_out
                    &&& grown * q.reserve1_after >= whole
                    &&& grown * (q.reserve1_after - 1) < whole
                    &&& exists|before: nat, after: nat|
                        #[trigger] is_impact_of(q.price_impact_bps, before, after)
                            && is_scaled_quotient(before, pool.reserve1@, pool.reserve0@)
                            && is_scaled_quotient(after, q.reserve1_after, q.reserve0_after)
                },
                SwapDirection::Token1ToToken0 => {
                    let grown = pool.reserve1@ * 10000 + amount_in * (10000 - fee);
                    let whole = pool.reserve1@ * 10000 * pool.reserve0@;
                    &&& q.reserve1_after == pool.reserve1@ + amount_in
                    &&& q.reserve0_after == pool.reserve0@ - q.amount_out
                    &&& grown * q.reserve0_after >= whole
                    &&& grown * (q.reserve0_after - 1) < whole
                    &&& exists|before: nat, after: nat|
                        #[trigger] is_impact_of(q.price_impact_bps, before, after)
                            && is_scaled_quotient(before, pool.reserve0@, pool.reserve1@)
                            && is_scaled_quotient(after, q.reserve0_after, q.reserve1_after)
                },
            }
        }),
{
    let q = v2_quote_spec(pool, amount_in, direction)->Ok_0;
    let (reserve_in, reserve_out) = match direction {
        SwapDirection::Token0ToToken1 => (pool.reserve0@, pool.reserve1@),
        SwapDirection::Token1ToToken0 => (pool.reserve1@, pool.reserve0@),
    };
    law_output_is_below_the_reserve(amount_in, reserve_in, reserve_out, pool.fee_bps@);
    law_output_is_the_most_that_keeps_the_product(
        amount_in,
        reserve_in,
        reserve_out,
        pool.fee_bps@,
    );
    law_execution_price_is_token1_per_token0(
        "v2.execution_price_wad"@,
        "mul_div failed: "@,
        "inverse mul_div failed: "@,
        amount_in,
        q.amount_out,
        direction,
    );
    let before = v2_spot_price(pool.reserve0@, pool.reserve1@, direction)->Ok_0;
    let after = v2_spot_price(q.reserve0_after, q.reserve1_after, direction)->Ok_0;
    law_price_impact_is_the_change("v2.price_impact_bps"@, before, after);
    match direction {
        SwapDirection::Token0ToToken1 => {
            let context = "token0->token1 mul_div failed: "@;
            law_scaled_ratio_is_the_quotient(
                "v2.spot_price_wad"@,
                context,
                pool.reserve1@,
                pool.reserve0@,
            );
            law_scaled_ratio_is_the_quotient(
                "v2.spot_price_wad"@,
                context,
                q.reserve1_after,
                q.reserve0_after,
            );
        },
        SwapDirection::Token1ToToken0 => {
            let context = "token1->token0 mul_div failed: "@;
            law_scaled_ratio_is_the_quotient(
                "v2.spot_price_wad"@,
                context,
                pool.reserve0@,
                pool.reserve1@,
            );
            law_scaled_ratio_is_the_quotient(
                "v2.spot_price_wad"@,
                context,
                q.reserve0_after,
                q.reserve1_after,
            );
        },
    }
    assert(is_impact_of(q.price_impact_bps, before, after));
}

/// A pool that is quoted has both reserves and a fee below 100%, and the input is not empty.
pub proof fn law_quoted_pool_is_complete(
    pool: V2PoolSnapshot,
    amount_in: nat,
    direction: SwapDirection,
)
    requires
        v2_quote_spec(pool, amount_in, direction) is Ok,
    ensures
        amount_in > 0,
        pool.reserve0@ > 0 && pool.reserve1@ > 0,
        pool.fee_bps@ < 10_000,
{
}

} // verus!
