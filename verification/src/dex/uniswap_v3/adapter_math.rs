//! Exact-input quotes for Uniswap V3 pools.
//!
//! The functions work on an explicit pool snapshot and return the quote together with the state
//! after the trade. What the snapshot does not determine is refused.

use crate::base::error::{
    bad_pool, e_invalid, e_overflow, e_pool, e_underflow, invalid, overflow0, overflow1, underflow0,
    DexErr, DexError, MathErr, MathError,
};
use crate::base::precision::BasisPoints;
use crate::data::pool_state::V3PoolState;
use crate::dex::adapter::SwapDirection;
use crate::dex::clmm::{
    amount0_spec, amount1_spec, full_mul_div, is_floor_tick, lemma_input0_lowers,
    lemma_input1_raises, lemma_short_input, lower, max_sqrt_ratio, mul_div_spec, next_price_spec,
    q160, q96, ratio_spec, sqrt_ratio_at, taken_between, tick_in_range,
};
use crate::dex::crossing::{
    accounts_for, cross_tick, crossed, lemma_one_more_crossing, Crossing,
};
use crate::dex::pricing::{
    execution_price, execution_price_spec, is_price_of, law_execution_price_is_token1_per_token0,
};
use crate::dex::ranges::{
    covers, is_leg, is_next, is_placed, is_swap, is_walk, law_swap_pays_the_sum_of_its_ranges,
    lemma_formula_leg, lemma_given_is_paid, lemma_goal_lies_ahead, lemma_more_covers,
    lemma_taken_covers, lemma_walk_ends, lemma_walk_on, lemma_walk_starts, not_past, Charge, Leg,
    Stand,
};
use crate::dex::ticks::{ascending, is_strictly_ascending, strictly_ascending};
use crate::dex::uniswap_v3::math::{
    after_fee, amount_after_fee, calculate_input_to_boundary, calculate_v3_amount_out,
    calculate_v3_post_swap_state, calculate_v3_price_impact, get_amount0_delta, get_amount1_delta,
    get_sqrt_ratio_at_tick, input_to_boundary, is_after_fee, is_impact_between,
    law_fee_is_taken_from_the_input, law_impact_is_the_change_of_the_price,
    law_next_tick_is_the_nearest, lemma_no_impact, next_price, next_tick_for, next_tick_spec,
    sqrt_price_to_tick, tick_of_price, tick_view, v3, v3_amount_out_spec, v3_impact_spec,
    v3_post_swap_spec,
};
use crate::text::{dec, dec_int, text_i128, text_u128};
use crate::u256::{fits, U256};
use std::collections::HashMap;
use vstd::prelude::*;
use vstd::string::StringExecFns;

verus! {

/// Snapshot of a V3 pool.
#[derive(Clone, Debug)]
pub struct V3PoolSnapshot {
    pub sqrt_price_x96: U256,
    pub tick: i32,
    pub liquidity: u128,
    pub fee_bps: BasisPoints,
    pub tick_spacing: i32,
    pub initialized_ticks: Vec<i32>,
    pub tick_liquidity_net: HashMap<i32, i128>,
}

impl From<&V3PoolState> for V3PoolSnapshot {
    /// The snapshot of a pool state, with its fee tier as the fee in basis points.
    fn from(v: &V3PoolState) -> (r: V3PoolSnapshot)
        ensures
            r.sqrt_price_x96 == v.sqrt_price_x96,
            r.tick == v.tick,
            r.liquidity == v.liquidity,
            r.fee_bps@ == v.fee_tier,
            r.tick_spacing == v.tick_spacing,
            r.initialized_ticks@ == v.initialized_ticks@,
            r.tick_liquidity_net@ == v.tick_liquidity_map@,
    {
        let initialized_ticks = v.initialized_ticks.clone();
        assert(initialized_ticks@ =~= v.initialized_ticks@);
        V3PoolSnapshot {
            sqrt_price_x96: v.sqrt_price_x96,
            tick: v.tick,
            liquidity: v.liquidity,
            fee_bps: BasisPoints(v.fee_tier),
            tick_spacing: v.tick_spacing,
            initialized_ticks,
            tick_liquidity_net: v.tick_liquidity_map.clone(),
        }
    }
}

impl vstd::std_specs::convert::FromSpecImpl<&V3PoolState> for V3PoolSnapshot {
    open spec fn obeys_from_spec() -> bool {
        false
    }

    open spec fn from_spec(v: &V3PoolState) -> V3PoolSnapshot {
        arbitrary()
    }
}

/// Exact-input quote with the state after the swap.
#[derive(Clone, Debug)]
pub struct V3ExactInQuote {
    pub amount_in: U256,
    pub amount_in_after_fee: U256,
    pub amount_out: U256,
    pub execution_price_wad: U256,
    pub price_impact_bps: u32,
    pub sqrt_price_before_x96: U256,
    pub sqrt_price_after_x96: U256,
    pub tick_before: i32,
    pub tick_after: i32,
    pub liquidity_before: u128,
    pub liquidity_after: u128,
    pub crossed_ticks: Vec<i32>,
    pub used_single_range_fallback: bool,
}

/// What a [`V3ExactInQuote`] says.
#[verifier::ext_equal]
pub struct V3QuoteView {
    pub amount_in: nat,
    pub amount_in_after_fee: nat,
    pub amount_out: nat,
    pub execution_price_wad: nat,
    pub price_impact_bps: nat,
    pub sqrt_price_before_x96: nat,
    pub sqrt_price_after_x96: nat,
    pub tick_before: int,
    pub tick_after: int,
    pub liquidity_before: nat,
    pub liquidity_after: nat,
    pub crossed_ticks: Seq<i32>,
    pub used_single_range_fallback: bool,
}

impl View for V3ExactInQuote {
    type V = V3QuoteView;

    open spec fn view(&self) -> V3QuoteView {
        V3QuoteView {
            amount_in: self.amount_in@,
            amount_in_after_fee: self.amount_in_after_fee@,
            amount_out: self.amount_out@,
            execution_price_wad: self.execution_price_wad@,
            price_impact_bps: self.price_impact_bps as nat,
            sqrt_price_before_x96: self.sqrt_price_before_x96@,
            sqrt_price_after_x96: self.sqrt_price_after_x96@,
            tick_before: self.tick_before as int,
            tick_after: self.tick_after as int,
            liquidity_before: self.liquidity_before as nat,
            liquidity_after: self.liquidity_after as nat,
            crossed_ticks: self.crossed_ticks@,
            used_single_range_fallback: self.used_single_range_fallback,
        }
    }
}

/// The view of a quote result.
pub open spec fn v3_quote_view(r: Result<V3ExactInQuote, DexError>) -> Result<
    V3QuoteView,
    DexErr,
> {
    match r {
        Ok(q) => Ok(q@),
        Err(e) => Err(e@),
    }
}

/// Where a swap stands between two ticks.
#[verifier::ext_equal]
pub struct SwapState {
    pub remaining: nat,
    pub out: nat,
    pub price: nat,
    pub tick: int,
    pub liquidity: nat,
    pub crossed: Seq<i32>,
}

impl V3PoolSnapshot {
    /// The first static parameter that rules out an exact quote.
    pub open spec fn static_error(self) -> Option<DexErr> {
        if self.liquidity == 0 {
            Some(e_pool("liquidity cannot be zero"@))
        } else if self.tick_spacing <= 0 {
            Some(e_pool("tick_spacing must be > 0, got "@ + dec_int(self.tick_spacing as int)))
        } else if self.fee_bps@ >= 10_000 {
            Some(e_pool("fee_bps must be < 10000, got "@ + dec(self.fee_bps@)))
        } else if !strictly_ascending(self.initialized_ticks@) {
            Some(e_pool("initialized_ticks must be strictly ascending"@))
        } else {
            match tick_of_price(self.sqrt_price_x96@) {
                Ok(_) => None,
                Err(e) => Some(DexErr::MathError(e)),
            }
        }
    }

    /// Checks the static parameters.
    pub fn validate_static(&self) -> (r: Result<(), DexError>)
        ensures
            match r {
                Ok(_) => self.static_error() is None,
                Err(e) => self.static_error() == Some(e@),
            },
    {
        if self.liquidity == 0 {
            return Err(bad_pool("liquidity cannot be zero"));
        }
        if self.tick_spacing <= 0 {
            let reason = "tick_spacing must be > 0, got ".to_owned().concat(
                text_i128(self.tick_spacing as i128).as_str(),
            );
            return Err(bad_pool(reason.as_str()));
        }
        if self.fee_bps.as_u32() >= 10_000 {
            let reason = "fee_bps must be < 10000, got ".to_owned().concat(
                text_u128(self.fee_bps.as_u32() as u128).as_str(),
            );
            return Err(bad_pool(reason.as_str()));
        }
        if !is_strictly_ascending(self.initialized_ticks.as_slice()) {
            return Err(bad_pool("initialized_ticks must be strictly ascending"));
        }
        match sqrt_price_to_tick(self.sqrt_price_x96) {
            Ok(_) => Ok(()),
            Err(e) => Err(DexError::MathError(e)),
        }
    }

    /// The quote of an input that the fee uses up: nothing moves.
    pub open spec fn idle_quote(self, amount_in: nat) -> V3QuoteView {
        V3QuoteView {
            amount_in,
            amount_in_after_fee: 0,
            amount_out: 0,
            execution_price_wad: 0,
            price_impact_bps: 0,
            sqrt_price_before_x96: self.sqrt_price_x96@,
            sqrt_price_after_x96: self.sqrt_price_x96@,
            tick_before: self.tick as int,
            tick_after: self.tick as int,
            liquidity_before: self.liquidity as nat,
            liquidity_after: self.liquidity as nat,
            crossed_ticks: seq![],
            used_single_range_fallback: true,
        }
    }

    /// The state in which a swap starts.
    pub open spec fn start(self, amount_in: nat) -> SwapState {
        SwapState {
            remaining: amount_in,
            out: 0,
            price: self.sqrt_price_x96@,
            tick: self.tick as int,
            liquidity: self.liquidity as nat,
            crossed: seq![],
        }
    }
}

/// The fee taken from the whole input, or the error of its product.
pub open spec fn v3_net_input(amount_in: nat, fee_bps: nat) -> Result<nat, DexErr> {
    match after_fee(amount_in, fee_bps) {
        Some(net) => Ok(net),
        None => Err(
            DexErr::MathError(
                e_overflow("apply_fee_exact_in"@, seq![amount_in], "fee_bps="@ + dec(fee_bps)),
            ),
        ),
    }
}

/// Takes the fee from the whole input.
fn apply_fee_exact_in(amount_in: U256, fee_bps: BasisPoints) -> (r: Result<U256, DexError>)
    requires
        fee_bps.wf(),
    ensures
        crate::base::error::dex_view(r) == v3_net_input(amount_in@, fee_bps@),
{
    match amount_after_fee(amount_in, fee_bps) {
        Some(net) => Ok(net),
        None => {
            let context = "fee_bps=".to_owned().concat(text_u128(fee_bps.as_u32() as u128).as_str());
            Err(
                DexError::MathError(overflow1("apply_fee_exact_in", amount_in, context.as_str())),
            )
        },
    }
}

/// Finds the next initialized tick in a direction.
pub fn find_next_initialized_tick(
    current_tick: i32,
    initialized_ticks: &[i32],
    tick_spacing: i32,
    zero_for_one: bool,
) -> (r: Result<i32, MathError>)
    requires
        ascending(initialized_ticks@),
    ensures
        tick_view(r) == next_tick_spec(
            "find_next_initialized_tick"@,
            current_tick as int,
            initialized_ticks@,
            tick_spacing as int,
            zero_for_one,
        ),
        r is Ok ==> is_next(
            initialized_ticks@,
            current_tick as int,
            r->Ok_0 as int,
            zero_for_one,
        ),
{
    proof {
        law_next_tick_is_the_nearest(
            "find_next_initialized_tick"@,
            current_tick as int,
            initialized_ticks@,
            tick_spacing as int,
            zero_for_one,
        );
    }
    next_tick_for(
        "find_next_initialized_tick",
        current_tick,
        initialized_ticks,
        tick_spacing,
        zero_for_one,
    )
}

/// The proof that a swap stays below the next tick: the input after fee is less than what takes
/// the price there.
pub open spec fn v3_single_range(pool: V3PoolSnapshot, net: nat, direction: SwapDirection) -> Result<
    int,
    DexErr,
> {
    match next_tick_spec(
        "find_next_initialized_tick"@,
        pool.tick as int,
        pool.initialized_ticks@,
        pool.tick_spacing as int,
        direction.is_down(),
    ) {
        Err(e) => Err(DexErr::MathError(e)),
        Ok(next_tick) => match v3(ratio_spec(next_tick)) {
            Err(e) => Err(DexErr::MathError(e)),
            Ok(boundary) => match input_to_boundary(
                pool.sqrt_price_x96@,
                boundary,
                pool.liquidity as nat,
                direction.is_down(),
            ) {
                Err(e) => Err(DexErr::MathError(e)),
                Ok(limit) => if net < limit {
                    Ok(next_tick)
                } else {
                    Err(crossing_possible(pool.tick as int, next_tick))
                },
            },
        },
    }
}

/// The refusal of a swap that may cross a tick whose liquidity is unknown.
pub open spec fn crossing_possible(tick: int, next_tick: int) -> DexErr {
    e_pool(
        "single-range fallback rejected; possible tick crossing (tick="@ + dec_int(tick)
            + ", next_tick="@ + dec_int(next_tick) + ")"@,
    )
}

/// Refuses a swap that may cross a tick whose liquidity is unknown.
pub fn refuse_crossing(tick: i32, next_tick: i32) -> (e: DexError)
    ensures
        e@ == crossing_possible(tick as int, next_tick as int),
{
    let reason = "single-range fallback rejected; possible tick crossing (tick=".to_owned().concat(
        text_i128(tick as i128).as_str(),
    ).concat(", next_tick=").concat(text_i128(next_tick as i128).as_str()).concat(")");
    bad_pool(reason.as_str())
}

/// Proves that a swap stays below the next tick, and returns that tick.
fn validate_single_range_fallback(
    pool: &V3PoolSnapshot,
    amount_in_after_fee: U256,
    direction: SwapDirection,
) -> (r: Result<i32, DexError>)
    requires
        ascending(pool.initialized_ticks@),
    ensures
        match r {
            Ok(t) => v3_single_range(*pool, amount_in_after_fee@, direction) == Ok::<int, DexErr>(
                t as int,
            ),
            Err(e) => v3_single_range(*pool, amount_in_after_fee@, direction) == Err::<int, DexErr>(
                e@,
            ),
        },
        r is Ok ==> {
            &&& is_next(
                pool.initialized_ticks@,
                pool.tick as int,
                r->Ok_0 as int,
                direction.is_down(),
            )
            &&& sqrt_ratio_at(r->Ok_0 as int) <= max_sqrt_ratio()
        },
{
    let down: bool = direction.zero_for_one();
    let next_tick: i32 = match find_next_initialized_tick(
        pool.tick,
        pool.initialized_ticks.as_slice(),
        pool.tick_spacing,
        down,
    ) {
        Ok(t) => t,
        Err(e) => return Err(DexError::MathError(e)),
    };
    let boundary = match get_sqrt_ratio_at_tick(next_tick) {
        Ok(p) => p,
        Err(e) => return Err(DexError::MathError(e)),
    };
    let limit = match calculate_input_to_boundary(
        pool.sqrt_price_x96,
        boundary,
        pool.liquidity,
        down,
    ) {
        Ok(a) => a,
        Err(e) => return Err(DexError::MathError(e)),
    };
    if amount_in_after_fee.less(&limit) {
        Ok(next_tick)
    } else {
        Err(refuse_crossing(pool.tick, next_tick))
    }
}

/// The execution price as this module names it in errors.
pub open spec fn v3_execution_price(amount_in: nat, amount_out: nat, direction: SwapDirection) -> Result<
    nat,
    MathErr,
> {
    execution_price_spec(
        "execution_price_wad"@,
        "token0->token1 mul_div failed: "@,
        "token1->token0 mul_div failed: "@,
        amount_in,
        amount_out,
        direction,
    )
}

fn execution_price_wad(amount_in: U256, amount_out: U256, direction: SwapDirection) -> (r: Result<
    U256,
    MathError,
>)
    ensures
        crate::base::error::math_view(r) == v3_execution_price(
            amount_in@,
            amount_out@,
            direction,
        ),
{
    execution_price(
        "execution_price_wad",
        "token0->token1 mul_div failed: ",
        "token1->token0 mul_div failed: ",
        amount_in,
        amount_out,
        direction,
    )
}

/// The quote that follows from the state after a swap.
pub open spec fn v3_settled(
    pool: V3PoolSnapshot,
    amount_in: nat,
    net: nat,
    direction: SwapDirection,
    end: SwapState,
    fallback: bool,
) -> Result<V3QuoteView, DexErr> {
    match v3_execution_price(amount_in, end.out, direction) {
        Err(e) => Err(DexErr::MathError(e)),
        Ok(execution) => match v3_impact_spec(pool.sqrt_price_x96@, end.price) {
            Err(e) => Err(DexErr::MathError(e)),
            Ok(impact) => Ok(
                V3QuoteView {
                    amount_in,
                    amount_in_after_fee: net,
                    amount_out: end.out,
                    execution_price_wad: execution,
                    price_impact_bps: impact,
                    sqrt_price_before_x96: pool.sqrt_price_x96@,
                    sqrt_price_after_x96: end.price,
                    tick_before: pool.tick as int,
                    tick_after: end.tick,
                    liquidity_before: pool.liquidity as nat,
                    liquidity_after: end.liquidity,
                    crossed_ticks: end.crossed,
                    used_single_range_fallback: fallback,
                },
            ),
        },
    }
}

/// Settles a quote.
fn settle(
    pool: &V3PoolSnapshot,
    amount_in: U256,
    net: U256,
    direction: SwapDirection,
    amount_out: U256,
    price: U256,
    tick: i32,
    liquidity: u128,
    crossed_ticks: Vec<i32>,
    fallback: bool,
) -> (r: Result<V3ExactInQuote, DexError>)
    ensures
        v3_quote_view(r) == v3_settled(
            *pool,
            amount_in@,
            net@,
            direction,
            SwapState {
                remaining: 0,
                out: amount_out@,
                price: price@,
                tick: tick as int,
                liquidity: liquidity as nat,
                crossed: crossed_ticks@,
            },
            fallback,
        ),
{
    let execution = match execution_price_wad(amount_in, amount_out, direction) {
        Ok(v) => v,
        Err(e) => return Err(DexError::MathError(e)),
    };
    let impact: u32 = match calculate_v3_price_impact(pool.sqrt_price_x96, price) {
        Ok(v) => v,
        Err(e) => return Err(DexError::MathError(e)),
    };
    Ok(
        V3ExactInQuote {
            amount_in,
            amount_in_after_fee: net,
            amount_out,
            execution_price_wad: execution,
            price_impact_bps: impact,
            sqrt_price_before_x96: pool.sqrt_price_x96,
            sqrt_price_after_x96: price,
            tick_before: pool.tick,
            tick_after: tick,
            liquidity_before: pool.liquidity,
            liquidity_after: liquidity,
            crossed_ticks,
            used_single_range_fallback: fallback,
        },
    )
}

/// The quote of a pool without liquidity entries: only a swap within the current range counts.
pub open spec fn v3_fallback_spec(
    pool: V3PoolSnapshot,
    amount_in: nat,
    net: nat,
    direction: SwapDirection,
) -> Result<V3QuoteView, DexErr> {
    match v3_single_range(pool, net, direction) {
        Err(e) => Err(e),
        Ok(_) => match v3_amount_out_spec(
            amount_in,
            pool.sqrt_price_x96@,
            pool.liquidity as nat,
            pool.fee_bps@,
            direction,
        ) {
            Err(e) => Err(DexErr::MathError(e)),
            Ok(out) => match v3_post_swap_spec(
                amount_in,
                pool.sqrt_price_x96@,
                pool.liquidity as nat,
                pool.fee_bps@,
                direction,
            ) {
                Err(e) => Err(DexErr::MathError(e)),
                Ok((price, tick)) => v3_settled(
                    pool,
                    amount_in,
                    net,
                    direction,
                    SwapState {
                        remaining: 0,
                        out,
                        price,
                        tick,
                        liquidity: pool.liquidity as nat,
                        crossed: seq![],
                    },
                    true,
                ),
            },
        },
    }
}

/// Whether a quote is that of a walk from range to range, and its tick is that of its price, where
/// the tick of the pool fits its price and anything is left after the fee. Without liquidity
/// entries the fee is a share of the whole input.
pub open spec fn is_walked_quote(
    pool: V3PoolSnapshot,
    direction: SwapDirection,
    q: V3QuoteView,
) -> bool {
    is_placed(pool.tick as int, pool.sqrt_price_x96@) && q.amount_in_after_fee > 0 ==> {
        &&& is_swap(
            Stand {
                price: pool.sqrt_price_x96@,
                liquidity: pool.liquidity as nat,
                left: q.amount_in,
                out: 0,
            },
            Stand {
                price: q.sqrt_price_after_x96,
                liquidity: q.liquidity_after,
                left: 0,
                out: q.amount_out,
            },
            q.crossed_ticks,
            pool.tick_liquidity_net@,
            pool.fee_bps@,
            direction.is_down(),
            if q.used_single_range_fallback {
                Charge::Included
            } else {
                Charge::Deducted
            },
        )
        &&& is_floor_tick(q.tick_after, q.sqrt_price_after_x96)
    }
}

/// A swap that the formula of the current range quotes is a swap of one range.
proof fn lemma_single_range_is_walked(
    pool: V3PoolSnapshot,
    amount_in: nat,
    net: nat,
    direction: SwapDirection,
    next_tick: int,
    out: nat,
    price: nat,
    tick: int,
)
    requires
        pool.liquidity > 0,
        pool.fee_bps@ < 10_000,
        is_placed(pool.tick as int, pool.sqrt_price_x96@),
        v3_single_range(pool, net, direction) == Ok::<int, DexErr>(next_tick),
        is_next(pool.initialized_ticks@, pool.tick as int, next_tick, direction.is_down()),
        sqrt_ratio_at(next_tick) <= max_sqrt_ratio(),
        after_fee(amount_in, pool.fee_bps@) == Some(net),
        net > 0,
        v3_amount_out_spec(
            amount_in,
            pool.sqrt_price_x96@,
            pool.liquidity as nat,
            pool.fee_bps@,
            direction,
        ) == Ok::<nat, MathErr>(out),
        v3_post_swap_spec(
            amount_in,
            pool.sqrt_price_x96@,
            pool.liquidity as nat,
            pool.fee_bps@,
            direction,
        ) == Ok::<(nat, int), MathErr>((price, tick)),
    ensures
        is_swap(
            Stand {
                price: pool.sqrt_price_x96@,
                liquidity: pool.liquidity as nat,
                left: amount_in,
                out: 0,
            },
            Stand { price, liquidity: pool.liquidity as nat, left: 0, out },
            seq![],
            pool.tick_liquidity_net@,
            pool.fee_bps@,
            direction.is_down(),
            Charge::Included,
        ),
{
    let down = direction.is_down();
    let goal = sqrt_ratio_at(next_tick);
    let liquidity = pool.liquidity as nat;
    let from = Stand { price: pool.sqrt_price_x96@, liquidity, left: amount_in, out: 0 };
    let needed = taken_between(from.price, goal, liquidity, down)->Ok_0;
    assert(max_sqrt_ratio() < q160());
    lemma_short_input(from.price, goal, liquidity, net, needed, price, down);
    let fee = pool.fee_bps@;
    lemma_formula_leg(from, goal, price, net, needed, out, fee, down);
    lemma_walk_starts(from, pool.tick_liquidity_net@, fee, down, Charge::Included);
    lemma_walk_ends(
        seq![],
        Leg { from, to: Stand { price, liquidity, left: 0, out }, goal },
        from,
        seq![],
        pool.tick_liquidity_net@,
        fee,
        down,
        Charge::Included,
    );
}

/// Quotes a swap within the current range.
fn quote_single_range(
    pool: &V3PoolSnapshot,
    amount_in: U256,
    net: U256,
    direction: SwapDirection,
) -> (r: Result<V3ExactInQuote, DexError>)
    requires
        ascending(pool.initialized_ticks@),
        pool.fee_bps.wf(),
    ensures
        v3_quote_view(r) == v3_fallback_spec(*pool, amount_in@, net@, direction),
        r is Ok && pool.static_error() is None && v3_net_input(amount_in@, pool.fee_bps@) == Ok::<
            nat,
            DexErr,
        >(net@) ==> is_walked_quote(*pool, direction, r->Ok_0@),
{
    let next_tick: i32 = match validate_single_range_fallback(pool, net, direction) {
        Ok(t) => t,
        Err(e) => return Err(e),
    };
    let amount_out = match calculate_v3_amount_out(
        amount_in,
        pool.sqrt_price_x96,
        pool.liquidity,
        pool.fee_bps,
        direction,
    ) {
        Ok(v) => v,
        Err(e) => return Err(DexError::MathError(e)),
    };
    let end = match calculate_v3_post_swap_state(
        amount_in,
        pool.sqrt_price_x96,
        pool.liquidity,
        pool.fee_bps,
        direction,
    ) {
        Ok(v) => v,
        Err(e) => return Err(DexError::MathError(e)),
    };
    let none: Vec<i32> = Vec::new();
    proof {
        assert(none@ =~= seq![]);
        if is_placed(pool.tick as int, pool.sqrt_price_x96@) && pool.static_error() is None
            && net@ > 0 && v3_net_input(amount_in@, pool.fee_bps@) == Ok::<nat, DexErr>(net@) {
            lemma_single_range_is_walked(
                *pool,
                amount_in@,
                net@,
                direction,
                next_tick as int,
                amount_out@,
                end.0@,
                end.1 as int,
            );
        }
    }
    settle(
        pool,
        amount_in,
        net,
        direction,
        amount_out,
        end.0,
        end.1,
        pool.liquidity,
        none,
        true,
    )
}

/// The move of the price within one range: the input that it takes, the output that it gives,
/// the price after it, and the input that would reach the next tick.
pub struct RangeMove {
    pub amount: nat,
    pub out: nat,
    pub price: nat,
    pub limit: nat,
}

/// The move of the price towards a tick.
pub open spec fn v3_range_move(
    st: SwapState,
    fee_bps: nat,
    next_tick: int,
    down: bool,
) -> Result<RangeMove, DexErr> {
    match v3(ratio_spec(next_tick)) {
        Err(e) => Err(DexErr::MathError(e)),
        Ok(boundary) => match input_to_boundary(st.price, boundary, st.liquidity, down) {
            Err(e) => Err(DexErr::MathError(e)),
            Ok(limit) => {
                let amount = lower(st.remaining, limit);
                match mul_div_spec(amount, fee_bps, 10000) {
                    Err(e) => Err(
                        DexErr::MathError(
                            e_overflow(
                                "quote_exact_input.segment_fee"@,
                                seq![],
                                "mul_div failed: "@ + e,
                            ),
                        ),
                    ),
                    Ok(fee) => if fee > amount {
                        Err(
                            DexErr::MathError(
                                e_underflow(
                                    "quote_exact_input.segment_amount_after_fee"@,
                                    seq![],
                                    "segment_amount - segment_fee"@,
                                ),
                            ),
                        )
                    } else {
                        match next_price_spec(
                            st.price,
                            st.liquidity,
                            (amount - fee) as nat,
                            down,
                        ) {
                            Err(e) => Err(
                                DexErr::MathError(
                                    e_invalid(
                                        "quote_exact_input.next_sqrt"@,
                                        e,
                                        if down {
                                            "token0->token1"@
                                        } else {
                                            "token1->token0"@
                                        },
                                    ),
                                ),
                            ),
                            Ok(price) => match output_between(
                                st.price,
                                price,
                                st.liquidity,
                                down,
                            ) {
                                Err(e) => Err(DexErr::MathError(e)),
                                Ok(out) => Ok(RangeMove { amount, out, price, limit }),
                            },
                        }
                    },
                }
            },
        },
    }
}

/// The output between two prices, rounded down.
pub open spec fn output_between(before: nat, after: nat, liquidity: nat, down: bool) -> Result<
    nat,
    MathErr,
> {
    if down {
        v3(amount1_spec(after, before, liquidity, false))
    } else {
        v3(amount0_spec(before, after, liquidity, false))
    }
}

/// A move towards a tick that is not behind the price is a leg of a swap: token 0 that comes in pays
/// `liquidity * (before - after) / 2^96` of token 1, rounded down, and token 1 that comes in pays
/// the token 0 between the two prices; it takes no more than the way to the tick costs.
pub proof fn law_range_move_is_a_leg(st: SwapState, fee_bps: nat, next_tick: int, down: bool)
    requires
        st.liquidity > 0,
        fee_bps < 10_000,
        v3_range_move(st, fee_bps, next_tick, down) is Ok,
        not_past(st.price, sqrt_ratio_at(next_tick), down),
        sqrt_ratio_at(next_tick) <= max_sqrt_ratio(),
    ensures
        ({
            let m = v3_range_move(st, fee_bps, next_tick, down)->Ok_0;
            is_leg(
                Leg {
                    from: Stand {
                        price: st.price,
                        liquidity: st.liquidity,
                        left: st.remaining,
                        out: st.out,
                    },
                    to: Stand {
                        price: m.price,
                        liquidity: st.liquidity,
                        left: (st.remaining - m.amount) as nat,
                        out: st.out + m.out,
                    },
                    goal: sqrt_ratio_at(next_tick),
                },
                fee_bps,
                down,
                Charge::Deducted,
            )
        }),
{
    let m = v3_range_move(st, fee_bps, next_tick, down)->Ok_0;
    let goal = sqrt_ratio_at(next_tick);
    let fee = m.amount * fee_bps / 10000;
    let net = (m.amount - fee) as nat;
    let l = st.liquidity;
    assert(st.price > 0);
    lemma_taken_covers(st.price, goal, l, down, m.limit);
    if down {
        lemma_input0_lowers(st.price, l, net, m.price);
    } else {
        let q = net * q96() / l;
        let gap = (goal - st.price) as nat;
        assert(m.limit * q96() < l * gap + q96()) by {
            if m.limit > 0 {
                assert(((m.limit - 1) as nat) * q96() == m.limit * q96() - q96())
                    by (nonlinear_arith)
                    requires
                        m.limit > 0,
                ;
            }
        }
        vstd::arithmetic::div_mod::lemma_fundamental_div_mod((net * q96()) as int, l as int);
        assert(q <= gap + q96()) by (nonlinear_arith)
            requires
                l * q <= net * q96(),
                net <= m.limit,
                m.limit * q96() < l * gap + q96(),
                l > 0,
                q96() > 0,
        ;
        lemma_input1_raises(st.price, l, net, m.price);
    }
    lemma_given_is_paid(st.price, m.price, l, down, m.out);
    if m.amount > 0 && covers(st.price, goal, l, down, (m.amount - 1) as nat) {
        lemma_more_covers(
            st.price,
            goal,
            l,
            down,
            (m.amount - 1) as nat,
            (m.limit - 1) as nat,
        );
    }
    reveal(is_leg);
}

/// Computes the move of the price towards a tick: the input that it takes, the output, the price
/// after it, and the input that would reach the tick.
fn range_move(
    remaining: U256,
    price: U256,
    liquidity: u128,
    fee_bps: BasisPoints,
    next_tick: i32,
    down: bool,
    Ghost(st): Ghost<SwapState>,
) -> (r: Result<(U256, U256, U256, U256), DexError>)
    requires
        liquidity > 0,
        st.remaining == remaining@,
        st.price == price@,
        st.liquidity == liquidity,
    ensures
        match r {
            Ok(m) => v3_range_move(st, fee_bps@, next_tick as int, down) == Ok::<
                RangeMove,
                DexErr,
            >(RangeMove { amount: m.0@, out: m.1@, price: m.2@, limit: m.3@ }),
            Err(e) => v3_range_move(st, fee_bps@, next_tick as int, down) == Err::<
                RangeMove,
                DexErr,
            >(e@),
        },
        r matches Ok(m) ==> m.0@ == lower(remaining@, m.3@) && sqrt_ratio_at(next_tick as int)
            <= max_sqrt_ratio(),
{
    let boundary = match get_sqrt_ratio_at_tick(next_tick) {
        Ok(p) => p,
        Err(e) => return Err(DexError::MathError(e)),
    };
    let limit = match calculate_input_to_boundary(price, boundary, liquidity, down) {
        Ok(a) => a,
        Err(e) => return Err(DexError::MathError(e)),
    };
    let amount = remaining.minimum(limit);
    let fee = match full_mul_div(
        amount,
        U256::from_u64(fee_bps.as_u32() as u64),
        U256::from_u64(10000),
    ) {
        Ok(f) => f,
        Err(e) => {
            let context = "mul_div failed: ".to_owned().concat(e.as_str());
            return Err(
                DexError::MathError(
                    overflow0("quote_exact_input.segment_fee", context.as_str()),
                ),
            );
        },
    };
    let net = match amount.checked_sub(fee) {
        Some(n) => n,
        None => return Err(
            DexError::MathError(
                underflow0(
                    "quote_exact_input.segment_amount_after_fee",
                    "segment_amount - segment_fee",
                ),
            ),
        ),
    };
    let moved = if down {
        next_price(price, liquidity, net, true)
    } else {
        crate::dex::clmm::next_price_from_amount1(price, liquidity, net)
    };
    let after = match moved {
        Ok(p) => p,
        Err(e) => {
            let context = if down {
                "token0->token1"
            } else {
                "token1->token0"
            };
            return Err(
                DexError::MathError(
                    invalid("quote_exact_input.next_sqrt", e.as_str(), context),
                ),
            );
        },
    };
    let output = if down {
        get_amount1_delta(after, price, liquidity, false)
    } else {
        get_amount0_delta(price, after, liquidity, false)
    };
    match output {
        Ok(out) => Ok((amount, out, after, limit)),
        Err(e) => Err(DexError::MathError(e)),
    }
}

/// The liquidity after a crossed tick, or the refusal.
pub open spec fn v3_crossing(
    net: Map<i32, i128>,
    liquidity: nat,
    next_tick: int,
    down: bool,
) -> Result<nat, DexErr> {
    if !net.dom().contains(next_tick as i32) {
        Err(e_pool("missing liquidityNet for crossed tick "@ + dec_int(next_tick)))
    } else {
        let l = crossed(liquidity, net[next_tick as i32] as int, down);
        if liquidity > i128::MAX || l > i128::MAX {
            Err(e_pool("active liquidity overflow after crossing tick "@ + dec_int(next_tick)))
        } else if l < 0 {
            Err(e_pool("negative active liquidity after crossing tick "@ + dec_int(next_tick)))
        } else if l == 0 {
            Err(e_pool("active liquidity became zero before input was exhausted"@))
        } else {
            Ok(l as nat)
        }
    }
}

/// Crosses a tick while input is left.
fn cross(net: &HashMap<i32, i128>, liquidity: u128, next_tick: i32, down: bool) -> (r: Result<
    u128,
    DexError,
>)
    ensures
        match r {
            Ok(l) => v3_crossing(net@, liquidity as nat, next_tick as int, down) == Ok::<
                nat,
                DexErr,
            >(l as nat) && l > 0,
            Err(e) => v3_crossing(net@, liquidity as nat, next_tick as int, down) == Err::<
                nat,
                DexErr,
            >(e@),
        },
{
    match net.get(&next_tick) {
        None => {
            let reason = "missing liquidityNet for crossed tick ".to_owned().concat(
                text_i128(next_tick as i128).as_str(),
            );
            Err(bad_pool(reason.as_str()))
        },
        Some(change) => match cross_tick(liquidity, *change, down) {
            Crossing::Negative => {
                let reason = "negative active liquidity after crossing tick ".to_owned().concat(
                    text_i128(next_tick as i128).as_str(),
                );
                Err(bad_pool(reason.as_str()))
            },
            Crossing::TooLarge => {
                let reason = "active liquidity overflow after crossing tick ".to_owned().concat(
                    text_i128(next_tick as i128).as_str(),
                );
                Err(bad_pool(reason.as_str()))
            },
            Crossing::Liquidity(l) => {
                if l == 0 {
                    Err(bad_pool("active liquidity became zero before input was exhausted"))
                } else {
                    Ok(l)
                }
            },
        },
    }
}

/// The state after one range, and whether the swap goes on behind the tick.
pub open spec fn v3_step(pool: V3PoolSnapshot, down: bool, st: SwapState) -> Result<
    (SwapState, bool),
    DexErr,
> {
    match next_tick_spec(
        "find_next_initialized_tick"@,
        st.tick,
        pool.initialized_ticks@,
        pool.tick_spacing as int,
        down,
    ) {
        Err(e) => Err(DexErr::MathError(e)),
        Ok(next_tick) => match v3_range_move(st, pool.fee_bps@, next_tick, down) {
            Err(e) => Err(e),
            Ok(m) => if !fits(st.out + m.out) {
                Err(
                    DexErr::MathError(
                        e_overflow(
                            "quote_exact_input.amount_out_total"@,
                            seq![],
                            "accumulate segment output"@,
                        ),
                    ),
                )
            } else {
                match tick_of_price(m.price) {
                    Err(e) => Err(DexErr::MathError(e)),
                    Ok(tick) => {
                        let remaining = (st.remaining - m.amount) as nat;
                        let moved = SwapState {
                            remaining,
                            out: st.out + m.out,
                            price: m.price,
                            tick,
                            liquidity: st.liquidity,
                            crossed: st.crossed,
                        };
                        if m.amount == m.limit && remaining != 0 {
                            match v3_crossing(
                                pool.tick_liquidity_net@,
                                st.liquidity,
                                next_tick,
                                down,
                            ) {
                                Err(e) => Err(e),
                                Ok(l) => Ok(
                                    (
                                        SwapState {
                                            liquidity: l,
                                            crossed: st.crossed.push(next_tick as i32),
                                            ..moved
                                        },
                                        true,
                                    ),
                                ),
                            }
                        } else {
                            Ok((moved, false))
                        }
                    },
                }
            },
        },
    }
}

/// The state in which a swap ends, with the number of ranges that it may still enter.
pub open spec fn v3_swap(pool: V3PoolSnapshot, down: bool, st: SwapState, left: nat) -> Result<
    SwapState,
    DexErr,
>
    decreases left,
{
    if st.remaining == 0 {
        Ok(st)
    } else if left == 0 {
        Err(e_pool("swap iteration limit exceeded (possible malformed tick state)"@))
    } else {
        match v3_step(pool, down, st) {
            Err(e) => Err(e),
            Ok((next, goes_on)) => if goes_on {
                v3_swap(pool, down, next, (left - 1) as nat)
            } else {
                Ok(next)
            },
        }
    }
}

/// The exact-input quote of a V3 pool.
pub open spec fn v3_quote_spec(
    pool: V3PoolSnapshot,
    amount_in: nat,
    direction: SwapDirection,
) -> Result<V3QuoteView, DexErr> {
    match pool.static_error() {
        Some(e) => Err(e),
        None => if amount_in == 0 {
            Err(
                DexErr::MathError(
                    e_invalid(
                        "quote_exact_input"@,
                        "amount_in cannot be zero"@,
                        "v3 adapter math"@,
                    ),
                ),
            )
        } else if pool.initialized_ticks@.len() == 0 {
            Err(e_pool("initialized_ticks missing; exact V3 math unavailable"@))
        } else {
            match v3_net_input(amount_in, pool.fee_bps@) {
                Err(e) => Err(e),
                Ok(net) => if net == 0 {
                    Ok(pool.idle_quote(amount_in))
                } else if pool.tick_liquidity_net@.dom().len() == 0 {
                    v3_fallback_spec(pool, amount_in, net, direction)
                } else {
                    match v3_swap(pool, direction.is_down(), pool.start(amount_in), 1024) {
                        Err(e) => Err(e),
                        Ok(end) => v3_settled(pool, amount_in, net, direction, end, false),
                    }
                },
            }
        },
    }
}

/// Quotes an exact input.
///
/// The swap runs from range to range and refuses to go on where the snapshot does not say what
/// lies behind a tick. A snapshot without liquidity entries is quoted only where the swap
/// provably stays within the current range.
pub fn quote_exact_input(
    pool: &V3PoolSnapshot,
    amount_in: U256,
    direction: SwapDirection,
) -> (r: Result<V3ExactInQuote, DexError>)
    ensures
        v3_quote_view(r) == v3_quote_spec(*pool, amount_in@, direction),
        r is Ok ==> is_walked_quote(*pool, direction, r->Ok_0@),
{
    match pool.validate_static() {
        Ok(_) => {},
        Err(e) => return Err(e),
    }
    if amount_in.is_zero() {
        return Err(
            DexError::MathError(
                invalid("quote_exact_input", "amount_in cannot be zero", "v3 adapter math"),
            ),
        );
    }
    if pool.initialized_ticks.len() == 0 {
        return Err(bad_pool("initialized_ticks missing; exact V3 math unavailable"));
    }
    let net = match apply_fee_exact_in(amount_in, pool.fee_bps) {
        Ok(v) => v,
        Err(e) => return Err(e),
    };
    let mut crossed_ticks: Vec<i32> = Vec::new();
    proof {
        assert(crossed_ticks@ =~= seq![]);
    }
    if net.is_zero() {
        return Ok(
            V3ExactInQuote {
                amount_in,
                amount_in_after_fee: net,
                amount_out: U256::zero(),
                execution_price_wad: U256::zero(),
                price_impact_bps: 0,
                sqrt_price_before_x96: pool.sqrt_price_x96,
                sqrt_price_after_x96: pool.sqrt_price_x96,
                tick_before: pool.tick,
                tick_after: pool.tick,
                liquidity_before: pool.liquidity,
                liquidity_after: pool.liquidity,
                crossed_ticks,
                used_single_range_fallback: true,
            },
        );
    }
    if pool.tick_liquidity_net.is_empty() {
        return quote_single_range(pool, amount_in, net, direction);
    }
    let down: bool = direction.zero_for_one();
    let mut remaining = amount_in;
    let mut out = U256::zero();
    let mut price = pool.sqrt_price_x96;
    let mut tick: i32 = pool.tick;
    let mut liquidity: u128 = pool.liquidity;
    let mut left: u32 = 1024;
    let ghost whole = v3_swap(*pool, down, pool.start(amount_in@), 1024);
    let ghost placed = is_placed(tick as int, price@);
    let ghost start = Stand {
        price: price@,
        liquidity: liquidity as nat,
        left: amount_in@,
        out: 0,
    };
    let ghost entries = pool.tick_liquidity_net@;
    let ghost mut legs: Seq<Leg> = seq![];
    proof {
        lemma_walk_starts(start, entries, pool.fee_bps@, down, Charge::Deducted);
    }
    while !remaining.is_zero()
        invariant_except_break
            whole == v3_swap(
                *pool,
                down,
                SwapState {
                    remaining: remaining@,
                    out: out@,
                    price: price@,
                    tick: tick as int,
                    liquidity: liquidity as nat,
                    crossed: crossed_ticks@,
                },
                left as nat,
            ),
            remaining@ > 0,
            placed ==> is_placed(tick as int, price@) && is_walk(
                legs,
                start,
                Stand {
                    price: price@,
                    liquidity: liquidity as nat,
                    left: remaining@,
                    out: out@,
                },
                crossed_ticks@,
                entries,
                pool.fee_bps@,
                down,
                Charge::Deducted,
            ),
        invariant
            pool.fee_bps@ < 10_000,
            entries == pool.tick_liquidity_net@,
            liquidity > 0,
            ascending(pool.initialized_ticks@),
            whole == v3_swap(*pool, down, pool.start(amount_in@), 1024),
            v3_quote_spec(*pool, amount_in@, direction) == match whole {
                Err(e) => Err(e),
                Ok(end) => v3_settled(*pool, amount_in@, net@, direction, end, false),
            },
        ensures
            whole == Ok::<SwapState, DexErr>(
                SwapState {
                    remaining: remaining@,
                    out: out@,
                    price: price@,
                    tick: tick as int,
                    liquidity: liquidity as nat,
                    crossed: crossed_ticks@,
                },
            ),
            is_floor_tick(tick as int, price@),
            placed ==> is_swap(
                start,
                Stand { price: price@, liquidity: liquidity as nat, left: 0, out: out@ },
                crossed_ticks@,
                entries,
                pool.fee_bps@,
                down,
                Charge::Deducted,
            ),
        decreases left,
    {
        let ghost prior = tick;
        let ghost st = SwapState {
            remaining: remaining@,
            out: out@,
            price: price@,
            tick: tick as int,
            liquidity: liquidity as nat,
            crossed: crossed_ticks@,
        };
        if left == 0 {
            return Err(
                bad_pool("swap iteration limit exceeded (possible malformed tick state)"),
            );
        }
        left = left - 1;
        let next_tick: i32 = match find_next_initialized_tick(
            tick,
            pool.initialized_ticks.as_slice(),
            pool.tick_spacing,
            down,
        ) {
            Ok(t) => t,
            Err(e) => return Err(DexError::MathError(e)),
        };
        let m = match range_move(
            remaining,
            price,
            liquidity,
            pool.fee_bps,
            next_tick,
            down,
            Ghost(st),
        ) {
            Ok(v) => v,
            Err(e) => return Err(e),
        };
        out = match out.checked_add(m.1) {
            Some(v) => v,
            None => return Err(
                DexError::MathError(
                    overflow0(
                        "quote_exact_input.amount_out_total",
                        "accumulate segment output",
                    ),
                ),
            ),
        };
        remaining = remaining.minus(m.0);
        price = m.2;
        tick = match sqrt_price_to_tick(price) {
            Ok(t) => t,
            Err(e) => return Err(DexError::MathError(e)),
        };
        let ghost leg = Leg {
            from: Stand {
                price: st.price,
                liquidity: st.liquidity,
                left: st.remaining,
                out: st.out,
            },
            to: Stand {
                price: price@,
                liquidity: liquidity as nat,
                left: remaining@,
                out: out@,
            },
            goal: sqrt_ratio_at(next_tick as int),
        };
        proof {
            if placed {
                lemma_goal_lies_ahead(
                    pool.initialized_ticks@,
                    prior as int,
                    st.price,
                    next_tick as int,
                    down,
                );
                law_range_move_is_a_leg(st, pool.fee_bps@, next_tick as int, down);
            }
        }
        if m.0.same(&m.3) && !remaining.is_zero() {
            liquidity = match cross(&pool.tick_liquidity_net, liquidity, next_tick, down) {
                Ok(l) => l,
                Err(e) => return Err(e),
            };
            proof {
                if placed {
                    lemma_walk_on(
                        legs,
                        leg,
                        start,
                        Stand { liquidity: liquidity as nat, ..leg.to },
                        crossed_ticks@,
                        next_tick,
                        entries,
                        pool.fee_bps@,
                        down,
                        Charge::Deducted,
                    );
                    legs = legs.push(leg);
                }
            }
            crossed_ticks.push(next_tick);
        } else {
            proof {
                assert(remaining@ == 0);
                if placed {
                    lemma_walk_ends(
                        legs,
                        leg,
                        start,
                        crossed_ticks@,
                        entries,
                        pool.fee_bps@,
                        down,
                        Charge::Deducted,
                    );
                }
            }
            break;
        }
    }
    settle(
        pool,
        amount_in,
        net,
        direction,
        out,
        price,
        tick,
        liquidity,
        crossed_ticks,
        false,
    )
}

/// The induction behind [`law_swap_uses_up_its_input`] and [`law_quote_accounts_for_liquidity`].
proof fn lemma_swap_end(pool: V3PoolSnapshot, down: bool, st: SwapState, left: nat, before: nat)
    requires
        accounts_for(pool.tick_liquidity_net@, before, st.liquidity, st.crossed, down),
    ensures
        v3_swap(pool, down, st, left) matches Ok(end) ==> {
            &&& end.remaining == 0
            &&& accounts_for(pool.tick_liquidity_net@, before, end.liquidity, end.crossed, down)
            &&& end.crossed.len() <= st.crossed.len() + left
        },
    decreases left,
{
    if st.remaining != 0 && left > 0 {
        match v3_step(pool, down, st) {
            Err(_) => {},
            Ok((next, goes_on)) => {
                if goes_on {
                    lemma_one_more_crossing(
                        pool.tick_liquidity_net@,
                        before,
                        st.liquidity,
                        st.crossed,
                        next.crossed.last(),
                        down,
                    );
                    lemma_swap_end(pool, down, next, (left - 1) as nat, before);
                }
            },
        }
    }
}

/// A swap from range to range that ends has used up its whole input.
pub proof fn law_swap_uses_up_its_input(
    pool: V3PoolSnapshot,
    amount_in: nat,
    direction: SwapDirection,
)
    ensures
        v3_swap(pool, direction.is_down(), pool.start(amount_in), 1024) matches Ok(end)
            ==> end.remaining == 0,
{
    lemma_swap_end(
        pool,
        direction.is_down(),
        pool.start(amount_in),
        1024,
        pool.liquidity as nat,
    );
}

/// A quote crosses only ticks whose liquidity is known, at most 1024 of them, and its liquidity
/// afterwards is the one before with the entries of the crossed ticks applied. A range with a fee
/// can end short of the tick that counts as crossed, which is then met again: a tick may occur
/// more than once in the list, and its entry is applied as often.
pub proof fn law_quote_accounts_for_liquidity(
    pool: V3PoolSnapshot,
    amount_in: nat,
    direction: SwapDirection,
)
    ensures
        v3_quote_spec(pool, amount_in, direction) matches Ok(q) ==> {
            &&& accounts_for(
                pool.tick_liquidity_net@,
                q.liquidity_before,
                q.liquidity_after,
                q.crossed_ticks,
                direction.is_down(),
            )
            &&& q.liquidity_before == pool.liquidity
            &&& q.crossed_ticks.len() <= 1024
        },
{
    lemma_swap_end(
        pool,
        direction.is_down(),
        pool.start(amount_in),
        1024,
        pool.liquidity as nat,
    );
}

/// A snapshot that does not determine the swap is refused, and so is an empty input.
pub proof fn law_incomplete_snapshot_is_refused(
    pool: V3PoolSnapshot,
    amount_in: nat,
    direction: SwapDirection,
)
    requires
        amount_in == 0 || pool.liquidity == 0 || pool.tick_spacing <= 0 || pool.fee_bps@ >= 10_000
            || pool.initialized_ticks@.len() == 0 || !strictly_ascending(pool.initialized_ticks@),
    ensures
        v3_quote_spec(pool, amount_in, direction) is Err,
{
}

/// A quote without liquidity entries stays within the current range.
pub proof fn law_fallback_crosses_nothing(
    pool: V3PoolSnapshot,
    amount_in: nat,
    direction: SwapDirection,
)
    requires
        pool.tick_liquidity_net@.dom().len() == 0,
    ensures
        v3_quote_spec(pool, amount_in, direction) matches Ok(q) ==> {
            &&& q.used_single_range_fallback
            &&& q.crossed_ticks.len() == 0
            &&& q.liquidity_after == q.liquidity_before
        },
{
}

/// A quote says what it was asked, where the pool stood, the price of the trade in token 1 per token
/// 0, and how far the price of the pool has moved. An input that the fee uses up moves nothing.
pub proof fn law_quote_reports_the_trade(
    pool: V3PoolSnapshot,
    amount_in: nat,
    direction: SwapDirection,
)
    ensures
        v3_quote_spec(pool, amount_in, direction) matches Ok(q) ==> {
            &&& q.amount_in == amount_in
            &&& is_after_fee(q.amount_in_after_fee, amount_in, pool.fee_bps@)
            &&& q.sqrt_price_before_x96 == pool.sqrt_price_x96@
            &&& q.tick_before == pool.tick
            &&& q.liquidity_before == pool.liquidity
            &&& is_impact_between(
                q.price_impact_bps,
                q.sqrt_price_before_x96,
                q.sqrt_price_after_x96,
            )
            &&& if q.amount_in_after_fee == 0 {
                &&& q.amount_out == 0 && q.execution_price_wad == 0
                &&& q.sqrt_price_after_x96 == q.sqrt_price_before_x96
                &&& q.tick_after == q.tick_before
                &&& q.liquidity_after == q.liquidity_before
                &&& q.crossed_ticks.len() == 0
            } else {
                is_price_of(q.execution_price_wad, amount_in, q.amount_out, direction)
            }
        },
{
    if v3_quote_spec(pool, amount_in, direction) is Ok {
        let q = v3_quote_spec(pool, amount_in, direction)->Ok_0;
        law_fee_is_taken_from_the_input(amount_in, pool.fee_bps@);
        law_impact_is_the_change_of_the_price(q.sqrt_price_before_x96, q.sqrt_price_after_x96);
        law_execution_price_is_token1_per_token0(
            "execution_price_wad"@,
            "token0->token1 mul_div failed: "@,
            "token1->token0 mul_div failed: "@,
            amount_in,
            q.amount_out,
            direction,
        );
        if q.amount_in_after_fee == 0 {
            lemma_no_impact(pool.sqrt_price_x96@);
        }
    }
}

/// A swap moves the price in its direction: token 0 for token 1 never raises it, and token 1 for
/// token 0 never lowers it.
pub proof fn law_price_follows_the_direction(
    pool: V3PoolSnapshot,
    direction: SwapDirection,
    q: V3QuoteView,
)
    requires
        is_placed(pool.tick as int, pool.sqrt_price_x96@),
        q.amount_in_after_fee > 0,
        is_walked_quote(pool, direction, q),
    ensures
        match direction {
            SwapDirection::Token0ToToken1 => q.sqrt_price_after_x96 <= pool.sqrt_price_x96@,
            SwapDirection::Token1ToToken0 => pool.sqrt_price_x96@ <= q.sqrt_price_after_x96,
        },
{
    law_swap_pays_the_sum_of_its_ranges(
        Stand {
            price: pool.sqrt_price_x96@,
            liquidity: pool.liquidity as nat,
            left: q.amount_in,
            out: 0,
        },
        Stand {
            price: q.sqrt_price_after_x96,
            liquidity: q.liquidity_after,
            left: 0,
            out: q.amount_out,
        },
        q.crossed_ticks,
        pool.tick_liquidity_net@,
        pool.fee_bps@,
        direction.is_down(),
        if q.used_single_range_fallback {
            Charge::Included
        } else {
            Charge::Deducted
        },
    );
}

/// A step that goes on has crossed the initialized tick next to the tick where it began, below it
/// where token 0 comes in and above it where token 1 does, and has applied its entry.
pub proof fn law_step_crosses_the_next_tick(pool: V3PoolSnapshot, down: bool, st: SwapState)
    requires
        ascending(pool.initialized_ticks@),
    ensures
        v3_step(pool, down, st) matches Ok((next, true)) ==> {
            &&& next.crossed.len() == st.crossed.len() + 1
            &&& next.crossed.drop_last() == st.crossed
            &&& is_next(pool.initialized_ticks@, st.tick, next.crossed.last() as int, down)
            &&& pool.tick_liquidity_net@.dom().contains(next.crossed.last())
            &&& down ==> next.liquidity == st.liquidity
                - pool.tick_liquidity_net@[next.crossed.last()]
            &&& !down ==> next.liquidity == st.liquidity
                + pool.tick_liquidity_net@[next.crossed.last()]
            &&& next.remaining > 0
        },
{
    law_next_tick_is_the_nearest(
        "find_next_initialized_tick"@,
        st.tick,
        pool.initialized_ticks@,
        pool.tick_spacing as int,
        down,
    );
    match v3_step(pool, down, st) {
        Ok((next, true)) => {
            assert(next.crossed.drop_last() =~= st.crossed);
        },
        _ => {},
    }
}

/// What a swap pays is added to what was paid before: two swaps that differ in that alone end in
/// states that differ in it alone.
pub proof fn law_output_adds_up(
    pool: V3PoolSnapshot,
    down: bool,
    st: SwapState,
    paid: nat,
    left: nat,
)
    requires
        v3_swap(pool, down, st, left) is Ok,
        v3_swap(pool, down, SwapState { out: st.out + paid, ..st }, left) is Ok,
    ensures
        ({
            let plain = v3_swap(pool, down, st, left)->Ok_0;
            let more = v3_swap(
                pool,
                down,
                SwapState { out: st.out + paid, ..st },
                left,
            )->Ok_0;
            &&& more == (SwapState { out: plain.out + paid, ..plain })
            &&& plain.out >= st.out
        }),
    decreases left,
{
    if st.remaining != 0 && left > 0 {
        let richer = SwapState { out: st.out + paid, ..st };
        let (next, goes_on) = v3_step(pool, down, st)->Ok_0;
        let (other, _) = v3_step(pool, down, richer)->Ok_0;
        assert(other == (SwapState { out: next.out + paid, ..next }));
        if goes_on {
            law_output_adds_up(pool, down, next, paid, (left - 1) as nat);
        }
    }
}

/// A swap that crosses no tick needs no liquidity entries: the quote is the one of the same pool
/// without them, by the formula of the current range. This is said of inputs whose fee is a whole
/// number, since the two round the fee to different sides.
pub proof fn law_one_range_needs_no_entries(
    pool: V3PoolSnapshot,
    bare: V3PoolSnapshot,
    amount_in: nat,
    direction: SwapDirection,
)
    requires
        bare.sqrt_price_x96@ == pool.sqrt_price_x96@,
        bare.tick == pool.tick,
        bare.liquidity == pool.liquidity,
        bare.fee_bps@ == pool.fee_bps@,
        bare.tick_spacing == pool.tick_spacing,
        bare.initialized_ticks@ == pool.initialized_ticks@,
        bare.tick_liquidity_net@.dom().len() == 0,
        amount_in * pool.fee_bps@ % 10_000 == 0,
        v3_quote_spec(bare, amount_in, direction) is Ok,
        v3_quote_spec(pool, amount_in, direction) is Ok,
        v3_quote_spec(pool, amount_in, direction)->Ok_0.crossed_ticks.len() == 0,
    ensures
        ({
            let q = v3_quote_spec(pool, amount_in, direction)->Ok_0;
            v3_quote_spec(bare, amount_in, direction)->Ok_0 == (V3QuoteView {
                used_single_range_fallback: true,
                ..q
            })
        }),
{
    let down = direction.is_down();
    let st = pool.start(amount_in);
    let fee = pool.fee_bps@;
    if pool.tick_liquidity_net@.dom().len() > 0 && v3_net_input(amount_in, fee) != Ok::<
        nat,
        DexErr,
    >(0) {
        let (next, goes_on) = v3_step(pool, down, st)->Ok_0;
        lemma_crossed_grows(pool, down, next, 1023);
        assert(!goes_on);
        let net = after_fee(amount_in, fee)->Some_0;
        let charged = amount_in * fee / 10_000;
        assert(amount_in * ((10_000 - fee) as nat) == amount_in * 10_000 - amount_in * fee)
            by (nonlinear_arith)
            requires
                fee < 10_000,
        ;
        assert(amount_in - charged == net);
    }
}

/// A swap only adds to the ticks that it has crossed.
proof fn lemma_crossed_grows(pool: V3PoolSnapshot, down: bool, st: SwapState, left: nat)
    ensures
        v3_swap(pool, down, st, left) matches Ok(end) ==> end.crossed.len() >= st.crossed.len(),
    decreases left,
{
    if st.remaining != 0 && left > 0 {
        match v3_step(pool, down, st) {
            Err(_) => {},
            Ok((next, goes_on)) => {
                if goes_on {
                    lemma_crossed_grows(pool, down, next, (left - 1) as nat);
                }
            },
        }
    }
}

/// A swap counts as one within the current range exactly where its input, less the fee, does not
/// cover the way to the next tick.
pub proof fn law_single_range_ends_at_the_next_tick(
    pool: V3PoolSnapshot,
    net: nat,
    direction: SwapDirection,
    next_tick: int,
)
    requires
        next_tick_spec(
            "find_next_initialized_tick"@,
            pool.tick as int,
            pool.initialized_ticks@,
            pool.tick_spacing as int,
            direction.is_down(),
        ) == Ok::<int, MathErr>(next_tick),
        tick_in_range(next_tick),
        pool.sqrt_price_x96@ > 0,
        not_past(pool.sqrt_price_x96@, sqrt_ratio_at(next_tick), direction.is_down()),
        taken_between(
            pool.sqrt_price_x96@,
            sqrt_ratio_at(next_tick),
            pool.liquidity as nat,
            direction.is_down(),
        ) is Ok,
    ensures
        v3_single_range(pool, net, direction) is Ok <==> !covers(
            pool.sqrt_price_x96@,
            sqrt_ratio_at(next_tick),
            pool.liquidity as nat,
            direction.is_down(),
            net,
        ),
{
    let (price, goal) = (pool.sqrt_price_x96@, sqrt_ratio_at(next_tick));
    let (liquidity, down) = (pool.liquidity as nat, direction.is_down());
    let limit = taken_between(price, goal, liquidity, down)->Ok_0;
    lemma_taken_covers(price, goal, liquidity, down, limit);
    if net < limit && covers(price, goal, liquidity, down, net) {
        lemma_more_covers(price, goal, liquidity, down, net, (limit - 1) as nat);
    }
    if net >= limit {
        lemma_more_covers(price, goal, liquidity, down, limit, net);
    }
}

/// A swap that ends within 1024 ranges is quoted with the state in which it ends, where its prices
/// can be given.
pub proof fn law_swap_that_ends_is_quoted(
    pool: V3PoolSnapshot,
    amount_in: nat,
    direction: SwapDirection,
)
    requires
        pool.static_error() is None,
        pool.initialized_ticks@.len() > 0,
        pool.tick_liquidity_net@.dom().len() > 0,
        after_fee(amount_in, pool.fee_bps@) matches Some(net) && net > 0,
        v3_swap(pool, direction.is_down(), pool.start(amount_in), 1024) is Ok,
    ensures
        ({
            let end = v3_swap(pool, direction.is_down(), pool.start(amount_in), 1024)->Ok_0;
            match v3_quote_spec(pool, amount_in, direction) {
                Ok(q) => {
                    &&& q.amount_out == end.out && q.sqrt_price_after_x96 == end.price
                    &&& q.tick_after == end.tick && q.liquidity_after == end.liquidity
                    &&& q.crossed_ticks == end.crossed && !q.used_single_range_fallback
                },
                Err(_) => v3_execution_price(amount_in, end.out, direction) is Err
                    || v3_impact_spec(pool.sqrt_price_x96@, end.price) is Err,
            }
        }),
{
    assert(amount_in > 0) by {
        assert(0 * ((10000 - pool.fee_bps@) as nat) == 0);
    }
}

/// A snapshot is accepted exactly where it has liquidity, a spacing, a fee below 100% and ticks in
/// strictly ascending order.
pub proof fn law_complete_snapshot_is_accepted(pool: V3PoolSnapshot)
    requires
        tick_of_price(pool.sqrt_price_x96@) is Ok,
    ensures
        pool.static_error() is None <==> {
            &&& pool.liquidity > 0
            &&& pool.tick_spacing > 0
            &&& pool.fee_bps@ < 10_000
            &&& strictly_ascending(pool.initialized_ticks@)
        },
{
}

} // verus!
