//! Exact-input quotes for Kyber Elastic pools.

use crate::base::error::{
    bad_pool, e_invalid, e_overflow, e_pool, invalid, math_view, overflow0, DexErr, DexError,
    MathErr, MathError,
};
use crate::base::precision::BasisPoints;
use crate::data::kyber_pool_state::KyberPoolState;
use crate::dex::adapter::SwapDirection;
use crate::dex::clmm::{is_tick_of, sqrt_ratio_at, taken_between, tick_in_range};
use crate::dex::crossing::{
    accounts_for, cross_tick, crossed, lemma_one_more_crossing, Crossing,
};
use crate::dex::kyber::math::swap_math::{
    compute_swap_step, kyber_step_spec, StepView, SwapStepResult,
};
use crate::dex::kyber::math::tick_math::{
    get_sqrt_ratio_at_tick, get_tick_at_sqrt_ratio, kyber_ratio_spec, kyber_tick_spec,
};
use crate::dex::pricing::{
    execution_price, execution_price_spec, is_price_of, law_execution_price_is_token1_per_token0,
};
use crate::dex::ranges::{
    covers, in_order, is_next, is_placed, is_swap, is_walk, law_swap_pays_the_sum_of_its_ranges,
    lemma_goal_lies_ahead, lemma_more_covers, lemma_nothing_between, lemma_one_more_in_order,
    lemma_step_onward, lemma_step_stops_short, lemma_taken_covers, lemma_walk_ends, lemma_walk_on,
    lemma_walk_starts, not_past, Charge, Leg, Stand,
};
use crate::dex::tick_lists::sorted_set;
use crate::dex::ticks::{ascending, is_strictly_ascending, strictly_ascending};
use crate::dex::uniswap_v3::adapter_math::{crossing_possible, refuse_crossing, SwapState};
use crate::dex::uniswap_v3::math::{
    after_fee, amount_after_fee, calculate_input_to_boundary, calculate_v3_price_impact,
    input_to_boundary, is_after_fee, is_impact_between, law_fee_is_taken_from_the_input,
    law_impact_is_the_change_of_the_price, law_next_tick_is_the_nearest, lemma_no_impact,
    next_tick_for, next_tick_spec, tick_view, v3_impact_spec,
};
use crate::text::{dec, dec_int, text_i128, text_u128, text_u256};
use crate::u256::{fits, U256};
use std::collections::HashMap;
use vstd::prelude::*;
use vstd::string::StringExecFns;

verus! {

/// Snapshot of a Kyber pool.
#[derive(Clone, Debug)]
pub struct KyberPoolSnapshot {
    pub sqrt_price_x96: U256,
    pub tick: i32,
    pub liquidity: u128,
    pub fee_bps: BasisPoints,
    pub tick_spacing: i32,
    pub initialized_ticks: Vec<i32>,
    pub tick_liquidity_net: HashMap<i32, i128>,
}

impl TryFrom<&KyberPoolState> for KyberPoolSnapshot {
    type Error = DexError;

    /// The snapshot of a pool state, with its ticks in ascending order.
    fn try_from(v: &KyberPoolState) -> (r: Result<KyberPoolSnapshot, DexError>)
        ensures
            r matches Ok(s) && {
                &&& s.sqrt_price_x96 == v.sqrt_price_x96
                &&& s.tick == v.current_tick
                &&& s.liquidity == v.liquidity
                &&& s.fee_bps@ == v.fee_tier
                &&& s.tick_spacing == v.tick_spacing
                &&& strictly_ascending(s.initialized_ticks@)
                &&& s.initialized_ticks@.to_set() == v.initialized_ticks@
                &&& s.tick_liquidity_net@ == v.tick_liquidity@
            },
    {
        Ok(
            KyberPoolSnapshot {
                sqrt_price_x96: v.sqrt_price_x96,
                tick: v.current_tick,
                liquidity: v.liquidity,
                fee_bps: BasisPoints(v.fee_tier),
                tick_spacing: v.tick_spacing,
                initialized_ticks: sorted_set(&v.initialized_ticks),
                tick_liquidity_net: v.tick_liquidity.clone(),
            },
        )
    }
}

impl vstd::std_specs::convert::TryFromSpecImpl<&KyberPoolState> for KyberPoolSnapshot {
    open spec fn obeys_try_from_spec() -> bool {
        false
    }

    open spec fn try_from_spec(v: &KyberPoolState) -> Result<KyberPoolSnapshot, DexError> {
        arbitrary()
    }
}

/// Exact-input quote with the state after the swap.
#[derive(Clone, Debug)]
pub struct KyberExactInQuote {
    pub amount_in: U256,
    pub amount_in_after_fee: U256,
    pub amount_out: U256,
    pub execution_price_wad: U256,
    pub price_impact_bps: u32,
    pub sqrt_price_before_x96: U256,
    pub sqrt_price_after_x96: U256,
    pub tick_before: i32,
    pub tick_after: i32,
    pub liquidity_before: u128,
    pub liquidity_after: u128,
    pub crossed_ticks: Vec<i32>,
    pub used_single_range_fallback: bool,
}

/// What a [`KyberExactInQuote`] says.
#[verifier::ext_equal]
pub struct KyberQuoteView {
    pub amount_in: nat,
    pub amount_in_after_fee: nat,
    pub amount_out: nat,
    pub execution_price_wad: nat,
    pub price_impact_bps: nat,
    pub sqrt_price_before_x96: nat,
    pub sqrt_price_after_x96: nat,
    pub tick_before: int,
    pub tick_after: int,
    pub liquidity_before: nat,
    pub liquidity_after: nat,
    pub crossed_ticks: Seq<i32>,
    pub used_single_range_fallback: bool,
}

impl View for KyberExactInQuote {
    type V = KyberQuoteView;

    open spec fn view(&self) -> KyberQuoteView {
        KyberQuoteView {
            amount_in: self.amount_in@,
            amount_in_after_fee: self.amount_in_after_fee@,
            amount_out: self.amount_out@,
            execution_price_wad: self.execution_price_wad@,
            price_impact_bps: self.price_impact_bps as nat,
            sqrt_price_before_x96: self.sqrt_price_before_x96@,
            sqrt_price_after_x96: self.sqrt_price_after_x96@,
            tick_before: self.tick_before as int,
            tick_after: self.tick_after as int,
            liquidity_before: self.liquidity_before as nat,
            liquidity_after: self.liquidity_after as nat,
            crossed_ticks: self.crossed_ticks@,
            used_single_range_fallback: self.used_single_range_fallback,
        }
    }
}

impl KyberPoolSnapshot {
    /// The first static parameter that rules out an exact quote.
    pub open spec fn static_error(self) -> Option<DexErr> {
        if self.sqrt_price_x96@ == 0 {
            Some(e_pool("sqrt_price_x96 cannot be zero"@))
        } else {
            match kyber_tick_spec(self.sqrt_price_x96@) {
                Err(e) => Some(DexErr::MathError(e)),
                Ok(_) => if self.liquidity == 0 {
                    Some(e_pool("liquidity cannot be zero"@))
                } else if self.fee_bps@ >= 10_000 {
                    Some(e_pool("fee_bps must be <10000, got "@ + dec(self.fee_bps@)))
                } else if self.tick_spacing <= 0 {
                    Some(
                        e_pool(
                            "tick_spacing must be >0, got "@ + dec_int(self.tick_spacing as int),
                        ),
                    )
                } else if !strictly_ascending(self.initialized_ticks@) {
                    Some(e_pool("initialized_ticks must be strictly ascending"@))
                } else {
                    None
                },
            }
        }
    }

    /// Checks the static parameters.
    pub fn validate_static(&self) -> (r: Result<(), DexError>)
        ensures
            match r {
                Ok(_) => self.static_error() is None,
                Err(e) => self.static_error() == Some(e@),
            },
    {
        if self.sqrt_price_x96.is_zero() {
            return Err(bad_pool("sqrt_price_x96 cannot be zero"));
        }
        match get_tick_at_sqrt_ratio(self.sqrt_price_x96) {
            Ok(_) => {},
            Err(e) => return Err(DexError::MathError(e)),
        }
        if self.liquidity == 0 {
            return Err(bad_pool("liquidity cannot be zero"));
        }
        if self.fee_bps.as_u32() >= 10_000 {
            let reason = "fee_bps must be <10000, got ".to_owned().concat(
                text_u128(self.fee_bps.as_u32() as u128).as_str(),
            );
            return Err(bad_pool(reason.as_str()));
        }
        if self.tick_spacing <= 0 {
            let reason = "tick_spacing must be >0, got ".to_owned().concat(
                text_i128(self.tick_spacing as i128).as_str(),
            );
            return Err(bad_pool(reason.as_str()));
        }
        if !is_strictly_ascending(self.initialized_ticks.as_slice()) {
            return Err(bad_pool("initialized_ticks must be strictly ascending"));
        }
        Ok(())
    }

    /// The quote of an input that the fee uses up: nothing moves.
    pub open spec fn idle_quote(self, amount_in: nat) -> KyberQuoteView {
        KyberQuoteView {
            amount_in,
            amount_in_after_fee: 0,
            amount_out: 0,
            execution_price_wad: 0,
            price_impact_bps: 0,
            sqrt_price_before_x96: self.sqrt_price_x96@,
            sqrt_price_after_x96: self.sqrt_price_x96@,
            tick_before: self.tick as int,
            tick_after: self.tick as int,
            liquidity_before: self.liquidity as nat,
            liquidity_after: self.liquidity as nat,
            crossed_ticks: seq![],
            used_single_range_fallback: true,
        }
    }

    /// The state in which a swap starts.
    pub open spec fn start(self, amount_in: nat) -> SwapState {
        SwapState {
            remaining: amount_in,
            out: 0,
            price: self.sqrt_price_x96@,
            tick: self.tick as int,
            liquidity: self.liquidity as nat,
            crossed: seq![],
        }
    }
}

/// The fee taken from the whole input, or the error of its product.
pub open spec fn kyber_net_input(amount_in: nat, fee_bps: nat) -> Result<nat, MathErr> {
    match after_fee(amount_in, fee_bps) {
        Some(net) => Ok(net),
        None => Err(
            e_overflow(
                "kyber.apply_fee"@,
                seq![],
                "amount_in="@ + dec(amount_in) + ", fee_bps="@ + dec(fee_bps),
            ),
        ),
    }
}

/// Takes the fee from the whole input.
fn apply_fee(amount_in: U256, fee_bps: BasisPoints) -> (r: Result<U256, MathError>)
    requires
        fee_bps.wf(),
    ensures
        math_view(r) == kyber_net_input(amount_in@, fee_bps@),
{
    match amount_after_fee(amount_in, fee_bps) {
        Some(net) => Ok(net),
        None => {
            let context = "amount_in=".to_owned().concat(text_u256(amount_in).as_str()).concat(
                ", fee_bps=",
            ).concat(text_u128(fee_bps.as_u32() as u128).as_str());
            Err(overflow0("kyber.apply_fee", context.as_str()))
        },
    }
}

/// The execution price as this module names it in errors.
pub open spec fn kyber_execution_price(
    amount_in: nat,
    amount_out: nat,
    direction: SwapDirection,
) -> Result<nat, MathErr> {
    execution_price_spec(
        "kyber.execution_price_wad"@,
        "mul_div failed: "@,
        "inverse mul_div failed: "@,
        amount_in,
        amount_out,
        direction,
    )
}

fn execution_price_wad(amount_in: U256, amount_out: U256, direction: SwapDirection) -> (r: Result<
    U256,
    MathError,
>)
    ensures
        math_view(r) == kyber_execution_price(amount_in@, amount_out@, direction),
{
    execution_price(
        "kyber.execution_price_wad",
        "mul_div failed: ",
        "inverse mul_div failed: ",
        amount_in,
        amount_out,
        direction,
    )
}

/// Finds the next initialized tick in a direction.
pub fn find_next_initialized_tick(
    current_tick: i32,
    initialized_ticks: &[i32],
    tick_spacing: i32,
    zero_for_one: bool,
) -> (r: Result<i32, MathError>)
    requires
        ascending(initialized_ticks@),
    ensures
        tick_view(r) == next_tick_spec(
            "kyber.find_next_initialized_tick"@,
            current_tick as int,
            initialized_ticks@,
            tick_spacing as int,
            zero_for_one,
        ),
        r is Ok ==> is_next(
            initialized_ticks@,
            current_tick as int,
            r->Ok_0 as int,
            zero_for_one,
        ),
{
    proof {
        law_next_tick_is_the_nearest(
            "kyber.find_next_initialized_tick"@,
            current_tick as int,
            initialized_ticks@,
            tick_spacing as int,
            zero_for_one,
        );
    }
    next_tick_for(
        "kyber.find_next_initialized_tick",
        current_tick,
        initialized_ticks,
        tick_spacing,
        zero_for_one,
    )
}

/// The proof that a swap stays below the next tick: the input after fee is less than what takes
/// the price there.
pub open spec fn kyber_single_range(
    pool: KyberPoolSnapshot,
    net: nat,
    direction: SwapDirection,
) -> Result<int, DexErr> {
    match next_tick_spec(
        "kyber.find_next_initialized_tick"@,
        pool.tick as int,
        pool.initialized_ticks@,
        pool.tick_spacing as int,
        direction.is_down(),
    ) {
        Err(e) => Err(DexErr::MathError(e)),
        Ok(next_tick) => match kyber_ratio_spec(next_tick) {
            Err(e) => Err(DexErr::MathError(e)),
            Ok(boundary) => match input_to_boundary(
                pool.sqrt_price_x96@,
                boundary,
                pool.liquidity as nat,
                direction.is_down(),
            ) {
                Err(e) => Err(DexErr::MathError(e)),
                Ok(limit) => if net < limit {
                    Ok(next_tick)
                } else {
                    Err(crossing_possible(pool.tick as int, next_tick))
                },
            },
        },
    }
}

/// Proves that a swap stays below the next tick, and returns that tick.
fn validate_single_range_fallback(
    pool: &KyberPoolSnapshot,
    amount_in_after_fee: U256,
    direction: SwapDirection,
) -> (r: Result<i32, DexError>)
    requires
        ascending(pool.initialized_ticks@),
    ensures
        match r {
            Ok(t) => kyber_single_range(*pool, amount_in_after_fee@, direction) == Ok::<
                int,
                DexErr,
            >(t as int),
            Err(e) => kyber_single_range(*pool, amount_in_after_fee@, direction) == Err::<
                int,
                DexErr,
            >(e@),
        },
{
    let down: bool = direction.zero_for_one();
    let next_tick: i32 = match find_next_initialized_tick(
        pool.tick,
        pool.initialized_ticks.as_slice(),
        pool.tick_spacing,
        down,
    ) {
        Ok(t) => t,
        Err(e) => return Err(DexError::MathError(e)),
    };
    let boundary = match get_sqrt_ratio_at_tick(next_tick) {
        Ok(p) => p,
        Err(e) => return Err(DexError::MathError(e)),
    };
    let limit = match calculate_input_to_boundary(
        pool.sqrt_price_x96,
        boundary,
        pool.liquidity,
        down,
    ) {
        Ok(a) => a,
        Err(e) => return Err(DexError::MathError(e)),
    };
    if amount_in_after_fee.less(&limit) {
        Ok(next_tick)
    } else {
        Err(refuse_crossing(pool.tick, next_tick))
    }
}

/// The quote that follows from the state after a swap.
pub open spec fn kyber_settled(
    pool: KyberPoolSnapshot,
    amount_in: nat,
    net: nat,
    direction: SwapDirection,
    end: SwapState,
    fallback: bool,
) -> Result<KyberQuoteView, DexErr> {
    match kyber_execution_price(amount_in, end.out, direction) {
        Err(e) => Err(DexErr::MathError(e)),
        Ok(execution) => match v3_impact_spec(pool.sqrt_price_x96@, end.price) {
            Err(e) => Err(DexErr::MathError(e)),
            Ok(impact) => Ok(
                KyberQuoteView {
                    amount_in,
                    amount_in_after_fee: net,
                    amount_out: end.out,
                    execution_price_wad: execution,
                    price_impact_bps: impact,
                    sqrt_price_before_x96: pool.sqrt_price_x96@,
                    sqrt_price_after_x96: end.price,
                    tick_before: pool.tick as int,
                    tick_after: end.tick,
                    liquidity_before: pool.liquidity as nat,
                    liquidity_after: end.liquidity,
                    crossed_ticks: end.crossed,
                    used_single_range_fallback: fallback,
                },
            ),
        },
    }
}

/// The view of a quote result.
pub open spec fn kyber_quote_view(r: Result<KyberExactInQuote, DexError>) -> Result<
    KyberQuoteView,
    DexErr,
> {
    match r {
        Ok(q) => Ok(q@),
        Err(e) => Err(e@),
    }
}

/// Settles a quote.
fn settle(
    pool: &KyberPoolSnapshot,
    amount_in: U256,
    net: U256,
    direction: SwapDirection,
    amount_out: U256,
    price: U256,
    tick: i32,
    liquidity: u128,
    crossed_ticks: Vec<i32>,
    fallback: bool,
) -> (r: Result<KyberExactInQuote, DexError>)
    ensures
        kyber_quote_view(r) == kyber_settled(
            *pool,
            amount_in@,
            net@,
            direction,
            SwapState {
                remaining: 0,
                out: amount_out@,
                price: price@,
                tick: tick as int,
                liquidity: liquidity as nat,
                crossed: crossed_ticks@,
            },
            fallback,
        ),
{
    let execution = match execution_price_wad(amount_in, amount_out, direction) {
        Ok(v) => v,
        Err(e) => return Err(DexError::MathError(e)),
    };
    let impact: u32 = match calculate_v3_price_impact(pool.sqrt_price_x96, price) {
        Ok(v) => v,
        Err(e) => return Err(DexError::MathError(e)),
    };
    Ok(
        KyberExactInQuote {
            amount_in,
            amount_in_after_fee: net,
            amount_out,
            execution_price_wad: execution,
            price_impact_bps: impact,
            sqrt_price_before_x96: pool.sqrt_price_x96,
            sqrt_price_after_x96: price,
            tick_before: pool.tick,
            tick_after: tick,
            liquidity_before: pool.liquidity,
            liquidity_after: liquidity,
            crossed_ticks,
            used_single_range_fallback: fallback,
        },
    )
}

/// The quote of a pool without liquidity entries: one step that stays within the current range.
pub open spec fn kyber_fallback_spec(
    pool: KyberPoolSnapshot,
    amount_in: nat,
    net: nat,
    direction: SwapDirection,
) -> Result<KyberQuoteView, DexErr> {
    match kyber_single_range(pool, net, direction) {
        Err(e) => Err(e),
        Ok(next_tick) => match kyber_ratio_spec(next_tick) {
            Err(e) => Err(DexErr::MathError(e)),
            Ok(target) => if amount_in > i128::MAX {
                Err(e_pool("amount_in exceeds i128 range required by swap step"@))
            } else {
                match kyber_step_spec(
                    pool.liquidity as nat,
                    pool.sqrt_price_x96@,
                    target,
                    pool.fee_bps@,
                    amount_in as int,
                    true,
                ) {
                    Err(e) => Err(DexErr::MathError(e)),
                    Ok(step) => kyber_fallback_end(pool, amount_in, net, direction, step),
                }
            },
        },
    }
}

/// The quote that follows from the one step of the fallback.
pub open spec fn kyber_fallback_end(
    pool: KyberPoolSnapshot,
    amount_in: nat,
    net: nat,
    direction: SwapDirection,
    step: StepView,
) -> Result<KyberQuoteView, DexErr> {
    if step.used <= 0 {
        Err(e_pool("swap step produced non-positive used_amount"@))
    } else if step.returned >= 0 {
        Err(e_pool("swap step produced non-negative returned_amount for exact-input"@))
    } else {
        match kyber_tick_spec(step.next) {
            Err(e) => Err(DexErr::MathError(e)),
            Ok(tick) => kyber_settled(
                pool,
                amount_in,
                net,
                direction,
                SwapState {
                    remaining: 0,
                    out: (-step.returned) as nat,
                    price: step.next,
                    tick,
                    liquidity: pool.liquidity as nat,
                    crossed: seq![],
                },
                true,
            ),
        }
    }
}

/// Quotes the fallback from its one step.
pub fn finish_single_range(
    pool: &KyberPoolSnapshot,
    amount_in: U256,
    net: U256,
    direction: SwapDirection,
    step: SwapStepResult,
) -> (r: Result<KyberExactInQuote, DexError>)
    requires
        step.returned_amount > i128::MIN,
    ensures
        kyber_quote_view(r) == kyber_fallback_end(*pool, amount_in@, net@, direction, step@),
        r is Ok ==> is_tick_of(r->Ok_0.tick_after as int, step.next_sqrt_p@),
{
    if step.used_amount <= 0 {
        return Err(bad_pool("swap step produced non-positive used_amount"));
    }
    if step.returned_amount >= 0 {
        return Err(
            bad_pool("swap step produced non-negative returned_amount for exact-input"),
        );
    }
    let amount_out = U256::from_u128((-step.returned_amount) as u128);
    let tick: i32 = match get_tick_at_sqrt_ratio(step.next_sqrt_p) {
        Ok(t) => t,
        Err(e) => return Err(DexError::MathError(e)),
    };
    let none: Vec<i32> = Vec::new();
    proof {
        assert(none@ =~= seq![]);
    }
    settle(
        pool,
        amount_in,
        net,
        direction,
        amount_out,
        step.next_sqrt_p,
        tick,
        pool.liquidity,
        none,
        true,
    )
}

/// An amount as an `i128`, where it fits.
pub fn to_i128(amount: U256) -> (r: Option<i128>)
    ensures
        match r {
            Some(v) => v == amount@,
            None => amount@ > i128::MAX,
        },
{
    match amount.to_u128() {
        Some(v) => {
            if v <= i128::MAX as u128 {
                Some(v as i128)
            } else {
                None
            }
        },
        None => None,
    }
}

/// Whether a quote is that of a walk from range to range, and its tick is that of its price, where
/// the tick of the pool fits its price and anything is left after the fee.
pub open spec fn is_walked_quote(
    pool: KyberPoolSnapshot,
    direction: SwapDirection,
    q: KyberQuoteView,
) -> bool {
    is_placed(pool.tick as int, pool.sqrt_price_x96@) && q.amount_in_after_fee > 0 ==> {
        &&& is_swap(
            Stand {
                price: pool.sqrt_price_x96@,
                liquidity: pool.liquidity as nat,
                left: q.amount_in,
                out: 0,
            },
            Stand {
                price: q.sqrt_price_after_x96,
                liquidity: q.liquidity_after,
                left: 0,
                out: q.amount_out,
            },
            q.crossed_ticks,
            pool.tick_liquidity_net@,
            pool.fee_bps@,
            direction.is_down(),
            Charge::Included,
        )
        &&& is_tick_of(q.tick_after, q.sqrt_price_after_x96)
    }
}

/// Quotes a swap within the current range.
fn quote_single_range(
    pool: &KyberPoolSnapshot,
    amount_in: U256,
    net: U256,
    direction: SwapDirection,
) -> (r: Result<KyberExactInQuote, DexError>)
    requires
        ascending(pool.initialized_ticks@),
    ensures
        kyber_quote_view(r) == kyber_fallback_spec(*pool, amount_in@, net@, direction),
        r is Ok && kyber_net_input(amount_in@, pool.fee_bps@) == Ok::<nat, MathErr>(net@)
            ==> is_walked_quote(*pool, direction, r->Ok_0@) && r->Ok_0@.crossed_ticks.len() == 0,
{
    let next_tick: i32 = match validate_single_range_fallback(pool, net, direction) {
        Ok(t) => t,
        Err(e) => return Err(e),
    };
    let target = match get_sqrt_ratio_at_tick(next_tick) {
        Ok(p) => p,
        Err(e) => return Err(DexError::MathError(e)),
    };
    let specified: i128 = match to_i128(amount_in) {
        Some(v) => v,
        None => return Err(bad_pool("amount_in exceeds i128 range required by swap step")),
    };
    let down: bool = direction.zero_for_one();
    let step = match compute_swap_step(
        pool.liquidity,
        pool.sqrt_price_x96,
        target,
        pool.fee_bps.as_u32(),
        specified,
        true,
        down,
    ) {
        Ok(s) => s,
        Err(e) => return Err(DexError::MathError(e)),
    };
    proof {
        let start = Stand {
            price: pool.sqrt_price_x96@,
            liquidity: pool.liquidity as nat,
            left: amount_in@,
            out: 0,
        };
        let (used, given) = (step@.used as nat, (-step@.returned) as nat);
        let goal = target@;
        if is_placed(pool.tick as int, start.price) && specified > 0 && kyber_net_input(
            amount_in@,
            pool.fee_bps@,
        ) == Ok::<nat, MathErr>(net@) {
            law_next_tick_is_the_nearest(
                "kyber.find_next_initialized_tick"@,
                pool.tick as int,
                pool.initialized_ticks@,
                pool.tick_spacing as int,
                down,
            );
            lemma_goal_lies_ahead(
                pool.initialized_ticks@,
                pool.tick as int,
                start.price,
                next_tick as int,
                down,
            );
            let needed = taken_between(start.price, goal, start.liquidity, start.price >= goal);
            if start.price == goal {
                lemma_nothing_between(goal, start.liquidity, down);
                assert(false);
            }
            lemma_step_stops_short(
                start.price,
                goal,
                start.liquidity,
                amount_in@,
                step@.next,
                used,
                given,
                pool.fee_bps@,
                needed->Ok_0,
            );
            lemma_step_onward(start, goal, step@.next, used, given, pool.fee_bps@, down);
            lemma_walk_starts(
                start,
                pool.tick_liquidity_net@,
                pool.fee_bps@,
                down,
                Charge::Included,
            );
            lemma_walk_ends(
                seq![],
                Leg {
                    from: start,
                    to: Stand { price: step@.next, left: 0, out: given, ..start },
                    goal,
                },
                start,
                seq![],
                pool.tick_liquidity_net@,
                pool.fee_bps@,
                down,
                Charge::Included,
            );
        }
    }
    finish_single_range(pool, amount_in, net, direction, step)
}

/// The liquidity after a crossed tick, or the refusal.
pub open spec fn kyber_crossing(
    net: Map<i32, i128>,
    liquidity: nat,
    next_tick: int,
    down: bool,
) -> Result<nat, DexErr> {
    if !net.dom().contains(next_tick as i32) {
        Err(e_pool("missing liquidityNet for crossed tick "@ + dec_int(next_tick)))
    } else {
        let l = crossed(liquidity, net[next_tick as i32] as int, down);
        if liquidity > i128::MAX || l > i128::MAX {
            Err(e_pool("liquidity overflow after crossing tick "@ + dec_int(next_tick)))
        } else if l < 0 {
            Err(e_pool("negative active liquidity after crossing tick "@ + dec_int(next_tick)))
        } else if l == 0 {
            Err(e_pool("liquidity became zero before amount was exhausted"@))
        } else {
            Ok(l as nat)
        }
    }
}

/// Crosses a tick while input is left.
fn cross(net: &HashMap<i32, i128>, liquidity: u128, next_tick: i32, down: bool) -> (r: Result<
    u128,
    DexError,
>)
    ensures
        match r {
            Ok(l) => kyber_crossing(net@, liquidity as nat, next_tick as int, down) == Ok::<
                nat,
                DexErr,
            >(l as nat),
            Err(e) => kyber_crossing(net@, liquidity as nat, next_tick as int, down) == Err::<
                nat,
                DexErr,
            >(e@),
        },
{
    match net.get(&next_tick) {
        None => {
            let reason = "missing liquidityNet for crossed tick ".to_owned().concat(
                text_i128(next_tick as i128).as_str(),
            );
            Err(bad_pool(reason.as_str()))
        },
        Some(change) => match cross_tick(liquidity, *change, down) {
            Crossing::Negative => {
                let reason = "negative active liquidity after crossing tick ".to_owned().concat(
                    text_i128(next_tick as i128).as_str(),
                );
                Err(bad_pool(reason.as_str()))
            },
            Crossing::TooLarge => {
                let reason = "liquidity overflow after crossing tick ".to_owned().concat(
                    text_i128(next_tick as i128).as_str(),
                );
                Err(bad_pool(reason.as_str()))
            },
            Crossing::Liquidity(l) => {
                if l == 0 {
                    Err(bad_pool("liquidity became zero before amount was exhausted"))
                } else {
                    Ok(l)
                }
            },
        },
    }
}

/// The state after one range, and whether the swap goes on behind the tick.
pub open spec fn kyber_swap_step(pool: KyberPoolSnapshot, down: bool, st: SwapState) -> Result<
    (SwapState, bool),
    DexErr,
> {
    match next_tick_spec(
        "kyber.find_next_initialized_tick"@,
        st.tick,
        pool.initialized_ticks@,
        pool.tick_spacing as int,
        down,
    ) {
        Err(e) => Err(DexErr::MathError(e)),
        Ok(next_tick) => match kyber_ratio_spec(next_tick) {
            Err(e) => Err(DexErr::MathError(e)),
            Ok(target) => if st.remaining > i128::MAX {
                Err(e_pool("remaining amount exceeds i128 range required by swap step"@))
            } else {
                match kyber_step_spec(
                    st.liquidity,
                    st.price,
                    target,
                    pool.fee_bps@,
                    st.remaining as int,
                    true,
                ) {
                    Err(e) => Err(DexErr::MathError(e)),
                    Ok(step) => kyber_after_step(pool, down, st, next_tick, target, step),
                }
            },
        },
    }
}

/// The state after a step towards a tick, and whether the swap goes on behind the tick.
pub open spec fn kyber_after_step(
    pool: KyberPoolSnapshot,
    down: bool,
    st: SwapState,
    next_tick: int,
    target: nat,
    step: StepView,
) -> Result<(SwapState, bool), DexErr> {
    let out = st.out + (-step.returned);
    if !fits(out as nat) {
        Err(
            DexErr::MathError(
                e_overflow(
                    "kyber.quote_exact_input.amount_out_total"@,
                    seq![],
                    "accumulate output"@,
                ),
            ),
        )
    } else {
        match kyber_tick_spec(step.next) {
            Err(e) => Err(DexErr::MathError(e)),
            Ok(tick) => {
                let remaining = (st.remaining - step.used) as nat;
                let moved = SwapState {
                    remaining,
                    out: out as nat,
                    price: step.next,
                    tick,
                    liquidity: st.liquidity,
                    crossed: st.crossed,
                };
                if step.next == target && remaining != 0 {
                    match kyber_crossing(pool.tick_liquidity_net@, st.liquidity, next_tick, down) {
                        Err(e) => Err(e),
                        Ok(l) => Ok(
                            (
                                SwapState {
                                    liquidity: l,
                                    crossed: st.crossed.push(next_tick as i32),
                                    ..moved
                                },
                                true,
                            ),
                        ),
                    }
                } else {
                    Ok((moved, false))
                }
            },
        }
    }
}

/// The state in which a swap ends, with the number of ranges that it may still enter.
pub open spec fn kyber_swap(pool: KyberPoolSnapshot, down: bool, st: SwapState, left: nat) -> Result<
    SwapState,
    DexErr,
>
    decreases left,
{
    if st.remaining == 0 || left == 0 {
        Ok(st)
    } else {
        match kyber_swap_step(pool, down, st) {
            Err(e) => Err(e),
            Ok((next, goes_on)) => if goes_on {
                kyber_swap(pool, down, next, (left - 1) as nat)
            } else {
                Ok(next)
            },
        }
    }
}

/// The exact-input quote of a Kyber pool.
pub open spec fn kyber_quote_spec(
    pool: KyberPoolSnapshot,
    amount_in: nat,
    direction: SwapDirection,
) -> Result<KyberQuoteView, DexErr> {
    match pool.static_error() {
        Some(e) => Err(e),
        None => if amount_in == 0 {
            Err(
                DexErr::MathError(
                    e_invalid("kyber.quote_exact_input"@, "amount_in cannot be zero"@, ""@),
                ),
            )
        } else if pool.initialized_ticks@.len() == 0 {
            Err(e_pool("initialized_ticks missing; exact Kyber quote unavailable"@))
        } else {
            match kyber_net_input(amount_in, pool.fee_bps@) {
                Err(e) => Err(DexErr::MathError(e)),
                Ok(net) => if net == 0 {
                    Ok(pool.idle_quote(amount_in))
                } else if pool.tick_liquidity_net@.dom().len() == 0 {
                    kyber_fallback_spec(pool, amount_in, net, direction)
                } else {
                    match kyber_swap(pool, direction.is_down(), pool.start(amount_in), 1024) {
                        Err(e) => Err(e),
                        Ok(end) => kyber_ended(pool, amount_in, net, direction, end),
                    }
                },
            }
        },
    }
}

/// The quote of a swap that has ended, or the refusal of one that did not use up its input.
pub open spec fn kyber_ended(
    pool: KyberPoolSnapshot,
    amount_in: nat,
    net: nat,
    direction: SwapDirection,
    end: SwapState,
) -> Result<KyberQuoteView, DexErr> {
    if end.remaining != 0 {
        Err(e_pool("swap exceeded 1024 tick-crossings; quote incomplete"@))
    } else {
        kyber_settled(pool, amount_in, net, direction, end, false)
    }
}

/// Quotes an exact input with tick crossing.
///
/// A snapshot without liquidity entries is quoted only where the swap provably stays within the
/// current range; a tick without an entry is not crossed. A quote that crosses ticks uses up its
/// whole input: a swap that has input left after 1024 ticks is refused.
#[verifier::rlimit(40)]
pub fn quote_exact_input(
    pool: &KyberPoolSnapshot,
    amount_in: U256,
    direction: SwapDirection,
) -> (r: Result<KyberExactInQuote, DexError>)
    ensures
        kyber_quote_view(r) == kyber_quote_spec(*pool, amount_in@, direction),
        r is Ok && !r->Ok_0.used_single_range_fallback ==> (kyber_swap(
            *pool,
            direction.is_down(),
            pool.start(amount_in@),
            1024,
        ) matches Ok(end) && end.remaining == 0),
        r is Ok ==> is_walked_quote(*pool, direction, r->Ok_0@) && in_order(
            pool.initialized_ticks@,
            pool.tick as int,
            r->Ok_0@.crossed_ticks,
            direction.is_down(),
        ),
{
    match pool.validate_static() {
        Ok(_) => {},
        Err(e) => return Err(e),
    }
    if amount_in.is_zero() {
        return Err(
            DexError::MathError(
                invalid("kyber.quote_exact_input", "amount_in cannot be zero", ""),
            ),
        );
    }
    if pool.initialized_ticks.len() == 0 {
        return Err(bad_pool("initialized_ticks missing; exact Kyber quote unavailable"));
    }
    let net = match apply_fee(amount_in, pool.fee_bps) {
        Ok(v) => v,
        Err(e) => return Err(DexError::MathError(e)),
    };
    let mut crossed_ticks: Vec<i32> = Vec::new();
    proof {
        assert(crossed_ticks@ =~= seq![]);
    }
    if net.is_zero() {
        return Ok(
            KyberExactInQuote {
                amount_in,
                amount_in_after_fee: net,
                amount_out: U256::zero(),
                execution_price_wad: U256::zero(),
                price_impact_bps: 0,
                sqrt_price_before_x96: pool.sqrt_price_x96,
                sqrt_price_after_x96: pool.sqrt_price_x96,
                tick_before: pool.tick,
                tick_after: pool.tick,
                liquidity_before: pool.liquidity,
                liquidity_after: pool.liquidity,
                crossed_ticks,
                used_single_range_fallback: true,
            },
        );
    }
    if pool.tick_liquidity_net.is_empty() {
        return quote_single_range(pool, amount_in, net, direction);
    }
    let down: bool = direction.zero_for_one();
    let mut remaining = amount_in;
    let mut out = U256::zero();
    let mut price = pool.sqrt_price_x96;
    let mut tick: i32 = pool.tick;
    let mut liquidity: u128 = pool.liquidity;
    let mut left: u32 = 1024;
    let ghost whole = kyber_swap(*pool, down, pool.start(amount_in@), 1024);
    let ghost placed = is_placed(tick as int, price@);
    let ghost start = Stand {
        price: price@,
        liquidity: liquidity as nat,
        left: amount_in@,
        out: 0,
    };
    let ghost ticks = pool.initialized_ticks@;
    let ghost entries = pool.tick_liquidity_net@;
    let ghost mut legs: Seq<Leg> = seq![];
    proof {
        lemma_walk_starts(start, entries, pool.fee_bps@, down, Charge::Included);
    }
    while left > 0 && !remaining.is_zero()
        invariant_except_break
            whole == kyber_swap(
                *pool,
                down,
                SwapState {
                    remaining: remaining@,
                    out: out@,
                    price: price@,
                    tick: tick as int,
                    liquidity: liquidity as nat,
                    crossed: crossed_ticks@,
                },
                left as nat,
            ),
            remaining@ > 0,
            placed ==> is_placed(tick as int, price@) && is_walk(
                legs,
                start,
                Stand {
                    price: price@,
                    liquidity: liquidity as nat,
                    left: remaining@,
                    out: out@,
                },
                crossed_ticks@,
                entries,
                pool.fee_bps@,
                down,
                Charge::Included,
            ),
            tick == if crossed_ticks@.len() == 0 {
                pool.tick
            } else {
                crossed_ticks@.last()
            },
        invariant
            in_order(ticks, pool.tick as int, crossed_ticks@, down),
            ticks == pool.initialized_ticks@,
            entries == pool.tick_liquidity_net@,
            ascending(pool.initialized_ticks@),
            kyber_quote_spec(*pool, amount_in@, direction) == match whole {
                Err(e) => Err(e),
                Ok(end) => kyber_ended(*pool, amount_in@, net@, direction, end),
            },
        ensures
            whole == Ok::<SwapState, DexErr>(
                SwapState {
                    remaining: remaining@,
                    out: out@,
                    price: price@,
                    tick: tick as int,
                    liquidity: liquidity as nat,
                    crossed: crossed_ticks@,
                },
            ),
            remaining@ == 0 ==> is_tick_of(tick as int, price@),
            remaining@ == 0 && placed ==> is_swap(
                start,
                Stand { price: price@, liquidity: liquidity as nat, left: 0, out: out@ },
                crossed_ticks@,
                entries,
                pool.fee_bps@,
                down,
                Charge::Included,
            ),
        decreases left,
    {
        left = left - 1;
        let ghost here = Stand {
            price: price@,
            liquidity: liquidity as nat,
            left: remaining@,
            out: out@,
        };
        let ghost prior = tick;
        let next_tick: i32 = match find_next_initialized_tick(
            tick,
            pool.initialized_ticks.as_slice(),
            pool.tick_spacing,
            down,
        ) {
            Ok(t) => t,
            Err(e) => return Err(DexError::MathError(e)),
        };
        let target = match get_sqrt_ratio_at_tick(next_tick) {
            Ok(p) => p,
            Err(e) => return Err(DexError::MathError(e)),
        };
        let specified: i128 = match to_i128(remaining) {
            Some(v) => v,
            None => return Err(
                bad_pool("remaining amount exceeds i128 range required by swap step"),
            ),
        };
        let step = match compute_swap_step(
            liquidity,
            price,
            target,
            pool.fee_bps.as_u32(),
            specified,
            true,
            down,
        ) {
            Ok(s) => s,
            Err(e) => return Err(DexError::MathError(e)),
        };
        let used = U256::from_u128(step.used_amount as u128);
        let gained = U256::from_u128((-step.returned_amount) as u128);
        out = match out.checked_add(gained) {
            Some(v) => v,
            None => return Err(
                DexError::MathError(
                    overflow0("kyber.quote_exact_input.amount_out_total", "accumulate output"),
                ),
            ),
        };
        remaining = remaining.minus(used);
        price = step.next_sqrt_p;
        tick = match get_tick_at_sqrt_ratio(price) {
            Ok(t) => t,
            Err(e) => return Err(DexError::MathError(e)),
        };
        let ghost leg = Leg {
            from: here,
            to: Stand {
                price: price@,
                liquidity: liquidity as nat,
                left: remaining@,
                out: out@,
            },
            goal: target@,
        };
        proof {
            if placed {
                lemma_goal_lies_ahead(ticks, prior as int, here.price, next_tick as int, down);
                lemma_step_onward(
                    here,
                    target@,
                    price@,
                    used@,
                    gained@,
                    pool.fee_bps@,
                    down,
                );
            }
        }
        if step.next_sqrt_p.same(&target) && !remaining.is_zero() {
            liquidity = match cross(&pool.tick_liquidity_net, liquidity, next_tick, down) {
                Ok(l) => l,
                Err(e) => return Err(e),
            };
            proof {
                if placed {
                    lemma_walk_on(
                        legs,
                        leg,
                        start,
                        Stand { liquidity: liquidity as nat, ..leg.to },
                        crossed_ticks@,
                        next_tick,
                        entries,
                        pool.fee_bps@,
                        down,
                        Charge::Included,
                    );
                    legs = legs.push(leg);
                }
                lemma_one_more_in_order(
                    ticks,
                    pool.tick as int,
                    crossed_ticks@,
                    next_tick,
                    down,
                );
                assert(sqrt_ratio_at(next_tick as int) == price@);
                assert(tick == next_tick);
            }
            crossed_ticks.push(next_tick);
        } else {
            proof {
                if placed && remaining@ == 0 {
                    lemma_walk_ends(
                        legs,
                        leg,
                        start,
                        crossed_ticks@,
                        entries,
                        pool.fee_bps@,
                        down,
                        Charge::Included,
                    );
                }
            }
            break;
        }
    }
    if !remaining.is_zero() {
        return Err(bad_pool("swap exceeded 1024 tick-crossings; quote incomplete"));
    }
    settle(
        pool,
        amount_in,
        net,
        direction,
        out,
        price,
        tick,
        liquidity,
        crossed_ticks,
        false,
    )
}

/// The induction behind [`law_quote_accounts_for_liquidity`].
proof fn lemma_swap_end(pool: KyberPoolSnapshot, down: bool, st: SwapState, left: nat, before: nat)
    requires
        accounts_for(pool.tick_liquidity_net@, before, st.liquidity, st.crossed, down),
    ensures
        kyber_swap(pool, down, st, left) matches Ok(end) ==> {
            &&& accounts_for(pool.tick_liquidity_net@, before, end.liquidity, end.crossed, down)
            &&& end.crossed.len() <= st.crossed.len() + left
        },
    decreases left,
{
    if st.remaining != 0 && left > 0 {
        match kyber_swap_step(pool, down, st) {
            Err(_) => {},
            Ok((next, goes_on)) => {
                if goes_on {
                    lemma_one_more_crossing(
                        pool.tick_liquidity_net@,
                        before,
                        st.liquidity,
                        st.crossed,
                        next.crossed.last(),
                        down,
                    );
                    lemma_swap_end(pool, down, next, (left - 1) as nat, before);
                }
            },
        }
    }
}

/// A quote crosses only ticks whose liquidity is known, at most 1024 of them, and its liquidity
/// afterwards is the one before with the entries of the crossed ticks applied.
pub proof fn law_quote_accounts_for_liquidity(
    pool: KyberPoolSnapshot,
    amount_in: nat,
    direction: SwapDirection,
)
    ensures
        kyber_quote_spec(pool, amount_in, direction) matches Ok(q) ==> {
            &&& accounts_for(
                pool.tick_liquidity_net@,
                q.liquidity_before,
                q.liquidity_after,
                q.crossed_ticks,
                direction.is_down(),
            )
            &&& q.liquidity_before == pool.liquidity
            &&& q.crossed_ticks.len() <= 1024
        },
{
    lemma_swap_end(
        pool,
        direction.is_down(),
        pool.start(amount_in),
        1024,
        pool.liquidity as nat,
    );
}

/// A snapshot that does not determine the swap is refused, and so is an empty input.
pub proof fn law_incomplete_snapshot_is_refused(
    pool: KyberPoolSnapshot,
    amount_in: nat,
    direction: SwapDirection,
)
    requires
        amount_in == 0 || pool.sqrt_price_x96@ == 0 || pool.liquidity == 0 || pool.tick_spacing
            <= 0 || pool.fee_bps@ >= 10_000 || pool.initialized_ticks@.len() == 0
            || !strictly_ascending(pool.initialized_ticks@),
    ensures
        kyber_quote_spec(pool, amount_in, direction) is Err,
{
}

/// A quote without liquidity entries stays within the current range.
pub proof fn law_fallback_crosses_nothing(
    pool: KyberPoolSnapshot,
    amount_in: nat,
    direction: SwapDirection,
)
    requires
        pool.tick_liquidity_net@.dom().len() == 0,
    ensures
        kyber_quote_spec(pool, amount_in, direction) matches Ok(q) ==> {
            &&& q.used_single_range_fallback
            &&& q.crossed_ticks.len() == 0
            &&& q.liquidity_after == q.liquidity_before
        },
{
}

/// A swap moves the price in its direction: token 0 for token 1 never raises it, and token 1 for
/// token 0 never lowers it.
pub proof fn law_price_follows_the_direction(
    pool: KyberPoolSnapshot,
    direction: SwapDirection,
    q: KyberQuoteView,
)
    requires
        is_placed(pool.tick as int, pool.sqrt_price_x96@),
        q.amount_in_after_fee > 0,
        is_walked_quote(pool, direction, q),
    ensures
        match direction {
            SwapDirection::Token0ToToken1 => q.sqrt_price_after_x96 <= pool.sqrt_price_x96@,
            SwapDirection::Token1ToToken0 => pool.sqrt_price_x96@ <= q.sqrt_price_after_x96,
        },
{
    law_swap_pays_the_sum_of_its_ranges(
        Stand {
            price: pool.sqrt_price_x96@,
            liquidity: pool.liquidity as nat,
            left: q.amount_in,
            out: 0,
        },
        Stand {
            price: q.sqrt_price_after_x96,
            liquidity: q.liquidity_after,
            left: 0,
            out: q.amount_out,
        },
        q.crossed_ticks,
        pool.tick_liquidity_net@,
        pool.fee_bps@,
        direction.is_down(),
        Charge::Included,
    );
}

/// A step that goes on has crossed the initialized tick next to the tick where it began, below it
/// where token 0 comes in and above it where token 1 does, and has applied its entry.
pub proof fn law_step_crosses_the_next_tick(pool: KyberPoolSnapshot, down: bool, st: SwapState)
    requires
        ascending(pool.initialized_ticks@),
    ensures
        kyber_swap_step(pool, down, st) matches Ok((next, true)) ==> {
            &&& next.crossed.len() == st.crossed.len() + 1
            &&& next.crossed.drop_last() == st.crossed
            &&& is_next(pool.initialized_ticks@, st.tick, next.crossed.last() as int, down)
            &&& pool.tick_liquidity_net@.dom().contains(next.crossed.last())
            &&& down ==> next.liquidity == st.liquidity
                - pool.tick_liquidity_net@[next.crossed.last()]
            &&& !down ==> next.liquidity == st.liquidity
                + pool.tick_liquidity_net@[next.crossed.last()]
            &&& next.price == sqrt_ratio_at(next.crossed.last() as int)
            &&& next.remaining > 0
        },
{
    law_next_tick_is_the_nearest(
        "kyber.find_next_initialized_tick"@,
        st.tick,
        pool.initialized_ticks@,
        pool.tick_spacing as int,
        down,
    );
    match kyber_swap_step(pool, down, st) {
        Ok((next, true)) => {
            assert(next.crossed.drop_last() =~= st.crossed);
        },
        _ => {},
    }
}

/// What a swap pays is added to what was paid before: two swaps that differ in that alone end in
/// states that differ in it alone.
pub proof fn law_output_adds_up(
    pool: KyberPoolSnapshot,
    down: bool,
    st: SwapState,
    paid: nat,
    left: nat,
)
    requires
        kyber_swap(pool, down, st, left) is Ok,
        kyber_swap(pool, down, SwapState { out: st.out + paid, ..st }, left) is Ok,
    ensures
        ({
            let plain = kyber_swap(pool, down, st, left)->Ok_0;
            let more = kyber_swap(
                pool,
                down,
                SwapState { out: st.out + paid, ..st },
                left,
            )->Ok_0;
            &&& more == (SwapState { out: plain.out + paid, ..plain })
            &&& plain.remaining <= st.remaining
            &&& plain.out >= st.out
        }),
    decreases left,
{
    if st.remaining != 0 && left > 0 {
        let richer = SwapState { out: st.out + paid, ..st };
        let (next, goes_on) = kyber_swap_step(pool, down, st)->Ok_0;
        let (other, _) = kyber_swap_step(pool, down, richer)->Ok_0;
        assert(other == (SwapState { out: next.out + paid, ..next }));
        if goes_on {
            law_output_adds_up(pool, down, next, paid, (left - 1) as nat);
        }
    }
}

/// A swap that crosses no tick needs no liquidity entries: the quote is the one of the same pool
/// without them.
pub proof fn law_one_range_needs_no_entries(
    pool: KyberPoolSnapshot,
    bare: KyberPoolSnapshot,
    amount_in: nat,
    direction: SwapDirection,
)
    requires
        bare.sqrt_price_x96@ == pool.sqrt_price_x96@,
        bare.tick == pool.tick,
        bare.liquidity == pool.liquidity,
        bare.fee_bps@ == pool.fee_bps@,
        bare.tick_spacing == pool.tick_spacing,
        bare.initialized_ticks@ == pool.initialized_ticks@,
        bare.tick_liquidity_net@.dom().len() == 0,
        kyber_quote_spec(bare, amount_in, direction) is Ok,
        kyber_quote_spec(pool, amount_in, direction) is Ok,
        kyber_quote_spec(pool, amount_in, direction)->Ok_0.crossed_ticks.len() == 0,
    ensures
        ({
            let q = kyber_quote_spec(pool, amount_in, direction)->Ok_0;
            kyber_quote_spec(bare, amount_in, direction)->Ok_0 == (KyberQuoteView {
                used_single_range_fallback: true,
                ..q
            })
        }),
{
    let down = direction.is_down();
    let st = pool.start(amount_in);
    if pool.tick_liquidity_net@.dom().len() > 0 && kyber_net_input(amount_in, pool.fee_bps@)
        != Ok::<nat, MathErr>(0) {
        reveal_with_fuel(kyber_swap, 2);
        lemma_crossed_grows(pool, down, kyber_swap_step(pool, down, st)->Ok_0.0, 1023);
    }
}

/// A swap only adds to the ticks that it has crossed.
proof fn lemma_crossed_grows(pool: KyberPoolSnapshot, down: bool, st: SwapState, left: nat)
    ensures
        kyber_swap(pool, down, st, left) matches Ok(end) ==> end.crossed.len() >= st.crossed.len(),
    decreases left,
{
    if st.remaining != 0 && left > 0 {
        match kyber_swap_step(pool, down, st) {
            Err(_) => {},
            Ok((next, goes_on)) => {
                if goes_on {
                    lemma_crossed_grows(pool, down, next, (left - 1) as nat);
                }
            },
        }
    }
}

/// A quote says what it was asked, where the pool stood, the price of the trade in token 1 per token
/// 0, and how far the price of the pool has moved. An input that the fee uses up moves nothing.
pub proof fn law_quote_reports_the_trade(
    pool: KyberPoolSnapshot,
    amount_in: nat,
    direction: SwapDirection,
)
    ensures
        kyber_quote_spec(pool, amount_in, direction) matches Ok(q) ==> {
            &&& q.amount_in == amount_in
            &&& is_after_fee(q.amount_in_after_fee, amount_in, pool.fee_bps@)
            &&& q.sqrt_price_before_x96 == pool.sqrt_price_x96@
            &&& q.tick_before == pool.tick
            &&& q.liquidity_before == pool.liquidity
            &&& is_impact_between(
                q.price_impact_bps,
                q.sqrt_price_before_x96,
                q.sqrt_price_after_x96,
            )
            &&& if q.amount_in_after_fee == 0 {
                &&& q.amount_out == 0 && q.execution_price_wad == 0
                &&& q.sqrt_price_after_x96 == q.sqrt_price_before_x96
                &&& q.tick_after == q.tick_before
                &&& q.liquidity_after == q.liquidity_before
                &&& q.crossed_ticks.len() == 0
            } else {
                is_price_of(q.execution_price_wad, amount_in, q.amount_out, direction)
            }
        },
{
    if kyber_quote_spec(pool, amount_in, direction) is Ok {
        let q = kyber_quote_spec(pool, amount_in, direction)->Ok_0;
        law_fee_is_taken_from_the_input(amount_in, pool.fee_bps@);
        law_impact_is_the_change_of_the_price(q.sqrt_price_before_x96, q.sqrt_price_after_x96);
        law_execution_price_is_token1_per_token0(
            "kyber.execution_price_wad"@,
            "mul_div failed: "@,
            "inverse mul_div failed: "@,
            amount_in,
            q.amount_out,
            direction,
        );
        if q.amount_in_after_fee == 0 {
            lemma_no_impact(pool.sqrt_price_x96@);
        }
    }
}

/// A swap counts as one within the current range exactly where its input, less the fee, does not
/// cover the way to the next tick.
pub proof fn law_single_range_ends_at_the_next_tick(
    pool: KyberPoolSnapshot,
    net: nat,
    direction: SwapDirection,
    next_tick: int,
)
    requires
        next_tick_spec(
            "kyber.find_next_initialized_tick"@,
            pool.tick as int,
            pool.initialized_ticks@,
            pool.tick_spacing as int,
            direction.is_down(),
        ) == Ok::<int, MathErr>(next_tick),
        tick_in_range(next_tick),
        pool.sqrt_price_x96@ > 0,
        not_past(pool.sqrt_price_x96@, sqrt_ratio_at(next_tick), direction.is_down()),
        taken_between(
            pool.sqrt_price_x96@,
            sqrt_ratio_at(next_tick),
            pool.liquidity as nat,
            direction.is_down(),
        ) is Ok,
    ensures
        kyber_single_range(pool, net, direction) is Ok <==> !covers(
            pool.sqrt_price_x96@,
            sqrt_ratio_at(next_tick),
            pool.liquidity as nat,
            direction.is_down(),
            net,
        ),
{
    let (price, goal) = (pool.sqrt_price_x96@, sqrt_ratio_at(next_tick));
    let (liquidity, down) = (pool.liquidity as nat, direction.is_down());
    let limit = taken_between(price, goal, liquidity, down)->Ok_0;
    lemma_taken_covers(price, goal, liquidity, down, limit);
    if net < limit && covers(price, goal, liquidity, down, net) {
        lemma_more_covers(price, goal, liquidity, down, net, (limit - 1) as nat);
    }
    if net >= limit {
        lemma_more_covers(price, goal, liquidity, down, limit, net);
    }
}

/// A swap that uses up its input within 1024 ranges is quoted with the state in which it ends, where
/// its prices can be given; one that does not has crossed as many ticks.
pub proof fn law_swap_that_ends_is_quoted(
    pool: KyberPoolSnapshot,
    amount_in: nat,
    direction: SwapDirection,
)
    requires
        pool.static_error() is None,
        pool.initialized_ticks@.len() > 0,
        pool.tick_liquidity_net@.dom().len() > 0,
        after_fee(amount_in, pool.fee_bps@) matches Some(net) && net > 0,
        kyber_swap(pool, direction.is_down(), pool.start(amount_in), 1024) is Ok,
    ensures
        ({
            let end = kyber_swap(pool, direction.is_down(), pool.start(amount_in), 1024)->Ok_0;
            match kyber_quote_spec(pool, amount_in, direction) {
                Ok(q) => {
                    &&& end.remaining == 0
                    &&& q.amount_out == end.out && q.sqrt_price_after_x96 == end.price
                    &&& q.tick_after == end.tick && q.liquidity_after == end.liquidity
                    &&& q.crossed_ticks == end.crossed && !q.used_single_range_fallback
                },
                Err(_) => end.remaining > 0 || kyber_execution_price(
                    amount_in,
                    end.out,
                    direction,
                ) is Err || v3_impact_spec(pool.sqrt_price_x96@, end.price) is Err,
            }
        }),
{
    assert(amount_in > 0) by {
        assert(0 * ((10000 - pool.fee_bps@) as nat) == 0);
    }
}

/// A snapshot whose price has a tick is accepted exactly where it has a price, liquidity, a spacing,
/// a fee below 100% and ticks in strictly ascending order.
pub proof fn law_complete_snapshot_is_accepted(pool: KyberPoolSnapshot)
    requires
        kyber_tick_spec(pool.sqrt_price_x96@) is Ok,
    ensures
        pool.static_error() is None <==> {
            &&& pool.sqrt_price_x96@ > 0
            &&& pool.liquidity > 0
            &&& pool.tick_spacing > 0
            &&& pool.fee_bps@ < 10_000
            &&& strictly_ascending(pool.initialized_ticks@)
        },
{
}

} // verus!
