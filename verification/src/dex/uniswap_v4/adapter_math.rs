//! Exact-input quotes for Uniswap V4 pools.
//!
//! Pools without hooks and with a static fee are quoted as they stand. A hook is quoted where its
//! fee is known, where its state is given, or where an adapter models it; any other hook is
//! refused.

use crate::base::error::{
    bad_pool, dex_view, e_invalid, e_overflow, e_pool, e_underflow, invalid, math_view, overflow0,
    underflow0, DexErr, DexError, MathErr, MathError,
};
use crate::base::precision::BasisPoints;
use crate::base::types::Address;
use crate::data::pool_state::V4PoolState;
use crate::dex::adapter::SwapDirection;
use crate::dex::clmm::{
    checked_ratio_at_tick, is_floor_tick, max_sqrt_ratio, min_sqrt_ratio, mul_div_up_spec,
    ratio_spec, sqrt_ratio_at, tick_in_range, MAX_TICK, MIN_TICK,
};
use crate::dex::crossing::{accounts_for, crossed, lemma_one_more_crossing};
use crate::dex::kyber::adapter_math::to_i128;
use crate::dex::kyber::math::swap_math::{compute_swap_step, kyber_step_spec, StepView};
use crate::dex::pricing::{
    execution_price, execution_price_spec, is_price_of, law_execution_price_is_token1_per_token0,
};
use crate::dex::ranges::{
    is_leg, is_next, is_placed, is_swap, is_walk, law_swap_pays_the_sum_of_its_ranges, lemma_step_onward,
    lemma_walk_ends, lemma_walk_on, lemma_walk_starts, paid, Charge, Leg, Stand,
};
use crate::dex::tick_lists::sorted_distinct;
use crate::dex::ticks::{
    ascending, count_below, count_up_to, is_strictly_ascending, lemma_first_above_at,
    lemma_last_below_at, strictly_ascending,
};
use crate::dex::uniswap_v3::math::{
    calculate_v3_price_impact, is_after_fee, is_impact_between,
    law_impact_is_the_change_of_the_price, lemma_no_impact, mul_div_rounding_up,
    sqrt_price_to_tick, tick_of_price, tick_view, v3, v3_impact_spec,
};
use crate::dex::uniswap_v4::hooks::class_of_label;
pub use crate::dex::uniswap_v4::hooks::{
    V4HookClassState, V4HookMode, V4HookQuoteAdapter, V4HookSwapDeltas, V4OfficialHookClass,
};
use crate::text::{dec, dec_int, text_i128, text_u128, text_u256};
use crate::u256::{fits, U256};
use std::collections::HashMap;
use vstd::prelude::*;
use vstd::string::StringExecFns;

verus! {

/// Snapshot of a V4 pool.
#[derive(Clone, Debug)]
pub struct V4PoolSnapshot {
    pub hook_address: Option<Address>,
    pub hook_class: Option<V4OfficialHookClass>,
    pub sqrt_price_x96: U256,
    pub tick: i32,
    pub liquidity: u128,
    pub fee_bps: BasisPoints,
    pub tick_spacing: i32,
    pub initialized_ticks: Vec<i32>,
    pub tick_liquidity_net: HashMap<i32, i128>,
    pub hook_mode: V4HookMode,
}

/// The class that an optional label names.
pub open spec fn labelled_class(label: Option<String>) -> Option<V4OfficialHookClass> {
    match label {
        Some(text) => class_of_label(text@),
        None => None,
    }
}

/// The characters of an optional label.
pub open spec fn label_view(label: Option<String>) -> Option<Seq<char>> {
    match label {
        Some(text) => Some(text@),
        None => None,
    }
}

/// How the standard formatter writes an optional label for debugging.
pub uninterp spec fn debug_form(label: Option<Seq<char>>) -> Seq<char>;

/// Writes an optional label with the `Debug` formatter of the standard library. The text depends
/// on the label alone; no label is written as `None`.
#[verifier::external_body]
fn debug_text(label: &Option<String>) -> (r: String)
    ensures
        r@ == debug_form(label_view(*label)),
        label is None ==> r@ == "None"@,
{
    format!("{:?}", label)
}

/// The refusal of a pool state that has no snapshot.
pub open spec fn conversion_error(v: V4PoolState) -> Option<DexErr> {
    if !v.hooks_enabled && !v.dynamic_fee_enabled {
        None
    } else {
        match labelled_class(v.hook_class) {
            None => Some(
                e_pool(
                    "hooks enabled but hook_class missing/unknown (hook_class="@ + debug_form(
                        label_view(v.hook_class),
                    ) + ")"@,
                ),
            ),
            Some(V4OfficialHookClass::DynamicFee) => match v.deterministic_fee_bps {
                None => Some(
                    e_pool("dynamic fee hook requires deterministic_fee_bps metadata"@),
                ),
                Some(fee) => if fee >= 10_000 {
                    Some(
                        e_pool("deterministic_fee_bps must be <10000, got "@ + dec(fee as nat)),
                    )
                } else {
                    None
                },
            },
            Some(_) => None,
        }
    }
}

/// Whether a mode is the hook policy of a pool state that has a snapshot.
pub open spec fn mode_of(v: V4PoolState, mode: V4HookMode) -> bool {
    if !v.hooks_enabled && !v.dynamic_fee_enabled {
        mode is NoHooks
    } else {
        let class = labelled_class(v.hook_class)->Some_0;
        match class {
            V4OfficialHookClass::GeomeanOracle
            | V4OfficialHookClass::VolatilityOracle
            | V4OfficialHookClass::PointsHook => mode == (V4HookMode::PassiveObserver { class }),
            V4OfficialHookClass::DynamicFee => mode == (V4HookMode::DeterministicFeeOnly {
                class,
                effective_fee_bps: BasisPoints(v.deterministic_fee_bps->Some_0),
            }),
            _ => mode matches V4HookMode::RequiresExternalAdapter { class: wanted, reason }
                && wanted == class && reason@
                == "class-specific hook state/execution model required for exact output"@,
        }
    }
}

impl TryFrom<&V4PoolState> for V4PoolSnapshot {
    type Error = DexError;

    /// The snapshot of a pool state, with its ticks in ascending order and the hook policy that
    /// follows from its hook class. A pool whose hooks cannot be classified has none.
    fn try_from(v: &V4PoolState) -> (r: Result<V4PoolSnapshot, DexError>)
        ensures
            match r {
                Err(e) => conversion_error(*v) == Some(e@),
                Ok(s) => {
                    &&& conversion_error(*v) is None
                    &&& s.hook_address == v.hook_address
                    &&& s.hook_class == labelled_class(v.hook_class)
                    &&& s.sqrt_price_x96 == v.sqrt_price_x96
                    &&& s.tick == v.tick
                    &&& s.liquidity == v.liquidity
                    &&& s.fee_bps@ == v.fee_bps
                    &&& s.tick_spacing == v.tick_spacing
                    &&& strictly_ascending(s.initialized_ticks@)
                    &&& s.initialized_ticks@.to_set() == v.initialized_ticks@.to_set()
                    &&& s.tick_liquidity_net@ == v.tick_liquidity_map@
                    &&& mode_of(*v, s.hook_mode)
                },
            },
    {
        let class = match &v.hook_class {
            Some(label) => V4OfficialHookClass::parse(label.as_str()),
            None => None,
        };
        let hook_mode = if !v.hooks_enabled && !v.dynamic_fee_enabled {
            V4HookMode::NoHooks
        } else {
            match class {
                None => {
                    let text = "hooks enabled but hook_class missing/unknown (hook_class="
                        .to_owned().concat(debug_text(&v.hook_class).as_str()).concat(")");
                    return Err(bad_pool(text.as_str()));
                },
                Some(known) => match mode_for_class(known, v.deterministic_fee_bps) {
                    Ok(mode) => mode,
                    Err(e) => return Err(e),
                },
            }
        };
        Ok(
            V4PoolSnapshot {
                hook_address: v.hook_address,
                hook_class: class,
                sqrt_price_x96: v.sqrt_price_x96,
                tick: v.tick,
                liquidity: v.liquidity,
                fee_bps: BasisPoints(v.fee_bps),
                tick_spacing: v.tick_spacing,
                initialized_ticks: sorted_distinct(v.initialized_ticks.as_slice()),
                tick_liquidity_net: v.tick_liquidity_map.clone(),
                hook_mode,
            },
        )
    }
}

impl vstd::std_specs::convert::TryFromSpecImpl<&V4PoolState> for V4PoolSnapshot {
    open spec fn obeys_try_from_spec() -> bool {
        false
    }

    open spec fn try_from_spec(v: &V4PoolState) -> Result<V4PoolSnapshot, DexError> {
        arbitrary()
    }
}

/// The hook policy of a class.
fn mode_for_class(class: V4OfficialHookClass, fee: Option<u32>) -> (r: Result<V4HookMode, DexError>)
    ensures
        match r {
            Err(e) => class == V4OfficialHookClass::DynamicFee && match fee {
                None => e@ == e_pool("dynamic fee hook requires deterministic_fee_bps metadata"@),
                Some(f) => f >= 10_000 && e@ == e_pool(
                    "deterministic_fee_bps must be <10000, got "@ + dec(f as nat),
                ),
            },
            Ok(mode) => match class {
                V4OfficialHookClass::GeomeanOracle
                | V4OfficialHookClass::VolatilityOracle
                | V4OfficialHookClass::PointsHook => mode == (V4HookMode::PassiveObserver {
                    class,
                }),
                V4OfficialHookClass::DynamicFee => fee is Some && fee->Some_0 < 10_000 && mode == (
                V4HookMode::DeterministicFeeOnly {
                    class,
                    effective_fee_bps: BasisPoints(fee->Some_0),
                }),
                _ => mode matches V4HookMode::RequiresExternalAdapter { class: wanted, reason }
                    && wanted == class && reason@
                    == "class-specific hook state/execution model required for exact output"@,
            },
        },
{
    match class {
        V4OfficialHookClass::GeomeanOracle => Ok(V4HookMode::PassiveObserver { class }),
        V4OfficialHookClass::VolatilityOracle => Ok(V4HookMode::PassiveObserver { class }),
        V4OfficialHookClass::PointsHook => Ok(V4HookMode::PassiveObserver { class }),
        V4OfficialHookClass::DynamicFee => match fee {
            None => Err(bad_pool("dynamic fee hook requires deterministic_fee_bps metadata")),
            Some(f) => {
                if f >= 10_000 {
                    let text = "deterministic_fee_bps must be <10000, got ".to_owned().concat(
                        text_u128(f as u128).as_str(),
                    );
                    return Err(bad_pool(text.as_str()));
                }
                Ok(
                    V4HookMode::DeterministicFeeOnly {
                        class,
                        effective_fee_bps: BasisPoints(f),
                    },
                )
            },
        },
        _ => Ok(
            V4HookMode::RequiresExternalAdapter {
                class,
                reason:
                    "class-specific hook state/execution model required for exact output".to_owned(),
            },
        ),
    }
}

/// Exact-input quote with the state after the swap.
#[derive(Clone, Debug)]
pub struct V4ExactInQuote {
    pub amount_in: U256,
    pub amount_in_effective: U256,
    pub amount_in_after_fee: U256,
    pub amount_out: U256,
    pub execution_price_wad: U256,
    pub price_impact_bps: u32,
    pub sqrt_price_before_x96: U256,
    pub sqrt_price_after_x96: U256,
    pub tick_before: i32,
    pub tick_after: i32,
    pub liquidity_before: u128,
    pub liquidity_after: u128,
    pub crossed_ticks: Vec<i32>,
    pub fee_bps_applied: BasisPoints,
    pub used_deterministic_fee_override: bool,
    pub hook_input_delta: i128,
    pub hook_output_delta: i128,
    pub used_hook_state: bool,
}

/// What a [`V4ExactInQuote`] says.
#[verifier::ext_equal]
pub struct V4QuoteView {
    pub setup: V4Setup,
    pub amount_out: nat,
    pub execution_price_wad: nat,
    pub price_impact_bps: nat,
    pub sqrt_price_before_x96: nat,
    pub sqrt_price_after_x96: nat,
    pub tick_before: int,
    pub tick_after: int,
    pub liquidity_before: nat,
    pub liquidity_after: nat,
    pub crossed_ticks: Seq<i32>,
}

/// What a [`V4SwapSetup`] says.
pub struct V4Setup {
    pub amount_in: nat,
    pub amount_in_effective: nat,
    pub amount_in_after_fee: nat,
    pub fee_bps: nat,
    pub fee_override: bool,
    pub input_delta: int,
    pub output_delta: int,
    pub used_hook_state: bool,
}

/// What is fixed before the swap: the amounts, the fee, and what the hook changes.
#[derive(Clone, Copy, Debug)]
pub struct V4SwapSetup {
    pub amount_in: U256,
    pub amount_in_effective: U256,
    pub amount_in_after_fee: U256,
    pub fee_bps: BasisPoints,
    pub fee_override: bool,
    pub input_delta: i128,
    pub output_delta: i128,
    pub used_hook_state: bool,
}

impl View for V4SwapSetup {
    type V = V4Setup;

    open spec fn view(&self) -> V4Setup {
        V4Setup {
            amount_in: self.amount_in@,
            amount_in_effective: self.amount_in_effective@,
            amount_in_after_fee: self.amount_in_after_fee@,
            fee_bps: self.fee_bps@,
            fee_override: self.fee_override,
            input_delta: self.input_delta as int,
            output_delta: self.output_delta as int,
            used_hook_state: self.used_hook_state,
        }
    }
}

impl View for V4ExactInQuote {
    type V = V4QuoteView;

    open spec fn view(&self) -> V4QuoteView {
        V4QuoteView {
            setup: V4Setup {
                amount_in: self.amount_in@,
                amount_in_effective: self.amount_in_effective@,
                amount_in_after_fee: self.amount_in_after_fee@,
                fee_bps: self.fee_bps_applied@,
                fee_override: self.used_deterministic_fee_override,
                input_delta: self.hook_input_delta as int,
                output_delta: self.hook_output_delta as int,
                used_hook_state: self.used_hook_state,
            },
            amount_out: self.amount_out@,
            execution_price_wad: self.execution_price_wad@,
            price_impact_bps: self.price_impact_bps as nat,
            sqrt_price_before_x96: self.sqrt_price_before_x96@,
            sqrt_price_after_x96: self.sqrt_price_after_x96@,
            tick_before: self.tick_before as int,
            tick_after: self.tick_after as int,
            liquidity_before: self.liquidity_before as nat,
            liquidity_after: self.liquidity_after as nat,
            crossed_ticks: self.crossed_ticks@,
        }
    }
}

/// The view of a fee with its override flag.
pub open spec fn fee_view(r: Result<(BasisPoints, bool), DexError>) -> Result<
    (nat, bool),
    DexErr,
> {
    match r {
        Ok(v) => Ok((v.0@, v.1)),
        Err(e) => Err(e@),
    }
}

/// What an adapter answers during a quote: its class, the fee, and what it makes of the output.
pub struct AdapterReply {
    pub class: V4OfficialHookClass,
    pub fee: Result<nat, DexErr>,
    pub adjusted: Result<nat, DexErr>,
}

/// The refusal of a hook class that needs an adapter.
pub open spec fn adapter_required(class: V4OfficialHookClass, reason: Seq<char>) -> DexErr {
    e_pool("hook class "@ + class.name() + " requires external adapter: "@ + reason)
}

fn require_adapter(class: V4OfficialHookClass, reason: &str) -> (e: DexError)
    ensures
        e@ == adapter_required(class, reason@),
{
    let text = "hook class ".to_owned().concat(class.to_name()).concat(
        " requires external adapter: ",
    ).concat(reason);
    bad_pool(text.as_str())
}

/// The refusal of a hook that cannot be quoted.
pub open spec fn unsupported_hook(reason: Seq<char>) -> DexErr {
    e_pool("unsupported v4 hook mode: "@ + reason)
}

fn refuse_hook(reason: &str) -> (e: DexError)
    ensures
        e@ == unsupported_hook(reason@),
{
    let text = "unsupported v4 hook mode: ".to_owned().concat(reason);
    bad_pool(text.as_str())
}

impl V4PoolSnapshot {
    /// The fee of the pool without an adapter, and whether it replaces the static fee.
    pub open spec fn effective_fee(self) -> Result<(nat, bool), DexErr> {
        match self.hook_mode {
            V4HookMode::NoHooks => Ok((self.fee_bps@, false)),
            V4HookMode::PassiveObserver { .. } => Ok((self.fee_bps@, false)),
            V4HookMode::DeterministicFeeOnly { effective_fee_bps, .. } => Ok(
                (effective_fee_bps@, true),
            ),
            V4HookMode::RequiresExternalAdapter { class, reason } => Err(
                adapter_required(class, reason@),
            ),
            V4HookMode::Unsupported { reason } => Err(unsupported_hook(reason@)),
        }
    }

    /// The fee of the pool without an adapter, and whether it replaces the static fee.
    pub fn effective_fee_bps(&self) -> (r: Result<(BasisPoints, bool), DexError>)
        ensures
            fee_view(r) == self.effective_fee(),
    {
        match &self.hook_mode {
            V4HookMode::NoHooks => Ok((self.fee_bps, false)),
            V4HookMode::PassiveObserver { .. } => Ok((self.fee_bps, false)),
            V4HookMode::DeterministicFeeOnly { effective_fee_bps, .. } => Ok(
                (*effective_fee_bps, true),
            ),
            V4HookMode::RequiresExternalAdapter { class, reason } => Err(
                require_adapter(*class, reason.as_str()),
            ),
            V4HookMode::Unsupported { reason } => Err(refuse_hook(reason.as_str())),
        }
    }

    /// The fee that the static checks look at.
    pub open spec fn checked_fee(self) -> nat {
        match self.hook_mode {
            V4HookMode::DeterministicFeeOnly { effective_fee_bps, .. } => effective_fee_bps@,
            _ => self.fee_bps@,
        }
    }

    /// The first static parameter that rules out an exact quote.
    pub open spec fn static_error(self) -> Option<DexErr> {
        if self.sqrt_price_x96@ == 0 {
            Some(e_pool("sqrt_price_x96 cannot be zero"@))
        } else if self.liquidity == 0 {
            Some(e_pool("liquidity cannot be zero"@))
        } else if self.tick_spacing <= 0 {
            Some(e_pool("tick_spacing must be >0, got "@ + dec_int(self.tick_spacing as int)))
        } else if !strictly_ascending(self.initialized_ticks@) {
            Some(e_pool("initialized_ticks must be strictly ascending"@))
        } else if self.initialized_ticks@.len() == 0 {
            Some(e_pool("initialized_ticks missing; exact v4 math unavailable"@))
        } else if self.tick_liquidity_net@.dom().len() == 0 {
            Some(e_pool("tick_liquidity_net missing; exact v4 tick crossing unavailable"@))
        } else if self.hook_mode is Unsupported {
            Some(unsupported_hook(self.hook_mode->Unsupported_reason@))
        } else if self.checked_fee() >= 10_000 {
            Some(e_pool("fee_bps must be <10000, got "@ + dec(self.checked_fee())))
        } else {
            self.tick_error()
        }
    }

    /// The error of a tick that is further than one spacing from the tick of the price.
    pub open spec fn tick_error(self) -> Option<DexErr> {
        match tick_of_price(self.sqrt_price_x96@) {
            Err(e) => Some(DexErr::MathError(e)),
            Ok(decoded) => {
                let gap = if decoded >= self.tick {
                    decoded - self.tick
                } else {
                    self.tick - decoded
                };
                if gap > self.tick_spacing {
                    Some(
                        e_pool(
                            "tick/sqrt_price_x96 mismatch: tick="@ + dec_int(self.tick as int)
                                + ", decoded_tick="@ + dec_int(decoded) + ", spacing="@ + dec_int(
                                self.tick_spacing as int,
                            ),
                        ),
                    )
                } else {
                    None
                }
            },
        }
    }

    /// Checks the static parameters.
    pub fn validate_static(&self) -> (r: Result<(), DexError>)
        ensures
            match r {
                Ok(_) => self.static_error() is None,
                Err(e) => self.static_error() == Some(e@),
            },
    {
        if self.sqrt_price_x96.is_zero() {
            return Err(bad_pool("sqrt_price_x96 cannot be zero"));
        }
        if self.liquidity == 0 {
            return Err(bad_pool("liquidity cannot be zero"));
        }
        if self.tick_spacing <= 0 {
            let reason = "tick_spacing must be >0, got ".to_owned().concat(
                text_i128(self.tick_spacing as i128).as_str(),
            );
            return Err(bad_pool(reason.as_str()));
        }
        if !is_strictly_ascending(self.initialized_ticks.as_slice()) {
            return Err(bad_pool("initialized_ticks must be strictly ascending"));
        }
        if self.initialized_ticks.len() == 0 {
            return Err(bad_pool("initialized_ticks missing; exact v4 math unavailable"));
        }
        if self.tick_liquidity_net.is_empty() {
            return Err(
                bad_pool("tick_liquidity_net missing; exact v4 tick crossing unavailable"),
            );
        }
        let fee: BasisPoints = match &self.hook_mode {
            V4HookMode::NoHooks => self.fee_bps,
            V4HookMode::PassiveObserver { .. } => self.fee_bps,
            V4HookMode::DeterministicFeeOnly { effective_fee_bps, .. } => *effective_fee_bps,
            V4HookMode::RequiresExternalAdapter { .. } => self.fee_bps,
            V4HookMode::Unsupported { reason } => return Err(refuse_hook(reason.as_str())),
        };
        if fee.as_u32() >= 10_000 {
            let reason = "fee_bps must be <10000, got ".to_owned().concat(
                text_u128(fee.as_u32() as u128).as_str(),
            );
            return Err(bad_pool(reason.as_str()));
        }
        let decoded: i32 = match sqrt_price_to_tick(self.sqrt_price_x96) {
            Ok(t) => t,
            Err(e) => return Err(DexError::MathError(e)),
        };
        let gap: i64 = if decoded >= self.tick {
            decoded as i64 - self.tick as i64
        } else {
            self.tick as i64 - decoded as i64
        };
        if gap > self.tick_spacing as i64 {
            let reason = "tick/sqrt_price_x96 mismatch: tick=".to_owned().concat(
                text_i128(self.tick as i128).as_str(),
            ).concat(", decoded_tick=").concat(text_i128(decoded as i128).as_str()).concat(
                ", spacing=",
            ).concat(text_i128(self.tick_spacing as i128).as_str());
            return Err(bad_pool(reason.as_str()));
        }
        Ok(())
    }
}

/// What is left of an input after a fee that is rounded up.
pub open spec fn v4_net_input(amount: nat, fee_bps: nat) -> Result<nat, MathErr> {
    match v3(mul_div_up_spec(amount, fee_bps, 10000)) {
        Err(e) => Err(e),
        Ok(fee) => if fee <= amount {
            Ok((amount - fee) as nat)
        } else {
            Err(
                e_underflow(
                    "v4.apply_fee_exact_in"@,
                    seq![],
                    "amount_in="@ + dec(amount) + ", fee_bps="@ + dec(fee_bps) + ", fee_amount="@
                        + dec(fee),
                ),
            )
        },
    }
}

/// Takes the fee, rounded up, from an input.
fn apply_fee_exact_in(amount_in: U256, fee_bps: BasisPoints) -> (r: Result<U256, MathError>)
    ensures
        math_view(r) == v4_net_input(amount_in@, fee_bps@),
{
    let fee = match mul_div_rounding_up(
        amount_in,
        U256::from_u64(fee_bps.as_u32() as u64),
        U256::from_u64(10000),
    ) {
        Ok(v) => v,
        Err(e) => return Err(e),
    };
    match amount_in.checked_sub(fee) {
        Some(v) => Ok(v),
        None => {
            let context = "amount_in=".to_owned().concat(text_u256(amount_in).as_str()).concat(
                ", fee_bps=",
            ).concat(text_u128(fee_bps.as_u32() as u128).as_str()).concat(", fee_amount=").concat(
                text_u256(fee).as_str(),
            );
            Err(underflow0("v4.apply_fee_exact_in", context.as_str()))
        },
    }
}

/// The execution price as this module names it in errors.
pub open spec fn v4_execution_price(amount_in: nat, amount_out: nat, direction: SwapDirection) -> Result<
    nat,
    MathErr,
> {
    execution_price_spec(
        "v4.execution_price_wad"@,
        "mul_div failed: "@,
        "inverse mul_div failed: "@,
        amount_in,
        amount_out,
        direction,
    )
}

fn execution_price_wad(amount_in: U256, amount_out: U256, direction: SwapDirection) -> (r: Result<
    U256,
    MathError,
>)
    ensures
        math_view(r) == v4_execution_price(amount_in@, amount_out@, direction),
{
    execution_price(
        "v4.execution_price_wad",
        "mul_div failed: ",
        "inverse mul_div failed: ",
        amount_in,
        amount_out,
        direction,
    )
}

/// The fee of a pool with or without an adapter's answer, and whether it replaces the static
/// fee.
pub open spec fn v4_fee_spec(
    pool: V4PoolSnapshot,
    class: Option<V4OfficialHookClass>,
    fee: Result<nat, DexErr>,
) -> Result<(nat, bool), DexErr> {
    if pool.hook_class is Some && class is Some && class->Some_0 != pool.hook_class->Some_0 {
        Err(
            e_pool(
                "hook adapter class mismatch: snapshot="@ + pool.hook_class->Some_0.name()
                    + ", adapter="@ + class->Some_0.name(),
            ),
        )
    } else {
        match pool.hook_mode {
            V4HookMode::RequiresExternalAdapter { class: wanted, reason } => if class is None {
                Err(adapter_required(wanted, reason@))
            } else {
                match fee {
                    Err(e) => Err(e),
                    Ok(f) => if f >= 10_000 {
                        Err(e_pool("external adapter returned invalid fee_bps "@ + dec(f)))
                    } else {
                        Ok((f, true))
                    },
                }
            },
            _ => pool.effective_fee(),
        }
    }
}

/// Checks the class that an adapter claims against the class of the pool.
pub fn check_adapter_class(pool: &V4PoolSnapshot, class: V4OfficialHookClass) -> (r: Option<
    DexError,
>)
    ensures
        match r {
            Some(e) => pool.hook_class is Some && class != pool.hook_class->Some_0 && e@ == e_pool(
                "hook adapter class mismatch: snapshot="@ + pool.hook_class->Some_0.name()
                    + ", adapter="@ + class.name(),
            ),
            None => pool.hook_class is None || class == pool.hook_class->Some_0,
        },
{
    match pool.hook_class {
        Some(wanted) => {
            if wanted != class {
                let text = "hook adapter class mismatch: snapshot=".to_owned().concat(
                    wanted.to_name(),
                ).concat(", adapter=").concat(class.to_name());
                return Some(bad_pool(text.as_str()));
            }
            None
        },
        None => None,
    }
}

/// Checks the fee that an adapter has answered.
pub fn check_adapter_fee(fee: BasisPoints) -> (r: Result<(BasisPoints, bool), DexError>)
    ensures
        fee_view(r) == if fee@ >= 10_000 {
            Err::<(nat, bool), DexErr>(
                e_pool("external adapter returned invalid fee_bps "@ + dec(fee@)),
            )
        } else {
            Ok((fee@, true))
        },
{
    if fee.as_u32() >= 10_000 {
        let text = "external adapter returned invalid fee_bps ".to_owned().concat(
            text_u128(fee.as_u32() as u128).as_str(),
        );
        return Err(bad_pool(text.as_str()));
    }
    Ok((fee, true))
}

/// Asks an adapter for the fee where the pool needs one. The ghost value is the class and the
/// fee that the adapter has answered.
fn effective_fee_with_adapter(
    pool: &V4PoolSnapshot,
    amount_in: U256,
    direction: SwapDirection,
    hook_adapter: Option<&dyn V4HookQuoteAdapter>,
) -> (r: (
    Result<(BasisPoints, bool), DexError>,
    Ghost<(V4OfficialHookClass, Result<nat, DexErr>)>,
))
    ensures
        fee_view(r.0) == v4_fee_spec(
            *pool,
            if hook_adapter is Some {
                Some(r.1@.0)
            } else {
                None
            },
            r.1@.1,
        ),
        hook_adapter is Some && pool.hook_mode is RequiresExternalAdapter && (pool.hook_class
            is None || pool.hook_class == Some(r.1@.0)) ==> hook_adapter->Some_0.may_set_fee(
            *pool,
            amount_in@,
            direction,
            r.1@.1,
        ),
        hook_adapter is Some ==> hook_adapter->Some_0.may_model(r.1@.0),
{
    let ghost silent: (V4OfficialHookClass, Result<nat, DexErr>) = (
        V4OfficialHookClass::Twamm,
        Ok(0),
    );
    match hook_adapter {
        None => (pool.effective_fee_bps(), Ghost(silent)),
        Some(adapter) => {
            let class = adapter.class();
            match check_adapter_class(pool, class) {
                Some(e) => return (Err(e), Ghost((class, silent.1))),
                None => {},
            }
            match &pool.hook_mode {
                V4HookMode::RequiresExternalAdapter { .. } => {
                    match adapter.resolve_effective_fee_bps(pool, amount_in, direction) {
                        Err(e) => {
                            let ghost answer: Result<nat, DexErr> = Err(e@);
                            (Err(e), Ghost((class, answer)))
                        },
                        Ok(fee) => {
                            let ghost answer: Result<nat, DexErr> = Ok(fee@);
                            (check_adapter_fee(fee), Ghost((class, answer)))
                        },
                    }
                },
                _ => (pool.effective_fee_bps(), Ghost((class, silent.1))),
            }
        },
    }
}

/// What a hook state does to a quote: the fee, the change of the input, the change of the
/// output, and whether the state was used.
pub open spec fn hook_effects_spec(pool: V4PoolSnapshot, state: V4HookClassState) -> Result<
    (nat, int, int, bool),
    DexErr,
> {
    match pool.hook_class {
        None => Err(e_pool("hook_state provided but snapshot hook_class is missing"@)),
        Some(class) => if class != state.class_spec() {
            Err(
                e_pool(
                    "hook state class mismatch: snapshot="@ + class.name() + ", state="@
                        + state.class_spec().name(),
                ),
            )
        } else {
            match state {
                V4HookClassState::GeomeanOracle { quote_neutral } => neutral_effects(
                    pool,
                    state,
                    quote_neutral,
                ),
                V4HookClassState::VolatilityOracle { quote_neutral } => neutral_effects(
                    pool,
                    state,
                    quote_neutral,
                ),
                V4HookClassState::PointsHook { quote_neutral } => neutral_effects(
                    pool,
                    state,
                    quote_neutral,
                ),
                V4HookClassState::DynamicFee { effective_fee_bps } => Ok(
                    (effective_fee_bps@, 0, 0, true),
                ),
                V4HookClassState::LimitOrder { effective_fee_bps, deltas } => delta_effects(
                    effective_fee_bps@,
                    deltas,
                ),
                V4HookClassState::Twamm { effective_fee_bps, deltas } => delta_effects(
                    effective_fee_bps@,
                    deltas,
                ),
                V4HookClassState::AsyncSwap { effective_fee_bps, deltas } => delta_effects(
                    effective_fee_bps@,
                    deltas,
                ),
                V4HookClassState::CustomAccounting { effective_fee_bps, deltas } => delta_effects(
                    effective_fee_bps@,
                    deltas,
                ),
            }
        },
    }
}

/// The effects of a hook that changes the fee and both amounts.
pub open spec fn delta_effects(fee: nat, deltas: V4HookSwapDeltas) -> Result<
    (nat, int, int, bool),
    DexErr,
> {
    Ok((fee, deltas.before_swap_input_delta as int, deltas.after_swap_output_delta as int, true))
}

/// The effects of a hook that is neutral to quotes, or its refusal where it is not.
pub open spec fn neutral_effects(
    pool: V4PoolSnapshot,
    state: V4HookClassState,
    quote_neutral: bool,
) -> Result<(nat, int, int, bool), DexErr> {
    if quote_neutral {
        Ok((pool.fee_bps@, 0, 0, false))
    } else {
        Err(
            e_pool(
                "hook class "@ + state.class_spec().name()
                    + " declared non-neutral without explicit deltas"@,
            ),
        )
    }
}

/// The view of hook effects.
pub open spec fn effects_view(r: Result<(BasisPoints, i128, i128, bool), DexError>) -> Result<
    (nat, int, int, bool),
    DexErr,
> {
    match r {
        Ok(v) => Ok((v.0@, v.1 as int, v.2 as int, v.3)),
        Err(e) => Err(e@),
    }
}

fn neutral_hook(pool: &V4PoolSnapshot, state: &V4HookClassState, quote_neutral: bool) -> (r: Result<
    (BasisPoints, i128, i128, bool),
    DexError,
>)
    ensures
        effects_view(r) == neutral_effects(*pool, *state, quote_neutral),
{
    if !quote_neutral {
        let text = "hook class ".to_owned().concat(state.class().to_name()).concat(
            " declared non-neutral without explicit deltas",
        );
        return Err(bad_pool(text.as_str()));
    }
    Ok((pool.fee_bps, 0, 0, false))
}

/// Reads from a hook state what it does to a quote.
pub fn hook_effects_from_state(pool: &V4PoolSnapshot, state: &V4HookClassState) -> (r: Result<
    (BasisPoints, i128, i128, bool),
    DexError,
>)
    ensures
        effects_view(r) == hook_effects_spec(*pool, *state),
{
    match pool.hook_class {
        None => return Err(
            bad_pool("hook_state provided but snapshot hook_class is missing"),
        ),
        Some(class) => {
            if class != state.class() {
                let text = "hook state class mismatch: snapshot=".to_owned().concat(
                    class.to_name(),
                ).concat(", state=").concat(state.class().to_name());
                return Err(bad_pool(text.as_str()));
            }
        },
    }
    match *state {
        V4HookClassState::GeomeanOracle { quote_neutral } => neutral_hook(
            pool,
            state,
            quote_neutral,
        ),
        V4HookClassState::VolatilityOracle { quote_neutral } => neutral_hook(
            pool,
            state,
            quote_neutral,
        ),
        V4HookClassState::PointsHook { quote_neutral } => neutral_hook(
            pool,
            state,
            quote_neutral,
        ),
        V4HookClassState::DynamicFee { effective_fee_bps } => Ok((effective_fee_bps, 0, 0, true)),
        V4HookClassState::LimitOrder { effective_fee_bps, deltas } => Ok(
            (
                effective_fee_bps,
                deltas.before_swap_input_delta,
                deltas.after_swap_output_delta,
                true,
            ),
        ),
        V4HookClassState::Twamm { effective_fee_bps, deltas } => Ok(
            (
                effective_fee_bps,
                deltas.before_swap_input_delta,
                deltas.after_swap_output_delta,
                true,
            ),
        ),
        V4HookClassState::AsyncSwap { effective_fee_bps, deltas } => Ok(
            (
                effective_fee_bps,
                deltas.before_swap_input_delta,
                deltas.after_swap_output_delta,
                true,
            ),
        ),
        V4HookClassState::CustomAccounting { effective_fee_bps, deltas } => Ok(
            (
                effective_fee_bps,
                deltas.before_swap_input_delta,
                deltas.after_swap_output_delta,
                true,
            ),
        ),
    }
}

/// An amount with a signed change, or the overflow or underflow of the sum.
pub open spec fn signed_delta_spec(base: nat, delta: int, context: Seq<char>) -> Result<
    nat,
    DexErr,
> {
    if delta >= 0 {
        if fits((base + delta) as nat) {
            Ok((base + delta) as nat)
        } else {
            Err(
                DexErr::MathError(
                    e_overflow(
                        "v4.apply_signed_delta_to_u256"@,
                        seq![],
                        context + " add delta "@ + dec_int(delta),
                    ),
                ),
            )
        }
    } else if delta == i128::MIN {
        Err(
            DexErr::MathError(
                e_overflow(
                    "v4.apply_signed_delta_to_u256"@,
                    seq![],
                    context + " abs overflow for delta "@ + dec_int(delta)
                        + " (i128::MIN two's-complement edge case)"@,
                ),
            ),
        )
    } else if base + delta >= 0 {
        Ok((base + delta) as nat)
    } else {
        Err(
            DexErr::MathError(
                e_underflow(
                    "v4.apply_signed_delta_to_u256"@,
                    seq![],
                    context + " subtract delta "@ + dec_int(delta),
                ),
            ),
        )
    }
}

/// Adds a signed change to an amount.
pub fn apply_signed_delta_to_u256(base: U256, delta: i128, context: &str) -> (r: Result<
    U256,
    DexError,
>)
    ensures
        dex_view(r) == signed_delta_spec(base@, delta as int, context@),
{
    if delta >= 0 {
        match base.checked_add(U256::from_u128(delta as u128)) {
            Some(v) => Ok(v),
            None => {
                let text = context.to_owned().concat(" add delta ").concat(
                    text_i128(delta).as_str(),
                );
                Err(
                    DexError::MathError(
                        overflow0("v4.apply_signed_delta_to_u256", text.as_str()),
                    ),
                )
            },
        }
    } else if delta == i128::MIN {
        let text = context.to_owned().concat(" abs overflow for delta ").concat(
            text_i128(delta).as_str(),
        ).concat(" (i128::MIN two's-complement edge case)");
        Err(DexError::MathError(overflow0("v4.apply_signed_delta_to_u256", text.as_str())))
    } else {
        match base.checked_sub(U256::from_u128((-delta) as u128)) {
            Some(v) => Ok(v),
            None => {
                let text = context.to_owned().concat(" subtract delta ").concat(
                    text_i128(delta).as_str(),
                );
                Err(
                    DexError::MathError(
                        underflow0("v4.apply_signed_delta_to_u256", text.as_str()),
                    ),
                )
            },
        }
    }
}

/// The next tick in a direction: the nearest initialized one, else the end of the tick range.
pub open spec fn v4_next_tick_spec(
    current: int,
    ticks: Seq<i32>,
    spacing: int,
    down: bool,
) -> Result<int, MathErr> {
    if spacing <= 0 {
        Err(
            e_invalid(
                "v4.find_next_initialized_tick"@,
                "tick_spacing must be positive"@,
                "tick_spacing="@ + dec_int(spacing),
            ),
        )
    } else if ticks.len() == 0 {
        Err(
            e_invalid(
                "v4.find_next_initialized_tick"@,
                "no initialized ticks"@,
                "initialized_ticks empty"@,
            ),
        )
    } else if down {
        match crate::dex::ticks::last_below(ticks, current) {
            Some(t) => Ok(t as int),
            None => Ok(MIN_TICK as int),
        }
    } else {
        match crate::dex::ticks::first_above(ticks, current) {
            Some(t) => Ok(t as int),
            None => Ok(MAX_TICK as int),
        }
    }
}

/// Finds the next initialized tick in a direction.
pub fn find_next_initialized_tick(
    current_tick: i32,
    initialized_ticks: &[i32],
    tick_spacing: i32,
    zero_for_one: bool,
) -> (r: Result<i32, MathError>)
    requires
        ascending(initialized_ticks@),
    ensures
        tick_view(r) == v4_next_tick_spec(
            current_tick as int,
            initialized_ticks@,
            tick_spacing as int,
            zero_for_one,
        ),
{
    if tick_spacing <= 0 {
        let context = "tick_spacing=".to_owned().concat(text_i128(tick_spacing as i128).as_str());
        return Err(
            invalid(
                "v4.find_next_initialized_tick",
                "tick_spacing must be positive",
                context.as_str(),
            ),
        );
    }
    if initialized_ticks.len() == 0 {
        return Err(
            invalid(
                "v4.find_next_initialized_tick",
                "no initialized ticks",
                "initialized_ticks empty",
            ),
        );
    }
    let cursor: usize = init_tick_cursor(current_tick, initialized_ticks, zero_for_one);
    proof {
        if zero_for_one {
            lemma_last_below_at(initialized_ticks@, current_tick as int, cursor as int);
        } else {
            lemma_first_above_at(initialized_ticks@, current_tick as int, cursor as int);
        }
    }
    Ok(next_tick_from_cursor(initialized_ticks, cursor, zero_for_one))
}

/// `cursor` splits the ticks at the current tick: downwards the ticks before it are below the
/// current tick, upwards the ticks from it on are above.
pub open spec fn splits(ticks: Seq<i32>, current: int, cursor: int, down: bool) -> bool {
    &&& 0 <= cursor <= ticks.len()
    &&& down ==> (forall|k: int| 0 <= k < cursor ==> ticks[k] < current) && (forall|k: int|
        cursor <= k < ticks.len() ==> ticks[k] >= current)
    &&& !down ==> (forall|k: int| 0 <= k < cursor ==> ticks[k] <= current) && (forall|k: int|
        cursor <= k < ticks.len() ==> ticks[k] > current)
}

/// The number of ticks that lie before the split at the current tick.
pub open spec fn cursor_spec(ticks: Seq<i32>, current: int, down: bool) -> nat
    decreases ticks.len(),
{
    if ticks.len() == 0 {
        0
    } else if (down && ticks.last() < current) || (!down && ticks.last() <= current) {
        ticks.len()
    } else {
        cursor_spec(ticks.drop_last(), current, down)
    }
}

/// There is only one split.
proof fn lemma_cursor(ticks: Seq<i32>, current: int, cursor: int, down: bool)
    requires
        splits(ticks, current, cursor, down),
    ensures
        cursor_spec(ticks, current, down) == cursor,
    decreases ticks.len(),
{
    if ticks.len() > 0 {
        assert(ticks.last() == ticks[ticks.len() - 1]);
        if cursor < ticks.len() {
            let rest = ticks.drop_last();
            assert(forall|k: int| 0 <= k < rest.len() ==> rest[k] == ticks[k]);
            lemma_cursor(rest, current, cursor, down);
        }
    }
}

/// Places the cursor at the current tick.
pub fn init_tick_cursor(current_tick: i32, initialized_ticks: &[i32], zero_for_one: bool) -> (r:
    usize)
    requires
        ascending(initialized_ticks@),
    ensures
        splits(initialized_ticks@, current_tick as int, r as int, zero_for_one),
        r == cursor_spec(initialized_ticks@, current_tick as int, zero_for_one),
{
    let pos: usize = if zero_for_one {
        count_below(initialized_ticks, current_tick)
    } else {
        count_up_to(initialized_ticks, current_tick)
    };
    proof {
        lemma_cursor(initialized_ticks@, current_tick as int, pos as int, zero_for_one);
    }
    pos
}

/// The tick next to the cursor, or the end of the tick range.
pub open spec fn cursor_tick(ticks: Seq<i32>, cursor: int, down: bool) -> int {
    if down {
        if cursor > 0 {
            ticks[cursor - 1] as int
        } else {
            MIN_TICK as int
        }
    } else if cursor < ticks.len() {
        ticks[cursor] as int
    } else {
        MAX_TICK as int
    }
}

/// Reads the tick next to the cursor.
pub fn next_tick_from_cursor(initialized_ticks: &[i32], cursor: usize, zero_for_one: bool) -> (r:
    i32)
    requires
        cursor <= initialized_ticks@.len(),
    ensures
        r == cursor_tick(initialized_ticks@, cursor as int, zero_for_one),
{
    if zero_for_one {
        if cursor > 0 {
            initialized_ticks[cursor - 1]
        } else {
            MIN_TICK
        }
    } else if cursor < initialized_ticks.len() {
        initialized_ticks[cursor]
    } else {
        MAX_TICK
    }
}

/// The cursor behind the tick that has just been crossed.
pub open spec fn moved_cursor(len: nat, cursor: int, down: bool) -> int {
    if down {
        if cursor > 0 {
            cursor - 1
        } else {
            cursor
        }
    } else if cursor < len {
        cursor + 1
    } else {
        cursor
    }
}

/// Where a swap stands between two ticks.
#[verifier::ext_equal]
pub struct V4SwapState {
    pub remaining: nat,
    pub out: nat,
    pub price: nat,
    pub tick: int,
    pub liquidity: nat,
    pub crossed: Seq<i32>,
    pub cursor: int,
}

/// The liquidity after a crossed tick, or the refusal.
pub open spec fn v4_crossing(
    net: Map<i32, i128>,
    liquidity: nat,
    next_tick: int,
    down: bool,
) -> Result<nat, DexErr> {
    if !net.dom().contains(next_tick as i32) {
        Err(e_pool("missing liquidityNet for crossed tick "@ + dec_int(next_tick)))
    } else {
        let change = net[next_tick as i32] as int;
        let l = crossed(liquidity, change, down);
        if liquidity > i128::MAX || !(i128::MIN <= l <= i128::MAX) {
            Err(
                DexErr::MathError(
                    e_overflow(
                        "v4.quote_exact_input.liquidity_update"@,
                        seq![],
                        "l="@ + dec(liquidity) + ", liq_net="@ + dec_int(
                            change,
                        ) + ", zero_for_one="@ + if down {
                            "true"@
                        } else {
                            "false"@
                        },
                    ),
                ),
            )
        } else if l < 0 {
            Err(e_pool("negative active liquidity after crossing tick "@ + dec_int(next_tick)))
        } else if l == 0 {
            Err(e_pool("liquidity became zero before amount was exhausted"@))
        } else {
            Ok(l as nat)
        }
    }
}

/// Crosses a tick while input is left.
fn cross(net: &HashMap<i32, i128>, liquidity: u128, next_tick: i32, down: bool) -> (r: Result<
    u128,
    DexError,
>)
    ensures
        match r {
            Ok(l) => v4_crossing(net@, liquidity as nat, next_tick as int, down) == Ok::<
                nat,
                DexErr,
            >(l as nat),
            Err(e) => v4_crossing(net@, liquidity as nat, next_tick as int, down) == Err::<
                nat,
                DexErr,
            >(e@),
        },
{
    let change: i128 = match net.get(&next_tick) {
        None => {
            let reason = "missing liquidityNet for crossed tick ".to_owned().concat(
                text_i128(next_tick as i128).as_str(),
            );
            return Err(bad_pool(reason.as_str()));
        },
        Some(c) => *c,
    };
    let moved: Option<i128> = if liquidity > i128::MAX as u128 {
        None
    } else if down {
        (liquidity as i128).checked_sub(change)
    } else {
        (liquidity as i128).checked_add(change)
    };
    match moved {
        None => {
            let flag = if down {
                "true"
            } else {
                "false"
            };
            let context = "l=".to_owned().concat(text_u128(liquidity).as_str()).concat(
                ", liq_net=",
            ).concat(text_i128(change).as_str()).concat(", zero_for_one=").concat(flag);
            Err(
                DexError::MathError(
                    overflow0("v4.quote_exact_input.liquidity_update", context.as_str()),
                ),
            )
        },
        Some(l) => {
            if l < 0 {
                let reason = "negative active liquidity after crossing tick ".to_owned().concat(
                    text_i128(next_tick as i128).as_str(),
                );
                Err(bad_pool(reason.as_str()))
            } else if l == 0 {
                Err(bad_pool("liquidity became zero before amount was exhausted"))
            } else {
                Ok(l as u128)
            }
        },
    }
}

/// The state after one range, and whether the swap goes on behind the tick.
pub open spec fn v4_swap_step(
    pool: V4PoolSnapshot,
    fee_bps: nat,
    down: bool,
    st: V4SwapState,
) -> Result<(V4SwapState, bool), DexErr> {
    let next_tick = cursor_tick(pool.initialized_ticks@, st.cursor, down);
    match ratio_spec(next_tick) {
        Err(e) => Err(
            DexErr::MathError(
                e_invalid(
                    "v4.quote_exact_input.get_sqrt_ratio_at_tick"@,
                    e,
                    "next_tick="@ + dec_int(next_tick),
                ),
            ),
        ),
        Ok(target) => if st.remaining > i128::MAX {
            Err(e_pool("remaining amount exceeds i128 range required by swap step"@))
        } else {
            match kyber_step_spec(
                st.liquidity,
                st.price,
                target,
                fee_bps,
                st.remaining as int,
                true,
            ) {
                Err(e) => Err(DexErr::MathError(e)),
                Ok(step) => v4_after_step(pool, down, st, next_tick, target, step),
            }
        },
    }
}

/// The state after a step towards a tick, and whether the swap goes on behind the tick.
pub open spec fn v4_after_step(
    pool: V4PoolSnapshot,
    down: bool,
    st: V4SwapState,
    next_tick: int,
    target: nat,
    step: StepView,
) -> Result<(V4SwapState, bool), DexErr> {
    let out = st.out + (-step.returned);
    let remaining = (st.remaining - step.used) as nat;
    if step.used == 0 {
        Err(e_pool("swap step made no progress while remaining input is non-zero"@))
    } else if !fits(out as nat) {
        Err(
            DexErr::MathError(
                e_overflow(
                    "v4.quote_exact_input.amount_out_total"@,
                    seq![],
                    "accumulate output"@,
                ),
            ),
        )
    } else if step.next == target && remaining != 0 {
        match v4_crossing(pool.tick_liquidity_net@, st.liquidity, next_tick, down) {
            Err(e) => Err(e),
            Ok(l) => Ok(
                (
                    V4SwapState {
                        remaining,
                        out: out as nat,
                        price: step.next,
                        tick: if down {
                            next_tick - 1
                        } else {
                            next_tick
                        },
                        liquidity: l,
                        crossed: st.crossed.push(next_tick as i32),
                        cursor: moved_cursor(pool.initialized_ticks@.len(), st.cursor, down),
                    },
                    true,
                ),
            ),
        }
    } else {
        match tick_of_price(step.next) {
            Err(e) => Err(DexErr::MathError(e)),
            Ok(tick) => Ok(
                (
                    V4SwapState { remaining, out: out as nat, price: step.next, tick, ..st },
                    false,
                ),
            ),
        }
    }
}

/// The state in which a swap ends, with the number of ranges that it may still enter.
pub open spec fn v4_swap(
    pool: V4PoolSnapshot,
    fee_bps: nat,
    down: bool,
    st: V4SwapState,
    left: nat,
) -> Result<V4SwapState, DexErr>
    decreases left,
{
    if st.remaining == 0 || left == 0 {
        Ok(st)
    } else {
        match v4_swap_step(pool, fee_bps, down, st) {
            Err(e) => Err(e),
            Ok((next, goes_on)) => if goes_on {
                v4_swap(pool, fee_bps, down, next, (left - 1) as nat)
            } else {
                Ok(next)
            },
        }
    }
}

/// The state in which a swap starts.
pub open spec fn v4_start(pool: V4PoolSnapshot, amount: nat, down: bool) -> V4SwapState {
    V4SwapState {
        remaining: amount,
        out: 0,
        price: pool.sqrt_price_x96@,
        tick: pool.tick as int,
        liquidity: pool.liquidity as nat,
        crossed: seq![],
        cursor: cursor_spec(pool.initialized_ticks@, pool.tick as int, down) as int,
    }
}

/// What a swap leaves behind.
#[verifier::ext_equal]
pub struct V4EndView {
    pub out: nat,
    pub price: nat,
    pub tick: int,
    pub liquidity: nat,
    pub crossed: Seq<i32>,
}

/// The end of a swap that uses up its input, or the refusal.
pub open spec fn v4_core(pool: V4PoolSnapshot, amount: nat, fee_bps: nat, down: bool) -> Result<
    V4EndView,
    DexErr,
> {
    match v4_swap(pool, fee_bps, down, v4_start(pool, amount, down), 1024) {
        Err(e) => Err(e),
        Ok(end) => if end.remaining != 0 {
            Err(e_pool("swap exceeded 1024 tick-crossings; quote incomplete"@))
        } else {
            Ok(
                V4EndView {
                    out: end.out,
                    price: end.price,
                    tick: end.tick,
                    liquidity: end.liquidity,
                    crossed: end.crossed,
                },
            )
        },
    }
}

/// State after a swap.
pub struct V4SwapEnd {
    pub amount_out: U256,
    pub sqrt_price_x96: U256,
    pub tick: i32,
    pub liquidity: u128,
    pub crossed_ticks: Vec<i32>,
}

impl View for V4SwapEnd {
    type V = V4EndView;

    open spec fn view(&self) -> V4EndView {
        V4EndView {
            out: self.amount_out@,
            price: self.sqrt_price_x96@,
            tick: self.tick as int,
            liquidity: self.liquidity as nat,
            crossed: self.crossed_ticks@,
        }
    }
}

/// Whether the tick of a snapshot fits its price, and the price is one that a tick can have.
pub open spec fn is_consistent(pool: V4PoolSnapshot) -> bool {
    &&& is_placed(pool.tick as int, pool.sqrt_price_x96@)
    &&& min_sqrt_ratio() <= pool.sqrt_price_x96@ <= max_sqrt_ratio()
}

/// Whether the end of a swap is where a walk from range to range leads, and its tick is that of its
/// price.
pub open spec fn is_walked(
    pool: V4PoolSnapshot,
    amount: nat,
    fee_bps: nat,
    down: bool,
    end: V4EndView,
) -> bool {
    &&& is_swap(
        Stand {
            price: pool.sqrt_price_x96@,
            liquidity: pool.liquidity as nat,
            left: amount,
            out: 0,
        },
        Stand { price: end.price, liquidity: end.liquidity, left: 0, out: end.out },
        end.crossed,
        pool.tick_liquidity_net@,
        fee_bps,
        down,
        Charge::Included,
    )
    &&& is_floor_tick(end.tick, end.price)
}

/// Whether a quote is that of a walk from range to range, where anything is left after the fee and
/// the snapshot is consistent. Unless an adapter has changed it, the output is what the walk pays
/// and what the hook adds to it.
pub open spec fn is_walked_quote(
    pool: V4PoolSnapshot,
    direction: SwapDirection,
    q: V4QuoteView,
    adjusted: bool,
) -> bool {
    q.setup.amount_in_after_fee > 0 && is_consistent(pool) ==> exists|end: V4EndView|
        {
            &&& #[trigger] is_walked(
                pool,
                q.setup.amount_in_effective,
                q.setup.fee_bps,
                direction.is_down(),
                end,
            )
            &&& q.sqrt_price_after_x96 == end.price
            &&& q.tick_after == end.tick
            &&& q.liquidity_after == end.liquidity
            &&& q.crossed_ticks == end.crossed
            &&& !adjusted ==> q.amount_out == end.out + q.setup.output_delta
        }
}

/// Whether the ticks on the way of a swap are not behind its price: downwards those before the
/// cursor, upwards those from it on.
pub open spec fn lie_ahead(ticks: Seq<i32>, cursor: int, price: nat, down: bool) -> bool {
    if down {
        forall|k: int|
            0 <= k < cursor && tick_in_range(#[trigger] ticks[k] as int) ==> sqrt_ratio_at(
                ticks[k] as int,
            ) <= price
    } else {
        forall|k: int|
            cursor <= k < ticks.len() && tick_in_range(#[trigger] ticks[k] as int) ==> price
                <= sqrt_ratio_at(ticks[k] as int)
    }
}

/// Runs a swap from range to range. Where the tick of the pool fits its price, the swap takes and
/// pays in each range what the range asks for and gives.
pub fn run_swap(pool: &V4PoolSnapshot, amount: U256, fee_bps: BasisPoints, down: bool) -> (r: Result<
    V4SwapEnd,
    DexError,
>)
    requires
        ascending(pool.initialized_ticks@),
    ensures
        dex_view(r) == v4_core(*pool, amount@, fee_bps@, down),
        r is Ok && amount@ > 0 && is_consistent(*pool) ==> is_walked(
            *pool,
            amount@,
            fee_bps@,
            down,
            r->Ok_0@,
        ),
{
    let mut remaining = amount;
    let mut out = U256::zero();
    let mut price = pool.sqrt_price_x96;
    let mut tick: i32 = pool.tick;
    let mut liquidity: u128 = pool.liquidity;
    let mut crossed_ticks: Vec<i32> = Vec::new();
    let ticks = pool.initialized_ticks.as_slice();
    let mut cursor: usize = init_tick_cursor(tick, ticks, down);
    let mut left: u32 = 1024;
    let ghost whole = v4_swap(*pool, fee_bps@, down, v4_start(*pool, amount@, down), 1024);
    let ghost consistent = is_consistent(*pool);
    let ghost start = Stand {
        price: price@,
        liquidity: liquidity as nat,
        left: amount@,
        out: 0,
    };
    let ghost net = pool.tick_liquidity_net@;
    let ghost mut legs: Seq<Leg> = seq![];
    proof {
        lemma_walk_starts(start, net, fee_bps@, down, Charge::Included);
        assert(crossed_ticks@ =~= seq![]);
    }
    while left > 0 && !remaining.is_zero()
        invariant_except_break
            whole == v4_swap(
                *pool,
                fee_bps@,
                down,
                V4SwapState {
                    remaining: remaining@,
                    out: out@,
                    price: price@,
                    tick: tick as int,
                    liquidity: liquidity as nat,
                    crossed: crossed_ticks@,
                    cursor: cursor as int,
                },
                left as nat,
            ),
            consistent ==> is_walk(
                legs,
                start,
                Stand {
                    price: price@,
                    liquidity: liquidity as nat,
                    left: remaining@,
                    out: out@,
                },
                crossed_ticks@,
                net,
                fee_bps@,
                down,
                Charge::Included,
            ),
            amount@ > 0 ==> remaining@ > 0,
            consistent ==> lie_ahead(ticks@, cursor as int, price@, down) && min_sqrt_ratio()
                <= price@ <= max_sqrt_ratio(),
        invariant
            ascending(ticks@),
            start.left == amount@,
            net == pool.tick_liquidity_net@,
            ticks@ == pool.initialized_ticks@,
            cursor <= ticks@.len(),
            whole == v4_swap(*pool, fee_bps@, down, v4_start(*pool, amount@, down), 1024),
        ensures
            whole == Ok::<V4SwapState, DexErr>(
                V4SwapState {
                    remaining: remaining@,
                    out: out@,
                    price: price@,
                    tick: tick as int,
                    liquidity: liquidity as nat,
                    crossed: crossed_ticks@,
                    cursor: cursor as int,
                },
            ),
            remaining@ == 0 && amount@ > 0 && consistent ==> is_swap(
                start,
                Stand { price: price@, liquidity: liquidity as nat, left: 0, out: out@ },
                crossed_ticks@,
                net,
                fee_bps@,
                down,
                Charge::Included,
            ) && is_floor_tick(tick as int, price@),
        decreases left,
    {
        left = left - 1;
        let ghost here = Stand {
            price: price@,
            liquidity: liquidity as nat,
            left: remaining@,
            out: out@,
        };
        let next_tick: i32 = next_tick_from_cursor(ticks, cursor, down);
        let target = match checked_ratio_at_tick(next_tick) {
            Ok(p) => p,
            Err(e) => {
                let context = "next_tick=".to_owned().concat(text_i128(next_tick as i128).as_str());
                return Err(
                    DexError::MathError(
                        invalid(
                            "v4.quote_exact_input.get_sqrt_ratio_at_tick",
                            e.as_str(),
                            context.as_str(),
                        ),
                    ),
                );
            },
        };
        let specified: i128 = match to_i128(remaining) {
            Some(v) => v,
            None => return Err(
                bad_pool("remaining amount exceeds i128 range required by swap step"),
            ),
        };
        let step = match compute_swap_step(
            liquidity,
            price,
            target,
            fee_bps.as_u32(),
            specified,
            true,
            down,
        ) {
            Ok(s) => s,
            Err(e) => return Err(DexError::MathError(e)),
        };
        if step.used_amount == 0 {
            return Err(
                bad_pool("swap step made no progress while remaining input is non-zero"),
            );
        }
        let used = U256::from_u128(step.used_amount as u128);
        let gained = U256::from_u128((-step.returned_amount) as u128);
        out = match out.checked_add(gained) {
            Some(v) => v,
            None => return Err(
                DexError::MathError(
                    overflow0("v4.quote_exact_input.amount_out_total", "accumulate output"),
                ),
            ),
        };
        remaining = remaining.minus(used);
        price = step.next_sqrt_p;
        let ghost leg = Leg {
            from: here,
            to: Stand {
                price: price@,
                liquidity: liquidity as nat,
                left: remaining@,
                out: out@,
            },
            goal: target@,
        };
        proof {
            if consistent {
                lemma_step_onward(here, target@, price@, used@, gained@, fee_bps@, down);
            }
        }
        if step.next_sqrt_p.same(&target) && !remaining.is_zero() {
            liquidity = match cross(&pool.tick_liquidity_net, liquidity, next_tick, down) {
                Ok(l) => l,
                Err(e) => return Err(e),
            };
            proof {
                if consistent {
                    let next = Stand { liquidity: liquidity as nat, ..leg.to };
                    lemma_walk_on(
                        legs,
                        leg,
                        start,
                        next,
                        crossed_ticks@,
                        next_tick,
                        net,
                        fee_bps@,
                        down,
                        Charge::Included,
                    );
                    legs = legs.push(leg);
                }
            }
            crossed_ticks.push(next_tick);
            if down {
                if cursor > 0 {
                    cursor = cursor - 1;
                }
                tick = next_tick - 1;
            } else {
                if cursor < ticks.len() {
                    cursor = cursor + 1;
                }
                tick = next_tick;
            }
        } else {
            tick = match sqrt_price_to_tick(price) {
                Ok(t) => t,
                Err(e) => return Err(DexError::MathError(e)),
            };
            proof {
                if consistent && remaining@ == 0 {
                    lemma_walk_ends(
                        legs,
                        leg,
                        start,
                        crossed_ticks@,
                        net,
                        fee_bps@,
                        down,
                        Charge::Included,
                    );
                }
            }
            break;
        }
    }
    if !remaining.is_zero() {
        return Err(bad_pool("swap exceeded 1024 tick-crossings; quote incomplete"));
    }
    Ok(V4SwapEnd { amount_out: out, sqrt_price_x96: price, tick, liquidity, crossed_ticks })
}

/// Where the output of a swap comes from: as the swap left it, or as an adapter changed it.
pub open spec fn hook_output(
    pool: V4PoolSnapshot,
    adjusted: Option<Result<nat, DexErr>>,
    core_out: nat,
) -> Result<nat, DexErr> {
    if adjusted is Some && pool.hook_class is Some {
        adjusted->Some_0
    } else {
        Ok(core_out)
    }
}

/// What is fixed before the swap, or the refusal.
pub open spec fn v4_setup_spec(
    pool: V4PoolSnapshot,
    amount_in: nat,
    adapter: Option<AdapterReply>,
    state: Option<V4HookClassState>,
) -> Result<V4Setup, DexErr> {
    if pool.static_error() is Some {
        Err(pool.static_error()->Some_0)
    } else if adapter is Some && state is Some {
        Err(e_pool("cannot provide both hook_state and hook_adapter"@))
    } else if amount_in == 0 {
        Err(
            DexErr::MathError(
                e_invalid(
                    "v4.quote_exact_input"@,
                    "amount_in cannot be zero"@,
                    "v4 adapter"@,
                ),
            ),
        )
    } else {
        match state {
            Some(s) => match hook_effects_spec(pool, s) {
                Err(e) => Err(e),
                Ok((fee, input, output, used)) => match v4_effective_input(amount_in, input) {
                    Err(e) => Err(e),
                    Ok(effective) => v4_charged(amount_in, effective, fee, used, input, output, used),
                },
            },
            None => match v4_fee_spec(
                pool,
                if adapter is Some {
                    Some(adapter->Some_0.class)
                } else {
                    None
                },
                if adapter is Some {
                    adapter->Some_0.fee
                } else {
                    Ok(0)
                },
            ) {
                Err(e) => Err(e),
                Ok((fee, replaced)) => v4_charged(
                    amount_in,
                    amount_in,
                    fee,
                    replaced,
                    0,
                    0,
                    false,
                ),
            },
        }
    }
}

/// The input after the change that a hook makes before the swap.
pub open spec fn v4_effective_input(amount_in: nat, input_delta: int) -> Result<nat, DexErr> {
    signed_delta_spec(amount_in, input_delta, "hook before_swap input delta"@)
}

/// The amounts of a swap whose fee is known.
pub open spec fn v4_charged(
    amount_in: nat,
    effective: nat,
    fee_bps: nat,
    fee_override: bool,
    input_delta: int,
    output_delta: int,
    used_hook_state: bool,
) -> Result<V4Setup, DexErr> {
    match v4_net_input(effective, fee_bps) {
        Err(e) => Err(DexErr::MathError(e)),
        Ok(after) => Ok(
            V4Setup {
                amount_in,
                amount_in_effective: effective,
                amount_in_after_fee: after,
                fee_bps,
                fee_override,
                input_delta,
                output_delta,
                used_hook_state,
            },
        ),
    }
}

/// The quote of a swap that the fee uses up: nothing moves.
pub open spec fn v4_idle(pool: V4PoolSnapshot, setup: V4Setup) -> V4QuoteView {
    V4QuoteView {
        setup,
        amount_out: 0,
        execution_price_wad: 0,
        price_impact_bps: 0,
        sqrt_price_before_x96: pool.sqrt_price_x96@,
        sqrt_price_after_x96: pool.sqrt_price_x96@,
        tick_before: pool.tick as int,
        tick_after: pool.tick as int,
        liquidity_before: pool.liquidity as nat,
        liquidity_after: pool.liquidity as nat,
        crossed_ticks: seq![],
    }
}

/// The quote of a swap that has ended, from the output that the hook leaves.
pub open spec fn v4_finish_spec(
    pool: V4PoolSnapshot,
    setup: V4Setup,
    direction: SwapDirection,
    end: V4EndView,
    hooked_out: nat,
) -> Result<V4QuoteView, DexErr> {
    match signed_delta_spec(hooked_out, setup.output_delta, "hook after_swap output delta"@) {
        Err(e) => Err(e),
        Ok(out) => match v4_execution_price(setup.amount_in_after_fee, out, direction) {
            Err(e) => Err(DexErr::MathError(e)),
            Ok(execution) => match v3_impact_spec(pool.sqrt_price_x96@, end.price) {
                Err(e) => Err(DexErr::MathError(e)),
                Ok(impact) => Ok(
                    V4QuoteView {
                        setup,
                        amount_out: out,
                        execution_price_wad: execution,
                        price_impact_bps: impact,
                        sqrt_price_before_x96: pool.sqrt_price_x96@,
                        sqrt_price_after_x96: end.price,
                        tick_before: pool.tick as int,
                        tick_after: end.tick,
                        liquidity_before: pool.liquidity as nat,
                        liquidity_after: end.liquidity,
                        crossed_ticks: end.crossed,
                    },
                ),
            },
        },
    }
}

/// The quote of a swap whose amounts and fee are fixed, given what an adapter makes of its
/// output.
pub open spec fn v4_swap_quote(
    pool: V4PoolSnapshot,
    setup: V4Setup,
    direction: SwapDirection,
    adjusted: Option<Result<nat, DexErr>>,
) -> Result<V4QuoteView, DexErr> {
    if setup.amount_in_after_fee == 0 {
        Ok(v4_idle(pool, setup))
    } else {
        match v4_core(pool, setup.amount_in_effective, setup.fee_bps, direction.is_down()) {
            Err(e) => Err(e),
            Ok(end) => match hook_output(pool, adjusted, end.out) {
                Err(e) => Err(e),
                Ok(out) => v4_finish_spec(pool, setup, direction, end, out),
            },
        }
    }
}

/// The exact-input quote, given what an adapter has answered.
pub open spec fn v4_quote_spec(
    pool: V4PoolSnapshot,
    amount_in: nat,
    direction: SwapDirection,
    adapter: Option<AdapterReply>,
    state: Option<V4HookClassState>,
) -> Result<V4QuoteView, DexErr> {
    match v4_setup_spec(pool, amount_in, adapter, state) {
        Err(e) => Err(e),
        Ok(setup) => v4_swap_quote(
            pool,
            setup,
            direction,
            if adapter is Some {
                Some(adapter->Some_0.adjusted)
            } else {
                None
            },
        ),
    }
}

/// Takes the fee from the input of a swap.
fn charge(
    amount_in: U256,
    effective: U256,
    fee: (BasisPoints, bool),
    deltas: (i128, i128),
    used_hook_state: bool,
) -> (r: Result<V4SwapSetup, DexError>)
    ensures
        dex_view(r) == v4_charged(
            amount_in@,
            effective@,
            fee.0@,
            fee.1,
            deltas.0 as int,
            deltas.1 as int,
            used_hook_state,
        ),
{
    match apply_fee_exact_in(effective, fee.0) {
        Err(e) => Err(DexError::MathError(e)),
        Ok(after) => Ok(
            V4SwapSetup {
                amount_in,
                amount_in_effective: effective,
                amount_in_after_fee: after,
                fee_bps: fee.0,
                fee_override: fee.1,
                input_delta: deltas.0,
                output_delta: deltas.1,
                used_hook_state,
            },
        ),
    }
}

/// The quote of a swap that the fee uses up.
fn idle_quote(pool: &V4PoolSnapshot, setup: V4SwapSetup) -> (q: V4ExactInQuote)
    ensures
        q@ == v4_idle(*pool, setup@),
{
    let crossed_ticks: Vec<i32> = Vec::new();
    assert(crossed_ticks@ =~= seq![]);
    V4ExactInQuote {
        amount_in: setup.amount_in,
        amount_in_effective: setup.amount_in_effective,
        amount_in_after_fee: setup.amount_in_after_fee,
        amount_out: U256::zero(),
        execution_price_wad: U256::zero(),
        price_impact_bps: 0,
        sqrt_price_before_x96: pool.sqrt_price_x96,
        sqrt_price_after_x96: pool.sqrt_price_x96,
        tick_before: pool.tick,
        tick_after: pool.tick,
        liquidity_before: pool.liquidity,
        liquidity_after: pool.liquidity,
        crossed_ticks,
        fee_bps_applied: setup.fee_bps,
        used_deterministic_fee_override: setup.fee_override,
        hook_input_delta: setup.input_delta,
        hook_output_delta: setup.output_delta,
        used_hook_state: setup.used_hook_state,
    }
}

/// Fixes the amounts and the fee of a swap. The ghost value is what the adapter has answered so
/// far.
fn prepare(
    pool: &V4PoolSnapshot,
    amount_in: U256,
    direction: SwapDirection,
    hook_adapter: Option<&dyn V4HookQuoteAdapter>,
    hook_state: Option<&V4HookClassState>,
) -> (r: (Result<V4SwapSetup, DexError>, Ghost<AdapterReply>))
    ensures
        dex_view(r.0) == v4_setup_spec(
            *pool,
            amount_in@,
            if hook_adapter is Some {
                Some(r.1@)
            } else {
                None
            },
            given(hook_state),
        ),
        r.0 is Ok ==> strictly_ascending(pool.initialized_ticks@),
        hook_adapter is Some && asked_for_fee(*pool, amount_in@, r.1@.class, given(hook_state))
            ==> hook_adapter->Some_0.may_set_fee(*pool, amount_in@, direction, r.1@.fee),
        hook_adapter is Some && asked_for_class(*pool, amount_in@, given(hook_state))
            ==> hook_adapter->Some_0.may_model(r.1@.class),
{
    let ghost silent = AdapterReply {
        class: V4OfficialHookClass::Twamm,
        fee: Ok(0),
        adjusted: Ok(0),
    };
    match pool.validate_static() {
        Ok(_) => {},
        Err(e) => return (Err(e), Ghost(silent)),
    }
    if hook_state.is_some() && hook_adapter.is_some() {
        return (
            Err(bad_pool("cannot provide both hook_state and hook_adapter")),
            Ghost(silent),
        );
    }
    if amount_in.is_zero() {
        return (
            Err(
                DexError::MathError(
                    invalid("v4.quote_exact_input", "amount_in cannot be zero", "v4 adapter"),
                ),
            ),
            Ghost(silent),
        );
    }
    match hook_state {
        Some(state) => {
            let (fee, input_delta, output_delta, used) = match hook_effects_from_state(
                pool,
                state,
            ) {
                Err(e) => return (Err(e), Ghost(silent)),
                Ok(v) => v,
            };
            let effective = match apply_signed_delta_to_u256(
                amount_in,
                input_delta,
                "hook before_swap input delta",
            ) {
                Err(e) => return (Err(e), Ghost(silent)),
                Ok(v) => v,
            };
            (
                charge(amount_in, effective, (fee, used), (input_delta, output_delta), used),
                Ghost(silent),
            )
        },
        None => {
            let (fee, Ghost(answer)) = effective_fee_with_adapter(
                pool,
                amount_in,
                direction,
                hook_adapter,
            );
            let ghost reply = AdapterReply { class: answer.0, fee: answer.1, adjusted: Ok(0) };
            match fee {
                Err(e) => (Err(e), Ghost(reply)),
                Ok(fee) => (charge(amount_in, amount_in, fee, (0, 0), false), Ghost(reply)),
            }
        },
    }
}

/// Makes the quote of a swap that has ended, from the output that the hook leaves.
pub fn finish_quote(
    pool: &V4PoolSnapshot,
    setup: V4SwapSetup,
    direction: SwapDirection,
    end: V4SwapEnd,
    hooked_out: U256,
) -> (r: Result<V4ExactInQuote, DexError>)
    ensures
        dex_view(r) == v4_finish_spec(*pool, setup@, direction, end@, hooked_out@),
{
    let out = match apply_signed_delta_to_u256(
        hooked_out,
        setup.output_delta,
        "hook after_swap output delta",
    ) {
        Ok(v) => v,
        Err(e) => return Err(e),
    };
    let execution = match execution_price_wad(setup.amount_in_after_fee, out, direction) {
        Ok(v) => v,
        Err(e) => return Err(DexError::MathError(e)),
    };
    let impact: u32 = match calculate_v3_price_impact(pool.sqrt_price_x96, end.sqrt_price_x96) {
        Ok(v) => v,
        Err(e) => return Err(DexError::MathError(e)),
    };
    Ok(
        V4ExactInQuote {
            amount_in: setup.amount_in,
            amount_in_effective: setup.amount_in_effective,
            amount_in_after_fee: setup.amount_in_after_fee,
            amount_out: out,
            execution_price_wad: execution,
            price_impact_bps: impact,
            sqrt_price_before_x96: pool.sqrt_price_x96,
            sqrt_price_after_x96: end.sqrt_price_x96,
            tick_before: pool.tick,
            tick_after: end.tick,
            liquidity_before: pool.liquidity,
            liquidity_after: end.liquidity,
            crossed_ticks: end.crossed_ticks,
            fee_bps_applied: setup.fee_bps,
            used_deterministic_fee_override: setup.fee_override,
            hook_input_delta: setup.input_delta,
            hook_output_delta: setup.output_delta,
            used_hook_state: setup.used_hook_state,
        },
    )
}

/// Whether an adapter is asked for its class.
pub open spec fn asked_for_class(
    pool: V4PoolSnapshot,
    amount_in: nat,
    state: Option<V4HookClassState>,
) -> bool {
    pool.static_error() is None && amount_in != 0 && state is None
}

/// Whether an adapter of a class is asked for the fee of a swap.
pub open spec fn asked_for_fee(
    pool: V4PoolSnapshot,
    amount_in: nat,
    class: V4OfficialHookClass,
    state: Option<V4HookClassState>,
) -> bool {
    &&& pool.static_error() is None
    &&& amount_in != 0
    &&& state is None
    &&& pool.hook_class is None || pool.hook_class == Some(class)
    &&& pool.hook_mode is RequiresExternalAdapter
}

/// The output of a swap, where it ends.
pub open spec fn v4_core_output(
    pool: V4PoolSnapshot,
    setup: V4Setup,
    direction: SwapDirection,
) -> Option<nat> {
    if setup.amount_in_after_fee == 0 {
        None
    } else {
        match v4_core(pool, setup.amount_in_effective, setup.fee_bps, direction.is_down()) {
            Err(_) => None,
            Ok(end) => Some(end.out),
        }
    }
}

/// The output that an adapter is asked to adjust, where it is asked.
pub open spec fn asked_for_output(
    pool: V4PoolSnapshot,
    amount_in: nat,
    direction: SwapDirection,
    reply: AdapterReply,
    state: Option<V4HookClassState>,
) -> Option<nat> {
    if pool.hook_class is None {
        None
    } else {
        match v4_setup_spec(pool, amount_in, Some(reply), state) {
            Err(_) => None,
            Ok(setup) => v4_core_output(pool, setup, direction),
        }
    }
}

/// What is fixed before the swap does not depend on what becomes of its output.
proof fn lemma_setup_ignores_output(
    pool: V4PoolSnapshot,
    amount_in: nat,
    state: Option<V4HookClassState>,
    a: AdapterReply,
    b: AdapterReply,
)
    requires
        a.class == b.class,
        a.fee == b.fee,
    ensures
        v4_setup_spec(pool, amount_in, Some(a), state) == v4_setup_spec(
            pool,
            amount_in,
            Some(b),
            state,
        ),
{
}

/// Runs a swap whose amounts and fee are fixed, and makes its quote. The ghost value is what the
/// adapter has made of the output.
fn swap_quote(
    pool: &V4PoolSnapshot,
    setup: V4SwapSetup,
    amount_in: U256,
    direction: SwapDirection,
    hook_adapter: Option<&dyn V4HookQuoteAdapter>,
) -> (r: (Result<V4ExactInQuote, DexError>, Ghost<Result<nat, DexErr>>))
    requires
        ascending(pool.initialized_ticks@),
    ensures
        dex_view(r.0) == v4_swap_quote(
            *pool,
            setup@,
            direction,
            if hook_adapter is Some {
                Some(r.1@)
            } else {
                None
            },
        ),
        hook_adapter is Some && pool.hook_class is Some ==> match v4_core_output(
            *pool,
            setup@,
            direction,
        ) {
            None => true,
            Some(out) => hook_adapter->Some_0.may_adjust(
                *pool,
                amount_in@,
                direction,
                out,
                r.1@,
            ),
        },
        r.0 is Ok && setup.amount_in_effective@ > 0 ==> is_walked_quote(
            *pool,
            direction,
            r.0->Ok_0@,
            hook_adapter is Some && pool.hook_class is Some,
        ),
{
    let ghost silent: Result<nat, DexErr> = Ok(0);
    if setup.amount_in_after_fee.is_zero() {
        return (Ok(idle_quote(pool, setup)), Ghost(silent));
    }
    let end = match run_swap(
        pool,
        setup.amount_in_effective,
        setup.fee_bps,
        direction.zero_for_one(),
    ) {
        Err(e) => return (Err(e), Ghost(silent)),
        Ok(v) => v,
    };
    let core_out = end.amount_out;
    let ghost walked = end@;
    proof {
        if setup.amount_in_effective@ > 0 && is_consistent(*pool) {
            assert(is_walked(
                *pool,
                setup@.amount_in_effective,
                setup@.fee_bps,
                direction.is_down(),
                walked,
            ));
        }
    }
    if pool.hook_class.is_some() {
        match hook_adapter {
            None => {},
            Some(adapter) => {
                let adjusted = adapter.adjust_exact_in_output(
                    pool,
                    amount_in,
                    direction,
                    core_out,
                );
                let ghost answer = dex_view(adjusted);
                assert(adapter.may_adjust(
                    *pool,
                    amount_in@,
                    direction,
                    core_out@,
                    answer,
                ));
                match adjusted {
                    Err(e) => return (Err(e), Ghost(answer)),
                    Ok(v) => return (
                        finish_quote(pool, setup, direction, end, v),
                        Ghost(answer),
                    ),
                }
            },
        }
    }
    (finish_quote(pool, setup, direction, end, core_out), Ghost(silent))
}

/// Quotes an exact input.
pub fn quote_exact_input(pool: &V4PoolSnapshot, amount_in: U256, direction: SwapDirection) -> (r:
    Result<V4ExactInQuote, DexError>)
    ensures
        dex_view(r) == v4_quote_spec(*pool, amount_in@, direction, None, None),
        r is Ok ==> is_walked_quote(*pool, direction, r->Ok_0@, false),
{
    quote_exact_input_with_hook_state(pool, amount_in, direction, None)
}

/// Quotes an exact input, given the state of the hook.
pub fn quote_exact_input_with_hook_state(
    pool: &V4PoolSnapshot,
    amount_in: U256,
    direction: SwapDirection,
    hook_state: Option<&V4HookClassState>,
) -> (r: Result<V4ExactInQuote, DexError>)
    ensures
        dex_view(r) == v4_quote_spec(*pool, amount_in@, direction, None, given(hook_state)),
        r is Ok ==> is_walked_quote(*pool, direction, r->Ok_0@, false),
{
    quote_exact_input_with_hook_adapter_and_state(pool, amount_in, direction, None, hook_state)
}

/// Quotes an exact input with an adapter that models the hook.
pub fn quote_exact_input_with_hook_adapter(
    pool: &V4PoolSnapshot,
    amount_in: U256,
    direction: SwapDirection,
    hook_adapter: Option<&dyn V4HookQuoteAdapter>,
) -> (r: Result<V4ExactInQuote, DexError>)
    ensures
        match hook_adapter {
            None => dex_view(r) == v4_quote_spec(*pool, amount_in@, direction, None, None),
            Some(adapter) => exists|reply: AdapterReply|
                {
                    &&& dex_view(r) == #[trigger] v4_quote_spec(
                        *pool,
                        amount_in@,
                        direction,
                        Some(reply),
                        None,
                    )
                    &&& asked_for_class(*pool, amount_in@, None) ==> adapter.may_model(reply.class)
                    &&& asked_for_fee(*pool, amount_in@, reply.class, None)
                        ==> adapter.may_set_fee(*pool, amount_in@, direction, reply.fee)
                    &&& match asked_for_output(*pool, amount_in@, direction, reply, None) {
                        None => true,
                        Some(out) => adapter.may_adjust(
                            *pool,
                            amount_in@,
                            direction,
                            out,
                            reply.adjusted,
                        ),
                    }
                },
        },
        r is Ok ==> is_walked_quote(
            *pool,
            direction,
            r->Ok_0@,
            hook_adapter is Some && pool.hook_class is Some,
        ),
{
    quote_exact_input_with_hook_adapter_and_state(pool, amount_in, direction, hook_adapter, None)
}

/// The state behind a reference.
pub open spec fn given(state: Option<&V4HookClassState>) -> Option<V4HookClassState> {
    match state {
        Some(s) => Some(*s),
        None => None,
    }
}

/// Quotes an exact input, with a state of the hook or an adapter that models it; both at once
/// are refused. What an adapter answers is up to its implementation: the quote is the one that
/// follows from some answer that the adapter may give to what it is asked.
pub fn quote_exact_input_with_hook_adapter_and_state(
    pool: &V4PoolSnapshot,
    amount_in: U256,
    direction: SwapDirection,
    hook_adapter: Option<&dyn V4HookQuoteAdapter>,
    hook_state: Option<&V4HookClassState>,
) -> (r: Result<V4ExactInQuote, DexError>)
    ensures
        match hook_adapter {
            None => dex_view(r) == v4_quote_spec(
                *pool,
                amount_in@,
                direction,
                None,
                given(hook_state),
            ),
            Some(adapter) => exists|reply: AdapterReply|
                {
                    &&& dex_view(r) == #[trigger] v4_quote_spec(
                        *pool,
                        amount_in@,
                        direction,
                        Some(reply),
                        given(hook_state),
                    )
                    &&& asked_for_class(*pool, amount_in@, given(hook_state)) ==> adapter.may_model(
                        reply.class,
                    )
                    &&& asked_for_fee(*pool, amount_in@, reply.class, given(hook_state))
                        ==> adapter.may_set_fee(*pool, amount_in@, direction, reply.fee)
                    &&& match asked_for_output(*pool, amount_in@, direction, reply, given(hook_state)) {
                        None => true,
                        Some(out) => adapter.may_adjust(
                            *pool,
                            amount_in@,
                            direction,
                            out,
                            reply.adjusted,
                        ),
                    }
                },
        },
        r is Ok ==> is_walked_quote(
            *pool,
            direction,
            r->Ok_0@,
            hook_adapter is Some && pool.hook_class is Some,
        ),
{
    let (prepared, Ghost(asked)) = prepare(pool, amount_in, direction, hook_adapter, hook_state);
    match prepared {
        Err(e) => {
            let r = Err(e);
            assert(hook_adapter is Some ==> dex_view(r) == v4_quote_spec(
                *pool,
                amount_in@,
                direction,
                Some(asked),
                given(hook_state),
            ));
            r
        },
        Ok(setup) => {
            let (quote, Ghost(adjusted)) = swap_quote(
                pool,
                setup,
                amount_in,
                direction,
                hook_adapter,
            );
            proof {
                let reply = AdapterReply { adjusted, ..asked };
                lemma_setup_ignores_output(*pool, amount_in@, given(hook_state), asked, reply);
                assert(hook_adapter is Some ==> dex_view(quote) == v4_quote_spec(
                    *pool,
                    amount_in@,
                    direction,
                    Some(reply),
                    given(hook_state),
                ));
            }
            quote
        },
    }
}

/// The induction behind [`law_quote_accounts_for_liquidity`].
proof fn lemma_swap_end(
    pool: V4PoolSnapshot,
    fee_bps: nat,
    down: bool,
    st: V4SwapState,
    left: nat,
    before: nat,
)
    requires
        accounts_for(pool.tick_liquidity_net@, before, st.liquidity, st.crossed, down),
    ensures
        v4_swap(pool, fee_bps, down, st, left) matches Ok(end) ==> {
            &&& accounts_for(pool.tick_liquidity_net@, before, end.liquidity, end.crossed, down)
            &&& end.crossed.len() <= st.crossed.len() + left
        },
    decreases left,
{
    if st.remaining != 0 && left > 0 {
        match v4_swap_step(pool, fee_bps, down, st) {
            Err(_) => {},
            Ok((next, goes_on)) => {
                if goes_on {
                    lemma_one_more_crossing(
                        pool.tick_liquidity_net@,
                        before,
                        st.liquidity,
                        st.crossed,
                        next.crossed.last(),
                        down,
                    );
                    lemma_swap_end(pool, fee_bps, down, next, (left - 1) as nat, before);
                }
            },
        }
    }
}

/// A quote crosses only ticks whose liquidity is known, at most 1024 of them, and its liquidity
/// afterwards is the one before with the entries of the crossed ticks applied. No hook changes
/// that.
pub proof fn law_quote_accounts_for_liquidity(
    pool: V4PoolSnapshot,
    amount_in: nat,
    direction: SwapDirection,
    adapter: Option<AdapterReply>,
    state: Option<V4HookClassState>,
)
    ensures
        v4_quote_spec(pool, amount_in, direction, adapter, state) matches Ok(q) ==> {
            &&& accounts_for(
                pool.tick_liquidity_net@,
                q.liquidity_before,
                q.liquidity_after,
                q.crossed_ticks,
                direction.is_down(),
            )
            &&& q.liquidity_before == pool.liquidity
            &&& q.crossed_ticks.len() <= 1024
        },
{
    match v4_setup_spec(pool, amount_in, adapter, state) {
        Err(_) => {},
        Ok(setup) => {
            lemma_swap_end(
                pool,
                setup.fee_bps,
                direction.is_down(),
                v4_start(pool, setup.amount_in_effective, direction.is_down()),
                1024,
                pool.liquidity as nat,
            );
        },
    }
}

/// Whether `crossed` lists ticks in their order without a gap, from the split at `from` on: downwards
/// those before it, upwards those behind it.
pub open spec fn is_run(ticks: Seq<i32>, from: int, down: bool, crossed: Seq<i32>) -> bool {
    forall|k: int|
        0 <= k < crossed.len() ==> if down {
            k < from <= ticks.len() && #[trigger] crossed[k] == ticks[from - 1 - k]
        } else {
            0 <= from && from + k < ticks.len() && crossed[k] == ticks[from + k]
        }
}

/// The cursor splits an ascending list.
proof fn lemma_cursor_splits(ticks: Seq<i32>, current: int, down: bool)
    requires
        ascending(ticks),
    ensures
        splits(ticks, current, cursor_spec(ticks, current, down) as int, down),
    decreases ticks.len(),
{
    if ticks.len() > 0 {
        let last = ticks.len() - 1;
        assert(ticks.last() == ticks[last]);
        if (down && ticks.last() < current) || (!down && ticks.last() <= current) {
            assert forall|k: int| 0 <= k < ticks.len() implies ticks[k] <= ticks[last] by {}
        } else {
            let rest = ticks.drop_last();
            assert(forall|k: int| 0 <= k < rest.len() ==> rest[k] == ticks[k]);
            lemma_cursor_splits(rest, current, down);
            let cursor = cursor_spec(rest, current, down) as int;
            assert forall|k: int| 0 <= k < cursor implies ticks[k] == rest[k] by {}
            assert forall|k: int| cursor <= k < last implies ticks[k] == rest[k] by {}
        }
    }
}

/// The induction behind [`law_crossed_ticks_are_a_run`].
proof fn lemma_swap_run(
    pool: V4PoolSnapshot,
    fee_bps: nat,
    down: bool,
    st: V4SwapState,
    left: nat,
    from: int,
)
    requires
        0 <= from <= pool.initialized_ticks@.len(),
        !pool.tick_liquidity_net@.dom().contains(if down {
            MIN_TICK
        } else {
            MAX_TICK
        }),
        is_run(pool.initialized_ticks@, from, down, st.crossed),
        st.cursor == if down {
            from - st.crossed.len()
        } else {
            from + st.crossed.len()
        },
    ensures
        v4_swap(pool, fee_bps, down, st, left) matches Ok(end) ==> is_run(
            pool.initialized_ticks@,
            from,
            down,
            end.crossed,
        ),
    decreases left,
{
    let ticks = pool.initialized_ticks@;
    if st.remaining != 0 && left > 0 {
        match v4_swap_step(pool, fee_bps, down, st) {
            Err(_) => {},
            Ok((next, goes_on)) => {
                if goes_on {
                    let tick = cursor_tick(ticks, st.cursor, down);
                    assert(next.crossed == st.crossed.push(tick as i32));
                    if st.crossed.len() > 0 {
                        let last = st.crossed.len() - 1;
                        assert(st.crossed[last] == st.crossed[last]);
                    }
                    assert(0 <= st.cursor <= ticks.len());
                    assert forall|k: int| 0 <= k < next.crossed.len() implies if down {
                        k < from <= ticks.len() && #[trigger] next.crossed[k] == ticks[from - 1 - k]
                    } else {
                        0 <= from && from + k < ticks.len() && next.crossed[k] == ticks[from + k]
                    } by {
                        if k < st.crossed.len() {
                            assert(next.crossed[k] == st.crossed[k]);
                        }
                    }
                    lemma_swap_run(pool, fee_bps, down, next, (left - 1) as nat, from);
                }
            },
        }
    }
}

/// The ticks that a quote crosses are an unbroken run of the initialized ticks that starts next to
/// the tick of the pool. This is said of liquidity maps without an entry at the end of the tick
/// range towards which the price moves.
pub proof fn law_crossed_ticks_are_a_run(
    pool: V4PoolSnapshot,
    amount_in: nat,
    direction: SwapDirection,
    adapter: Option<AdapterReply>,
    state: Option<V4HookClassState>,
)
    requires
        !pool.tick_liquidity_net@.dom().contains(if direction.is_down() {
            MIN_TICK
        } else {
            MAX_TICK
        }),
    ensures
        v4_quote_spec(pool, amount_in, direction, adapter, state) matches Ok(q) ==> exists|from: int|
            {
                &&& splits(pool.initialized_ticks@, pool.tick as int, from, direction.is_down())
                &&& #[trigger] is_run(
                    pool.initialized_ticks@,
                    from,
                    direction.is_down(),
                    q.crossed_ticks,
                )
            },
{
    let ticks = pool.initialized_ticks@;
    let down = direction.is_down();
    match v4_setup_spec(pool, amount_in, adapter, state) {
        Err(_) => {},
        Ok(setup) => {
            let from = cursor_spec(ticks, pool.tick as int, down) as int;
            lemma_cursor_splits(ticks, pool.tick as int, down);
            assert(is_run(ticks, from, down, seq![]));
            lemma_swap_run(
                pool,
                setup.fee_bps,
                down,
                v4_start(pool, setup.amount_in_effective, down),
                1024,
                from,
            );
            match v4_quote_spec(pool, amount_in, direction, adapter, state) {
                Err(_) => {},
                Ok(q) => {
                    assert(is_run(ticks, from, down, q.crossed_ticks));
                },
            }
        },
    }
}

/// Where the hook of a pool needs an adapter, a quote has the fee that the adapter sets, and its
/// output is what the adapter makes of the output of the swap.
pub proof fn law_adapter_sets_fee_and_output(
    pool: V4PoolSnapshot,
    amount_in: nat,
    direction: SwapDirection,
    reply: AdapterReply,
)
    requires
        pool.hook_class == Some(reply.class),
        pool.hook_mode is RequiresExternalAdapter,
    ensures
        v4_quote_spec(pool, amount_in, direction, Some(reply), None) matches Ok(q) ==> {
            &&& reply.fee == Ok::<nat, DexErr>(q.setup.fee_bps)
            &&& q.setup.fee_bps < 10_000
            &&& q.setup.fee_override && !q.setup.used_hook_state
            &&& q.setup.amount_in_after_fee > 0 ==> reply.adjusted == Ok::<nat, DexErr>(
                q.amount_out,
            )
            &&& q.setup.amount_in_after_fee == 0 ==> q.amount_out == 0
        },
{
}

/// A snapshot that does not determine the swap is refused, and so is an empty input, whatever a
/// hook has to say.
pub proof fn law_incomplete_snapshot_is_refused(
    pool: V4PoolSnapshot,
    amount_in: nat,
    direction: SwapDirection,
    adapter: Option<AdapterReply>,
    state: Option<V4HookClassState>,
)
    requires
        amount_in == 0 || pool.static_error() is Some,
    ensures
        v4_quote_spec(pool, amount_in, direction, adapter, state) is Err,
{
}

/// A hook state and an adapter together are refused, and so is an adapter of another class than
/// the snapshot names.
pub proof fn law_contradictory_hooks_are_refused(
    pool: V4PoolSnapshot,
    amount_in: nat,
    direction: SwapDirection,
    reply: AdapterReply,
    state: Option<V4HookClassState>,
)
    requires
        state is Some || (pool.hook_class is Some && pool.hook_class != Some(reply.class)),
    ensures
        v4_quote_spec(pool, amount_in, direction, Some(reply), state) is Err,
{
}

/// A pool whose hook needs an adapter, or cannot be quoted, has no quote without one.
pub proof fn law_needed_adapter_is_not_guessed(
    pool: V4PoolSnapshot,
    amount_in: nat,
    direction: SwapDirection,
)
    requires
        pool.hook_mode is RequiresExternalAdapter || pool.hook_mode is Unsupported,
    ensures
        v4_quote_spec(pool, amount_in, direction, None, None) is Err,
{
}

/// A quote moves by the changes that the hook state makes to input and output, and by no others.
pub proof fn law_hook_deltas_are_applied(
    pool: V4PoolSnapshot,
    amount_in: nat,
    direction: SwapDirection,
    state: V4HookClassState,
)
    ensures
        v4_quote_spec(pool, amount_in, direction, None, Some(state)) matches Ok(q) ==> {
            &&& q.setup.amount_in == amount_in
            &&& q.setup.amount_in_effective == amount_in + q.setup.input_delta
            &&& q.setup.amount_in_after_fee != 0 ==> (v4_core(
                pool,
                q.setup.amount_in_effective,
                q.setup.fee_bps,
                direction.is_down(),
            ) matches Ok(end) && q.amount_out == end.out + q.setup.output_delta)
        },
{
}

/// What a swap pays is added to what was paid before: two swaps that differ in that alone end in
/// states that differ in it alone. So the output of a swap never falls on its way.
pub proof fn law_output_adds_up(
    pool: V4PoolSnapshot,
    fee_bps: nat,
    down: bool,
    st: V4SwapState,
    paid: nat,
    left: nat,
)
    requires
        v4_swap(pool, fee_bps, down, st, left) is Ok,
        v4_swap(pool, fee_bps, down, V4SwapState { out: st.out + paid, ..st }, left) is Ok,
    ensures
        ({
            let plain = v4_swap(pool, fee_bps, down, st, left)->Ok_0;
            let more = v4_swap(
                pool,
                fee_bps,
                down,
                V4SwapState { out: st.out + paid, ..st },
                left,
            )->Ok_0;
            &&& more == (V4SwapState { out: plain.out + paid, ..plain })
            &&& plain.remaining <= st.remaining
            &&& plain.out >= st.out
        }),
    decreases left,
{
    if st.remaining != 0 && left > 0 {
        let richer = V4SwapState { out: st.out + paid, ..st };
        let (next, goes_on) = v4_swap_step(pool, fee_bps, down, st)->Ok_0;
        let (other, _) = v4_swap_step(pool, fee_bps, down, richer)->Ok_0;
        assert(other == (V4SwapState { out: next.out + paid, ..next }));
        if goes_on {
            law_output_adds_up(pool, fee_bps, down, next, paid, (left - 1) as nat);
        }
    }
}

/// A quote pays the sum of what its ranges pay, and moves the price in its direction. Each range
/// pays what lies between its two prices at its liquidity.
pub proof fn law_quote_pays_the_sum_of_its_ranges(
    pool: V4PoolSnapshot,
    direction: SwapDirection,
    q: V4QuoteView,
)
    requires
        is_consistent(pool),
        q.setup.amount_in_after_fee > 0,
        is_walked_quote(pool, direction, q, false),
    ensures
        match direction {
            SwapDirection::Token0ToToken1 => q.sqrt_price_after_x96 <= pool.sqrt_price_x96@,
            SwapDirection::Token1ToToken0 => pool.sqrt_price_x96@ <= q.sqrt_price_after_x96,
        },
        exists|legs: Seq<Leg>|
            {
                &&& legs.len() == q.crossed_ticks.len() + 1
                &&& legs[0].from.price == pool.sqrt_price_x96@
                &&& legs.last().to.price == q.sqrt_price_after_x96
                &&& q.amount_out == #[trigger] paid(legs) + q.setup.output_delta
                &&& forall|k: int|
                    0 <= k < legs.len() ==> is_leg(
                        #[trigger] legs[k],
                        q.setup.fee_bps,
                        direction.is_down(),
                        Charge::Included,
                    )
            },
{
    let end = choose|end: V4EndView|
        {
            &&& #[trigger] is_walked(
                pool,
                q.setup.amount_in_effective,
                q.setup.fee_bps,
                direction.is_down(),
                end,
            )
            &&& q.sqrt_price_after_x96 == end.price
            &&& q.tick_after == end.tick
            &&& q.liquidity_after == end.liquidity
            &&& q.crossed_ticks == end.crossed
            &&& q.amount_out == end.out + q.setup.output_delta
        };
    law_swap_pays_the_sum_of_its_ranges(
        Stand {
            price: pool.sqrt_price_x96@,
            liquidity: pool.liquidity as nat,
            left: q.setup.amount_in_effective,
            out: 0,
        },
        Stand { price: end.price, liquidity: end.liquidity, left: 0, out: end.out },
        end.crossed,
        pool.tick_liquidity_net@,
        q.setup.fee_bps,
        direction.is_down(),
        Charge::Included,
    );
}

/// A quote says what it was asked, where the pool stood, the price of the trade in token 1 per token
/// 0, and how far the price of the pool has moved. The fee is taken from what the hook leaves of the
/// input, rounded up; an input that it uses up moves nothing.
pub proof fn law_quote_reports_the_trade(
    pool: V4PoolSnapshot,
    amount_in: nat,
    direction: SwapDirection,
    adapter: Option<AdapterReply>,
    state: Option<V4HookClassState>,
)
    ensures
        v4_quote_spec(pool, amount_in, direction, adapter, state) matches Ok(q) ==> {
            &&& q.setup.amount_in == amount_in
            &&& q.setup.amount_in_effective == amount_in + q.setup.input_delta
            &&& q.setup.fee_bps <= 10_000 ==> is_after_fee(
                q.setup.amount_in_after_fee,
                q.setup.amount_in_effective,
                q.setup.fee_bps,
            )
            &&& q.sqrt_price_before_x96 == pool.sqrt_price_x96@
            &&& q.tick_before == pool.tick
            &&& q.liquidity_before == pool.liquidity
            &&& is_impact_between(
                q.price_impact_bps,
                q.sqrt_price_before_x96,
                q.sqrt_price_after_x96,
            )
            &&& if q.setup.amount_in_after_fee == 0 {
                &&& q.amount_out == 0 && q.execution_price_wad == 0
                &&& q.sqrt_price_after_x96 == q.sqrt_price_before_x96
                &&& q.tick_after == q.tick_before
                &&& q.liquidity_after == q.liquidity_before
                &&& q.crossed_ticks.len() == 0
            } else {
                is_price_of(
                    q.execution_price_wad,
                    q.setup.amount_in_after_fee,
                    q.amount_out,
                    direction,
                )
            }
        },
{
    if v4_quote_spec(pool, amount_in, direction, adapter, state) is Ok {
        let q = v4_quote_spec(pool, amount_in, direction, adapter, state)->Ok_0;
        law_impact_is_the_change_of_the_price(q.sqrt_price_before_x96, q.sqrt_price_after_x96);
        law_execution_price_is_token1_per_token0(
            "v4.execution_price_wad"@,
            "mul_div failed: "@,
            "inverse mul_div failed: "@,
            q.setup.amount_in_after_fee,
            q.amount_out,
            direction,
        );
        if q.setup.amount_in_after_fee == 0 {
            lemma_no_impact(pool.sqrt_price_x96@);
        }
        let (amount, fee) = (q.setup.amount_in_effective, q.setup.fee_bps);
        let n = amount * fee;
        vstd::arithmetic::div_mod::lemma_fundamental_div_mod(n as int, 10_000);
        assert(amount * (10_000 - fee) == amount * 10_000 - n) by (nonlinear_arith)
            requires
                n == amount * fee,
        ;
    }
}

/// Without an adapter and without a hook state the fee is the static one, or the known one of a hook
/// that sets it, and nothing is added to the input or the output.
pub proof fn law_known_fee_is_charged(
    pool: V4PoolSnapshot,
    amount_in: nat,
    direction: SwapDirection,
)
    ensures
        v4_quote_spec(pool, amount_in, direction, None, None) matches Ok(q) ==> {
            &&& match pool.hook_mode {
                V4HookMode::NoHooks => q.setup.fee_bps == pool.fee_bps@ && !q.setup.fee_override,
                V4HookMode::PassiveObserver { .. } => q.setup.fee_bps == pool.fee_bps@
                    && !q.setup.fee_override,
                V4HookMode::DeterministicFeeOnly { effective_fee_bps, .. } => q.setup.fee_bps
                    == effective_fee_bps@ && q.setup.fee_override,
                _ => false,
            }
            &&& q.setup.fee_bps < 10_000
            &&& q.setup.input_delta == 0 && q.setup.output_delta == 0
            &&& !q.setup.used_hook_state
        },
{
}

/// A hook state counts where it is of the class of the pool. One that observes only leaves fee and
/// amounts alone, and is refused where it says that it does not; any other sets the fee, and those
/// with changes of the amounts apply them.
pub proof fn law_hook_state_sets_fee_and_changes(
    pool: V4PoolSnapshot,
    amount_in: nat,
    direction: SwapDirection,
    state: V4HookClassState,
)
    ensures
        v4_quote_spec(pool, amount_in, direction, None, Some(state)) matches Ok(q) ==> {
            let s = q.setup;
            &&& pool.hook_class is Some
            &&& match state {
                V4HookClassState::GeomeanOracle { quote_neutral } => quote_neutral && s.fee_bps
                    == pool.fee_bps@ && s.input_delta == 0 && s.output_delta == 0
                    && !s.used_hook_state && pool.hook_class->0 is GeomeanOracle,
                V4HookClassState::VolatilityOracle { quote_neutral } => quote_neutral && s.fee_bps
                    == pool.fee_bps@ && s.input_delta == 0 && s.output_delta == 0
                    && !s.used_hook_state && pool.hook_class->0 is VolatilityOracle,
                V4HookClassState::PointsHook { quote_neutral } => quote_neutral && s.fee_bps
                    == pool.fee_bps@ && s.input_delta == 0 && s.output_delta == 0
                    && !s.used_hook_state && pool.hook_class->0 is PointsHook,
                V4HookClassState::DynamicFee { effective_fee_bps } => s.fee_bps
                    == effective_fee_bps@ && s.input_delta == 0 && s.output_delta == 0
                    && s.used_hook_state && pool.hook_class->0 is DynamicFee,
                V4HookClassState::LimitOrder { effective_fee_bps, deltas } => s.fee_bps
                    == effective_fee_bps@ && s.input_delta == deltas.before_swap_input_delta
                    && s.output_delta == deltas.after_swap_output_delta && s.used_hook_state
                    && pool.hook_class->0 is LimitOrder,
                V4HookClassState::Twamm { effective_fee_bps, deltas } => s.fee_bps
                    == effective_fee_bps@ && s.input_delta == deltas.before_swap_input_delta
                    && s.output_delta == deltas.after_swap_output_delta && s.used_hook_state
                    && pool.hook_class->0 is Twamm,
                V4HookClassState::AsyncSwap { effective_fee_bps, deltas } => s.fee_bps
                    == effective_fee_bps@ && s.input_delta == deltas.before_swap_input_delta
                    && s.output_delta == deltas.after_swap_output_delta && s.used_hook_state
                    && pool.hook_class->0 is AsyncSwap,
                V4HookClassState::CustomAccounting { effective_fee_bps, deltas } => s.fee_bps
                    == effective_fee_bps@ && s.input_delta == deltas.before_swap_input_delta
                    && s.output_delta == deltas.after_swap_output_delta && s.used_hook_state
                    && pool.hook_class->0 is CustomAccounting,
            }
        },
{
}

/// A snapshot that is quoted has a price, liquidity, a spacing, ticks in strictly ascending order,
/// liquidity entries, a fee below 100%, and a tick within one spacing of the tick of its price.
pub proof fn law_quoted_snapshot_is_complete(
    pool: V4PoolSnapshot,
    amount_in: nat,
    direction: SwapDirection,
    adapter: Option<AdapterReply>,
    state: Option<V4HookClassState>,
)
    requires
        v4_quote_spec(pool, amount_in, direction, adapter, state) is Ok,
    ensures
        amount_in > 0,
        pool.sqrt_price_x96@ > 0,
        pool.liquidity > 0,
        pool.tick_spacing > 0,
        pool.initialized_ticks@.len() > 0,
        forall|i: int, j: int|
            0 <= i < j < pool.initialized_ticks@.len() ==> pool.initialized_ticks@[i]
                < pool.initialized_ticks@[j],
        pool.tick_liquidity_net@.dom().len() > 0,
        pool.hook_mode !is Unsupported,
        pool.hook_mode !is DeterministicFeeOnly ==> pool.fee_bps@ < 10_000,
        tick_of_price(pool.sqrt_price_x96@) matches Ok(t) && t - pool.tick_spacing <= pool.tick <= t
            + pool.tick_spacing,
{
}

/// A swap that uses up its input within 1024 ranges ends as it should.
pub proof fn law_swap_that_ends_is_returned(
    pool: V4PoolSnapshot,
    amount: nat,
    fee_bps: nat,
    down: bool,
)
    requires
        v4_swap(pool, fee_bps, down, v4_start(pool, amount, down), 1024) is Ok,
    ensures
        ({
            let end = v4_swap(pool, fee_bps, down, v4_start(pool, amount, down), 1024)->Ok_0;
            match v4_core(pool, amount, fee_bps, down) {
                Ok(e) => end.remaining == 0 && e.out == end.out && e.price == end.price && e.tick
                    == end.tick && e.liquidity == end.liquidity && e.crossed == end.crossed,
                Err(_) => end.remaining > 0,
            }
        }),
{
}

/// The next tick is the nearest initialized one beyond the current tick, or the end of the tick range
/// where there is none.
pub proof fn law_next_tick_is_the_nearest(
    current: int,
    ticks: Seq<i32>,
    spacing: int,
    down: bool,
)
    requires
        ascending(ticks),
    ensures
        v4_next_tick_spec(current, ticks, spacing, down) is Ok <==> spacing > 0 && ticks.len() > 0,
        v4_next_tick_spec(current, ticks, spacing, down) matches Ok(next) ==> {
            ||| ticks.contains(next as i32) && is_next(ticks, current, next, down)
            ||| next == -887272 && down && forall|k: int|
                0 <= k < ticks.len() ==> #[trigger] ticks[k] >= current
            ||| next == 887272 && !down && forall|k: int|
                0 <= k < ticks.len() ==> #[trigger] ticks[k] <= current
        },
{
    crate::dex::ticks::law_last_below_is_largest(ticks, current);
    crate::dex::ticks::law_first_above_is_smallest(ticks, current);
}

/// A pool state without hooks and without a dynamic fee is quoted at its own fee, and so is one whose
/// hook only observes; a hook that sets the fee is quoted at the fee that is known of it, and any
/// other needs an adapter.
pub proof fn law_policy_follows_the_hook_class(v: V4PoolState, pool: V4PoolSnapshot)
    requires
        conversion_error(v) is None,
        mode_of(v, pool.hook_mode),
    ensures
        !v.hooks_enabled && !v.dynamic_fee_enabled ==> pool.effective_fee() == Ok::<
            (nat, bool),
            DexErr,
        >((pool.fee_bps@, false)),
        v.hooks_enabled || v.dynamic_fee_enabled ==> {
            &&& labelled_class(v.hook_class) is Some
            &&& match labelled_class(v.hook_class)->0 {
                V4OfficialHookClass::GeomeanOracle
                | V4OfficialHookClass::VolatilityOracle
                | V4OfficialHookClass::PointsHook => pool.effective_fee() == Ok::<
                    (nat, bool),
                    DexErr,
                >((pool.fee_bps@, false)),
                V4OfficialHookClass::DynamicFee => v.deterministic_fee_bps is Some
                    && v.deterministic_fee_bps->0 < 10_000 && pool.effective_fee() == Ok::<
                    (nat, bool),
                    DexErr,
                >((v.deterministic_fee_bps->0 as nat, true)),
                V4OfficialHookClass::LimitOrder
                | V4OfficialHookClass::Twamm
                | V4OfficialHookClass::AsyncSwap
                | V4OfficialHookClass::CustomAccounting => pool.hook_mode
                    is RequiresExternalAdapter && pool.effective_fee() is Err,
            }
        },
{
}

/// A snapshot is accepted exactly where it has a price, liquidity, a spacing, ticks in strictly
/// ascending order, liquidity entries, a hook that can be quoted, a fee below 100%, and a tick within
/// one spacing of the tick of its price.
pub proof fn law_complete_snapshot_is_accepted(pool: V4PoolSnapshot)
    requires
        tick_of_price(pool.sqrt_price_x96@) is Ok,
    ensures
        pool.static_error() is None <==> {
            let t = tick_of_price(pool.sqrt_price_x96@)->Ok_0;
            &&& pool.sqrt_price_x96@ > 0
            &&& pool.liquidity > 0
            &&& pool.tick_spacing > 0
            &&& pool.initialized_ticks@.len() > 0
            &&& strictly_ascending(pool.initialized_ticks@)
            &&& pool.tick_liquidity_net@.dom().len() > 0
            &&& match pool.hook_mode {
                V4HookMode::Unsupported { .. } => false,
                V4HookMode::DeterministicFeeOnly { effective_fee_bps, .. } => effective_fee_bps@
                    < 10_000,
                _ => pool.fee_bps@ < 10_000,
            }
            &&& t - pool.tick_spacing <= pool.tick <= t + pool.tick_spacing
        },
{
}

} // verus!
