//! Hook classes of Uniswap V4 and what they do to a quote.

use crate::base::error::{dex_view, DexErr, DexError};
use crate::base::precision::BasisPoints;
use crate::dex::adapter::SwapDirection;
use crate::dex::uniswap_v4::adapter_math::V4PoolSnapshot;
use crate::text::{ascii_lower, chars_are, is_white, normalized, trimmed};
use crate::u256::U256;
use vstd::prelude::*;

verus! {

/// Canonical hook classes.
#[derive(Clone, Copy, Debug, PartialEq, Eq, Structural)]
pub enum V4OfficialHookClass {
    GeomeanOracle,
    VolatilityOracle,
    PointsHook,
    DynamicFee,
    LimitOrder,
    Twamm,
    AsyncSwap,
    CustomAccounting,
}

/// Signed changes that a hook makes to a swap.
#[derive(Clone, Copy, Debug, PartialEq, Eq, Structural)]
pub struct V4HookSwapDeltas {
    /// Change of the input before the swap: a positive one increases the input.
    pub before_swap_input_delta: i128,
    /// Change of the output after the swap: a positive one increases the output.
    pub after_swap_output_delta: i128,
}

/// State of a hook, given directly instead of through an adapter.
#[derive(Clone, Copy, Debug, PartialEq, Eq, Structural)]
pub enum V4HookClassState {
    GeomeanOracle { quote_neutral: bool },
    VolatilityOracle { quote_neutral: bool },
    PointsHook { quote_neutral: bool },
    DynamicFee { effective_fee_bps: BasisPoints },
    LimitOrder { effective_fee_bps: BasisPoints, deltas: V4HookSwapDeltas },
    Twamm { effective_fee_bps: BasisPoints, deltas: V4HookSwapDeltas },
    AsyncSwap { effective_fee_bps: BasisPoints, deltas: V4HookSwapDeltas },
    CustomAccounting { effective_fee_bps: BasisPoints, deltas: V4HookSwapDeltas },
}

impl V4HookClassState {
    /// The class that the state belongs to.
    pub open spec fn class_spec(self) -> V4OfficialHookClass {
        match self {
            V4HookClassState::GeomeanOracle { .. } => V4OfficialHookClass::GeomeanOracle,
            V4HookClassState::VolatilityOracle { .. } => V4OfficialHookClass::VolatilityOracle,
            V4HookClassState::PointsHook { .. } => V4OfficialHookClass::PointsHook,
            V4HookClassState::DynamicFee { .. } => V4OfficialHookClass::DynamicFee,
            V4HookClassState::LimitOrder { .. } => V4OfficialHookClass::LimitOrder,
            V4HookClassState::Twamm { .. } => V4OfficialHookClass::Twamm,
            V4HookClassState::AsyncSwap { .. } => V4OfficialHookClass::AsyncSwap,
            V4HookClassState::CustomAccounting { .. } => V4OfficialHookClass::CustomAccounting,
        }
    }

    /// The class that the state belongs to.
    pub fn class(&self) -> (r: V4OfficialHookClass)
        ensures
            r == self.class_spec(),
    {
        match self {
            V4HookClassState::GeomeanOracle { .. } => V4OfficialHookClass::GeomeanOracle,
            V4HookClassState::VolatilityOracle { .. } => V4OfficialHookClass::VolatilityOracle,
            V4HookClassState::PointsHook { .. } => V4OfficialHookClass::PointsHook,
            V4HookClassState::DynamicFee { .. } => V4OfficialHookClass::DynamicFee,
            V4HookClassState::LimitOrder { .. } => V4OfficialHookClass::LimitOrder,
            V4HookClassState::Twamm { .. } => V4OfficialHookClass::Twamm,
            V4HookClassState::AsyncSwap { .. } => V4OfficialHookClass::AsyncSwap,
            V4HookClassState::CustomAccounting { .. } => V4OfficialHookClass::CustomAccounting,
        }
    }
}

/// The class that a label names, whatever its case and the white space around it.
pub open spec fn class_of_label(label: Seq<char>) -> Option<V4OfficialHookClass> {
    let l = ascii_lower(trimmed(label));
    if l == "geomeanoracle"@ || l == "geomean_oracle"@ {
        Some(V4OfficialHookClass::GeomeanOracle)
    } else if l == "volatilityoracle"@ || l == "volatility_oracle"@ {
        Some(V4OfficialHookClass::VolatilityOracle)
    } else if l == "pointshook"@ || l == "points_hook"@ || l == "points"@ {
        Some(V4OfficialHookClass::PointsHook)
    } else if l == "dynamicfee"@ || l == "dynamic_fee"@ {
        Some(V4OfficialHookClass::DynamicFee)
    } else if l == "limitorder"@ || l == "limit_order"@ {
        Some(V4OfficialHookClass::LimitOrder)
    } else if l == "twamm"@ {
        Some(V4OfficialHookClass::Twamm)
    } else if l == "asyncswap"@ || l == "async_swap"@ {
        Some(V4OfficialHookClass::AsyncSwap)
    } else if l == "customaccounting"@ || l == "custom_accounting"@ {
        Some(V4OfficialHookClass::CustomAccounting)
    } else {
        None
    }
}

impl V4OfficialHookClass {
    /// The name of the class.
    pub open spec fn name(self) -> Seq<char> {
        match self {
            V4OfficialHookClass::GeomeanOracle => "GeomeanOracle"@,
            V4OfficialHookClass::VolatilityOracle => "VolatilityOracle"@,
            V4OfficialHookClass::PointsHook => "PointsHook"@,
            V4OfficialHookClass::DynamicFee => "DynamicFee"@,
            V4OfficialHookClass::LimitOrder => "LimitOrder"@,
            V4OfficialHookClass::Twamm => "Twamm"@,
            V4OfficialHookClass::AsyncSwap => "AsyncSwap"@,
            V4OfficialHookClass::CustomAccounting => "CustomAccounting"@,
        }
    }

    /// Writes the name of the class.
    pub fn to_name(&self) -> (r: &'static str)
        ensures
            r@ == self.name(),
    {
        match self {
            V4OfficialHookClass::GeomeanOracle => "GeomeanOracle",
            V4OfficialHookClass::VolatilityOracle => "VolatilityOracle",
            V4OfficialHookClass::PointsHook => "PointsHook",
            V4OfficialHookClass::DynamicFee => "DynamicFee",
            V4OfficialHookClass::LimitOrder => "LimitOrder",
            V4OfficialHookClass::Twamm => "Twamm",
            V4OfficialHookClass::AsyncSwap => "AsyncSwap",
            V4OfficialHookClass::CustomAccounting => "CustomAccounting",
        }
    }

    /// The class that a label names.
    pub fn parse(label: &str) -> (r: Option<V4OfficialHookClass>)
        ensures
            r == class_of_label(label@),
    {
        let l = normalized(label);
        if chars_are(&l, "geomeanoracle") || chars_are(&l, "geomean_oracle") {
            Some(V4OfficialHookClass::GeomeanOracle)
        } else if chars_are(&l, "volatilityoracle") || chars_are(&l, "volatility_oracle") {
            Some(V4OfficialHookClass::VolatilityOracle)
        } else if chars_are(&l, "pointshook") || chars_are(&l, "points_hook") || chars_are(
            &l,
            "points",
        ) {
            Some(V4OfficialHookClass::PointsHook)
        } else if chars_are(&l, "dynamicfee") || chars_are(&l, "dynamic_fee") {
            Some(V4OfficialHookClass::DynamicFee)
        } else if chars_are(&l, "limitorder") || chars_are(&l, "limit_order") {
            Some(V4OfficialHookClass::LimitOrder)
        } else if chars_are(&l, "twamm") {
            Some(V4OfficialHookClass::Twamm)
        } else if chars_are(&l, "asyncswap") || chars_are(&l, "async_swap") {
            Some(V4OfficialHookClass::AsyncSwap)
        } else if chars_are(&l, "customaccounting") || chars_are(&l, "custom_accounting") {
            Some(V4OfficialHookClass::CustomAccounting)
        } else {
            None
        }
    }
}

/// Model of a hook class that host applications implement and pass to the quoting functions.
///
/// The relations say what an adapter may answer to what it is asked. Each implementation
/// may choose them; one that promises nothing lets them hold of every answer.
pub trait V4HookQuoteAdapter {
    /// Whether the adapter may model a class.
    open spec fn may_model(&self, class: V4OfficialHookClass) -> bool {
        true
    }

    /// Whether `answer` may be the fee that the hook sets for a swap of `amount_in`.
    open spec fn may_set_fee(
        &self,
        pool: V4PoolSnapshot,
        amount_in: nat,
        direction: SwapDirection,
        answer: Result<nat, DexErr>,
    ) -> bool {
        true
    }

    /// Whether `answer` may be what the hook makes of the output `core_amount_out` of a swap.
    open spec fn may_adjust(
        &self,
        pool: V4PoolSnapshot,
        amount_in: nat,
        direction: SwapDirection,
        core_amount_out: nat,
        answer: Result<nat, DexErr>,
    ) -> bool {
        true
    }

    /// The class that the adapter models.
    fn class(&self) -> (r: V4OfficialHookClass)
        ensures
            self.may_model(r),
    ;

    /// The fee that the hook sets for a swap.
    fn resolve_effective_fee_bps(
        &self,
        pool: &V4PoolSnapshot,
        amount_in: U256,
        direction: SwapDirection,
    ) -> (r: Result<BasisPoints, DexError>)
        ensures
            self.may_set_fee(*pool, amount_in@, direction, dex_view(r)),
    ;

    /// What the hook makes of the output of a swap. The adapter of a hook that leaves outputs alone
    /// returns `Ok(core_amount_out)`.
    fn adjust_exact_in_output(
        &self,
        pool: &V4PoolSnapshot,
        amount_in: U256,
        direction: SwapDirection,
        core_amount_out: U256,
    ) -> (r: Result<U256, DexError>)
        ensures
            self.may_adjust(*pool, amount_in@, direction, core_amount_out@, dex_view(r)),
    ;
}

/// Hook policy of a pool.
#[derive(Clone, Debug)]
pub enum V4HookMode {
    /// No hooks and no dynamic fee.
    NoHooks,
    /// A hook that only observes and does not change the output of a swap.
    PassiveObserver { class: V4OfficialHookClass },
    /// A hook whose fee is known.
    DeterministicFeeOnly { class: V4OfficialHookClass, effective_fee_bps: BasisPoints },
    /// A hook that only a model of its class can quote.
    RequiresExternalAdapter { class: V4OfficialHookClass, reason: String },
    /// A hook that cannot be quoted.
    Unsupported { reason: String },
}

/// The name of a class is one of its labels.
pub proof fn law_name_is_a_label(class: V4OfficialHookClass)
    ensures
        class_of_label(class.name()) == Some(class),
{
    let name = class.name();
    reveal_strlit("GeomeanOracle");
    reveal_strlit("VolatilityOracle");
    reveal_strlit("PointsHook");
    reveal_strlit("DynamicFee");
    reveal_strlit("LimitOrder");
    reveal_strlit("Twamm");
    reveal_strlit("AsyncSwap");
    reveal_strlit("CustomAccounting");
    reveal_strlit("geomeanoracle");
    reveal_strlit("geomean_oracle");
    reveal_strlit("volatilityoracle");
    reveal_strlit("volatility_oracle");
    reveal_strlit("pointshook");
    reveal_strlit("points_hook");
    reveal_strlit("points");
    reveal_strlit("dynamicfee");
    reveal_strlit("dynamic_fee");
    reveal_strlit("limitorder");
    reveal_strlit("limit_order");
    reveal_strlit("twamm");
    reveal_strlit("asyncswap");
    reveal_strlit("async_swap");
    reveal_strlit("customaccounting");
    reveal_strlit("custom_accounting");
    assert(!is_white(name[0]) && !is_white(name.last()));
    assert(trimmed(name) == name);
    let l = ascii_lower(name);
    match class {
        V4OfficialHookClass::GeomeanOracle => assert(l =~= "geomeanoracle"@),
        V4OfficialHookClass::VolatilityOracle => assert(l =~= "volatilityoracle"@),
        V4OfficialHookClass::PointsHook => assert(l =~= "pointshook"@),
        V4OfficialHookClass::DynamicFee => assert(l =~= "dynamicfee"@),
        V4OfficialHookClass::LimitOrder => assert(l =~= "limitorder"@),
        V4OfficialHookClass::Twamm => assert(l =~= "twamm"@),
        V4OfficialHookClass::AsyncSwap => assert(l =~= "asyncswap"@),
        V4OfficialHookClass::CustomAccounting => assert(l =~= "customaccounting"@),
    }
    assert(l[0] == name[0] || l[0] as u8 == name[0] as u8 + 32);
}

} // verus!
