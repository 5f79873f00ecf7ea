//! Swap directions, swap results and the price helper that all DEX types share.

use crate::base::error::{
    e_overflow, e_zero_division, math_view, overflow3, zero_division, DexError, MathErr, MathError,
};
use crate::base::types::{DexType, PoolKey};
use crate::data::{PoolState, PoolStateProvider};
use crate::dex::clmm::{full_mul_div, mul_div_spec};
use crate::u256::U256;
use vstd::prelude::*;
use vstd::string::StringExecFns;

verus! {

/// Swap direction.
#[derive(Clone, Copy, Debug, PartialEq, Eq, Structural)]
pub enum SwapDirection {
    Token0ToToken1,
    Token1ToToken0,
}

impl SwapDirection {
    /// The name of the direction.
    pub open spec fn name(self) -> Seq<char> {
        match self {
            SwapDirection::Token0ToToken1 => "Token0ToToken1"@,
            SwapDirection::Token1ToToken0 => "Token1ToToken0"@,
        }
    }

    /// Writes the name of the direction.
    pub fn to_name(&self) -> (r: &'static str)
        ensures
            r@ == self.name(),
    {
        match self {
            SwapDirection::Token0ToToken1 => "Token0ToToken1",
            SwapDirection::Token1ToToken0 => "Token1ToToken0",
        }
    }

    /// `true` where token 0 comes in and the price falls.
    pub open spec fn is_down(self) -> bool {
        self == SwapDirection::Token0ToToken1
    }

    /// Tests whether token 0 comes in.
    pub fn zero_for_one(&self) -> (r: bool)
        ensures
            r == self.is_down(),
    {
        matches!(self, SwapDirection::Token0ToToken1)
    }
}

/// Swap calculation result.
#[derive(Clone, Debug)]
pub struct SwapResult {
    pub amount_out: U256,
    pub price_impact_bps: u32,
    pub gas_estimate: U256,
    pub execution_price: U256,
}

/// Unified interface of the DEX adapters that downstream projects implement.
pub trait DexAdapter {
    /// The DEX type that the adapter handles.
    fn dex_type(&self) -> DexType;

    /// Calculates the swap output for an input amount.
    fn calculate_swap(
        &self,
        pool_key: &PoolKey,
        amount_in: U256,
        direction: SwapDirection,
        pool_state_provider: &dyn PoolStateProvider,
    ) -> Result<SwapResult, DexError>;

    /// Calculates the swap output, with an optional pool state to simulate on. An adapter that
    /// does not simulate falls back on [`DexAdapter::calculate_swap`].
    fn calculate_swap_with_state(
        &self,
        pool_key: &PoolKey,
        amount_in: U256,
        direction: SwapDirection,
        pool_state_provider: &dyn PoolStateProvider,
        _post_state: Option<&PoolState>,
    ) -> (r: Result<SwapResult, DexError>)
        default_ensures
            call_ensures(
                Self::calculate_swap,
                (self, pool_key, amount_in, direction, pool_state_provider),
                r,
            ),
    {
        self.calculate_swap(pool_key, amount_in, direction, pool_state_provider)
    }

    /// The current price of the pool, token 1 per token 0.
    fn get_current_price(
        &self,
        pool_key: &PoolKey,
        pool_state_provider: &dyn PoolStateProvider,
    ) -> Result<U256, DexError>;

    /// Checks that the pool state is recent enough for calculations.
    fn validate_pool_freshness(
        &self,
        pool_key: &PoolKey,
        pool_state_provider: &dyn PoolStateProvider,
        max_age_blocks: u64,
    ) -> Result<(), DexError>;
}

/// Ten to the power 18, the scale of fixed-point prices.
pub open spec fn wad() -> nat {
    1_000_000_000_000_000_000
}

/// Ten to the power 18.
pub fn wad_value() -> (r: U256)
    ensures
        r@ == wad(),
{
    U256::from_u64(1_000_000_000_000_000_000)
}

/// The price of a swap in token 1 per token 0, scaled by [`wad`]: output over input for a swap
/// of token 0, input over output for a swap of token 1.
pub open spec fn execution_price_of(
    amount_in: nat,
    amount_out: nat,
    direction: SwapDirection,
) -> Result<nat, MathErr> {
    if amount_in == 0 {
        Err(e_zero_division("calculate_execution_price"@, "DEX adapter"@))
    } else {
        match direction {
            SwapDirection::Token0ToToken1 => match mul_div_spec(amount_out, wad(), amount_in) {
                Ok(p) => Ok(p),
                Err(e) => Err(
                    e_overflow(
                        "calculate_execution_price"@,
                        seq![amount_out, wad(), amount_in],
                        "Token0ToToken1 mul_div failed: "@ + e,
                    ),
                ),
            },
            SwapDirection::Token1ToToken0 => if amount_out == 0 {
                Err(
                    e_zero_division(
                        "calculate_execution_price"@,
                        "amount_out is zero for Token1ToToken0"@,
                    ),
                )
            } else {
                match mul_div_spec(amount_in, wad(), amount_out) {
                    Ok(p) => Ok(p),
                    Err(e) => Err(
                        e_overflow(
                            "calculate_execution_price"@,
                            seq![amount_in, wad(), amount_out],
                            "Token1ToToken0 mul_div failed: "@ + e,
                        ),
                    ),
                }
            },
        }
    }
}

/// Calculates the execution price of a swap.
pub fn calculate_execution_price(
    amount_in: U256,
    amount_out: U256,
    direction: SwapDirection,
) -> (r: Result<U256, MathError>)
    ensures
        math_view(r) == execution_price_of(amount_in@, amount_out@, direction),
{
    if amount_in.is_zero() {
        return Err(zero_division("calculate_execution_price", "DEX adapter"));
    }
    let scale = wad_value();
    match direction {
        SwapDirection::Token0ToToken1 => match full_mul_div(amount_out, scale, amount_in) {
            Ok(p) => Ok(p),
            Err(e) => {
                let context = "Token0ToToken1 mul_div failed: ".to_owned().concat(e.as_str());
                Err(
                    overflow3(
                        "calculate_execution_price",
                        amount_out,
                        scale,
                        amount_in,
                        context.as_str(),
                    ),
                )
            },
        },
        SwapDirection::Token1ToToken0 => {
            if amount_out.is_zero() {
                return Err(
                    zero_division(
                        "calculate_execution_price",
                        "amount_out is zero for Token1ToToken0",
                    ),
                );
            }
            match full_mul_div(amount_in, scale, amount_out) {
                Ok(p) => Ok(p),
                Err(e) => {
                    let context = "Token1ToToken0 mul_div failed: ".to_owned().concat(e.as_str());
                    Err(
                        overflow3(
                            "calculate_execution_price",
                            amount_in,
                            scale,
                            amount_out,
                            context.as_str(),
                        ),
                    )
                },
            }
        },
    }
}

} // verus!
