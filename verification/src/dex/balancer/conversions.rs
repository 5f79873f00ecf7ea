//! The weighted-pool formula of the `balancer_maths_rust` crate, its errors, and fee scaling.

use crate::base::error::{e_invalid, invalid, MathErr, MathError};
use crate::dex::adapter::wad;
use crate::dex::clmm::div_up;
use crate::u256::{fits, U256};
use vstd::prelude::*;
use vstd::string::StringExecFns;

verus! {

/// A swap fee in basis points as a fraction of ten to the power 18.
pub fn swap_fee_bps_to_18_decimal(bps: u32) -> (r: U256)
    ensures
        r@ == bps * 100_000_000_000_000,
{
    match U256::from_u64(bps as u64).primitive_checked_mul(U256::from_u64(100_000_000_000_000)) {
        Some(v) => v,
        None => U256::zero(),
    }
}

/// An error of the weighted-pool formula.
#[derive(Clone, Debug)]
pub enum WeightedFault {
    /// An input that the formula does not take, with the reason.
    InvalidInput(String),
    /// Any other error, with its name and fields.
    Other(String),
}

/// What a fault says: whether it is an invalid input, and its text.
pub open spec fn fault_view(fault: WeightedFault) -> (bool, Seq<char>) {
    match fault {
        WeightedFault::InvalidInput(reason) => (true, reason@),
        WeightedFault::Other(text) => (false, text@),
    }
}

/// The view of an output of the formula.
pub open spec fn weighted_view(r: Result<U256, WeightedFault>) -> Result<nat, (bool, Seq<char>)> {
    match r {
        Ok(v) => Ok(v@),
        Err(e) => Err(fault_view(e)),
    }
}

/// What the weighted-pool formula gives for an input of which the fee is already taken.
pub uninterp spec fn weighted_out(
    balance_in: nat,
    weight_in: nat,
    balance_out: nat,
    weight_out: nat,
    amount_in: nat,
) -> Result<nat, (bool, Seq<char>)>;

/// Thirty per cent of a balance, rounded down: the largest input of the formula.
pub open spec fn largest_input(balance_in: nat) -> nat {
    balance_in * 300_000_000_000_000_000 / wad()
}

/// The refusal of an input that is too large.
pub open spec fn input_too_large() -> Result<nat, (bool, Seq<char>)> {
    Err((false, "MaxInRatioExceeded"@))
}

/// What the formula gives for equal weights:
/// `balance_out * (1 - balance_in / (balance_in + amount_in))`, with the quotient rounded up.
pub open spec fn even_out(balance_in: nat, balance_out: nat, amount_in: nat) -> nat {
    balance_out * ((wad() - div_up(balance_in * wad(), balance_in + amount_in)) as nat) / wad()
}

/// Whether the formula has no overflow and the input is not too large, for equal weights.
pub open spec fn even_domain(
    balance_in: nat,
    weight_in: nat,
    balance_out: nat,
    weight_out: nat,
    amount_in: nat,
) -> bool {
    &&& balance_in > 0
    &&& weight_in == weight_out > 0
    &&& fits(balance_in * wad())
    &&& fits(weight_in * wad())
    &&& fits(balance_out * wad())
    &&& amount_in <= largest_input(balance_in)
}

/// `balancer_maths_rust::pools::weighted::weighted_math::compute_out_given_exact_in`. The result
/// depends on the five numbers alone. An output is at most the output balance. An input above
/// thirty per cent of the input balance is refused as `MaxInRatioExceeded`. For equal weights
/// within [`even_domain`] the output is [`even_out`]; for other weights the formula goes through
/// a logarithm and an exponential, of which only the name of the result is given.
#[verifier::external_body]
pub(crate) fn compute_weighted_out(
    balance_in: U256,
    weight_in: U256,
    balance_out: U256,
    weight_out: U256,
    amount_in: U256,
) -> (r: Result<U256, WeightedFault>)
    ensures
        weighted_view(r) == weighted_out(
            balance_in@,
            weight_in@,
            balance_out@,
            weight_out@,
            amount_in@,
        ),
        r matches Ok(v) ==> v@ <= balance_out@,
        fits(balance_in@ * 300_000_000_000_000_000) && amount_in@ > largest_input(balance_in@)
            ==> weighted_view(r) == input_too_large(),
        even_domain(balance_in@, weight_in@, balance_out@, weight_out@, amount_in@)
            ==> r is Ok && r->Ok_0@ == even_out(balance_in@, balance_out@, amount_in@),
{
    let [bi, wi, bo, wo, a] = [balance_in, weight_in, balance_out, weight_out, amount_in].map(
        |u| alloy_primitives::U256::from_limbs([u.l0, u.l1, u.l2, u.l3]));
    match balancer_maths_rust::pools::weighted::weighted_math::compute_out_given_exact_in(
        &bi, &wi, &bo, &wo, &a) {
        Ok(v) => {
            let w = v.into_limbs();
            Ok(U256 { l3: w[3], l2: w[2], l1: w[1], l0: w[0] })
        },
        Err(balancer_maths_rust::common::errors::PoolError::InvalidInput(reason)) =>
            Err(WeightedFault::InvalidInput(reason)),
        Err(e) => Err(WeightedFault::Other(format!("{:?}", e))),
    }
}

/// A fault as an arithmetic error.
pub open spec fn mapped_fault(fault: (bool, Seq<char>), operation: Seq<char>) -> MathErr {
    if fault.0 {
        e_invalid(operation, fault.1, "Balancer math crate error"@)
    } else {
        e_invalid(operation, "Balancer math crate error: "@ + fault.1, "Unknown crate error"@)
    }
}

/// Reports a fault of the formula as an arithmetic error of an operation.
pub fn map_pool_error_to_math_error(err: WeightedFault, operation: &str) -> (e: MathError)
    ensures
        e@ == mapped_fault(fault_view(err), operation@),
{
    match err {
        WeightedFault::InvalidInput(reason) => invalid(
            operation,
            reason.as_str(),
            "Balancer math crate error",
        ),
        WeightedFault::Other(text) => {
            let reason = "Balancer math crate error: ".to_owned().concat(text.as_str());
            invalid(operation, reason.as_str(), "Unknown crate error")
        },
    }
}

} // verus!
