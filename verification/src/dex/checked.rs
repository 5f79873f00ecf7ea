//! Checked arithmetic that reports its operands.

use crate::base::error::{e_overflow, math_view, overflow2, MathErr, MathError};
use crate::u256::{fits, U256};
use vstd::prelude::*;

verus! {

/// The product of two numbers, or the overflow with its operands.
pub open spec fn product_spec(operation: Seq<char>, context: Seq<char>, a: nat, b: nat) -> Result<
    nat,
    MathErr,
> {
    if fits(a * b) {
        Ok(a * b)
    } else {
        Err(e_overflow(operation, seq![a, b], context))
    }
}

/// Multiplies two numbers.
pub fn product(operation: &str, context: &str, a: U256, b: U256) -> (r: Result<U256, MathError>)
    ensures
        math_view(r) == product_spec(operation@, context@, a@, b@),
{
    match a.checked_mul(b) {
        Some(v) => Ok(v),
        None => Err(overflow2(operation, a, b, context)),
    }
}

/// The sum of two numbers, or the overflow with its operands.
pub open spec fn sum_spec(operation: Seq<char>, context: Seq<char>, a: nat, b: nat) -> Result<
    nat,
    MathErr,
> {
    if fits(a + b) {
        Ok(a + b)
    } else {
        Err(e_overflow(operation, seq![a, b], context))
    }
}

/// Adds two numbers.
pub fn sum(operation: &str, context: &str, a: U256, b: U256) -> (r: Result<U256, MathError>)
    ensures
        math_view(r) == sum_spec(operation@, context@, a@, b@),
{
    match a.checked_add(b) {
        Some(v) => Ok(v),
        None => Err(overflow2(operation, a, b, context)),
    }
}

} // verus!
