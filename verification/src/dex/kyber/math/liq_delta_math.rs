//! Changes of a pool's liquidity.

use crate::base::error::{
    e_invalid, e_overflow, e_underflow, invalid, overflow2, underflow2, MathErr, MathError,
};
use crate::text::{dec_int, text_i128};
use crate::u256::U256;
use vstd::prelude::*;
use vstd::string::StringExecFns;

verus! {

/// The view of a liquidity result.
pub open spec fn liquidity_view(r: Result<u128, MathError>) -> Result<nat, MathErr> {
    match r {
        Ok(v) => Ok(v as nat),
        Err(e) => Err(e@),
    }
}

/// The magnitude of an integer.
pub open spec fn magnitude(n: int) -> nat {
    if n < 0 {
        (-n) as nat
    } else {
        n as nat
    }
}

/// The liquidity after a change whose sign fits the operation.
pub open spec fn liquidity_delta_spec(current: nat, delta: int, is_add: bool) -> Result<
    nat,
    MathErr,
> {
    if delta == 0 {
        Ok(current)
    } else if is_add {
        if delta < 0 {
            Err(wrong_sign("true"@, delta))
        } else if current + delta <= u128::MAX {
            Ok((current + delta) as nat)
        } else {
            Err(
                e_overflow(
                    "apply_liquidity_delta"@,
                    seq![current, magnitude(delta)],
                    "Adding liquidity would overflow u128"@,
                ),
            )
        }
    } else {
        if delta > 0 {
            Err(wrong_sign("false"@, delta))
        } else if current + delta >= 0 {
            Ok((current + delta) as nat)
        } else {
            Err(
                e_underflow(
                    "apply_liquidity_delta"@,
                    seq![current, magnitude(delta)],
                    "Insufficient liquidity for removal"@,
                ),
            )
        }
    }
}

/// The error of a change whose sign does not fit the operation.
pub open spec fn wrong_sign(is_add: Seq<char>, delta: int) -> MathErr {
    e_invalid(
        "apply_liquidity_delta"@,
        "Liquidity delta sign must match operation direction"@,
        "is_add="@ + is_add + ", delta="@ + dec_int(delta),
    )
}

/// The magnitude of an `i128`.
pub fn magnitude_of(delta: i128) -> (r: u128)
    ensures
        r == magnitude(delta as int),
{
    if delta >= 0 {
        delta as u128
    } else {
        (-(delta + 1)) as u128 + 1
    }
}

/// Applies a liquidity change: a positive one adds, a negative one removes.
pub fn apply_liquidity_delta(
    current_liquidity: u128,
    liquidity_delta: i128,
    is_add_liquidity: bool,
) -> (r: Result<u128, MathError>)
    ensures
        liquidity_view(r) == liquidity_delta_spec(
            current_liquidity as nat,
            liquidity_delta as int,
            is_add_liquidity,
        ),
{
    if liquidity_delta == 0 {
        return Ok(current_liquidity);
    }
    let size: u128 = magnitude_of(liquidity_delta);
    if is_add_liquidity {
        if liquidity_delta < 0 {
            let context = "is_add=".to_owned().concat("true").concat(", delta=").concat(
                text_i128(liquidity_delta).as_str(),
            );
            return Err(
                invalid(
                    "apply_liquidity_delta",
                    "Liquidity delta sign must match operation direction",
                    context.as_str(),
                ),
            );
        }
        match current_liquidity.checked_add(size) {
            Some(v) => Ok(v),
            None => Err(
                overflow2(
                    "apply_liquidity_delta",
                    U256::from_u128(current_liquidity),
                    U256::from_u128(size),
                    "Adding liquidity would overflow u128",
                ),
            ),
        }
    } else {
        if liquidity_delta > 0 {
            let context = "is_add=".to_owned().concat("false").concat(", delta=").concat(
                text_i128(liquidity_delta).as_str(),
            );
            return Err(
                invalid(
                    "apply_liquidity_delta",
                    "Liquidity delta sign must match operation direction",
                    context.as_str(),
                ),
            );
        }
        match current_liquidity.checked_sub(size) {
            Some(v) => Ok(v),
            None => Err(
                underflow2(
                    "apply_liquidity_delta",
                    U256::from_u128(current_liquidity),
                    U256::from_u128(size),
                    "Insufficient liquidity for removal",
                ),
            ),
        }
    }
}

/// Removing what has just been added gives the liquidity back.
pub proof fn law_remove_undoes_add(current: u128, delta: i128)
    requires
        delta > i128::MIN,
    ensures
        liquidity_delta_spec(current as nat, delta as int, true) matches Ok(after)
            ==> liquidity_delta_spec(after, -delta, false) == Ok::<nat, MathErr>(current as nat),
{
}

/// Adding what has just been removed gives the liquidity back.
pub proof fn law_add_undoes_remove(current: u128, delta: i128)
    requires
        delta > i128::MIN,
    ensures
        liquidity_delta_spec(current as nat, delta as int, false) matches Ok(after)
            ==> liquidity_delta_spec(after, -delta, true) == Ok::<nat, MathErr>(current as nat),
{
}

/// A change is applied where its sign fits the operation and the liquidity stays within the range of
/// a `u128`, and nowhere else.
pub proof fn law_change_is_applied(current: u128, delta: i128, is_add: bool)
    ensures
        liquidity_delta_spec(current as nat, delta as int, is_add) is Ok <==> (is_add ==> delta >= 0)
            && (!is_add ==> delta <= 0) && 0 <= current + delta <= u128::MAX,
        liquidity_delta_spec(current as nat, delta as int, is_add) matches Ok(after) ==> after
            == current + delta,
{
}

} // verus!
