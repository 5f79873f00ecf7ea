//! Precision-safe types: amounts are exact integers, never floating point.

use crate::base::error::{
    e_invalid, e_overflow, e_zero_division, invalid, math_view, overflow2, zero_division, MathErr,
    MathError,
};
use crate::text::{dec, text_u128};
use crate::u256::{fits, U256};
use vstd::prelude::*;
use vstd::string::StringExecFns;

verus! {

/// Basis points: 0 to 10000, where 10000 is 100%.
#[derive(Clone, Copy, Debug, PartialEq, Eq, PartialOrd, Ord, Hash, Structural)]
pub struct BasisPoints(pub u32);

impl View for BasisPoints {
    type V = nat;

    open spec fn view(&self) -> nat {
        self.0 as nat
    }
}

impl BasisPoints {
    /// `true` for a value of at most 100%.
    pub open spec fn wf(self) -> bool {
        self.0 <= 10000
    }

    /// No basis points.
    pub fn zero() -> (r: BasisPoints)
        ensures
            r.0 == 0,
            r.wf(),
    {
        BasisPoints(0)
    }

    /// One percent.
    pub fn one_percent() -> (r: BasisPoints)
        ensures
            r.0 == 100,
            r.wf(),
    {
        BasisPoints(100)
    }

    /// One hundred percent.
    pub fn max() -> (r: BasisPoints)
        ensures
            r.0 == 10000,
            r.wf(),
    {
        BasisPoints(10000)
    }

    /// Checks the range and builds the value.
    pub fn new(bps: u32) -> (r: Result<BasisPoints, MathError>)
        ensures
            math_view(r) == if bps <= 10000 {
                Ok::<nat, MathErr>(bps as nat)
            } else {
                Err(e_invalid("BasisPoints::new"@, dec(bps as nat) + " > 10000"@, ""@))
            },
    {
        if bps > 10000 {
            let reason = text_u128(bps as u128).concat(" > 10000");
            return Err(invalid("BasisPoints::new", reason.as_str(), ""));
        }
        Ok(BasisPoints(bps))
    }

    /// Builds the value of a number that is known to be in range.
    pub fn new_const(bps: u32) -> (r: BasisPoints)
        requires
            bps <= 10000,
        ensures
            r.0 == bps,
            r.wf(),
    {
        BasisPoints(bps)
    }

    /// The number of basis points.
    pub fn as_u32(&self) -> (r: u32)
        ensures
            r == self.0,
            r == self@,
    {
        self.0
    }
}

/// `amount * bps / 10000` rounded down, or the overflow of the product.
pub open spec fn mul_bps_spec(amount: nat, bps: nat) -> Result<nat, MathErr> {
    if fits(amount * bps) {
        Ok(amount * bps / 10000)
    } else {
        Err(e_overflow("mul_basis_points"@, seq![amount, bps], ""@))
    }
}

/// `amount * 10000 / bps` rounded down, the overflow of the product, or the division by zero.
pub open spec fn div_bps_spec(amount: nat, bps: nat) -> Result<nat, MathErr> {
    if bps == 0 {
        Err(e_zero_division("div_basis_points"@, ""@))
    } else if fits(amount * 10000) {
        Ok(amount * 10000 / bps)
    } else {
        Err(e_overflow("div_basis_points"@, seq![amount, 10000nat], ""@))
    }
}

/// Multiplies by basis points: `amount * bps / 10000`.
pub fn mul_basis_points(amount: U256, bps: BasisPoints) -> (r: Result<U256, MathError>)
    ensures
        math_view(r) == mul_bps_spec(amount@, bps@),
{
    let factor = U256::from_u64(bps.as_u32() as u64);
    match amount.primitive_checked_mul(factor) {
        None => Err(overflow2("mul_basis_points", amount, factor, "")),
        Some(n) => match n.primitive_checked_div(U256::from_u64(10000)) {
            Some(q) => Ok(q),
            None => Ok(U256::zero()),
        },
    }
}

/// Divides by basis points: `amount * 10000 / bps`.
pub fn div_basis_points(amount: U256, bps: BasisPoints) -> (r: Result<U256, MathError>)
    ensures
        math_view(r) == div_bps_spec(amount@, bps@),
{
    if bps.as_u32() == 0 {
        return Err(zero_division("div_basis_points", ""));
    }
    let scale = U256::from_u64(10000);
    match amount.primitive_checked_mul(scale) {
        None => Err(overflow2("div_basis_points", amount, scale, "")),
        Some(n) => match n.primitive_checked_div(U256::from_u64(bps.as_u32() as u64)) {
            Some(q) => Ok(q),
            None => Ok(U256::zero()),
        },
    }
}

/// Taking a share of at most 100% never yields more than the amount.
pub proof fn law_share_is_at_most_the_amount(amount: nat, bps: BasisPoints)
    requires
        bps.wf(),
    ensures
        mul_bps_spec(amount, bps@) matches Ok(share) ==> share <= amount,
{
    if fits(amount * bps@) {
        assert(amount * bps@ / 10000 <= amount) by (nonlinear_arith)
            requires
                bps@ <= 10000,
        ;
    }
}

/// A share of a larger amount is not smaller.
pub proof fn law_share_grows_with_the_amount(a: nat, b: nat, bps: BasisPoints)
    requires
        a <= b,
    ensures
        mul_bps_spec(b, bps@) matches Ok(y) ==> mul_bps_spec(a, bps@) matches Ok(x) && x <= y,
{
    assert(a * bps@ <= b * bps@) by (nonlinear_arith)
        requires
            a <= b,
    ;
    assert(a * bps@ / 10000 <= b * bps@ / 10000);
}

/// An exact price.
#[derive(Clone, Copy, Debug, PartialEq, Eq, Structural)]
pub struct ExactPrice(pub U256);

/// An exact amount.
#[derive(Clone, Copy, Debug, PartialEq, Eq, PartialOrd, Ord, Structural)]
pub struct ExactAmount(pub U256);

impl ExactAmount {
    /// Wraps an amount.
    pub fn new(amount: U256) -> (r: ExactAmount)
        ensures
            r.0 == amount,
    {
        ExactAmount(amount)
    }

    /// `true` exactly for the amount zero.
    pub fn is_zero(&self) -> (r: bool)
        ensures
            r == (self.0@ == 0),
    {
        self.0.is_zero()
    }
}

/// An exact profit.
#[derive(Clone, Copy, Debug, PartialEq, Eq, PartialOrd, Ord, Structural)]
pub struct ExactProfit(pub U256);

impl ExactProfit {
    /// `true` exactly for a profit above zero.
    pub fn is_profitable(&self) -> (r: bool)
        ensures
            r == (self.0@ > 0),
    {
        !self.0.is_zero()
    }
}

/// A share is the amount times the basis points by 10000, and what it is a share of is the amount
/// times 10000 by the basis points, both rounded down.
pub proof fn law_share_is_the_quotient(amount: nat, bps: nat)
    ensures
        mul_bps_spec(amount, bps) matches Ok(share) ==> share * 10_000 <= amount * bps < (share + 1)
            * 10_000,
        div_bps_spec(amount, bps) matches Ok(whole) ==> bps > 0 && whole * bps <= amount * 10_000
            < (whole + 1) * bps,
        mul_bps_spec(amount, bps) is Ok <==> fits(amount * bps),
        div_bps_spec(amount, bps) is Ok <==> bps > 0 && fits(amount * 10_000),
{
    if bps > 0 {
        vstd::arithmetic::div_mod::lemma_fundamental_div_mod((amount * 10000) as int, bps as int);
        let q = amount * 10000 / bps;
        assert(q * bps == bps * q && (q + 1) * bps == bps * q + bps) by (nonlinear_arith);
    }
}

} // verus!
