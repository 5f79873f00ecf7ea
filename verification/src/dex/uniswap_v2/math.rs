//! Constant-product swaps:
//! `amount_out = reserve_out * x / (reserve_in * 10000 + x)` with
//! `x = amount_in * (10000 - fee_bps)`.

use crate::base::error::{e_invalid, invalid, math_view, MathErr, MathError};
use crate::base::precision::BasisPoints;
use crate::dex::checked::{product, product_spec, sum, sum_spec};
use crate::text::{dec, text_u256};
use crate::u256::{fits, U256};
use vstd::prelude::*;
use vstd::string::StringExecFns;

verus! {

/// The output of a constant-product swap, or the error.
pub open spec fn v2_amount_out_spec(
    amount_in: nat,
    reserve_in: nat,
    reserve_out: nat,
    fee_bps: nat,
) -> Result<nat, MathErr> {
    if amount_in == 0 {
        Err(
            e_invalid(
                "calculate_v2_amount_out"@,
                "amount_in cannot be zero"@,
                "V2 swap calculation"@,
            ),
        )
    } else if reserve_in == 0 || reserve_out == 0 {
        Err(
            e_invalid(
                "calculate_v2_amount_out"@,
                "Reserves cannot be zero: reserve_in: "@ + dec(reserve_in) + ", reserve_out: "@
                    + dec(reserve_out),
                "V2 swap calculation"@,
            ),
        )
    } else {
        match product_spec(
            "calculate_v2_amount_out"@,
            "fee multiply"@,
            amount_in,
            (10000 - fee_bps) as nat,
        ) {
            Err(e) => Err(e),
            Ok(x) => match product_spec("calculate_v2_amount_out"@, "numerator"@, reserve_out, x) {
                Err(e) => Err(e),
                Ok(numerator) => match product_spec(
                    "calculate_v2_amount_out"@,
                    "reserve_in * 10000"@,
                    reserve_in,
                    10000,
                ) {
                    Err(e) => Err(e),
                    Ok(scaled) => match sum_spec(
                        "calculate_v2_amount_out"@,
                        "denominator"@,
                        scaled,
                        x,
                    ) {
                        Err(e) => Err(e),
                        Ok(denominator) => Ok(numerator / denominator),
                    },
                },
            },
        }
    }
}

/// Calculates the output of a constant-product swap.
pub fn calculate_v2_amount_out(
    amount_in: U256,
    reserve_in: U256,
    reserve_out: U256,
    fee_bps: BasisPoints,
) -> (r: Result<U256, MathError>)
    requires
        fee_bps.wf(),
    ensures
        math_view(r) == v2_amount_out_spec(amount_in@, reserve_in@, reserve_out@, fee_bps@),
{
    if amount_in.is_zero() {
        return Err(
            invalid(
                "calculate_v2_amount_out",
                "amount_in cannot be zero",
                "V2 swap calculation",
            ),
        );
    }
    if reserve_in.is_zero() || reserve_out.is_zero() {
        let reason = "Reserves cannot be zero: reserve_in: ".to_owned().concat(
            text_u256(reserve_in).as_str(),
        ).concat(", reserve_out: ").concat(text_u256(reserve_out).as_str());
        return Err(
            invalid("calculate_v2_amount_out", reason.as_str(), "V2 swap calculation"),
        );
    }
    let multiplier = U256::from_u64(10000 - fee_bps.as_u32() as u64);
    let x = match product("calculate_v2_amount_out", "fee multiply", amount_in, multiplier) {
        Ok(v) => v,
        Err(e) => return Err(e),
    };
    let numerator = match product("calculate_v2_amount_out", "numerator", reserve_out, x) {
        Ok(v) => v,
        Err(e) => return Err(e),
    };
    let scaled = match product(
        "calculate_v2_amount_out",
        "reserve_in * 10000",
        reserve_in,
        U256::from_u64(10000),
    ) {
        Ok(v) => v,
        Err(e) => return Err(e),
    };
    let denominator = match sum("calculate_v2_amount_out", "denominator", scaled, x) {
        Ok(v) => v,
        Err(e) => return Err(e),
    };
    Ok(numerator.div(denominator))
}

/// The output multiplies back to at most the numerator.
proof fn lemma_output_times_denominator(x: nat, reserve_in: nat, reserve_out: nat, out: nat)
    requires
        reserve_in > 0,
        out == (reserve_out * x) / (reserve_in * 10000 + x),
    ensures
        out * (reserve_in * 10000 + x) <= reserve_out * x,
{
    let den = reserve_in * 10000 + x;
    vstd::arithmetic::div_mod::lemma_fundamental_div_mod((reserve_out * x) as int, den as int);
    assert(den * out == out * den) by (nonlinear_arith);
}

/// A swap never takes the whole output reserve.
pub proof fn law_output_is_below_the_reserve(
    amount_in: nat,
    reserve_in: nat,
    reserve_out: nat,
    fee_bps: nat,
)
    requires
        fee_bps <= 10000,
    ensures
        v2_amount_out_spec(amount_in, reserve_in, reserve_out, fee_bps) matches Ok(out) ==> out
            < reserve_out,
{
    match v2_amount_out_spec(amount_in, reserve_in, reserve_out, fee_bps) {
        Ok(out) => {
            let x = amount_in * (10000 - fee_bps) as nat;
            let den = reserve_in * 10000 + x;
            lemma_output_times_denominator(x, reserve_in, reserve_out, out);
            if out >= reserve_out {
                assert(out * den >= reserve_out * den) by (nonlinear_arith)
                    requires
                        out >= reserve_out,
                ;
                assert(reserve_out * den == reserve_out * (reserve_in * 10000) + reserve_out * x)
                    by (nonlinear_arith)
                    requires
                        den == reserve_in * 10000 + x,
                ;
                assert(reserve_out * (reserve_in * 10000) > 0) by (nonlinear_arith)
                    requires
                        reserve_out > 0,
                        reserve_in > 0,
                ;
            }
        },
        Err(_) => {},
    }
}

/// A swap never lowers the product of the reserves.
pub proof fn law_product_does_not_fall(
    amount_in: nat,
    reserve_in: nat,
    reserve_out: nat,
    fee_bps: nat,
)
    requires
        fee_bps <= 10000,
    ensures
        v2_amount_out_spec(amount_in, reserve_in, reserve_out, fee_bps) matches Ok(out) ==> (
        reserve_in + amount_in) * (reserve_out - out) >= reserve_in * reserve_out,
{
    match v2_amount_out_spec(amount_in, reserve_in, reserve_out, fee_bps) {
        Ok(out) => {
            law_output_is_below_the_reserve(amount_in, reserve_in, reserve_out, fee_bps);
            let x = amount_in * (10000 - fee_bps) as nat;
            lemma_output_times_denominator(x, reserve_in, reserve_out, out);
            let lost = amount_in * fee_bps;
            assert(amount_in * 10000 == x + lost) by (nonlinear_arith)
                requires
                    x == amount_in * (10000 - fee_bps) as nat,
                    lost == amount_in * fee_bps,
                    fee_bps <= 10000,
            ;
            assert(out * lost <= reserve_out * lost) by (nonlinear_arith)
                requires
                    out <= reserve_out,
            ;
            let whole = reserve_in * 10000 + amount_in * 10000;
            assert(out * whole == out * (reserve_in * 10000 + x) + out * lost) by (nonlinear_arith)
                requires
                    whole == reserve_in * 10000 + x + lost,
            ;
            assert(reserve_out * (amount_in * 10000) == reserve_out * x + reserve_out * lost)
                by (nonlinear_arith)
                requires
                    amount_in * 10000 == x + lost,
            ;
            assert(out * whole <= reserve_out * (amount_in * 10000));
            assert(out * (reserve_in + amount_in) <= reserve_out * amount_in) by (nonlinear_arith)
                requires
                    out * whole <= reserve_out * (amount_in * 10000),
                    whole == reserve_in * 10000 + amount_in * 10000,
            ;
            assert((reserve_in + amount_in) * (reserve_out - out) == reserve_in * reserve_out
                + reserve_out * amount_in - out * (reserve_in + amount_in)) by (nonlinear_arith);
        },
        Err(_) => {},
    }
}

/// A swap pays the most that keeps the product of the reserves, the input counted less its fee:
/// what it pays keeps it, and one unit more would not.
pub proof fn law_output_is_the_most_that_keeps_the_product(
    amount_in: nat,
    reserve_in: nat,
    reserve_out: nat,
    fee_bps: nat,
)
    requires
        fee_bps <= 10000,
    ensures
        v2_amount_out_spec(amount_in, reserve_in, reserve_out, fee_bps) matches Ok(out) ==> {
            let grown = reserve_in * 10000 + amount_in * (10000 - fee_bps);
            &&& grown * (reserve_out - out) >= reserve_in * 10000 * reserve_out
            &&& grown * (reserve_out - out - 1) < reserve_in * 10000 * reserve_out
        },
{
    match v2_amount_out_spec(amount_in, reserve_in, reserve_out, fee_bps) {
        Ok(out) => {
            let x = amount_in * (10000 - fee_bps) as nat;
            let den = reserve_in * 10000 + x;
            let n = reserve_out * x;
            vstd::arithmetic::div_mod::lemma_fundamental_div_mod(n as int, den as int);
            assert(den * (reserve_out - out) == reserve_in * 10000 * reserve_out + n - den * out)
                by (nonlinear_arith)
                requires
                    den == reserve_in * 10000 + x,
                    n == reserve_out * x,
            ;
            assert(den * (reserve_out - out - 1) == den * (reserve_out - out) - den)
                by (nonlinear_arith);
            assert(x == amount_in * (10000 - fee_bps));
        },
        Err(_) => {},
    }
}

/// An output is owed for every input and every two reserves that are not empty, where the products
/// of the formula fit into 256 bits.
pub proof fn law_output_is_owed(
    amount_in: nat,
    reserve_in: nat,
    reserve_out: nat,
    fee_bps: nat,
)
    requires
        fee_bps <= 10000,
    ensures
        v2_amount_out_spec(amount_in, reserve_in, reserve_out, fee_bps) is Ok <==> {
            let x = (amount_in * (10000 - fee_bps)) as nat;
            &&& amount_in > 0 && reserve_in > 0 && reserve_out > 0
            &&& fits(x) && fits(reserve_out * x)
            &&& fits(reserve_in * 10000 + x)
        },
{
    assert(amount_in * ((10000 - fee_bps) as nat) == amount_in * (10000 - fee_bps));
    assert((amount_in * (10000 - fee_bps)) as nat == amount_in * ((10000 - fee_bps) as nat));
}

} // verus!
