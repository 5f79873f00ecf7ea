//! Swap steps of Kyber Elastic.

use crate::base::error::{
    e_invalid, e_overflow, e_zero_division, invalid, overflow0, zero_division, MathErr, MathError,
};
use crate::dex::clmm::{
    given_between, law_exact_input_is_not_exceeded, law_step_price_stays_between, lower, q160, q96,
    step_amounts, step_price, swap_step, swap_step_of, taken_between, upper,
};
use crate::dex::kyber::math::liq_delta_math::magnitude;
use crate::dex::ranges::{
    grosses_up, is_leg, lemma_fee_grosses_up, lemma_step_is_leg, step_leg, Charge,
};
use crate::text::{dec, dec_int, text_i128, text_u128, text_u256};
use crate::u256::{fits, u256_limit, U256};
use vstd::prelude::*;
use vstd::string::StringExecFns;

verus! {

/// Result of one swap step.
#[derive(Clone, Copy, Debug, PartialEq, Eq, Structural)]
pub struct SwapStepResult {
    pub used_amount: i128,
    pub returned_amount: i128,
    pub delta_l: u128,
    pub next_sqrt_p: U256,
}

/// What a [`SwapStepResult`] says.
pub struct StepView {
    pub used: int,
    pub returned: int,
    pub delta_l: nat,
    pub next: nat,
}

impl View for SwapStepResult {
    type V = StepView;

    open spec fn view(&self) -> StepView {
        StepView {
            used: self.used_amount as int,
            returned: self.returned_amount as int,
            delta_l: self.delta_l as nat,
            next: self.next_sqrt_p@,
        }
    }
}

/// The view of a step result.
pub open spec fn step_view(r: Result<SwapStepResult, MathError>) -> Result<StepView, MathErr> {
    match r {
        Ok(v) => Ok(v@),
        Err(e) => Err(e@),
    }
}

/// One swap step. The amount is the input with fee for an exact input, the output for an exact
/// output; its sign does not matter.
pub open spec fn kyber_step_spec(
    liquidity: nat,
    current: nat,
    target: nat,
    fee_bps: nat,
    specified: int,
    exact_input: bool,
) -> Result<StepView, MathErr> {
    if liquidity == 0 {
        Err(e_invalid("compute_swap_step"@, "liquidity cannot be zero"@, "kyber swap step"@))
    } else if current == 0 || target == 0 {
        Err(
            e_invalid(
                "compute_swap_step"@,
                "sqrt prices must be non-zero"@,
                "current="@ + dec(current) + ", target="@ + dec(target),
            ),
        )
    } else if fee_bps >= 10_000 {
        Err(
            e_invalid(
                "compute_swap_step"@,
                "fee_in_bps must be < 10000"@,
                "fee_in_bps="@ + dec(fee_bps),
            ),
        )
    } else if specified == i128::MIN {
        Err(
            e_invalid(
                "compute_swap_step"@,
                "specified_amount overflow on abs()"@,
                "specified_amount="@ + dec_int(specified),
            ),
        )
    } else if specified == 0 {
        Ok(StepView { used: 0, returned: 0, delta_l: 0, next: current })
    } else {
        let amount = magnitude(specified);
        let signed = if exact_input {
            amount as int
        } else {
            -(amount as int)
        };
        match swap_step_of(current, target, liquidity, signed, fee_bps * 100) {
            Err(e) => Err(e_invalid("compute_swap_step"@, e, "canonical swap step"@)),
            Ok(step) => settled_step(step, amount, exact_input),
        }
    }
}

/// Whether the parameters of a step are not refused at once.
pub open spec fn accepted(
    liquidity: nat,
    current: nat,
    target: nat,
    fee_bps: nat,
    specified: int,
) -> bool {
    liquidity > 0 && current > 0 && target > 0 && fee_bps < 10_000 && specified != i128::MIN
}

/// The step that follows from the kernel's next price, net input, output and fee.
pub open spec fn settled_step(
    step: (nat, nat, nat, nat),
    specified: nat,
    exact_input: bool,
) -> Result<StepView, MathErr> {
    let (next, amount_in, amount_out, fee) = step;
    let total = amount_in + fee;
    if !fits(total) {
        Err(e_overflow("compute_swap_step"@, seq![], "amount_in + fee"@))
    } else if total > i128::MAX {
        Err(out_of_i128("total input"@, total))
    } else if amount_out > i128::MAX {
        Err(out_of_i128("amount out"@, amount_out))
    } else if exact_input && total > specified {
        Err(
            e_invalid(
                "compute_swap_step"@,
                "used input exceeds specified exact-input amount"@,
                "used="@ + dec(total) + ", specified="@ + dec(specified),
            ),
        )
    } else if !exact_input && amount_out > specified {
        Err(
            e_invalid(
                "compute_swap_step"@,
                "output exceeds specified exact-output amount"@,
                "out="@ + dec(amount_out) + ", specified="@ + dec(specified),
            ),
        )
    } else {
        Ok(
            StepView {
                used: total as int,
                returned: -(amount_out as int),
                delta_l: fee % 0x1_0000_0000_0000_0000_0000_0000_0000_0000nat,
                next,
            },
        )
    }
}

/// The error of an amount that an `i128` does not hold.
pub open spec fn out_of_i128(context: Seq<char>, value: nat) -> MathErr {
    e_invalid(
        "compute_swap_step"@,
        "value exceeds i128 range"@,
        context + "; value="@ + dec(value),
    )
}

/// An amount as an `i128`.
fn u256_to_i128_checked(v: U256, context: &str) -> (r: Result<i128, MathError>)
    ensures
        match r {
            Ok(n) => v@ <= i128::MAX && n == v@,
            Err(e) => v@ > i128::MAX && e@ == out_of_i128(context@, v@),
        },
{
    match v.to_u128() {
        Some(n) => {
            if n <= i128::MAX as u128 {
                return Ok(n as i128);
            }
        },
        None => {},
    }
    let text = context.to_owned().concat("; value=").concat(text_u256(v).as_str());
    Err(invalid("compute_swap_step", "value exceeds i128 range", text.as_str()))
}

/// Settles the kernel's step against the specified amount.
pub fn settle_step(
    next: U256,
    amount_in: U256,
    amount_out: U256,
    fee: U256,
    specified: i128,
    exact_input: bool,
) -> (r: Result<SwapStepResult, MathError>)
    requires
        specified > 0,
    ensures
        step_view(r) == settled_step(
            (next@, amount_in@, amount_out@, fee@),
            specified as nat,
            exact_input,
        ),
{
    let total = match amount_in.checked_add(fee) {
        None => return Err(overflow0("compute_swap_step", "amount_in + fee")),
        Some(t) => t,
    };
    let used: i128 = match u256_to_i128_checked(total, "total input") {
        Ok(v) => v,
        Err(e) => return Err(e),
    };
    let out: i128 = match u256_to_i128_checked(amount_out, "amount out") {
        Ok(v) => v,
        Err(e) => return Err(e),
    };
    if exact_input && used > specified {
        let context = "used=".to_owned().concat(text_i128(used).as_str()).concat(
            ", specified=",
        ).concat(text_i128(specified).as_str());
        return Err(
            invalid(
                "compute_swap_step",
                "used input exceeds specified exact-input amount",
                context.as_str(),
            ),
        );
    }
    if !exact_input && out > specified {
        let context = "out=".to_owned().concat(text_i128(out).as_str()).concat(
            ", specified=",
        ).concat(text_i128(specified).as_str());
        return Err(
            invalid(
                "compute_swap_step",
                "output exceeds specified exact-output amount",
                context.as_str(),
            ),
        );
    }
    Ok(
        SwapStepResult {
            used_amount: used,
            returned_amount: -out,
            delta_l: fee.low_u128(),
            next_sqrt_p: next,
        },
    )
}

/// Whether a step takes and gives what it should. An exact input makes a leg of a swap, and what
/// it uses beyond its fee is what lies between the two prices, rounded up. An exact output uses
/// the least input that leaves that after the fee, and gives what lies between the two prices, or
/// the wanted output where that is less.
pub open spec fn is_fair_step(
    liquidity: nat,
    current: nat,
    target: nat,
    fee_bps: nat,
    amount: nat,
    exact_input: bool,
    step: StepView,
) -> bool {
    let down = current >= target;
    let used = step.used as nat;
    let given = (-step.returned) as nat;
    &&& 0 <= step.used && step.returned <= 0
    &&& exact_input ==> {
        &&& is_leg(
            step_leg(current, target, liquidity, amount, step.next, used, given),
            fee_bps,
            down,
            Charge::Included,
        )
        &&& step.delta_l <= used
        &&& taken_between(current, step.next, liquidity, down) == Ok::<nat, Seq<char>>(
            (used - step.delta_l) as nat,
        )
    }
    &&& !exact_input ==> {
        &&& taken_between(current, step.next, liquidity, down) matches Ok(net) && grosses_up(
            used,
            net,
            fee_bps,
        )
        &&& given_between(current, step.next, liquidity, down) matches Ok(all) && given == lower(
            all,
            amount,
        )
    }
}

/// The kernel's step, settled, takes and gives what it should.
proof fn lemma_step_is_fair(
    liquidity: nat,
    current: nat,
    target: nat,
    fee_bps: nat,
    amount: nat,
    exact_input: bool,
    step: (nat, nat, nat, nat),
)
    requires
        liquidity > 0,
        current > 0,
        target > 0,
        fee_bps < 10_000,
        0 < amount <= i128::MAX,
        fits(current) && fits(target) && fits(step.1) && fits(step.3),
        settled_step(step, amount, exact_input) is Ok,
        step_price(
            current,
            target,
            liquidity,
            if exact_input {
                amount as int
            } else {
                -(amount as int)
            },
            fee_bps * 100,
            step.0,
        ),
        step_amounts(
            current,
            target,
            liquidity,
            if exact_input {
                amount as int
            } else {
                -(amount as int)
            },
            fee_bps * 100,
            step,
        ),
    ensures
        is_fair_step(
            liquidity,
            current,
            target,
            fee_bps,
            amount,
            exact_input,
            settled_step(step, amount, exact_input)->Ok_0,
        ),
{
    let pips = fee_bps * 100;
    let total = step.1 + step.3;
    if step.0 == target || !exact_input {
        lemma_fee_grosses_up(step.1, fee_bps, step.3);
    }
    if exact_input {
        law_step_price_stays_between(current, target, liquidity, amount as int, pips, step.0);
        law_exact_input_is_not_exceeded(
            current,
            target,
            liquidity,
            amount as int,
            pips,
            step,
        );
        let keep = (10_000 - fee_bps) as nat;
        let wide = (1_000_000 - pips) as nat;
        assert(amount * wide == 100 * (amount * keep)) by (nonlinear_arith)
            requires
                wide == 100 * keep,
        ;
        assert(amount * wide / 1_000_000 == amount * keep / 10_000);
        assert(amount * wide == amount * (1_000_000 - pips));
        assert(amount * keep == amount * (10_000 - fee_bps));
        if step.0 != target {
            vstd::arithmetic::div_mod::lemma_small_mod(total, u256_limit());
        }
        lemma_step_is_leg(
            current,
            target,
            liquidity,
            amount,
            fee_bps,
            step.0,
            step.1,
            total,
            step.2,
        );
        vstd::arithmetic::div_mod::lemma_small_mod(
            step.3,
            0x1_0000_0000_0000_0000_0000_0000_0000_0000nat,
        );
    }
}

/// Computes one swap step.
///
/// - `is_exact_input = true`: `specified_amount` is the largest input, with its fee.
/// - `is_exact_input = false`: `specified_amount` is the wanted output.
///
/// The price moves to where the amount takes it, and not past the target. An exact input gives
/// what lies between the two prices, rounded down, and is used up unless the price reaches the
/// target. On prices of at most 160 bits it fails only for parameters that are refused at once
/// and for an output that an `i128` does not hold.
pub fn compute_swap_step(
    liquidity: u128,
    current_sqrt_p: U256,
    target_sqrt_p: U256,
    fee_in_bps: u32,
    specified_amount: i128,
    is_exact_input: bool,
    _is_token0: bool,
) -> (r: Result<SwapStepResult, MathError>)
    ensures
        step_view(r) == kyber_step_spec(
            liquidity as nat,
            current_sqrt_p@,
            target_sqrt_p@,
            fee_in_bps as nat,
            specified_amount as int,
            is_exact_input,
        ),
        is_exact_input && accepted(
            liquidity as nat,
            current_sqrt_p@,
            target_sqrt_p@,
            fee_in_bps as nat,
            specified_amount as int,
        ) && current_sqrt_p@ < q160() && target_sqrt_p@ < q160() ==> r is Ok || exists|out: nat|
            out > i128::MAX && r->Err_0@ == #[trigger] out_of_i128("amount out"@, out),
        r is Ok ==> lower(current_sqrt_p@, target_sqrt_p@) <= r->Ok_0.next_sqrt_p@ <= upper(
            current_sqrt_p@,
            target_sqrt_p@,
        ),
        r is Ok && specified_amount != 0 ==> step_price(
            current_sqrt_p@,
            target_sqrt_p@,
            liquidity as nat,
            if is_exact_input {
                magnitude(specified_amount as int) as int
            } else {
                -(magnitude(specified_amount as int) as int)
            },
            fee_in_bps as nat * 100,
            r->Ok_0.next_sqrt_p@,
        ),
        r is Ok && specified_amount != 0 && is_exact_input ==> {
            &&& given_between(
                current_sqrt_p@,
                r->Ok_0.next_sqrt_p@,
                liquidity as nat,
                current_sqrt_p@ >= target_sqrt_p@,
            ) == Ok::<nat, Seq<char>>((-r->Ok_0.returned_amount) as nat)
            &&& r->Ok_0.next_sqrt_p@ != target_sqrt_p@ ==> r->Ok_0.used_amount == magnitude(
                specified_amount as int,
            )
        },
        r is Ok && specified_amount != 0 ==> is_fair_step(
            liquidity as nat,
            current_sqrt_p@,
            target_sqrt_p@,
            fee_in_bps as nat,
            magnitude(specified_amount as int),
            is_exact_input,
            r->Ok_0@,
        ),
{
    if liquidity == 0 {
        return Err(
            invalid("compute_swap_step", "liquidity cannot be zero", "kyber swap step"),
        );
    }
    if current_sqrt_p.is_zero() || target_sqrt_p.is_zero() {
        let context = "current=".to_owned().concat(text_u256(current_sqrt_p).as_str()).concat(
            ", target=",
        ).concat(text_u256(target_sqrt_p).as_str());
        return Err(
            invalid("compute_swap_step", "sqrt prices must be non-zero", context.as_str()),
        );
    }
    if fee_in_bps >= 10_000 {
        let context = "fee_in_bps=".to_owned().concat(text_u128(fee_in_bps as u128).as_str());
        return Err(
            invalid("compute_swap_step", "fee_in_bps must be < 10000", context.as_str()),
        );
    }
    if specified_amount == i128::MIN {
        let context = "specified_amount=".to_owned().concat(text_i128(specified_amount).as_str());
        return Err(
            invalid(
                "compute_swap_step",
                "specified_amount overflow on abs()",
                context.as_str(),
            ),
        );
    }
    if specified_amount == 0 {
        return Ok(
            SwapStepResult {
                used_amount: 0,
                returned_amount: 0,
                delta_l: 0,
                next_sqrt_p: current_sqrt_p,
            },
        );
    }
    let amount: i128 = if specified_amount < 0 {
        -specified_amount
    } else {
        specified_amount
    };
    let signed: i128 = if is_exact_input {
        amount
    } else {
        -amount
    };
    match swap_step(current_sqrt_p, target_sqrt_p, liquidity, signed, fee_in_bps * 100) {
        Err(e) => Err(invalid("compute_swap_step", e.as_str(), "canonical swap step")),
        Ok(step) => {
            proof {
                broadcast use crate::u256::u256_in_range;

                law_step_price_stays_between(
                    current_sqrt_p@,
                    target_sqrt_p@,
                    liquidity as nat,
                    signed as int,
                    fee_in_bps as nat * 100,
                    step.0@,
                );
                let total = step.1@ + step.3@;
                if is_exact_input {
                    law_exact_input_is_not_exceeded(
                        current_sqrt_p@,
                        target_sqrt_p@,
                        liquidity as nat,
                        signed as int,
                        fee_in_bps as nat * 100,
                        (step.0@, step.1@, step.2@, step.3@),
                    );
                }
                if settled_step(
                    (step.0@, step.1@, step.2@, step.3@),
                    amount as nat,
                    is_exact_input,
                ) is Ok {
                    lemma_step_is_fair(
                        liquidity as nat,
                        current_sqrt_p@,
                        target_sqrt_p@,
                        fee_in_bps as nat,
                        amount as nat,
                        is_exact_input,
                        (step.0@, step.1@, step.2@, step.3@),
                    );
                }
                if total < u256_limit() {
                    vstd::arithmetic::div_mod::lemma_small_mod(total, u256_limit());
                }
            }
            settle_step(step.0, step.1, step.2, step.3, amount, is_exact_input)
        },
    }
}

/// An exact-input step uses no more than was specified, an exact-output step returns no more,
/// and neither amount has the wrong sign.
pub proof fn law_step_stays_within_the_specified_amount(
    liquidity: nat,
    current: nat,
    target: nat,
    fee_bps: nat,
    specified: int,
    exact_input: bool,
)
    ensures
        kyber_step_spec(liquidity, current, target, fee_bps, specified, exact_input) matches Ok(
            step,
        ) ==> {
            &&& 0 <= step.used
            &&& step.returned <= 0
            &&& exact_input ==> step.used <= magnitude(specified)
            &&& !exact_input ==> -step.returned <= magnitude(specified)
        },
{
}

/// The input or output that takes the price to the target.
///
/// Token 0: `L * (hi - lo) / (hi * lo / 2^96)`. Token 1: `L * (hi - lo) / 2^96`. For an exact
/// input the amount is grossed up by the fee; for an exact output it is negated.
pub open spec fn reach_spec(
    liquidity: nat,
    current: nat,
    target: nat,
    fee_bps: nat,
    exact_input: bool,
    is_token0: bool,
) -> Result<int, MathErr> {
    if fee_bps >= 10_000 {
        Err(
            e_invalid(
                "calc_reach_amount"@,
                "fee_in_bps must be < 10000"@,
                "fee_in_bps="@ + dec(fee_bps),
            ),
        )
    } else if current == 0 || target == 0 {
        Err(
            e_invalid(
                "calc_reach_amount"@,
                "sqrt prices must be non-zero"@,
                "current="@ + dec(current) + ", target="@ + dec(target),
            ),
        )
    } else {
        let net = if is_token0 {
            reach0_spec(liquidity, lower(current, target), upper(current, target))
        } else {
            reach1_spec(liquidity, lower(current, target), upper(current, target))
        };
        match net {
            Err(e) => Err(e),
            Ok(n) => if exact_input {
                match narrow_spec("grossed amount"@, n * 10000 / ((10000 - fee_bps) as nat)) {
                    Err(e) => Err(e),
                    Ok(g) => signed_spec(g, true),
                }
            } else {
                signed_spec(n, false)
            },
        }
    }
}

/// The amount of token 0 between two prices.
pub open spec fn reach0_spec(liquidity: nat, lo: nat, hi: nat) -> Result<nat, MathErr> {
    let n = liquidity * ((hi - lo) as nat);
    if !fits(n) {
        Err(e_overflow("calc_reach_amount"@, seq![], "liquidity * price_diff"@))
    } else if !fits(hi * lo) {
        Err(e_overflow("calc_reach_amount"@, seq![], "high_price * low_price"@))
    } else if hi * lo / q96() == 0 {
        Err(e_zero_division("calc_reach_amount"@, "denominator for token0 path"@))
    } else {
        narrow_spec("token0 amount"@, n / (hi * lo / q96()))
    }
}

/// The amount of token 1 between two prices.
pub open spec fn reach1_spec(liquidity: nat, lo: nat, hi: nat) -> Result<nat, MathErr> {
    let n = liquidity * ((hi - lo) as nat);
    if !fits(n) {
        Err(e_overflow("calc_reach_amount"@, seq![], "liquidity * price_diff"@))
    } else {
        narrow_spec("token1 amount"@, n / q96())
    }
}

/// An amount that a `u128` holds, or the overflow.
pub open spec fn narrow_spec(context: Seq<char>, value: nat) -> Result<nat, MathErr> {
    if value <= u128::MAX {
        Ok(value)
    } else {
        Err(e_overflow("calc_reach_amount"@, seq![], context + "; value="@ + dec(value)))
    }
}

/// An amount with its sign, where an `i128` holds it.
pub open spec fn signed_spec(value: nat, positive: bool) -> Result<int, MathErr> {
    if value > i128::MAX {
        Err(e_overflow("calc_reach_amount"@, seq![], "signed amount; value="@ + dec(value)))
    } else if positive {
        Ok(value as int)
    } else {
        Ok(-(value as int))
    }
}

/// The view of a signed amount.
pub open spec fn signed_view(r: Result<i128, MathError>) -> Result<int, MathErr> {
    match r {
        Ok(v) => Ok(v as int),
        Err(e) => Err(e@),
    }
}

fn u256_to_u128_checked(v: U256, context: &str) -> (r: Result<u128, MathError>)
    ensures
        match r {
            Ok(n) => narrow_spec(context@, v@) == Ok::<nat, MathErr>(n as nat),
            Err(e) => narrow_spec(context@, v@) == Err::<nat, MathErr>(e@),
        },
{
    match v.to_u128() {
        Some(n) => Ok(n),
        None => {
            let text = context.to_owned().concat("; value=").concat(text_u256(v).as_str());
            Err(overflow0("calc_reach_amount", text.as_str()))
        },
    }
}

fn signed_amount(v: u128, positive: bool) -> (r: Result<i128, MathError>)
    ensures
        signed_view(r) == signed_spec(v as nat, positive),
{
    if v > i128::MAX as u128 {
        let text = "signed amount; value=".to_owned().concat(text_u128(v).as_str());
        return Err(overflow0("calc_reach_amount", text.as_str()));
    }
    if positive {
        Ok(v as i128)
    } else {
        Ok(-(v as i128))
    }
}

fn q96_value() -> (r: U256)
    ensures
        r@ == q96(),
{
    U256::from_u128(0x1_0000_0000_0000_0000_0000_0000)
}

/// Calculates [`reach0_spec`].
fn reach_token0(liquidity: u128, lo: U256, hi: U256) -> (r: Result<u128, MathError>)
    requires
        lo@ <= hi@,
    ensures
        match r {
            Ok(n) => reach0_spec(liquidity as nat, lo@, hi@) == Ok::<nat, MathErr>(n as nat),
            Err(e) => reach0_spec(liquidity as nat, lo@, hi@) == Err::<nat, MathErr>(e@),
        },
{
    let gap = hi.minus(lo);
    let numerator = match U256::from_u128(liquidity).checked_mul(gap) {
        Some(v) => v,
        None => return Err(overflow0("calc_reach_amount", "liquidity * price_diff")),
    };
    let product = match hi.checked_mul(lo) {
        Some(v) => v,
        None => return Err(overflow0("calc_reach_amount", "high_price * low_price")),
    };
    let denominator = product.div(q96_value());
    if denominator.is_zero() {
        return Err(zero_division("calc_reach_amount", "denominator for token0 path"));
    }
    u256_to_u128_checked(numerator.div(denominator), "token0 amount")
}

/// Calculates [`reach1_spec`].
fn reach_token1(liquidity: u128, lo: U256, hi: U256) -> (r: Result<u128, MathError>)
    requires
        lo@ <= hi@,
    ensures
        match r {
            Ok(n) => reach1_spec(liquidity as nat, lo@, hi@) == Ok::<nat, MathErr>(n as nat),
            Err(e) => reach1_spec(liquidity as nat, lo@, hi@) == Err::<nat, MathErr>(e@),
        },
{
    let gap = hi.minus(lo);
    let numerator = match U256::from_u128(liquidity).checked_mul(gap) {
        Some(v) => v,
        None => return Err(overflow0("calc_reach_amount", "liquidity * price_diff")),
    };
    u256_to_u128_checked(numerator.div(q96_value()), "token1 amount")
}

/// Calculates the amount that takes the price to the target, positive for an exact input and
/// negative for an exact output.
pub fn calc_reach_amount(
    liquidity: u128,
    current_sqrt_p: U256,
    target_sqrt_p: U256,
    fee_in_bps: u32,
    is_exact_input: bool,
    is_token0: bool,
) -> (r: Result<i128, MathError>)
    ensures
        signed_view(r) == reach_spec(
            liquidity as nat,
            current_sqrt_p@,
            target_sqrt_p@,
            fee_in_bps as nat,
            is_exact_input,
            is_token0,
        ),
{
    if fee_in_bps >= 10_000 {
        let context = "fee_in_bps=".to_owned().concat(text_u128(fee_in_bps as u128).as_str());
        return Err(
            invalid("calc_reach_amount", "fee_in_bps must be < 10000", context.as_str()),
        );
    }
    if current_sqrt_p.is_zero() || target_sqrt_p.is_zero() {
        let context = "current=".to_owned().concat(text_u256(current_sqrt_p).as_str()).concat(
            ", target=",
        ).concat(text_u256(target_sqrt_p).as_str());
        return Err(
            invalid("calc_reach_amount", "sqrt prices must be non-zero", context.as_str()),
        );
    }
    let (lo, hi) = if current_sqrt_p.less(&target_sqrt_p) {
        (current_sqrt_p, target_sqrt_p)
    } else {
        (target_sqrt_p, current_sqrt_p)
    };
    let net_result = if is_token0 {
        reach_token0(liquidity, lo, hi)
    } else {
        reach_token1(liquidity, lo, hi)
    };
    let net: u128 = match net_result {
        Ok(v) => v,
        Err(e) => return Err(e),
    };
    if is_exact_input {
        let scaled = match U256::from_u128(net).checked_mul(U256::from_u64(10000)) {
            Some(v) => v,
            None => {
                proof {
                    assert(false);
                }
                return Err(overflow0("calc_reach_amount", "gross-up multiply by 10000"));
            },
        };
        let gross = scaled.div(U256::from_u64((10000 - fee_in_bps) as u64));
        match u256_to_u128_checked(gross, "grossed amount") {
            Ok(g) => signed_amount(g, true),
            Err(e) => Err(e),
        }
    } else {
        signed_amount(net, false)
    }
}

/// The amount that takes the price to the target does not depend on which of the two prices comes
/// first. It is the token 1 between them, `L * (hi - lo) / 2^96`, or the token 0, the same product
/// by `hi * lo / 2^96`, rounded down; for an exact input it is the least of which the fee leaves
/// that, up to rounding down, and for an exact output it is negative.
pub proof fn law_reach_amount_lies_between_the_prices(
    liquidity: nat,
    current: nat,
    target: nat,
    fee_bps: nat,
    exact_input: bool,
    is_token0: bool,
)
    ensures
        reach_spec(liquidity, current, target, fee_bps, exact_input, is_token0) is Ok
            ==> reach_spec(liquidity, target, current, fee_bps, exact_input, is_token0)
            == reach_spec(liquidity, current, target, fee_bps, exact_input, is_token0),
        reach_spec(liquidity, current, target, fee_bps, exact_input, is_token0) matches Ok(amount)
            ==> exists|net: nat|
            {
                &&& #[trigger] is_between_prices(liquidity, current, target, is_token0, net)
                &&& exact_input ==> fee_bps < 10_000 && amount * (10_000 - fee_bps) <= net * 10_000
                    < (amount + 1) * (10_000 - fee_bps)
                &&& !exact_input ==> amount == -net
            },
{
    let (lo, hi) = (lower(current, target), upper(current, target));
    match reach_spec(liquidity, current, target, fee_bps, exact_input, is_token0) {
        Err(_) => {},
        Ok(amount) => {
            let n = liquidity * ((hi - lo) as nat);
            let d = if is_token0 {
                hi * lo / q96()
            } else {
                q96()
            };
            let net = n / d;
            vstd::arithmetic::div_mod::lemma_fundamental_div_mod(n as int, d as int);
            assert(net * d == d * net && (net + 1) * d == d * net + d) by (nonlinear_arith);
            assert(is_between_prices(liquidity, current, target, is_token0, net));
            let keep = (10_000 - fee_bps) as nat;
            vstd::arithmetic::div_mod::lemma_fundamental_div_mod((net * 10_000) as int, keep as int);
            let g = net * 10_000 / keep;
            assert(g * keep == keep * g && (g + 1) * keep == keep * g + keep) by (nonlinear_arith);
            if exact_input {
                assert(amount == g);
                assert(amount * (10_000 - fee_bps) == g * keep);
                assert((amount + 1) * (10_000 - fee_bps) == (g + 1) * keep);
            }
        },
    }
}

/// Whether an amount is what lies of a token between two prices, rounded down.
pub open spec fn is_between_prices(
    liquidity: nat,
    current: nat,
    target: nat,
    is_token0: bool,
    amount: nat,
) -> bool {
    let gap: nat = if current <= target {
        (target - current) as nat
    } else {
        (current - target) as nat
    };
    let divisor = if is_token0 {
        current * target / 0x1_0000_0000_0000_0000_0000_0000
    } else {
        0x1_0000_0000_0000_0000_0000_0000
    };
    amount * divisor <= liquidity * gap < (amount + 1) * divisor
}

} // verus!
