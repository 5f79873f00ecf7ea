//! Exact-input quotes for Curve StableSwap pools.

use crate::base::error::{
    bad_pool, dex_view, e_invalid, e_overflow, e_pool, e_underflow, overflow0, underflow0,
    unexplained, DexErr, DexError, MathErr, MathError,
};
use crate::data::curve_registry::StableswapMathVariant;
use crate::data::pool_state::CurvePoolState;
use crate::dex::curve::laws::{
    law_each_token_has_its_own_rate, law_price_is_that_of_a_million_units,
};
use crate::dex::curve::math::{
    calculate_curve_price, calculate_swap_output_from_xp, copied, curve_price_spec, dy_spec,
    fee_scalar_spec, rates_spec, stableswap_rates_resolve, stableswap_xp_from_rates, xp_spec,
};
use crate::dex::pricing::{
    is_impact_of, is_scaled_quotient, law_price_impact_is_the_change,
    law_scaled_ratio_is_the_quotient, price_impact, price_impact_spec, scaled_ratio,
    scaled_ratio_spec,
};
use crate::text::{dec, text_u128};
use crate::u256::{fits, values, U256};
use vstd::arithmetic::power::pow;
use vstd::prelude::*;
use vstd::string::StringExecFns;

verus! {

/// Snapshot of a StableSwap pool.
#[derive(Clone, Debug)]
pub struct CurvePoolSnapshot {
    pub balances: Vec<U256>,
    pub decimals: Vec<u8>,
    pub stored_rates: Option<Vec<U256>>,
    pub variant: StableswapMathVariant,
    pub amplification: U256,
    pub fee_raw: U256,
    pub fee_bps: u32,
}

/// The numbers behind an optional list.
pub open spec fn opt_list(v: Option<Vec<U256>>) -> Option<Seq<nat>> {
    match v {
        Some(list) => Some(values(list@)),
        None => None,
    }
}

impl From<&CurvePoolState> for CurvePoolSnapshot {
    /// The snapshot of a pool state.
    fn from(v: &CurvePoolState) -> (r: CurvePoolSnapshot)
        ensures
            r.balances@ == v.balances@,
            r.decimals@ == v.decimals@,
            opt_list(r.stored_rates) == opt_list(v.stableswap_stored_rates),
            r.variant == v.stableswap_math_variant,
            r.amplification == v.amplification,
            r.fee_raw == v.fee_raw,
            r.fee_bps == v.fee_bps,
    {
        let decimals = v.decimals.clone();
        assert(decimals@ =~= v.decimals@);
        CurvePoolSnapshot {
            balances: copied(v.balances.as_slice()),
            decimals,
            stored_rates: match &v.stableswap_stored_rates {
                Some(rates) => Some(copied(rates.as_slice())),
                None => None,
            },
            variant: v.stableswap_math_variant,
            amplification: v.amplification,
            fee_raw: v.fee_raw,
            fee_bps: v.fee_bps,
        }
    }
}

impl vstd::std_specs::convert::FromSpecImpl<&CurvePoolState> for CurvePoolSnapshot {
    open spec fn obeys_from_spec() -> bool {
        false
    }

    open spec fn from_spec(v: &CurvePoolState) -> CurvePoolSnapshot {
        arbitrary()
    }
}

/// Exact-input quote with the balances after the swap.
#[derive(Clone, Debug)]
pub struct CurveExactInQuote {
    pub amount_in: U256,
    pub amount_out: U256,
    pub execution_price_wad: U256,
    pub price_impact_bps: u32,
    pub token_in_index: usize,
    pub token_out_index: usize,
    pub balances_before: Vec<U256>,
    pub balances_after: Vec<U256>,
}

/// What a [`CurveExactInQuote`] says.
#[verifier::ext_equal]
pub struct CurveQuoteView {
    pub amount_in: nat,
    pub amount_out: nat,
    pub execution_price_wad: nat,
    pub price_impact_bps: nat,
    pub token_in_index: nat,
    pub token_out_index: nat,
    pub balances_before: Seq<nat>,
    pub balances_after: Seq<nat>,
}

impl View for CurveExactInQuote {
    type V = CurveQuoteView;

    open spec fn view(&self) -> CurveQuoteView {
        CurveQuoteView {
            amount_in: self.amount_in@,
            amount_out: self.amount_out@,
            execution_price_wad: self.execution_price_wad@,
            price_impact_bps: self.price_impact_bps as nat,
            token_in_index: self.token_in_index as nat,
            token_out_index: self.token_out_index as nat,
            balances_before: values(self.balances_before@),
            balances_after: values(self.balances_after@),
        }
    }
}

/// The first parameter that rules out a quote.
pub open spec fn snapshot_error(pool: CurvePoolSnapshot, i: nat, j: nat) -> Option<DexErr> {
    let n = pool.balances@.len();
    if n < 2 {
        Some(e_pool("curve pool must have >=2 balances, got "@ + dec(n)))
    } else if pool.decimals@.len() != n {
        Some(
            e_pool(
                "decimals length "@ + dec(pool.decimals@.len())
                    + " must equal balances length "@ + dec(n),
            ),
        )
    } else if i >= n || j >= n {
        Some(
            e_pool(
                "token indices out of bounds: in="@ + dec(i) + ", out="@ + dec(j) + ", len="@ + dec(
                    n,
                ),
            ),
        )
    } else if i == j {
        Some(e_pool("token_in_index and token_out_index must differ"@))
    } else if pool.amplification@ == 0 {
        Some(e_pool("amplification cannot be zero"@))
    } else if pool.fee_bps > 10_000 {
        Some(e_pool("fee_bps "@ + dec(pool.fee_bps as nat) + " > 10000"@))
    } else {
        None
    }
}

/// Checks the parameters of a quote.
fn validate_snapshot(
    pool: &CurvePoolSnapshot,
    token_in_index: usize,
    token_out_index: usize,
) -> (r: Result<(), DexError>)
    ensures
        match r {
            Ok(_) => snapshot_error(*pool, token_in_index as nat, token_out_index as nat) is None,
            Err(e) => snapshot_error(*pool, token_in_index as nat, token_out_index as nat) == Some(
                e@,
            ),
        },
{
    let n: usize = pool.balances.len();
    if n < 2 {
        let reason = "curve pool must have >=2 balances, got ".to_owned().concat(
            text_u128(n as u128).as_str(),
        );
        return Err(bad_pool(reason.as_str()));
    }
    if pool.decimals.len() != n {
        let reason = "decimals length ".to_owned().concat(
            text_u128(pool.decimals.len() as u128).as_str(),
        ).concat(" must equal balances length ").concat(text_u128(n as u128).as_str());
        return Err(bad_pool(reason.as_str()));
    }
    if token_in_index >= n || token_out_index >= n {
        let reason = "token indices out of bounds: in=".to_owned().concat(
            text_u128(token_in_index as u128).as_str(),
        ).concat(", out=").concat(text_u128(token_out_index as u128).as_str()).concat(
            ", len=",
        ).concat(text_u128(n as u128).as_str());
        return Err(bad_pool(reason.as_str()));
    }
    if token_in_index == token_out_index {
        return Err(bad_pool("token_in_index and token_out_index must differ"));
    }
    if pool.amplification.is_zero() {
        return Err(bad_pool("amplification cannot be zero"));
    }
    if pool.fee_bps > 10_000 {
        let reason = "fee_bps ".to_owned().concat(
            text_u128(pool.fee_bps as u128).as_str(),
        ).concat(" > 10000");
        return Err(bad_pool(reason.as_str()));
    }
    Ok(())
}

/// The rates of a pool: the stored ones as they are, else those of its decimals.
pub open spec fn snapshot_rates(pool: CurvePoolSnapshot) -> Result<Seq<nat>, MathErr> {
    match pool.stored_rates {
        Some(rates) => Ok(values(rates@)),
        None => rates_spec(pool.decimals@, None),
    }
}

/// The balances after a swap, or the overflow or underflow of one of them.
pub open spec fn balances_after_spec(
    balances: Seq<nat>,
    i: nat,
    j: nat,
    amount_in: nat,
    amount_out: nat,
) -> Result<Seq<nat>, MathErr> {
    if !fits(balances[i as int] + amount_in) {
        Err(
            e_overflow(
                "curve.quote_exact_input.balances_after"@,
                seq![],
                "balance["@ + dec(i) + "] + amount_in"@,
            ),
        )
    } else if balances[j as int] < amount_out {
        Err(
            e_underflow(
                "curve.quote_exact_input.balances_after"@,
                seq![],
                "balance["@ + dec(j) + "] - amount_out"@,
            ),
        )
    } else {
        Ok(
            balances.update(i as int, balances[i as int] + amount_in).update(
                j as int,
                (balances[j as int] - amount_out) as nat,
            ),
        )
    }
}

/// The spot price at some balances.
pub open spec fn spot_price(
    pool: CurvePoolSnapshot,
    i: nat,
    j: nat,
    balances: Seq<nat>,
    rates: Seq<nat>,
) -> Result<nat, MathErr> {
    match xp_spec(balances, rates) {
        Err(e) => Err(e),
        Ok(xp) => curve_price_spec(i, j, xp, rates, pool.variant, pool.amplification@),
    }
}

/// The quote once the output is known.
pub open spec fn settled_spec(
    pool: CurvePoolSnapshot,
    i: nat,
    j: nat,
    amount_in: nat,
    amount_out: nat,
    rates: Seq<nat>,
    spot_before: nat,
) -> Result<CurveQuoteView, DexErr> {
    let before = values(pool.balances@);
    if amount_out == 0 {
        Err(e_pool("amount_out computed as zero"@))
    } else {
        match balances_after_spec(before, i, j, amount_in, amount_out) {
            Err(e) => Err(DexErr::MathError(e)),
            Ok(after) => match spot_price(pool, i, j, after, rates) {
                Err(e) => Err(DexErr::MathError(e)),
                Ok(spot_after) => match scaled_ratio_spec(
                    "curve.execution_price_wad"@,
                    "mul_div failed: "@,
                    amount_out,
                    amount_in,
                ) {
                    Err(e) => Err(DexErr::MathError(e)),
                    Ok(execution) => match price_impact_spec(
                        "curve.price_impact_bps"@,
                        spot_before,
                        spot_after,
                    ) {
                        Err(e) => Err(DexErr::MathError(e)),
                        Ok(impact) => Ok(
                            CurveQuoteView {
                                amount_in,
                                amount_out,
                                execution_price_wad: execution,
                                price_impact_bps: impact,
                                token_in_index: i,
                                token_out_index: j,
                                balances_before: before,
                                balances_after: after,
                            },
                        ),
                    },
                },
            },
        }
    }
}

/// The exact-input quote.
pub open spec fn curve_quote_spec(pool: CurvePoolSnapshot, i: nat, j: nat, amount_in: nat) -> Result<
    CurveQuoteView,
    DexErr,
> {
    if snapshot_error(pool, i, j) is Some {
        Err(snapshot_error(pool, i, j)->Some_0)
    } else if amount_in == 0 {
        Err(
            DexErr::MathError(
                e_invalid("curve.quote_exact_input"@, "amount_in cannot be zero"@, seq![]),
            ),
        )
    } else {
        match snapshot_rates(pool) {
            Err(e) => Err(DexErr::MathError(e)),
            Ok(rates) => match xp_spec(values(pool.balances@), rates) {
                Err(e) => Err(DexErr::MathError(e)),
                Ok(xp) => match curve_price_spec(
                    i,
                    j,
                    xp,
                    rates,
                    pool.variant,
                    pool.amplification@,
                ) {
                    Err(e) => Err(DexErr::MathError(e)),
                    Ok(spot_before) => match dy_spec(
                        i,
                        j,
                        amount_in,
                        xp,
                        rates,
                        pool.variant,
                        pool.amplification@,
                        fee_scalar_spec(pool.fee_raw@, pool.fee_bps as nat),
                    ) {
                        Err(e) => Err(DexErr::MathError(e)),
                        Ok(out) => settled_spec(pool, i, j, amount_in, out, rates, spot_before),
                    },
                },
            },
        }
    }
}

/// Moves the balances.
fn moved_balances(
    balances: &Vec<U256>,
    token_in_index: usize,
    token_out_index: usize,
    amount_in: U256,
    amount_out: U256,
) -> (r: Result<Vec<U256>, MathError>)
    requires
        token_in_index < balances@.len(),
        token_out_index < balances@.len(),
        token_in_index != token_out_index,
    ensures
        crate::dex::curve::math::list_view(r) == balances_after_spec(
            values(balances@),
            token_in_index as nat,
            token_out_index as nat,
            amount_in@,
            amount_out@,
        ),
{
    let in_after = match balances[token_in_index].checked_add(amount_in) {
        Some(v) => v,
        None => {
            let context = "balance[".to_owned().concat(
                text_u128(token_in_index as u128).as_str(),
            ).concat("] + amount_in");
            return Err(overflow0("curve.quote_exact_input.balances_after", context.as_str()));
        },
    };
    let out_after = match balances[token_out_index].checked_sub(amount_out) {
        Some(v) => v,
        None => {
            let context = "balance[".to_owned().concat(
                text_u128(token_out_index as u128).as_str(),
            ).concat("] - amount_out");
            return Err(underflow0("curve.quote_exact_input.balances_after", context.as_str()));
        },
    };
    let mut after = copied(balances.as_slice());
    after.set(token_in_index, in_after);
    after.set(token_out_index, out_after);
    proof {
        assert(values(after@) =~= values(balances@).update(
            token_in_index as int,
            in_after@,
        ).update(token_out_index as int, out_after@));
    }
    Ok(after)
}

/// Makes the quote once the output is known.
fn settle(
    pool: &CurvePoolSnapshot,
    token_in_index: usize,
    token_out_index: usize,
    amount_in: U256,
    amount_out: U256,
    rates: &[U256],
    spot_before: U256,
) -> (r: Result<CurveExactInQuote, DexError>)
    requires
        token_in_index < pool.balances@.len(),
        token_out_index < pool.balances@.len(),
        token_in_index != token_out_index,
    ensures
        dex_view(r) == settled_spec(
            *pool,
            token_in_index as nat,
            token_out_index as nat,
            amount_in@,
            amount_out@,
            values(rates@),
            spot_before@,
        ),
{
    if amount_out.is_zero() {
        return Err(bad_pool("amount_out computed as zero"));
    }
    let balances_after = match moved_balances(
        &pool.balances,
        token_in_index,
        token_out_index,
        amount_in,
        amount_out,
    ) {
        Ok(v) => v,
        Err(e) => return Err(DexError::MathError(e)),
    };
    let xp_after = match stableswap_xp_from_rates(balances_after.as_slice(), rates) {
        Ok(v) => v,
        Err(e) => return Err(DexError::MathError(e)),
    };
    let spot_after = match calculate_curve_price(
        token_in_index,
        token_out_index,
        xp_after.as_slice(),
        rates,
        pool.variant,
        pool.amplification,
    ) {
        Ok(v) => v,
        Err(e) => return Err(DexError::MathError(e)),
    };
    let execution = match scaled_ratio(
        "curve.execution_price_wad",
        "mul_div failed: ",
        amount_out,
        amount_in,
    ) {
        Ok(v) => v,
        Err(e) => return Err(DexError::MathError(e)),
    };
    let impact: u32 = match price_impact("curve.price_impact_bps", spot_before, spot_after) {
        Ok(v) => v,
        Err(e) => return Err(DexError::MathError(e)),
    };
    let balances_before = copied(pool.balances.as_slice());
    Ok(
        CurveExactInQuote {
            amount_in,
            amount_out,
            execution_price_wad: execution,
            price_impact_bps: impact,
            token_in_index,
            token_out_index,
            balances_before,
            balances_after,
        },
    )
}

/// Quotes an exact input.
pub fn quote_exact_input(
    pool: &CurvePoolSnapshot,
    token_in_index: usize,
    token_out_index: usize,
    amount_in: U256,
) -> (r: Result<CurveExactInQuote, DexError>)
    ensures
        dex_view(r) == curve_quote_spec(
            *pool,
            token_in_index as nat,
            token_out_index as nat,
            amount_in@,
        ),
{
    match validate_snapshot(pool, token_in_index, token_out_index) {
        Ok(_) => {},
        Err(e) => return Err(e),
    }
    if amount_in.is_zero() {
        return Err(
            DexError::MathError(
                unexplained("curve.quote_exact_input", "amount_in cannot be zero"),
            ),
        );
    }
    let rates = match &pool.stored_rates {
        Some(stored) => copied(stored.as_slice()),
        None => match stableswap_rates_resolve(pool.decimals.as_slice(), None) {
            Ok(v) => v,
            Err(e) => return Err(DexError::MathError(e)),
        },
    };
    let xp = match stableswap_xp_from_rates(pool.balances.as_slice(), rates.as_slice()) {
        Ok(v) => v,
        Err(e) => return Err(DexError::MathError(e)),
    };
    let spot_before = match calculate_curve_price(
        token_in_index,
        token_out_index,
        xp.as_slice(),
        rates.as_slice(),
        pool.variant,
        pool.amplification,
    ) {
        Ok(v) => v,
        Err(e) => return Err(DexError::MathError(e)),
    };
    let amount_out = match calculate_swap_output_from_xp(
        amount_in,
        token_in_index,
        token_out_index,
        xp.as_slice(),
        rates.as_slice(),
        pool.variant,
        pool.amplification,
        pool.fee_raw,
        pool.fee_bps,
    ) {
        Ok(v) => v,
        Err(e) => return Err(DexError::MathError(e)),
    };
    settle(
        pool,
        token_in_index,
        token_out_index,
        amount_in,
        amount_out,
        rates.as_slice(),
        spot_before,
    )
}

/// A quote moves exactly its two amounts: the input balance grows by the input, the output
/// balance drops by the output, and no other balance changes.
pub proof fn law_quote_moves_two_balances(
    pool: CurvePoolSnapshot,
    i: nat,
    j: nat,
    amount_in: nat,
    k: int,
)
    requires
        curve_quote_spec(pool, i, j, amount_in) is Ok,
        0 <= k < pool.balances@.len(),
    ensures
        ({
            let q = curve_quote_spec(pool, i, j, amount_in)->Ok_0;
            &&& q.balances_before == values(pool.balances@)
            &&& q.balances_after.len() == q.balances_before.len()
            &&& q.balances_after[k] == q.balances_before[k] + (if k == i {
                amount_in as int
            } else {
                0
            }) - (if k == j {
                q.amount_out as int
            } else {
                0
            })
            &&& 0 < q.amount_out <= q.balances_before[j as int]
            &&& q.price_impact_bps <= 10_000
        }),
{
}

/// A quote pays what a swap between the two tokens pays at the rates of the pool, the stored ones or
/// those of its decimals, and with its fee, the raw one or the one in basis points. It says the
/// output per input.
pub proof fn law_quote_reports_the_trade(pool: CurvePoolSnapshot, i: nat, j: nat, amount_in: nat)
    requires
        curve_quote_spec(pool, i, j, amount_in) is Ok,
    ensures
        ({
            let q = curve_quote_spec(pool, i, j, amount_in)->Ok_0;
            let fee: nat = if pool.fee_raw@ > 0 {
                pool.fee_raw@
            } else {
                (pool.fee_bps * 1_000_000) as nat
            };
            &&& q.amount_in == amount_in
            &&& q.token_in_index == i && q.token_out_index == j && i != j
            &&& is_scaled_quotient(q.execution_price_wad, q.amount_out, amount_in)
            &&& snapshot_rates(pool) matches Ok(rates) && (xp_spec(
                values(pool.balances@),
                rates,
            ) matches Ok(xp) && dy_spec(
                i,
                j,
                amount_in,
                xp,
                rates,
                pool.variant,
                pool.amplification@,
                fee,
            ) == Ok::<nat, MathErr>(q.amount_out))
        }),
{
    let q = curve_quote_spec(pool, i, j, amount_in)->Ok_0;
    law_scaled_ratio_is_the_quotient(
        "curve.execution_price_wad"@,
        "mul_div failed: "@,
        q.amount_out,
        amount_in,
    );
}

/// The rates of a pool are the stored ones, and without them those that bring one whole token of
/// each to ten to the power 36.
pub proof fn law_rates_are_stored_or_derived(pool: CurvePoolSnapshot, k: int)
    requires
        0 <= k < pool.decimals@.len(),
    ensures
        pool.stored_rates matches Some(stored) ==> snapshot_rates(pool) == Ok::<Seq<nat>, MathErr>(
            values(stored@),
        ),
        pool.stored_rates is None ==> (snapshot_rates(pool) matches Ok(rates) ==> rates.len()
            == pool.decimals@.len() && rates[k] * pow(10, pool.decimals@[k] as nat) == pow(10, 36)),
{
    if pool.stored_rates is None && snapshot_rates(pool) is Ok {
        law_each_token_has_its_own_rate(pool.decimals@, None, k);
    }
}

/// The impact of a quote is the change of the spot price from the balances before to those after,
/// where the spot price is what a million units of the input pay without a fee, by a million.
pub proof fn law_impact_is_the_change_of_the_spot_price(
    pool: CurvePoolSnapshot,
    i: nat,
    j: nat,
    amount_in: nat,
)
    requires
        curve_quote_spec(pool, i, j, amount_in) is Ok,
    ensures
        ({
            let q = curve_quote_spec(pool, i, j, amount_in)->Ok_0;
            exists|before: nat, after: nat|
                {
                    &&& #[trigger] is_impact_of(q.price_impact_bps, before, after)
                    &&& is_spot_price(pool, i, j, q.balances_before, before)
                    &&& is_spot_price(pool, i, j, q.balances_after, after)
                }
        }),
{
    let q = curve_quote_spec(pool, i, j, amount_in)->Ok_0;
    let rates = snapshot_rates(pool)->Ok_0;
    let before = spot_price(pool, i, j, q.balances_before, rates)->Ok_0;
    let after = spot_price(pool, i, j, q.balances_after, rates)->Ok_0;
    law_price_impact_is_the_change("curve.price_impact_bps"@, before, after);
    let (a, variant) = (pool.amplification@, pool.variant);
    let xp0 = xp_spec(q.balances_before, rates)->Ok_0;
    let xp1 = xp_spec(q.balances_after, rates)->Ok_0;
    law_price_is_that_of_a_million_units(i, j, xp0, rates, variant, a);
    law_price_is_that_of_a_million_units(i, j, xp1, rates, variant, a);
    assert(is_impact_of(q.price_impact_bps, before, after));
}

/// Whether a price is what a million units of token `i` pay of token `j` at some balances, without a
/// fee, by a million and scaled by ten to the power 18.
pub open spec fn is_spot_price(
    pool: CurvePoolSnapshot,
    i: nat,
    j: nat,
    balances: Seq<nat>,
    price: nat,
) -> bool {
    &&& snapshot_rates(pool) matches Ok(rates)
    &&& xp_spec(balances, rates) matches Ok(xp)
    &&& dy_spec(i, j, 1_000_000, xp, rates, pool.variant, pool.amplification@, 0) matches Ok(dy)
    &&& is_scaled_quotient(price, dy, 1_000_000)
}

/// A snapshot that is quoted has at least two balances, a number of decimals for each, two different
/// tokens among them, an amplification and a fee of at most 100%; and the input is not empty.
pub proof fn law_quoted_snapshot_is_complete(
    pool: CurvePoolSnapshot,
    i: nat,
    j: nat,
    amount_in: nat,
)
    requires
        curve_quote_spec(pool, i, j, amount_in) is Ok,
    ensures
        amount_in > 0,
        pool.balances@.len() >= 2,
        pool.decimals@.len() == pool.balances@.len(),
        i < pool.balances@.len() && j < pool.balances@.len() && i != j,
        pool.amplification@ > 0,
        pool.fee_bps <= 10_000,
{
}

/// A snapshot is accepted exactly where it has at least two balances, a number of decimals for each,
/// two different tokens among them, an amplification and a fee of at most 100%.
pub proof fn law_complete_snapshot_is_accepted(pool: CurvePoolSnapshot, i: nat, j: nat)
    ensures
        snapshot_error(pool, i, j) is None <==> {
            &&& pool.balances@.len() >= 2
            &&& pool.decimals@.len() == pool.balances@.len()
            &&& i < pool.balances@.len() && j < pool.balances@.len() && i != j
            &&& pool.amplification@ > 0
            &&& pool.fee_bps <= 10_000
        },
{
}

} // verus!
