//! A comparison of StableSwap quotes with two outside implementations, over drawn pools.

use crate::data::curve_registry::StableswapMathVariant;
use crate::dex::adapter::{wad, wad_value};
use crate::dex::curve::adapter_math::{curve_quote_spec, quote_exact_input, CurvePoolSnapshot};
use crate::dex::curve::curve_math_pool::{
    amount_out, CurveMathPool, CurveMathTemplate, ModelView, StableModel,
};
use crate::harness::{counted, draw, drawn, next_seed, Parity};
use crate::u256::{opt_value, values, U256};
use hydra_amm::config::HybridConfig;
use hydra_amm::domain::{
    Amount, BasisPoints, Decimals, FeeTier, SwapSpec, Token, TokenAddress, TokenPair,
};
use hydra_amm::pools::HybridPool;
use hydra_amm::traits::{FromConfig, SwapPool};
use vstd::prelude::*;

verus! {

/// A pool of two coins and an input to quote.
#[derive(Clone, Copy, Debug, PartialEq, Eq, Structural)]
pub struct ParityCase {
    pub reserve0: u64,
    pub reserve1: u64,
    pub amp: u64,
    pub amount: u64,
}

/// The state of the generator after so many steps.
pub open spec fn seed_after(seed: u64, steps: nat) -> u64
    decreases steps,
{
    if steps == 0 {
        seed
    } else {
        next_seed(seed_after(seed, (steps - 1) as nat))
    }
}

/// The largest input that is drawn for a reserve: a two-hundredth of it, but at least 1000.
pub open spec fn largest_input(reserve: nat) -> u64 {
    if reserve / 200 < 1_000 {
        1_000
    } else {
        (reserve / 200) as u64
    }
}

/// The case that the generator draws next, in four steps.
pub open spec fn case_of(seed: u64) -> ParityCase {
    let reserve0 = drawn(seed_after(seed, 1), 4_000_000_000_000) + 1_000_000;
    ParityCase {
        reserve0: reserve0 as u64,
        reserve1: (drawn(seed_after(seed, 2), 4_000_000_000_000) + 1_000_000) as u64,
        amp: (drawn(seed_after(seed, 3), 3_500) + 10) as u64,
        amount: drawn(seed_after(seed, 4), largest_input(reserve0)) as u64,
    }
}

/// Draws a case.
pub fn draw_case(seed: &mut u64) -> (r: ParityCase)
    ensures
        r == case_of(*old(seed)),
        *final(seed) == seed_after(*old(seed), 4),
{
    proof {
        reveal_with_fuel(seed_after, 5);
    }
    let reserve0: u64 = draw(seed, 4_000_000_000_000) + 1_000_000;
    let reserve1: u64 = draw(seed, 4_000_000_000_000) + 1_000_000;
    let amp: u64 = draw(seed, 3_500) + 10;
    let share: u64 = reserve0 / 200;
    let largest: u64 = if share < 1_000 {
        1_000
    } else {
        share
    };
    let amount: u64 = draw(seed, largest);
    ParityCase { reserve0, reserve1, amp, amount }
}

/// A drawn case is one of reserves from a million to four trillion and a million, an
/// amplification that a hybrid pool takes, and an input that is not zero and at most a
/// two-hundredth of the reserve or 1000.
pub proof fn law_drawn_case_is_in_range(seed: u64)
    ensures
        1_000_000 < case_of(seed).reserve0 < 4_000_001_000_000,
        1_000_000 < case_of(seed).reserve1 < 4_000_001_000_000,
        10 < case_of(seed).amp < 3_510,
        1 <= case_of(seed).amount < largest_input(case_of(seed).reserve0 as nat),
{
}

/// Whether a snapshot is that of a case: two coins of 18 decimals and a fee of 4 basis points.
pub open spec fn is_snapshot_of(case: ParityCase, pool: CurvePoolSnapshot) -> bool {
    &&& values(pool.balances@) == seq![case.reserve0 as nat, case.reserve1 as nat]
    &&& pool.decimals@ == seq![18u8, 18u8]
    &&& pool.stored_rates is None
    &&& pool.variant == StableswapMathVariant::Vyper02ThreePool
    &&& pool.amplification@ == case.amp
    &&& pool.fee_raw@ == 0
    &&& pool.fee_bps == 4
}

/// The snapshot of a case.
pub fn case_snapshot(case: &ParityCase) -> (r: CurvePoolSnapshot)
    ensures
        is_snapshot_of(*case, r),
{
    let balances = vec![U256::from_u64(case.reserve0), U256::from_u64(case.reserve1)];
    assert(values(balances@) =~= seq![case.reserve0 as nat, case.reserve1 as nat]);
    let decimals = vec![18u8, 18u8];
    assert(decimals@ =~= seq![18u8, 18u8]);
    CurvePoolSnapshot {
        balances,
        decimals,
        stored_rates: None,
        variant: StableswapMathVariant::Vyper02ThreePool,
        amplification: U256::from_u64(case.amp),
        fee_raw: U256::zero(),
        fee_bps: 4,
    }
}

/// The StableSwap model of a case: amplification in hundredths, and a fee of 4 basis points.
pub open spec fn case_model(case: ParityCase) -> ModelView {
    ModelView {
        template: CurveMathTemplate::StableSwapV2,
        balances: seq![case.reserve0 as nat, case.reserve1 as nat],
        factors: seq![wad(), wad()],
        price_scale: seq![],
        scalars: seq![(case.amp * 100) as nat, 4_000_000],
    }
}

/// Builds the StableSwap model of a case.
pub fn case_pool(case: &ParityCase) -> (r: CurveMathPool)
    ensures
        r@ == case_model(*case),
{
    let balances = vec![U256::from_u64(case.reserve0), U256::from_u64(case.reserve1)];
    let rates = vec![wad_value(), wad_value()];
    let amp = U256::from_u128(case.amp as u128 * 100);
    let pool = CurveMathPool::StableSwapV2(
        StableModel { balances, rates, amp, fee: U256::from_u64(4_000_000) },
    );
    assert(values(balances@) =~= seq![case.reserve0 as nat, case.reserve1 as nat]);
    assert(values(rates@) =~= seq![wad(), wad()]);
    assert(pool@.scalars =~= case_model(*case).scalars);
    assert(pool@.price_scale =~= case_model(*case).price_scale);
    pool
}

/// The output of a swap in a two-coin hybrid pool, where there is one: what
/// `hydra_amm::pools::HybridPool::swap` returns in a pool built for it.
pub uninterp spec fn hybrid_out(
    amp: nat,
    fee_bps: nat,
    reserve_in: nat,
    reserve_out: nat,
    amount_in: nat,
) -> Option<nat>;

/// The number behind an optional amount.
pub open spec fn opt_amount(v: Option<u128>) -> Option<nat> {
    match v {
        Some(x) => Some(x as nat),
        None => None,
    }
}

/// `hydra_amm::pools::HybridPool::swap` of an exact input of the first token, in a pool that
/// `HybridPool::from_config` builds of two tokens of 18 decimals: claims that the output is the
/// one named [`hybrid_out`], `None` where the pool, the input or the swap is refused, and that
/// it is neither zero nor more than the reserve.
#[verifier::external_body]
fn hybrid_swap(amp: u32, fee_bps: u32, reserve_in: u128, reserve_out: u128, amount_in: u128) -> (r:
    Option<u128>)
    ensures
        opt_amount(r) == hybrid_out(
            amp as nat,
            fee_bps as nat,
            reserve_in as nat,
            reserve_out as nat,
            amount_in as nat,
        ),
        r is Some ==> 0 < r->Some_0 <= reserve_out,
{
    let decimals = Decimals::new(18).ok()?;
    let token = |b| Token::new(TokenAddress::from_bytes([b; 32]), decimals);
    let pair = TokenPair::new(token(1), token(2)).ok()?;
    let fee = FeeTier::new(BasisPoints::new(fee_bps));
    let (first, second) = (Amount::new(reserve_in), Amount::new(reserve_out));
    let config = HybridConfig::new(pair, fee, amp, first, second).ok()?;
    let mut pool = HybridPool::from_config(&config).ok()?;
    let spec = SwapSpec::exact_in(Amount::new(amount_in)).ok()?;
    let swap = pool.swap(spec, token(1)).ok()?;
    Some(swap.amount_out().get())
}

/// The three outputs for one case.
#[derive(Clone, Copy, Debug)]
pub struct CaseOutputs {
    pub ours: U256,
    pub curve: U256,
    pub hybrid: U256,
}

impl CaseOutputs {
    /// The outputs as numbers.
    pub open spec fn view(&self) -> (nat, nat, nat) {
        (self.ours@, self.curve@, self.hybrid@)
    }
}

/// The output that the library quotes, where it does.
#[verifier::opaque]
pub open spec fn our_output(pool: CurvePoolSnapshot, amount: nat) -> Option<nat> {
    match curve_quote_spec(pool, 0, 1, amount) {
        Ok(q) => Some(q.amount_out),
        Err(_) => None,
    }
}

fn quote_ours(pool: &CurvePoolSnapshot, amount: U256) -> (r: Option<U256>)
    ensures
        opt_value(r) == our_output(*pool, amount@),
{
    let quoted = quote_exact_input(pool, 0, 1, amount);
    proof {
        reveal(our_output);
    }
    match quoted {
        Ok(q) => Some(q.amount_out),
        Err(_) => None,
    }
}

/// The outputs for a case whose snapshot is `pool`, where all three sources quote it.
pub open spec fn outputs_of(case: ParityCase, pool: CurvePoolSnapshot) -> Option<(nat, nat, nat)> {
    match (
        our_output(pool, case.amount as nat),
        amount_out(case_model(case), 0, 1, case.amount as nat),
        hybrid_out(
            case.amp as u32 as nat,
            4,
            case.reserve0 as nat,
            case.reserve1 as nat,
            case.amount as nat,
        ),
    ) {
        (Some(ours), Some(curve), Some(hybrid)) => Some((ours, curve, hybrid)),
        _ => None,
    }
}

/// Whether `out` are the outputs for a case.
pub open spec fn are_outputs_of(case: ParityCase, out: Option<(nat, nat, nat)>) -> bool {
    exists|pool: CurvePoolSnapshot|
        #![trigger is_snapshot_of(case, pool)]
        is_snapshot_of(case, pool) && out == outputs_of(case, pool)
}

/// The view of optional outputs.
pub open spec fn outputs_view(r: Option<CaseOutputs>) -> Option<(nat, nat, nat)> {
    match r {
        Some(o) => Some(o@),
        None => None,
    }
}

/// Quotes a case from all three sources.
pub fn quote_case(case: &ParityCase) -> (r: Option<CaseOutputs>)
    ensures
        are_outputs_of(*case, outputs_view(r)),
{
    let snapshot = case_snapshot(case);
    assert(is_snapshot_of(*case, snapshot));
    let amount = U256::from_u64(case.amount);
    let ours = match quote_ours(&snapshot, amount) {
        Some(v) => v,
        None => {
            return None;
        },
    };
    let curve = match case_pool(case).get_amount_out(0, 1, amount) {
        Some(v) => v,
        None => {
            return None;
        },
    };
    let hybrid = match hybrid_swap(
        case.amp as u32,
        4,
        case.reserve0 as u128,
        case.reserve1 as u128,
        case.amount as u128,
    ) {
        Some(v) => U256::from_u128(v),
        None => {
            return None;
        },
    };
    Some(CaseOutputs { ours, curve, hybrid })
}

/// The tallies of our outputs against those of the two other sources.
pub open spec fn tallies(outs: Seq<(nat, nat, nat)>) -> ((nat, nat, nat), (nat, nat, nat))
    decreases outs.len(),
{
    if outs.len() == 0 {
        ((0, 0, 0), (0, 0, 0))
    } else {
        let before = tallies(outs.drop_last());
        let last = outs.last();
        (counted(before.0, last.0, last.1), counted(before.1, last.0, last.2))
    }
}

/// Whether `outs` are the outputs for the cases that the generator draws first.
pub open spec fn are_first_outputs(seed: u64, outs: Seq<(nat, nat, nat)>) -> bool {
    forall|k: int|
        0 <= k < outs.len() ==> are_outputs_of(
            case_of(seed_after(seed, (4 * k) as nat)),
            Some(#[trigger] outs[k]),
        )
}

/// Steps of the generator add up.
proof fn lemma_steps_add_up(seed: u64, a: nat, b: nat)
    ensures
        seed_after(seed_after(seed, a), b) == seed_after(seed, a + b),
    decreases b,
{
    if b > 0 {
        lemma_steps_add_up(seed, a, (b - 1) as nat);
    }
}

/// Compares our quotes with those of the two other sources over drawn cases. There is no result
/// where some case is not quoted by all three.
pub fn parity_sweep(seed: &mut u64, rounds: u64) -> (r: Option<(Parity, Parity)>)
    ensures
        match r {
            Some((curve, hybrid)) => curve.wf() && hybrid.wf() && *final(seed) == seed_after(
                *old(seed),
                (4 * rounds) as nat,
            ) && exists|outs: Seq<(nat, nat, nat)>| #[trigger]
                are_first_outputs(*old(seed), outs) && outs.len() == rounds && tallies(outs) == (
                    curve@,
                    hybrid@,
                ),
            None => exists|k: int|
                0 <= k < rounds && are_outputs_of(
                    case_of(#[trigger] seed_after(*old(seed), (4 * k) as nat)),
                    None,
                ),
        },
{
    let mut curve = Parity::new();
    let mut hybrid = Parity::new();
    let ghost start = *seed;
    let ghost mut outs: Seq<(nat, nat, nat)> = seq![];
    let mut round: u64 = 0;
    while round < rounds
        invariant
            round <= rounds,
            start == *old(seed),
            *seed == seed_after(start, (4 * round) as nat),
            curve.wf(),
            hybrid.wf(),
            outs.len() == round,
            are_first_outputs(start, outs),
            tallies(outs) == (curve@, hybrid@),
            curve.total == round,
            hybrid.total == round,
        decreases rounds - round,
    {
        proof {
            lemma_steps_add_up(start, (4 * round) as nat, 4);
        }
        let case = draw_case(seed);
        match quote_case(&case) {
            None => {
                assert(are_outputs_of(case_of(seed_after(start, (4 * (round as int)) as nat)), None));
                return None;
            },
            Some(o) => {
                curve.record(o.ours, o.curve);
                hybrid.record(o.ours, o.hybrid);
                proof {
                    let longer = outs.push(o@);
                    assert(longer.drop_last() =~= outs);
                    outs = longer;
                }
            },
        }
        round = round + 1;
    }
    Some((curve, hybrid))
}

/// The snapshot and the model of a case are the same pool: the same reserves, the amplification in
/// hundredths, and the fee as a fraction of ten to the power ten. An input is drawn of less than a
/// two-hundredth of the first reserve, or of less than 1000.
pub proof fn law_sources_quote_the_same_pool(case: ParityCase, pool: CurvePoolSnapshot, seed: u64)
    requires
        is_snapshot_of(case, pool),
    ensures
        case_model(case).balances == values(pool.balances@),
        case_model(case).scalars[0] == pool.amplification@ * 100,
        case_model(case).scalars[1] * 10_000 == pool.fee_bps * 10_000_000_000,
        case_of(seed).amount < 1_000 || case_of(seed).amount * 200 <= case_of(seed).reserve0,
{
}

} // verus!
