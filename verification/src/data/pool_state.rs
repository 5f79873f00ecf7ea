//! State of the pools of each DEX type.

use crate::base::types::{Address, DexType};
use crate::data::curve_registry::{
    CurveExecutionKind, CurveFamily, CurveQuotingStrategy, CurveRegistryEntry,
    StableswapMathVariant,
};
use crate::data::kyber_pool_state::KyberPoolState;
use crate::dex::tick_lists::{is_sorted_form, sorted};
use crate::dex::ticks::strictly_ascending;
use crate::u256::U256;
use std::collections::HashMap;
use vstd::prelude::*;

verus! {

/// State of a constant-product pool.
#[derive(Clone, Debug)]
pub struct V2PoolState {
    pub pool_address: Address,
    pub token0: Address,
    pub token1: Address,
    pub reserve0: U256,
    pub reserve1: U256,
    pub last_update_block: u64,
    /// The DEX that the pool belongs to.
    pub dex_type: DexType,
}

impl V2PoolState {
    /// An empty Uniswap V2 pool.
    pub fn new(pool_address: Address, token0: Address, token1: Address) -> (r: V2PoolState)
        ensures
            r.pool_address == pool_address,
            r.token0 == token0,
            r.token1 == token1,
            r.reserve0@ == 0,
            r.reserve1@ == 0,
            r.last_update_block == 0,
            r.dex_type == DexType::UniswapV2,
    {
        V2PoolState {
            pool_address,
            token0,
            token1,
            reserve0: U256::zero(),
            reserve1: U256::zero(),
            last_update_block: 0,
            dex_type: DexType::UniswapV2,
        }
    }

    /// The pool as one of another DEX.
    pub fn with_dex_type(self, dex_type: DexType) -> (r: V2PoolState)
        ensures
            r == (V2PoolState { dex_type, ..self }),
    {
        V2PoolState { dex_type, ..self }
    }

    /// Sets the reserves as of a block.
    pub fn update_reserves(&mut self, reserve0: U256, reserve1: U256, block_number: u64)
        ensures
            *final(self) == (V2PoolState {
                reserve0,
                reserve1,
                last_update_block: block_number,
                ..*old(self)
            }),
    {
        self.reserve0 = reserve0;
        self.reserve1 = reserve1;
        self.last_update_block = block_number;
    }
}

/// State of a Uniswap V3 pool.
#[derive(Clone, Debug)]
pub struct V3PoolState {
    pub pool_address: Address,
    pub token0: Address,
    pub token1: Address,
    pub liquidity: u128,
    pub sqrt_price_x96: U256,
    pub tick: i32,
    pub fee_tier: u32,
    pub tick_spacing: i32,
    pub last_update_block: u64,
    /// The signed liquidity change at each tick, applied where a swap crosses the tick upwards.
    pub tick_liquidity_map: HashMap<i32, i128>,
    /// The initialized ticks in ascending order.
    pub initialized_ticks: Vec<i32>,
}

/// The tick spacing of a fee tier; 60 for a tier that is not one of the four known ones.
pub open spec fn v3_tick_spacing(fee_tier: u32) -> int {
    if fee_tier == 100 {
        1
    } else if fee_tier == 500 {
        10
    } else if fee_tier == 10000 {
        200
    } else {
        60
    }
}

/// The liquidity change at a tick, zero where none is recorded.
pub open spec fn net_at(net: Map<i32, i128>, tick: i32) -> int {
    if net.contains_key(tick) {
        net[tick] as int
    } else {
        0
    }
}

/// A liquidity amount as a signed number, held at the largest one.
pub open spec fn signed_amount(amount: u128) -> int {
    if amount <= i128::MAX {
        amount as int
    } else {
        i128::MAX as int
    }
}

/// Whether an event changes anything: it has an amount, and its range is not empty.
pub open spec fn moves_liquidity(tick_lower: i32, tick_upper: i32, amount: u128) -> bool {
    amount != 0 && tick_lower < tick_upper
}

/// Whether a number is one of the signed 128-bit numbers.
pub open spec fn in_i128(n: int) -> bool {
    i128::MIN <= n <= i128::MAX
}

/// The liquidity changes after liquidity was added to a range: more at its lower tick, less at
/// its upper tick.
pub open spec fn minted(net: Map<i32, i128>, lower: i32, upper: i32, amount: int) -> Map<
    i32,
    i128,
> {
    net.insert(lower, (net_at(net, lower) + amount) as i128).insert(
        upper,
        (net_at(net, upper) - amount) as i128,
    )
}

/// The liquidity changes after liquidity was removed from a range: less at its lower tick, more
/// at its upper tick. A tick without a record stays without.
pub open spec fn burned(net: Map<i32, i128>, lower: i32, upper: i32, amount: int) -> Map<
    i32,
    i128,
> {
    let first = if net.contains_key(lower) {
        net.insert(lower, (net[lower] - amount) as i128)
    } else {
        net
    };
    if net.contains_key(upper) {
        first.insert(upper, (net[upper] + amount) as i128)
    } else {
        first
    }
}

/// The list after a tick was added: unchanged where it holds the tick, else in ascending order.
pub open spec fn with_tick(before: Seq<i32>, tick: i32, after: Seq<i32>) -> bool {
    if before.contains(tick) {
        after == before
    } else {
        is_sorted_form(after, before.push(tick))
    }
}

/// Whether the changes at both ticks of a range stay signed 128-bit numbers when liquidity is
/// added to it.
pub open spec fn mint_fits(net: Map<i32, i128>, lower: i32, upper: i32, amount: u128) -> bool {
    in_i128(net_at(net, lower) + signed_amount(amount)) && in_i128(
        net_at(net, upper) - signed_amount(amount),
    )
}

/// Whether a state is another one after liquidity was added to a range: the changes at its two
/// ticks move, the ticks join the list, and all else stays. Nothing changes for an empty range or
/// an empty amount.
pub open spec fn is_minted(
    before: V3PoolState,
    lower: i32,
    upper: i32,
    amount: u128,
    after: V3PoolState,
) -> bool {
    if moves_liquidity(lower, upper, amount) {
        &&& after == (V3PoolState {
            tick_liquidity_map: after.tick_liquidity_map,
            initialized_ticks: after.initialized_ticks,
            ..before
        })
        &&& after.tick_liquidity_map@ == minted(
            before.tick_liquidity_map@,
            lower,
            upper,
            signed_amount(amount),
        )
        &&& exists|between: Seq<i32>|
            #[trigger] with_tick(before.initialized_ticks@, lower, between) && with_tick(
                between,
                upper,
                after.initialized_ticks@,
            )
    } else {
        after == before
    }
}

/// Whether a state is another one after liquidity was removed from a range: the changes at its
/// two ticks move where there are any, and all else stays, the list of ticks too. Nothing changes
/// for an empty range or an empty amount.
pub open spec fn is_burned(
    before: V3PoolState,
    lower: i32,
    upper: i32,
    amount: u128,
    after: V3PoolState,
) -> bool {
    if moves_liquidity(lower, upper, amount) {
        &&& after == (V3PoolState { tick_liquidity_map: after.tick_liquidity_map, ..before })
        &&& after.tick_liquidity_map@ == burned(
            before.tick_liquidity_map@,
            lower,
            upper,
            signed_amount(amount),
        )
    } else {
        after == before
    }
}

/// The liquidity change at a tick.
fn recorded(net: &HashMap<i32, i128>, tick: i32) -> (r: i128)
    ensures
        r == net_at(net@, tick),
{
    match net.get(&tick) {
        Some(v) => *v,
        None => 0,
    }
}

/// Adds a tick to a list.
fn add_tick(ticks: &mut Vec<i32>, tick: i32)
    ensures
        with_tick(old(ticks)@, tick, final(ticks)@),
{
    let ghost before = ticks@;
    let mut i: usize = 0;
    while i < ticks.len()
        invariant
            ticks@ == before,
            i <= ticks@.len(),
            forall|k: int| 0 <= k < i ==> ticks@[k] != tick,
        decreases ticks@.len() - i,
    {
        if ticks[i] == tick {
            assert(before[i as int] == tick);
            return;
        }
        i = i + 1;
    }
    ticks.push(tick);
    let ordered = sorted(ticks.as_slice());
    *ticks = ordered;
}

impl V3PoolState {
    /// A pool without liquidity, with the tick spacing of its fee tier.
    pub fn new(pool_address: Address, token0: Address, token1: Address, fee_tier: u32) -> (r:
        V3PoolState)
        ensures
            r.pool_address == pool_address,
            r.token0 == token0,
            r.token1 == token1,
            r.liquidity == 0,
            r.sqrt_price_x96@ == 0,
            r.tick == 0,
            r.fee_tier == fee_tier,
            r.tick_spacing == v3_tick_spacing(fee_tier),
            r.last_update_block == 0,
            r.tick_liquidity_map@ == Map::<i32, i128>::empty(),
            r.initialized_ticks@ == Seq::<i32>::empty(),
    {
        let tick_spacing: i32 = match fee_tier {
            100 => 1,
            500 => 10,
            3000 => 60,
            10000 => 200,
            _ => 60,
        };
        V3PoolState {
            pool_address,
            token0,
            token1,
            liquidity: 0,
            sqrt_price_x96: U256::zero(),
            tick: 0,
            fee_tier,
            tick_spacing,
            last_update_block: 0,
            tick_liquidity_map: HashMap::new(),
            initialized_ticks: Vec::new(),
        }
    }

    /// Sets the liquidity and the price as of a block.
    pub fn update_state(
        &mut self,
        liquidity: u128,
        sqrt_price_x96: U256,
        tick: i32,
        block_number: u64,
    )
        ensures
            *final(self) == (V3PoolState {
                liquidity,
                sqrt_price_x96,
                tick,
                last_update_block: block_number,
                ..*old(self)
            }),
    {
        self.liquidity = liquidity;
        self.sqrt_price_x96 = sqrt_price_x96;
        self.tick = tick;
        self.last_update_block = block_number;
    }

    /// Records that liquidity was added to a tick range. Nothing changes for an empty range or
    /// an empty amount.
    pub fn apply_mint(&mut self, tick_lower: i32, tick_upper: i32, amount: u128)
        requires
            moves_liquidity(tick_lower, tick_upper, amount) ==> mint_fits(
                old(self).tick_liquidity_map@,
                tick_lower,
                tick_upper,
                amount,
            ),
        ensures
            is_minted(*old(self), tick_lower, tick_upper, amount, *final(self)),
    {
        if amount == 0 || tick_lower >= tick_upper {
            return;
        }
        let d: i128 = if amount <= i128::MAX as u128 {
            amount as i128
        } else {
            i128::MAX
        };
        let lower: i128 = recorded(&self.tick_liquidity_map, tick_lower);
        let upper: i128 = recorded(&self.tick_liquidity_map, tick_upper);
        self.tick_liquidity_map.insert(tick_lower, lower + d);
        self.tick_liquidity_map.insert(tick_upper, upper - d);
        add_tick(&mut self.initialized_ticks, tick_lower);
        add_tick(&mut self.initialized_ticks, tick_upper);
    }

    /// Records that liquidity was removed from a tick range. Nothing changes for an empty range
    /// or an empty amount, and a tick without a record gets none.
    pub fn apply_burn(&mut self, tick_lower: i32, tick_upper: i32, amount: u128)
        requires
            moves_liquidity(tick_lower, tick_upper, amount) ==> {
                let d = signed_amount(amount);
                let net = old(self).tick_liquidity_map@;
                &&& net.contains_key(tick_lower) ==> in_i128(net[tick_lower] - d)
                &&& net.contains_key(tick_upper) ==> in_i128(net[tick_upper] + d)
            },
        ensures
            is_burned(*old(self), tick_lower, tick_upper, amount, *final(self)),
    {
        if amount == 0 || tick_lower >= tick_upper {
            return;
        }
        let d: i128 = if amount <= i128::MAX as u128 {
            amount as i128
        } else {
            i128::MAX
        };
        let lower: Option<i128> = match self.tick_liquidity_map.get(&tick_lower) {
            Some(v) => Some(*v),
            None => None,
        };
        let upper: Option<i128> = match self.tick_liquidity_map.get(&tick_upper) {
            Some(v) => Some(*v),
            None => None,
        };
        match lower {
            Some(v) => {
                self.tick_liquidity_map.insert(tick_lower, v - d);
            },
            None => {},
        }
        match upper {
            Some(v) => {
                self.tick_liquidity_map.insert(tick_upper, v + d);
            },
            None => {},
        }
    }
}

/// A mint without an amount or without a range changes nothing. Any other one adds its amount at
/// the lower tick of the range and takes it away at the upper tick, leaves the change of every
/// other tick, the active liquidity and the price, and keeps the list of ticks strictly ascending:
/// it holds what it held before and both ticks of the range.
pub proof fn law_mint_adds_its_range(
    before: V3PoolState,
    lower: i32,
    upper: i32,
    amount: u128,
    after: V3PoolState,
)
    requires
        strictly_ascending(before.initialized_ticks@),
        moves_liquidity(lower, upper, amount) ==> mint_fits(
            before.tick_liquidity_map@,
            lower,
            upper,
            amount,
        ),
        is_minted(before, lower, upper, amount, after),
    ensures
        amount == 0 || lower >= upper ==> after == before,
        amount != 0 && lower < upper ==> {
            &&& forall|t: i32|
                #[trigger] net_at(after.tick_liquidity_map@, t) == net_at(
                    before.tick_liquidity_map@,
                    t,
                ) + if t == lower {
                    if amount <= i128::MAX {
                        amount as int
                    } else {
                        i128::MAX as int
                    }
                } else if t == upper {
                    if amount <= i128::MAX {
                        -(amount as int)
                    } else {
                        -(i128::MAX as int)
                    }
                } else {
                    0
                }
            &&& strictly_ascending(after.initialized_ticks@)
            &&& forall|t: i32|
                #[trigger] after.initialized_ticks@.contains(t)
                    <==> before.initialized_ticks@.contains(t) || t == lower || t == upper
        },
        after.liquidity == before.liquidity,
        after.sqrt_price_x96 == before.sqrt_price_x96,
        after.tick == before.tick,
{
    if moves_liquidity(lower, upper, amount) {
        let between = choose|between: Seq<i32>|
            #[trigger] with_tick(before.initialized_ticks@, lower, between) && with_tick(
                between,
                upper,
                after.initialized_ticks@,
            );
        law_added_tick_keeps_order(before.initialized_ticks@, lower, between);
        law_added_tick_keeps_order(between, upper, after.initialized_ticks@);
    }
}

/// A burn without an amount or without a range changes nothing. Any other one takes its amount away
/// at the lower tick of the range and adds it at the upper tick, each where there is a record, and
/// leaves all else, the records of the other ticks and the list of ticks too.
pub proof fn law_burn_takes_its_range(
    before: V3PoolState,
    lower: i32,
    upper: i32,
    amount: u128,
    after: V3PoolState,
)
    requires
        is_burned(before, lower, upper, amount, after),
        moves_liquidity(lower, upper, amount) ==> {
            let d = signed_amount(amount);
            let net = before.tick_liquidity_map@;
            &&& net.contains_key(lower) ==> in_i128(net[lower] - d)
            &&& net.contains_key(upper) ==> in_i128(net[upper] + d)
        },
    ensures
        amount == 0 || lower >= upper ==> after == before,
        after.tick_liquidity_map@.dom() == before.tick_liquidity_map@.dom() || amount == 0 || lower
            >= upper,
        amount != 0 && lower < upper ==> forall|t: i32|
            before.tick_liquidity_map@.contains_key(t)
                ==> #[trigger] after.tick_liquidity_map@[t] == before.tick_liquidity_map@[t] + if t
                == lower {
                if amount <= i128::MAX {
                    -(amount as int)
                } else {
                    -(i128::MAX as int)
                }
            } else if t == upper {
                if amount <= i128::MAX {
                    amount as int
                } else {
                    i128::MAX as int
                }
            } else {
                0
            },
        after.initialized_ticks == before.initialized_ticks,
        after.liquidity == before.liquidity,
        after.sqrt_price_x96 == before.sqrt_price_x96,
        after.tick == before.tick,
{
    assert(amount != 0 && lower < upper ==> after.tick_liquidity_map@.dom()
        =~= before.tick_liquidity_map@.dom());
}

/// To remove from a range what was just added to it leaves the liquidity change of every tick as
/// it was before both. The list of ticks stays as the mint left it, and the active liquidity and
/// the price stay as they were.
pub proof fn law_burn_undoes_mint(
    start: V3PoolState,
    lower: i32,
    upper: i32,
    amount: u128,
    middle: V3PoolState,
    end: V3PoolState,
)
    requires
        moves_liquidity(lower, upper, amount),
        mint_fits(start.tick_liquidity_map@, lower, upper, amount),
        is_minted(start, lower, upper, amount, middle),
        is_burned(middle, lower, upper, amount, end),
    ensures
        forall|t: i32|
            #[trigger] net_at(end.tick_liquidity_map@, t) == net_at(start.tick_liquidity_map@, t),
        end.initialized_ticks == middle.initialized_ticks,
        end.liquidity == start.liquidity,
        end.sqrt_price_x96 == start.sqrt_price_x96,
        end.tick == start.tick,
{
}

/// The liquidity that a mint adds at its lower tick it takes away at its upper tick: the changes
/// at the two ticks still add up to the same sum, and every other tick keeps its change.
pub proof fn law_mint_balances_its_range(
    net: Map<i32, i128>,
    lower: i32,
    upper: i32,
    amount: u128,
    tick: i32,
)
    requires
        moves_liquidity(lower, upper, amount),
        in_i128(net_at(net, lower) + signed_amount(amount)),
        in_i128(net_at(net, upper) - signed_amount(amount)),
    ensures
        ({
            let after = minted(net, lower, upper, signed_amount(amount));
            &&& net_at(after, lower) + net_at(after, upper) == net_at(net, lower) + net_at(
                net,
                upper,
            )
            &&& tick != lower && tick != upper ==> net_at(after, tick) == net_at(net, tick)
        }),
{
}

/// A strictly ascending list of ticks stays so when a tick is added, and holds that tick and
/// what it held before.
pub proof fn law_added_tick_keeps_order(before: Seq<i32>, tick: i32, after: Seq<i32>)
    requires
        strictly_ascending(before),
        with_tick(before, tick, after),
    ensures
        strictly_ascending(after),
        forall|t: i32| after.contains(t) <==> before.contains(t) || t == tick,
{
    if !before.contains(tick) {
        let more = before.push(tick);
        assert forall|t: i32| after.contains(t) <==> more.contains(t) by {
            vstd::seq_lib::to_multiset_contains(after, t);
            vstd::seq_lib::to_multiset_contains(more, t);
        }
        assert forall|t: i32| more.contains(t) <==> before.contains(t) || t == tick by {
            if before.contains(t) {
                let k = choose|k: int| 0 <= k < before.len() && before[k] == t;
                assert(more[k] == t);
            }
            assert(more[before.len() as int] == tick);
        }
        assert(more.no_duplicates()) by {
            assert forall|i: int, j: int| 0 <= i < more.len() && 0 <= j < more.len() && i
                != j implies more[i] != more[j] by {
                if i < before.len() {
                    assert(before.contains(before[i]));
                }
                if j < before.len() {
                    assert(before.contains(before[j]));
                }
            }
        }
        more.lemma_multiset_has_no_duplicates();
        after.lemma_multiset_has_no_duplicates_conv();
        assert forall|i: int, j: int| 0 <= i < j < after.len() implies after[i] < after[j] by {
            assert(after[i] != after[j]);
        }
    }
}

/// State of a Uniswap V4 pool, with what is known of its hook.
#[derive(Clone, Debug)]
pub struct V4PoolState {
    pub pool_address: Address,
    pub token0: Address,
    pub token1: Address,
    pub liquidity: u128,
    pub sqrt_price_x96: U256,
    pub tick: i32,
    /// The static fee in basis points, which holds where hooks are inactive.
    pub fee_bps: u32,
    pub tick_spacing: i32,
    pub last_update_block: u64,
    pub tick_liquidity_map: HashMap<i32, i128>,
    pub initialized_ticks: Vec<i32>,
    pub hook_address: Option<Address>,
    /// The label of the hook class.
    pub hook_class: Option<String>,
    pub hooks_enabled: bool,
    pub dynamic_fee_enabled: bool,
    pub deterministic_fee_bps: Option<u32>,
}

impl V4PoolState {
    /// A pool without liquidity and without hooks.
    pub fn new(
        pool_address: Address,
        token0: Address,
        token1: Address,
        fee_bps: u32,
        tick_spacing: i32,
    ) -> (r: V4PoolState)
        ensures
            r.pool_address == pool_address,
            r.token0 == token0,
            r.token1 == token1,
            r.liquidity == 0,
            r.sqrt_price_x96@ == 0,
            r.tick == 0,
            r.fee_bps == fee_bps,
            r.tick_spacing == tick_spacing,
            r.last_update_block == 0,
            r.tick_liquidity_map@ == Map::<i32, i128>::empty(),
            r.initialized_ticks@ == Seq::<i32>::empty(),
            r.hook_address is None,
            r.hook_class is None,
            !r.hooks_enabled,
            !r.dynamic_fee_enabled,
            r.deterministic_fee_bps is None,
    {
        V4PoolState {
            pool_address,
            token0,
            token1,
            liquidity: 0,
            sqrt_price_x96: U256::zero(),
            tick: 0,
            fee_bps,
            tick_spacing,
            last_update_block: 0,
            tick_liquidity_map: HashMap::new(),
            initialized_ticks: Vec::new(),
            hook_address: None,
            hook_class: None,
            hooks_enabled: false,
            dynamic_fee_enabled: false,
            deterministic_fee_bps: None,
        }
    }

    /// Sets the liquidity and the price as of a block.
    pub fn update_state(
        &mut self,
        liquidity: u128,
        sqrt_price_x96: U256,
        tick: i32,
        block_number: u64,
    )
        ensures
            *final(self) == (V4PoolState {
                liquidity,
                sqrt_price_x96,
                tick,
                last_update_block: block_number,
                ..*old(self)
            }),
    {
        self.liquidity = liquidity;
        self.sqrt_price_x96 = sqrt_price_x96;
        self.tick = tick;
        self.last_update_block = block_number;
    }
}

/// What the local pool models need beyond the plain state of a pool.
#[derive(Clone, Debug)]
pub struct CurveMathAux {
    pub crypto_d: Option<U256>,
    pub crypto_gamma: Option<U256>,
    pub crypto_mid_fee: Option<U256>,
    pub crypto_out_fee: Option<U256>,
    pub crypto_fee_gamma: Option<U256>,
    /// The price scale of a two-coin crypto pool.
    pub price_scale_uni: Option<U256>,
    pub price_scale_0: Option<U256>,
    pub price_scale_1: Option<U256>,
    pub ng_offpeg_fee_multiplier: Option<U256>,
    pub ng_stored_rates: Option<Vec<U256>>,
    /// The virtual price of the base pool of a meta pool.
    pub meta_base_virtual_price: Option<U256>,
}

impl Default for CurveMathAux {
    fn default() -> (r: CurveMathAux)
        ensures
            r == (CurveMathAux {
                crypto_d: None,
                crypto_gamma: None,
                crypto_mid_fee: None,
                crypto_out_fee: None,
                crypto_fee_gamma: None,
                price_scale_uni: None,
                price_scale_0: None,
                price_scale_1: None,
                ng_offpeg_fee_multiplier: None,
                ng_stored_rates: None,
                meta_base_virtual_price: None,
            }),
    {
        CurveMathAux {
            crypto_d: None,
            crypto_gamma: None,
            crypto_mid_fee: None,
            crypto_out_fee: None,
            crypto_fee_gamma: None,
            price_scale_uni: None,
            price_scale_0: None,
            price_scale_1: None,
            ng_offpeg_fee_multiplier: None,
            ng_stored_rates: None,
            meta_base_virtual_price: None,
        }
    }
}

/// State of a Curve pool.
#[derive(Clone, Debug)]
pub struct CurvePoolState {
    pub pool_address: Address,
    pub tokens: Vec<Address>,
    /// Balances in the decimals of each token.
    pub balances: Vec<U256>,
    pub decimals: Vec<u8>,
    pub amplification: U256,
    /// The fee as a fraction of ten to the power ten.
    pub fee_raw: U256,
    pub fee_bps: u32,
    /// Stored rates, where the pool has them; else the rates follow from the decimals.
    pub stableswap_stored_rates: Option<Vec<U256>>,
    pub stableswap_math_variant: StableswapMathVariant,
    pub last_update_block: u64,
    pub curve_family: CurveFamily,
    pub quoting_strategy: CurveQuotingStrategy,
    pub execution_kind: CurveExecutionKind,
    /// Whether the pool must not be traded.
    pub execution_blocked: bool,
    pub curve_math_aux: CurveMathAux,
}

/// A list of zeros.
fn zeros(n: usize) -> (r: Vec<U256>)
    ensures
        r@.len() == n,
        forall|i: int| 0 <= i < n ==> (#[trigger] r@[i])@ == 0,
{
    let mut out: Vec<U256> = Vec::new();
    let mut i: usize = 0;
    while i < n
        invariant
            i <= n,
            out@.len() == i,
            forall|k: int| 0 <= k < i ==> (#[trigger] out@[k])@ == 0,
        decreases n - i,
    {
        out.push(U256::zero());
        i = i + 1;
    }
    out
}

impl CurvePoolState {
    /// A pool with empty balances that is neither quoted nor traded until it is registered.
    pub fn new(pool_address: Address, tokens: Vec<Address>, fee_bps: u32) -> (r: CurvePoolState)
        ensures
            r.pool_address == pool_address,
            r.tokens == tokens,
            r.balances@.len() == tokens@.len(),
            forall|i: int| 0 <= i < tokens@.len() ==> (#[trigger] r.balances@[i])@ == 0,
            r.decimals@.len() == tokens@.len(),
            forall|i: int| 0 <= i < tokens@.len() ==> #[trigger] r.decimals@[i] == 18,
            r.amplification@ == 0,
            r.fee_raw@ == 0,
            r.fee_bps == fee_bps,
            r.stableswap_stored_rates is None,
            r.stableswap_math_variant == StableswapMathVariant::Vyper02ThreePool,
            r.last_update_block == 0,
            r.curve_family == CurveFamily::StableSwapN,
            r.quoting_strategy == CurveQuotingStrategy::Unsupported,
            r.execution_kind == CurveExecutionKind::Unknown,
            r.execution_blocked,
            r.curve_math_aux == (CurveMathAux {
                crypto_d: None,
                crypto_gamma: None,
                crypto_mid_fee: None,
                crypto_out_fee: None,
                crypto_fee_gamma: None,
                price_scale_uni: None,
                price_scale_0: None,
                price_scale_1: None,
                ng_offpeg_fee_multiplier: None,
                ng_stored_rates: None,
                meta_base_virtual_price: None,
            }),
    {
        let n: usize = tokens.len();
        let mut decimals: Vec<u8> = Vec::new();
        let mut i: usize = 0;
        while i < n
            invariant
                i <= n,
                decimals@.len() == i,
                forall|k: int| 0 <= k < i ==> #[trigger] decimals@[k] == 18,
            decreases n - i,
        {
            decimals.push(18);
            i = i + 1;
        }
        CurvePoolState {
            pool_address,
            tokens,
            balances: zeros(n),
            decimals,
            amplification: U256::zero(),
            fee_raw: U256::zero(),
            fee_bps,
            stableswap_stored_rates: None,
            stableswap_math_variant: StableswapMathVariant::Vyper02ThreePool,
            last_update_block: 0,
            curve_family: CurveFamily::StableSwapN,
            quoting_strategy: CurveQuotingStrategy::Unsupported,
            execution_kind: CurveExecutionKind::Unknown,
            execution_blocked: true,
            curve_math_aux: CurveMathAux::default(),
        }
    }

    /// Takes over what the registry says of the pool.
    pub fn apply_registry_entry(&mut self, e: &CurveRegistryEntry)
        ensures
            *final(self) == (CurvePoolState {
                curve_family: e.family,
                quoting_strategy: e.quoting_strategy,
                execution_kind: e.execution_kind,
                execution_blocked: e.execution_blocked,
                stableswap_math_variant: e.stableswap_math_variant,
                ..*old(self)
            }),
    {
        self.curve_family = e.family;
        self.quoting_strategy = e.quoting_strategy;
        self.execution_kind = e.execution_kind;
        self.execution_blocked = e.execution_blocked;
        self.stableswap_math_variant = e.stableswap_math_variant;
    }

    /// Sets the balances as of a block.
    pub fn update_balances(&mut self, balances: Vec<U256>, block_number: u64)
        ensures
            *final(self) == (CurvePoolState {
                balances,
                last_update_block: block_number,
                ..*old(self)
            }),
    {
        self.balances = balances;
        self.last_update_block = block_number;
    }

    /// Sets the decimals of the tokens.
    pub fn set_decimals(&mut self, decimals: Vec<u8>)
        ensures
            *final(self) == (CurvePoolState { decimals, ..*old(self) }),
    {
        self.decimals = decimals;
    }
}

/// State of a Balancer weighted pool.
#[derive(Clone, Debug)]
pub struct BalancerPoolState {
    pub pool_address: Address,
    pub vault_address: Address,
    pub pool_id: [u8; 32],
    pub tokens: Vec<Address>,
    pub balances: Vec<U256>,
    pub weights: Vec<U256>,
    pub swap_fee_bps: u32,
    pub last_update_block: u64,
    /// User data of a vault swap; empty for a plain weighted pool.
    pub vault_swap_user_data: Vec<u8>,
}

impl BalancerPoolState {
    /// A pool with empty balances.
    pub fn new(
        pool_address: Address,
        vault_address: Address,
        pool_id: [u8; 32],
        tokens: Vec<Address>,
        weights: Vec<U256>,
        swap_fee_bps: u32,
    ) -> (r: BalancerPoolState)
        ensures
            r.pool_address == pool_address,
            r.vault_address == vault_address,
            r.pool_id == pool_id,
            r.tokens == tokens,
            r.balances@.len() == tokens@.len(),
            forall|i: int| 0 <= i < tokens@.len() ==> (#[trigger] r.balances@[i])@ == 0,
            r.weights == weights,
            r.swap_fee_bps == swap_fee_bps,
            r.last_update_block == 0,
            r.vault_swap_user_data@ == Seq::<u8>::empty(),
    {
        let n: usize = tokens.len();
        BalancerPoolState {
            pool_address,
            vault_address,
            pool_id,
            tokens,
            balances: zeros(n),
            weights,
            swap_fee_bps,
            last_update_block: 0,
            vault_swap_user_data: Vec::new(),
        }
    }

    /// Sets the balances as of a block.
    pub fn update_balances(&mut self, balances: Vec<U256>, block_number: u64)
        ensures
            *final(self) == (BalancerPoolState {
                balances,
                last_update_block: block_number,
                ..*old(self)
            }),
    {
        self.balances = balances;
        self.last_update_block = block_number;
    }
}

/// State of a pool of any DEX type.
#[derive(Clone, Debug)]
pub enum PoolState {
    V2(V2PoolState),
    V3(V3PoolState),
    V4(V4PoolState),
    Curve(CurvePoolState),
    Balancer(BalancerPoolState),
    Kyber(KyberPoolState),
}

impl PoolState {
    /// The DEX type of the pool's model.
    pub fn dex_type(&self) -> (r: DexType)
        ensures
            r == match *self {
                PoolState::V2(_) => DexType::UniswapV2,
                PoolState::V3(_) => DexType::UniswapV3,
                PoolState::V4(_) => DexType::UniswapV4,
                PoolState::Curve(_) => DexType::Curve,
                PoolState::Balancer(_) => DexType::Balancer,
                PoolState::Kyber(_) => DexType::Kyber,
            },
    {
        match self {
            PoolState::V2(_) => DexType::UniswapV2,
            PoolState::V3(_) => DexType::UniswapV3,
            PoolState::V4(_) => DexType::UniswapV4,
            PoolState::Curve(_) => DexType::Curve,
            PoolState::Balancer(_) => DexType::Balancer,
            PoolState::Kyber(_) => DexType::Kyber,
        }
    }

    /// The address of the pool.
    pub fn pool_address(&self) -> (r: Address)
        ensures
            r == match *self {
                PoolState::V2(s) => s.pool_address,
                PoolState::V3(s) => s.pool_address,
                PoolState::V4(s) => s.pool_address,
                PoolState::Curve(s) => s.pool_address,
                PoolState::Balancer(s) => s.pool_address,
                PoolState::Kyber(s) => s.pool_address,
            },
    {
        match self {
            PoolState::V2(s) => s.pool_address,
            PoolState::V3(s) => s.pool_address,
            PoolState::V4(s) => s.pool_address,
            PoolState::Curve(s) => s.pool_address,
            PoolState::Balancer(s) => s.pool_address,
            PoolState::Kyber(s) => s.pool_address,
        }
    }

    /// The block of the last update.
    pub fn last_update_block(&self) -> (r: u64)
        ensures
            r == match *self {
                PoolState::V2(s) => s.last_update_block,
                PoolState::V3(s) => s.last_update_block,
                PoolState::V4(s) => s.last_update_block,
                PoolState::Curve(s) => s.last_update_block,
                PoolState::Balancer(s) => s.last_update_block,
                PoolState::Kyber(s) => s.last_update_block,
            },
    {
        match self {
            PoolState::V2(s) => s.last_update_block,
            PoolState::V3(s) => s.last_update_block,
            PoolState::V4(s) => s.last_update_block,
            PoolState::Curve(s) => s.last_update_block,
            PoolState::Balancer(s) => s.last_update_block,
            PoolState::Kyber(s) => s.last_update_block,
        }
    }
}

/// The pools at a block, for simulations in which each transaction changes the state.
#[derive(Clone, Debug)]
pub struct BlockStateSnapshot {
    pub block_number: u64,
    pub v2_pools: Vec<(Address, V2PoolState)>,
    pub v3_pools: Vec<(Address, V3PoolState)>,
    pub v4_pools: Vec<(Address, V4PoolState)>,
    pub curve_pools: Vec<(Address, CurvePoolState)>,
    pub balancer_pools: Vec<(Address, BalancerPoolState)>,
    pub kyber_pools: Vec<(Address, KyberPoolState)>,
}

/// The tick spacing of the known fee tiers is a fiftieth of the tier, and one for the lowest tier;
/// every other tier has the spacing of 3000.
pub proof fn law_tick_spacing_follows_the_fee(fee_tier: u32)
    ensures
        fee_tier == 500 || fee_tier == 3000 || fee_tier == 10000 ==> v3_tick_spacing(fee_tier) * 50
            == fee_tier,
        fee_tier == 100 ==> v3_tick_spacing(fee_tier) == 1,
        !(fee_tier == 100 || fee_tier == 500 || fee_tier == 10000) ==> v3_tick_spacing(fee_tier)
            == 60,
{
}

} // verus!
